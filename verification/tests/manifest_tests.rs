use feature_scope::manifest::{parse_manifest_str, FeatureScopeDecl, ManifestError};

#[test]
fn test_parse_manifest_with_decl() {
    let toml_content = r#"
[package]
name = "test-package"
version = "0.1.0"

[package.metadata.feature-scope-decl]
default = ["feature1"]
optional = ["feature2", "feature3"]
extra = []

[[package.metadata.feature-scope]]
package = "other-package"
features = ["feature1", "feature2"]

[[package.metadata.feature-scope]]
package = "another-package"
features = ["feature3"]
"#;

    let metadata = parse_manifest_str(toml_content).unwrap();

    let decl = metadata.feature_scope_decl;
    assert!(decl.is_some());

    let decl = decl.unwrap();
    assert_eq!(decl.get("default"), Some(&vec!["feature1".to_string()]));
    assert_eq!(
        decl.get("optional"),
        Some(&vec!["feature2".to_string(), "feature3".to_string()])
    );
    assert_eq!(decl.get("extra"), Some(&vec![]));

    let refs = metadata.feature_scope_refs;
    assert_eq!(refs.len(), 2);
    assert_eq!(refs[0].package, "other-package");
    assert_eq!(refs[0].features, vec!["feature1", "feature2"]);
    assert_eq!(refs[1].package, "another-package");
    assert_eq!(refs[1].features, vec!["feature3"]);
}

#[test]
fn test_parse_manifest_without_metadata() {
    let toml_content = "\n[package]\nname = \"test-package\"\nversion = \"0.1.0\"\n";

    let metadata = parse_manifest_str(toml_content).unwrap();

    assert!(metadata.feature_scope_decl.is_none());
    assert!(metadata.feature_scope_refs.is_empty());
}

#[test]
fn test_parse_manifest_with_default_feature() {
    let toml_content = r#"
[package]
name = "test-package"
version = "0.1.0"

[package.metadata.feature-scope-decl]
optional = ["feature1"]
"#;

    let metadata = parse_manifest_str(toml_content).unwrap();

    let decl = metadata.feature_scope_decl;
    assert!(decl.is_some());

    let decl = decl.unwrap();
    // A missing default entry is synthesized as an empty list.
    assert_eq!(decl.get("default"), Some(&vec![]));
    assert_eq!(decl.get("optional"), Some(&vec!["feature1".to_string()]));
}

#[test]
fn unparseable_text_is_malformed() {
    let r = parse_manifest_str("this is [not] = = toml");
    assert!(matches!(r, Err(ManifestError::Malformed)));
}

#[test]
fn decl_section_must_be_table() {
    let toml_content = "\n[package]\nname = \"p\"\n[package.metadata]\n\"feature-scope-decl\" = 3\n";
    let r = parse_manifest_str(toml_content);
    assert!(matches!(r, Err(ManifestError::Malformed)));
}

#[test]
fn decl_values_must_be_string_arrays() {
    let toml_content = r#"
[package]
name = "p"

[package.metadata.feature-scope-decl]
default = "feature1"
"#;
    let r = parse_manifest_str(toml_content);
    assert!(matches!(r, Err(ManifestError::Malformed)));
}

#[test]
fn reference_requires_package_and_features() {
    let toml_content = r#"
[package]
name = "p"

[[package.metadata.feature-scope]]
features = ["a"]
"#;
    assert!(matches!(
        parse_manifest_str(toml_content),
        Err(ManifestError::Malformed)
    ));

    let toml_content = r#"
[package]
name = "p"

[[package.metadata.feature-scope]]
package = "q"
"#;
    assert!(matches!(
        parse_manifest_str(toml_content),
        Err(ManifestError::Malformed)
    ));
}

#[test]
fn reference_default_features_flag() {
    let toml_content = r#"
[package]
name = "p"

[[package.metadata.feature-scope]]
package = "q"
features = []
"default-features" = false
"#;
    let metadata = parse_manifest_str(toml_content).unwrap();
    assert_eq!(metadata.feature_scope_refs.len(), 1);
    assert!(!metadata.feature_scope_refs[0].default_enabled);

    let toml_content = r#"
[package]
name = "p"

[[package.metadata.feature-scope]]
package = "q"
features = []
"#;
    let metadata = parse_manifest_str(toml_content).unwrap();
    // Unspecified default-features means enabled.
    assert!(metadata.feature_scope_refs[0].default_enabled);
}

#[test]
fn default_decl_is_single_empty_default() {
    let decl = FeatureScopeDecl::default();
    assert_eq!(decl.get("default"), Some(&vec![]));
    assert!(decl.get("anything").is_none());
}
