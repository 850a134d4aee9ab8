use feature_scope::emit::{emit, symbol_name, Directive};
use feature_scope::manifest::{FeatureScopeDecl, ManifestMetadata};
use feature_scope::resolver::{resolve, PackageEntry, Topology};
use feature_scope::workspace::{
    determine_default_package, find_root_manifest, member_pattern_is_glob,
    parse_package_entry_str, parse_root_manifest_str, TargetChoice, TargetError, WorkspaceInfo,
    WorkspacePackage,
};

#[test]
fn find_root_manifest_picks_innermost() {
    assert_eq!(find_root_manifest(&vec![false, true, true]), Some(1));
    assert_eq!(find_root_manifest(&vec![true]), Some(0));
    assert_eq!(find_root_manifest(&vec![false, false]), None);
    assert_eq!(find_root_manifest(&vec![]), None);
}

#[test]
fn glob_patterns_are_recognized() {
    assert!(member_pattern_is_glob("crates/*"));
    assert!(member_pattern_is_glob("*"));
    assert!(!member_pattern_is_glob("crates/core"));
    assert!(!member_pattern_is_glob(""));
}

#[test]
fn root_manifest_workspace_members() {
    let content = r#"
[package]
name = "root"

[workspace]
members = ["crates/a", "crates/*"]
"default-members" = ["crates/a"]
"#;
    let rm = parse_root_manifest_str(content).unwrap();
    assert_eq!(rm.package_name.as_deref(), Some("root"));
    let ws = rm.workspace.unwrap();
    assert_eq!(
        ws.members,
        Some(vec!["crates/a".to_string(), "crates/*".to_string()])
    );
    assert_eq!(ws.default_members, Some(vec!["crates/a".to_string()]));
}

#[test]
fn default_package_prefers_default_members() {
    let content = r#"
[workspace]
members = ["crates/b"]
"default-members" = ["crates/a"]
"#;
    let rm = parse_root_manifest_str(content).unwrap();
    match determine_default_package(&rm) {
        Ok(TargetChoice::MemberPath(p)) => assert_eq!(p, "crates/a"),
        other => panic!("unexpected choice: {:?}", other.is_ok()),
    }
}

#[test]
fn default_package_falls_back_to_members_then_errors() {
    let rm = parse_root_manifest_str("[workspace]\nmembers = [\"crates/b\"]\n").unwrap();
    match determine_default_package(&rm) {
        Ok(TargetChoice::MemberPath(p)) => assert_eq!(p, "crates/b"),
        _ => panic!("expected the first member"),
    }

    let rm = parse_root_manifest_str("[workspace]\nmembers = []\n").unwrap();
    assert!(matches!(
        determine_default_package(&rm),
        Err(TargetError::NoMembers)
    ));
}

#[test]
fn default_package_single_mode_uses_package_name() {
    let rm = parse_root_manifest_str("[package]\nname = \"solo\"\n").unwrap();
    match determine_default_package(&rm) {
        Ok(TargetChoice::PackageName(n)) => assert_eq!(n, "solo"),
        _ => panic!("expected the package's own name"),
    }

    let rm = parse_root_manifest_str("[dependencies]\n").unwrap();
    assert!(matches!(
        determine_default_package(&rm),
        Err(TargetError::NoPackage)
    ));
}

#[test]
fn package_entry_parses_name_and_metadata() {
    let content = r#"
[package]
name = "lib-a"

[package.metadata.feature-scope-decl]
default = ["x"]
x = []
"#;
    let entry = parse_package_entry_str(content).unwrap().unwrap();
    assert_eq!(entry.name, "lib-a");
    let decl = entry.metadata.feature_scope_decl.unwrap();
    assert_eq!(decl.get("default"), Some(&vec!["x".to_string()]));

    let nameless = parse_package_entry_str("[dependencies]\n").unwrap();
    assert!(nameless.is_none());
}

#[test]
fn workspace_info_finds_first_match() {
    let info = WorkspaceInfo {
        packages: vec![
            WorkspacePackage {
                name: "a".to_string(),
                manifest_path: "crates/a/Cargo.toml".to_string(),
            },
            WorkspacePackage {
                name: "b".to_string(),
                manifest_path: "crates/b/Cargo.toml".to_string(),
            },
        ],
    };
    assert_eq!(info.find("b").unwrap().manifest_path, "crates/b/Cargo.toml");
    assert!(info.find("c").is_none());
}

#[test]
fn symbols_carry_the_scope_marker() {
    assert_eq!(symbol_name("default"), "__scope_default");
    assert_eq!(symbol_name("a"), "__scope_a");
}

#[test]
fn emission_renders_activation_then_vocabulary() {
    let target = PackageEntry {
        name: "pkg".to_string(),
        metadata: ManifestMetadata {
            feature_scope_decl: Some(FeatureScopeDecl {
                features: vec![("default".to_string(), vec!["x".to_string()])],
            }),
            feature_scope_refs: vec![],
        },
    };
    let topo = Topology {
        members: vec![target],
    };
    let out = resolve("pkg", &topo).unwrap();
    let directives = emit(&out.result);
    let activated = out.result.activated.len();
    let vocabulary = out.result.vocabulary.len();
    assert_eq!(directives.len(), activated + vocabulary);
    let mut symbols = Vec::new();
    for (i, d) in directives.iter().enumerate() {
        match d {
            Directive::ActivateSymbol(s) => {
                assert!(i < activated);
                symbols.push(s.clone());
            }
            Directive::DeclareLegalSymbol(s) => {
                assert!(i >= activated);
                symbols.push(s.clone());
            }
        }
    }
    for s in &symbols {
        assert!(s.starts_with("__scope_"));
    }
    assert!(symbols.contains(&"__scope_default".to_string()));
    assert!(symbols.contains(&"__scope_x".to_string()));
}
