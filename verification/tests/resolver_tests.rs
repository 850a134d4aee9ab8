use feature_scope::manifest::{FeatureScopeDecl, FeatureScopeRef, ManifestMetadata};
use feature_scope::names::Names;
use feature_scope::resolver::{
    resolve, resolve_feature_dependencies, resolve_standalone, PackageEntry, ResolveError,
    ResolveWarning, Topology,
};

fn decl(entries: &[(&str, &[&str])]) -> FeatureScopeDecl {
    FeatureScopeDecl {
        features: entries
            .iter()
            .map(|(k, vs)| (k.to_string(), vs.iter().map(|v| v.to_string()).collect()))
            .collect(),
    }
}

fn reference(package: &str, features: &[&str], default_enabled: bool) -> FeatureScopeRef {
    FeatureScopeRef {
        package: package.to_string(),
        features: features.iter().map(|f| f.to_string()).collect(),
        default_enabled,
    }
}

fn package(
    name: &str,
    table: Option<FeatureScopeDecl>,
    refs: Vec<FeatureScopeRef>,
) -> PackageEntry {
    PackageEntry {
        name: name.to_string(),
        metadata: ManifestMetadata {
            feature_scope_decl: table,
            feature_scope_refs: refs,
        },
    }
}

fn sorted(names: &Names) -> Vec<String> {
    let mut v = names.items().clone();
    v.sort();
    v
}

#[test]
fn cycle_expansion_terminates() {
    // A cyclic implication table expands to exactly its reachable names.
    let d = decl(&[("a", &["b"]), ("b", &["a"])]);
    let mut enabled = Names::new();
    resolve_feature_dependencies("a", &d, &mut enabled);
    assert_eq!(enabled.len(), 2);
    assert!(enabled.contains("a"));
    assert!(enabled.contains("b"));
}

#[test]
fn expansion_follows_implications() {
    let d = decl(&[("a", &["b", "c"]), ("b", &["d"]), ("c", &[]), ("e", &[])]);
    let mut enabled = Names::new();
    resolve_feature_dependencies("a", &d, &mut enabled);
    assert_eq!(sorted(&enabled), vec!["a", "b", "c", "d"]);
}

#[test]
fn dangling_implication_is_a_leaf() {
    let d = decl(&[("a", &["ghost-cap"])]);
    let mut enabled = Names::new();
    resolve_feature_dependencies("a", &d, &mut enabled);
    assert_eq!(sorted(&enabled), vec!["a", "ghost-cap"]);
}

#[test]
fn default_fallback_with_no_references() {
    // default = [x] and zero references: exactly {default, x} plus what x
    // transitively implies.
    let d = decl(&[("default", &["x"]), ("x", &["y"]), ("y", &[])]);
    let target = package("pkg", Some(d), vec![]);
    let topo = Topology {
        members: vec![target],
    };
    let out = resolve("pkg", &topo).unwrap();
    assert_eq!(sorted(&out.result.activated), vec!["default", "x", "y"]);
    assert!(out.warnings.is_empty());
}

#[test]
fn end_to_end_producer_consumer() {
    // Producer declares {default: [], a: [], b: [a]}; the consumer requests
    // ["b"]. Activated is exactly {b, a}; the vocabulary covers
    // {default, a, b}.
    let producer = package(
        "producer",
        Some(decl(&[("default", &[]), ("a", &[]), ("b", &["a"])])),
        vec![],
    );
    let consumer = package("consumer", None, vec![reference("producer", &["b"], true)]);
    let topo = Topology {
        members: vec![producer, consumer],
    };
    let out = resolve("consumer", &topo).unwrap();
    assert_eq!(sorted(&out.result.activated), vec!["a", "b"]);
    assert!(out.result.vocabulary.contains("default"));
    assert!(out.result.vocabulary.contains("a"));
    assert!(out.result.vocabulary.contains("b"));
    assert!(out.warnings.is_empty());
}

#[test]
fn activated_is_within_vocabulary() {
    let producer = package(
        "producer",
        Some(decl(&[("default", &["a"]), ("a", &["b"]), ("b", &[])])),
        vec![],
    );
    let consumer = package(
        "consumer",
        Some(decl(&[("default", &["own"]), ("own", &[])])),
        vec![reference("producer", &["a"], true)],
    );
    let topo = Topology {
        members: vec![producer, consumer],
    };
    let out = resolve("consumer", &topo).unwrap();
    for name in out.result.activated.items() {
        assert!(out.result.vocabulary.contains(name));
    }
    assert!(out.result.vocabulary.contains("default"));
}

#[test]
fn unknown_capability_is_non_fatal() {
    // A reference naming an undeclared capability yields a warning; the
    // other valid requests still resolve.
    let producer = package(
        "producer",
        Some(decl(&[("default", &[]), ("p", &["q"]), ("q", &[])])),
        vec![],
    );
    let consumer = package(
        "consumer",
        None,
        vec![reference("producer", &["nope", "p"], true)],
    );
    let topo = Topology {
        members: vec![producer, consumer],
    };
    let out = resolve("consumer", &topo).unwrap();
    assert_eq!(out.warnings.len(), 1);
    assert!(matches!(
        &out.warnings[0],
        ResolveWarning::UnknownCapability { package, capability }
            if package == "producer" && capability == "nope"
    ));
    assert_eq!(sorted(&out.result.activated), vec!["p", "q"]);
}

#[test]
fn missing_producer_and_missing_table_warn() {
    let bare = package("bare", None, vec![]);
    let consumer = package(
        "consumer",
        None,
        vec![
            reference("absent", &["a"], true),
            reference("bare", &["a"], true),
        ],
    );
    let topo = Topology {
        members: vec![bare, consumer],
    };
    let out = resolve("consumer", &topo).unwrap();
    assert_eq!(out.warnings.len(), 2);
    assert!(matches!(
        &out.warnings[0],
        ResolveWarning::ReferencedPackageNotFound { package } if package == "absent"
    ));
    assert!(matches!(
        &out.warnings[1],
        ResolveWarning::ReferencedPackageHasNoDeclarations { package } if package == "bare"
    ));
    assert_eq!(out.result.activated.len(), 0);
}

#[test]
fn empty_ask_with_defaults_disabled_suppresses_default() {
    let producer = package(
        "producer",
        Some(decl(&[("default", &["a"]), ("a", &[])])),
        vec![],
    );
    let consumer = package("consumer", None, vec![reference("producer", &[], false)]);
    let topo = Topology {
        members: vec![producer, consumer],
    };
    let out = resolve("consumer", &topo).unwrap();
    assert_eq!(out.result.activated.len(), 0);
}

#[test]
fn empty_ask_with_defaults_enabled_activates_producer_default() {
    let producer = package(
        "producer",
        Some(decl(&[("default", &["a"]), ("a", &[])])),
        vec![],
    );
    let consumer = package("consumer", None, vec![reference("producer", &[], true)]);
    let topo = Topology {
        members: vec![producer, consumer],
    };
    let out = resolve("consumer", &topo).unwrap();
    assert_eq!(sorted(&out.result.activated), vec!["a", "default"]);
}

#[test]
fn missing_target_is_fatal() {
    let topo = Topology {
        members: vec![package("only", None, vec![])],
    };
    let r = resolve("someone-else", &topo);
    assert!(matches!(r, Err(ResolveError::PackageNotFound)));
}

#[test]
fn standalone_matches_singleton_workspace() {
    // Resolving with no enclosing workspace equals resolving the same
    // package wrapped in a workspace containing only itself.
    let build = || {
        package(
            "solo",
            Some(decl(&[("default", &["a"]), ("a", &["b"]), ("b", &[])])),
            vec![reference("elsewhere", &[], true)],
        )
    };
    let standalone = resolve_standalone(build());
    let topo = Topology {
        members: vec![build()],
    };
    let in_workspace = resolve("solo", &topo).unwrap();
    assert_eq!(
        sorted(&standalone.result.activated),
        sorted(&in_workspace.result.activated)
    );
    assert_eq!(
        sorted(&standalone.result.vocabulary),
        sorted(&in_workspace.result.vocabulary)
    );
    assert_eq!(standalone.warnings.len(), in_workspace.warnings.len());
    assert!(matches!(
        &standalone.warnings[0],
        ResolveWarning::ReferencedPackageNotFound { package } if package == "elsewhere"
    ));
}

#[test]
fn two_references_union_their_expansions() {
    // Two references to one producer requesting disjoint capabilities: the
    // activated set covers both expansions.
    let producer = package(
        "producer",
        Some(decl(&[
            ("default", &[]),
            ("p", &["p2"]),
            ("p2", &[]),
            ("q", &["q2"]),
            ("q2", &[]),
        ])),
        vec![],
    );
    let consumer = package(
        "consumer",
        None,
        vec![
            reference("producer", &["p"], true),
            reference("producer", &["q"], true),
        ],
    );
    let topo = Topology {
        members: vec![producer, consumer],
    };
    let out = resolve("consumer", &topo).unwrap();
    for cap in ["p", "p2", "q", "q2"] {
        assert!(out.result.activated.contains(cap));
    }
}
