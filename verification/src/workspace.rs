use vstd::prelude::*;
use vstd::string::StrSliceExecFns;
use crate::manifest::{
    decl_outcome, is_string_array, parse_feature_scope_decl, parse_feature_scope_refs,
    refs_outcome, refs_views, spec_package_metadata, strings_of, ManifestError, ManifestMetadata,
};
use crate::names::{names_seq, str_eq};
use crate::resolver::PackageEntry;
use crate::toml_data::{parse_toml, toml_get, toml_tree_of, TomlItem};

verus! {

/// One discovered workspace member: its package name and the location of its
/// manifest file.
pub struct WorkspacePackage {
    pub name: String,
    pub manifest_path: String,
}

/// The discovered workspace: its member packages, names unique in practice;
/// lookup takes the first member with the asked name.
pub struct WorkspaceInfo {
    pub packages: Vec<WorkspacePackage>,
}

/// First member package with the given name.
pub open spec fn wp_find(packages: Seq<WorkspacePackage>, name: Seq<char>) -> Option<
    WorkspacePackage,
>
    decreases packages.len(),
{
    if packages.len() == 0 {
        None
    } else if packages[0].name@ == name {
        Some(packages[0])
    } else {
        wp_find(packages.drop_first(), name)
    }
}

impl WorkspaceInfo {
    pub fn find<'a>(&'a self, name: &str) -> (r: Option<&'a WorkspacePackage>)
        ensures
            match r {
                Some(p) => wp_find(self.packages@, name@) == Some(*p),
                None => wp_find(self.packages@, name@) is None,
            },
    {
        proof {
            assert(self.packages@.skip(0) =~= self.packages@);
        }
        let mut i: usize = 0;
        while i < self.packages.len()
            invariant
                i <= self.packages@.len(),
                wp_find(self.packages@, name@) == wp_find(self.packages@.skip(i as int), name@),
            decreases self.packages@.len() - i,
        {
            let p = &self.packages[i];
            if str_eq(p.name.as_str(), name) {
                proof {
                    assert(self.packages@.skip(i as int)[0] == self.packages@[i as int]);
                    assert(wp_find(self.packages@.skip(i as int), name@) == Some(
                        self.packages@[i as int],
                    ));
                }
                return Some(p);
            }
            proof {
                assert(self.packages@.skip(i as int).drop_first() =~= self.packages@.skip(
                    i as int + 1,
                ));
            }
            i = i + 1;
        }
        None
    }
}

/// Returns the index of the first ancestor directory (innermost first) that
/// holds a manifest file, given one flag per ancestor; discovery walks from
/// the invocation directory upward and stops at the first hit.
pub fn find_root_manifest(has_manifest: &Vec<bool>) -> (r: Option<usize>)
    ensures
        match r {
            Some(i) => i < has_manifest@.len() && has_manifest@[i as int] && forall|j: int|
                0 <= j < i ==> !has_manifest@[j],
            None => forall|j: int| 0 <= j < has_manifest@.len() ==> !has_manifest@[j],
        },
{
    let mut i: usize = 0;
    while i < has_manifest.len()
        invariant
            i <= has_manifest@.len(),
            forall|j: int| 0 <= j < i ==> !has_manifest@[j],
        decreases has_manifest@.len() - i,
    {
        if has_manifest[i] {
            return Some(i);
        }
        i = i + 1;
    }
    None
}

/// Whether a workspace member pattern is a wildcard pattern, to be expanded
/// by listing the children of its parent directory.
pub fn member_pattern_is_glob(pattern: &str) -> (r: bool)
    ensures
        r == pattern@.contains('*'),
{
    let n = pattern.unicode_len();
    let mut i: usize = 0;
    while i < n
        invariant
            n == pattern@.len(),
            i <= n,
            forall|j: int| 0 <= j < i ==> pattern@[j] != '*',
        decreases n - i,
    {
        if pattern.get_char(i) == '*' {
            assert(pattern@[i as int] == '*');
            return true;
        }
        i = i + 1;
    }
    assert(!pattern@.contains('*'));
    false
}

/// The `package.name` entry of a manifest document, when it is a string.
pub open spec fn spec_package_name(root: TomlItem) -> Option<Seq<char>> {
    match toml_get(root, "package"@) {
        Some(p) => match toml_get(p, "name"@) {
            Some(TomlItem::Str(s)) => Some(s@),
            _ => None,
        },
        None => None,
    }
}

/// Reads the package name out of a manifest document.
pub fn parse_package_name(root: &TomlItem) -> (r: Option<String>)
    ensures
        match r {
            Some(s) => spec_package_name(*root) == Some(s@),
            None => spec_package_name(*root) is None,
        },
{
    match root.get("package") {
        Some(p) => match p.get("name") {
            Some(TomlItem::Str(s)) => Some(s.clone()),
            _ => None,
        },
        None => None,
    }
}

/// What the root manifest declares, as the target chooser reads it.
pub struct RootManifest {
    pub package_name: Option<String>,
    pub workspace: Option<WorkspaceSection>,
}

/// The workspace section of a root manifest.
pub struct WorkspaceSection {
    pub members: Option<Vec<String>>,
    pub default_members: Option<Vec<String>>,
}

/// Outcome of reading an optional list of strings: `None` = malformed;
/// `Some(None)` = absent; `Some(Some(s))` = present with members `s`.
pub open spec fn list_outcome(t: Option<TomlItem>) -> Option<Option<Seq<Seq<char>>>> {
    match t {
        None => Some(None),
        Some(v) => if is_string_array(v) {
            Some(Some(strings_of(v)))
        } else {
            None
        },
    }
}

/// Outcome of reading the workspace section: `None` = malformed;
/// `Some(None)` = no section; `Some(Some((members, default_members)))`.
pub open spec fn workspace_outcome(root: TomlItem) -> Option<
    Option<(Option<Seq<Seq<char>>>, Option<Seq<Seq<char>>>)>,
> {
    match toml_get(root, "workspace"@) {
        None => Some(None),
        Some(w) => match w {
            TomlItem::Table(_) => match (
                list_outcome(toml_get(w, "members"@)),
                list_outcome(toml_get(w, "default-members"@)),
            ) {
                (Some(m), Some(dm)) => Some(Some((m, dm))),
                _ => None,
            },
            _ => None,
        },
    }
}

pub open spec fn opt_names(o: Option<Vec<String>>) -> Option<Seq<Seq<char>>> {
    match o {
        Some(v) => Some(names_seq(v@)),
        None => None,
    }
}

fn parse_string_list(t: Option<&TomlItem>) -> (r: Result<Option<Vec<String>>, ManifestError>)
    ensures
        ({
            let o = list_outcome(crate::manifest::deref_opt(t));
            match r {
                Ok(ov) => o matches Some(x) && x == opt_names(ov),
                Err(_) => o is None,
            }
        }),
{
    match t {
        None => Ok(None),
        Some(v) => {
            let items = match v {
                TomlItem::Arr(its) => its,
                _ => {
                    return Err(ManifestError::Malformed);
                },
            };
            let mut strs: Vec<String> = Vec::new();
            let mut j: usize = 0;
            while j < items.len()
                invariant
                    j <= items@.len(),
                    crate::manifest::deref_opt(t) == Some(*v),
                    *v matches TomlItem::Arr(x) && x@ == items@,
                    strs@.len() == j,
                    forall|q: int|
                        0 <= q < j ==> crate::manifest::is_string_item(items@[q]) && strs@[q]@
                            == crate::manifest::string_of(items@[q]),
                decreases items@.len() - j,
            {
                match &items[j] {
                    TomlItem::Str(s) => {
                        proof {
                            assert(items@[j as int] == TomlItem::Str(*s));
                        }
                        strs.push(s.clone());
                    },
                    _ => {
                        assert(!is_string_array(*v));
                        return Err(ManifestError::Malformed);
                    },
                }
                j = j + 1;
            }
            proof {
                assert(is_string_array(*v));
                assert forall|q: int|
                    0 <= q < strs@.len() implies names_seq(strs@)[q] == strings_of(*v)[q] by {
                    assert(names_seq(strs@)[q] == strs@[q]@);
                }
                assert(names_seq(strs@) =~= strings_of(*v));
            }
            Ok(Some(strs))
        },
    }
}

/// Reads the root-manifest fields that target choice needs: the package name
/// and the workspace member lists.
pub fn parse_root_manifest(root: &TomlItem) -> (r: Result<RootManifest, ManifestError>)
    ensures
        match r {
            Ok(rm) => ({
                &&& (match rm.package_name {
                    Some(s) => spec_package_name(*root) == Some(s@),
                    None => spec_package_name(*root) is None,
                })
                &&& (match rm.workspace {
                    Some(ws) => workspace_outcome(*root) == Some(
                        Some((opt_names(ws.members), opt_names(ws.default_members))),
                    ),
                    None => workspace_outcome(*root) == Some(
                        None::<(Option<Seq<Seq<char>>>, Option<Seq<Seq<char>>>)>,
                    ),
                })
            }),
            Err(_) => workspace_outcome(*root) is None,
        },
{
    let package_name = parse_package_name(root);
    let workspace = match root.get("workspace") {
        None => None,
        Some(w) => {
            match w {
                TomlItem::Table(_) => {},
                _ => {
                    return Err(ManifestError::Malformed);
                },
            }
            let members = match parse_string_list(w.get("members")) {
                Ok(m) => m,
                Err(e) => {
                    return Err(e);
                },
            };
            let default_members = match parse_string_list(w.get("default-members")) {
                Ok(m) => m,
                Err(e) => {
                    return Err(e);
                },
            };
            Some(WorkspaceSection { members, default_members })
        },
    };
    Ok(RootManifest { package_name, workspace })
}

/// Parses root-manifest text and reads the fields that target choice needs.
pub fn parse_root_manifest_str(content: &str) -> (r: Result<RootManifest, ManifestError>)
    ensures
        match toml_tree_of(content@) {
            None => r matches Err(_),
            Some(root) => match r {
                Ok(rm) => ({
                    &&& (match rm.package_name {
                        Some(s) => spec_package_name(root) == Some(s@),
                        None => spec_package_name(root) is None,
                    })
                    &&& (match rm.workspace {
                        Some(ws) => workspace_outcome(root) == Some(
                            Some((opt_names(ws.members), opt_names(ws.default_members))),
                        ),
                        None => workspace_outcome(root) == Some(
                            None::<(Option<Seq<Seq<char>>>, Option<Seq<Seq<char>>>)>,
                        ),
                    })
                }),
                Err(_) => workspace_outcome(root) is None,
            },
        },
{
    let tree = match parse_toml(content) {
        None => {
            return Err(ManifestError::Malformed);
        },
        Some(t) => t,
    };
    parse_root_manifest(&tree)
}

/// Parses a member package's manifest text into a topology entry: its name
/// and its feature-scope metadata. A manifest without a package name yields
/// no entry; malformed text or malformed feature-scope sections are errors.
pub fn parse_package_entry_str(content: &str) -> (r: Result<Option<PackageEntry>, ManifestError>)
    ensures
        match toml_tree_of(content@) {
            None => r matches Err(_),
            Some(root) => match r {
                Ok(None) => spec_package_name(root) is None,
                Ok(Some(e)) => ({
                    let md = spec_package_metadata(root);
                    &&& spec_package_name(root) == Some(e.name@)
                    &&& decl_outcome(md) matches Some(x)
                    &&& (match e.metadata.feature_scope_decl {
                        Some(d) => x matches Some(m) && d@ == m,
                        None => x is None,
                    })
                    &&& (refs_outcome(md) matches Some(s) && refs_views(
                        e.metadata.feature_scope_refs@,
                    ) == s)
                }),
                Err(_) => spec_package_name(root) matches Some(_) && (decl_outcome(
                    spec_package_metadata(root),
                ) is None || refs_outcome(spec_package_metadata(root)) is None),
            },
        },
{
    let tree = match parse_toml(content) {
        None => {
            return Err(ManifestError::Malformed);
        },
        Some(t) => t,
    };
    let name = match parse_package_name(&tree) {
        None => {
            return Ok(None);
        },
        Some(n) => n,
    };
    let metadata = match tree.get("package") {
        None => None,
        Some(p) => p.get("metadata"),
    };
    proof {
        assert(crate::manifest::deref_opt(metadata) == spec_package_metadata(tree));
    }
    let feature_scope_decl = match parse_feature_scope_decl(metadata) {
        Ok(d) => d,
        Err(e) => {
            return Err(e);
        },
    };
    let feature_scope_refs = match parse_feature_scope_refs(metadata) {
        Ok(v) => v,
        Err(e) => {
            return Err(e);
        },
    };
    Ok(
        Some(
            PackageEntry {
                name,
                metadata: ManifestMetadata { feature_scope_decl, feature_scope_refs },
            },
        ),
    )
}

/// The chosen build target when the command line names none.
pub enum TargetChoice {
    /// Read this member path's manifest and use its package name.
    MemberPath(String),
    /// Use the root package's own name.
    PackageName(String),
}

/// Why no target could be chosen.
#[derive(Debug)]
pub enum TargetError {
    NoMembers,
    NoPackage,
}

/// Chooses the default target package: in a workspace, the first default
/// member, else the first member; outside one, the root package itself.
pub fn determine_default_package(root: &RootManifest) -> (r: Result<TargetChoice, TargetError>)
    ensures
        match root.workspace {
            Some(ws) => match r {
                Ok(TargetChoice::MemberPath(p)) => (ws.default_members matches Some(v) && v@.len()
                    > 0 && p@ == v@[0]@) || ((match ws.default_members {
                    Some(v) => v@.len() == 0,
                    None => true,
                }) && (ws.members matches Some(v2) && v2@.len() > 0 && p@ == v2@[0]@)),
                Err(TargetError::NoMembers) => (match ws.default_members {
                    Some(v) => v@.len() == 0,
                    None => true,
                }) && (match ws.members {
                    Some(v) => v@.len() == 0,
                    None => true,
                }),
                _ => false,
            },
            None => match r {
                Ok(TargetChoice::PackageName(n)) => root.package_name matches Some(pn) && n@
                    == pn@,
                Err(TargetError::NoPackage) => root.package_name is None,
                _ => false,
            },
        },
{
    match &root.workspace {
        Some(ws) => {
            match &ws.default_members {
                Some(v) => {
                    if v.len() > 0 {
                        return Ok(TargetChoice::MemberPath(v[0].clone()));
                    }
                },
                None => {},
            }
            match &ws.members {
                Some(v) => {
                    if v.len() > 0 {
                        return Ok(TargetChoice::MemberPath(v[0].clone()));
                    }
                },
                None => {},
            }
            Err(TargetError::NoMembers)
        },
        None => match &root.package_name {
            Some(pn) => Ok(TargetChoice::PackageName(pn.clone())),
            None => Err(TargetError::NoPackage),
        },
    }
}

} // verus!
