use vstd::prelude::*;
use vstd::string::StringExecFns;
use crate::names::{names_seq, str_eq};
use crate::toml_data::{parse_toml, toml_get, toml_tree_of, TomlItem};

verus! {

/// The reserved capability name that every declaration table holds.
pub open spec fn default_name() -> Seq<char> {
    "default"@
}

/// A reference from a consumer package to capabilities of a producer package.
pub struct FeatureScopeRef {
    pub package: String,
    pub features: Vec<String>,
    pub default_enabled: bool,
}

/// Mathematical view of a capability reference.
pub ghost struct RefView {
    pub package: Seq<char>,
    pub features: Seq<Seq<char>>,
    pub default_enabled: bool,
}

impl View for FeatureScopeRef {
    type V = RefView;

    open spec fn view(&self) -> RefView {
        RefView {
            package: self.package@,
            features: names_seq(self.features@),
            default_enabled: self.default_enabled,
        }
    }
}

/// The views of a sequence of capability references.
pub open spec fn refs_views(s: Seq<FeatureScopeRef>) -> Seq<RefView> {
    s.map_values(|x: FeatureScopeRef| x@)
}

/// A producer package's capability-declaration table: each capability maps to
/// the list of capabilities it implies. Kept as a vector of entries; the view
/// is the first-occurrence map.
pub struct FeatureScopeDecl {
    pub features: Vec<(String, Vec<String>)>,
}

/// First-occurrence map of a sequence of declaration entries.
pub open spec fn entries_map(es: Seq<(String, Vec<String>)>) -> Map<Seq<char>, Seq<Seq<char>>>
    decreases es.len(),
{
    if es.len() == 0 {
        Map::empty()
    } else {
        let m = entries_map(es.drop_last());
        let k = es.last().0@;
        if m.contains_key(k) {
            m
        } else {
            m.insert(k, names_seq(es.last().1@))
        }
    }
}

impl View for FeatureScopeDecl {
    type V = Map<Seq<char>, Seq<Seq<char>>>;

    open spec fn view(&self) -> Map<Seq<char>, Seq<Seq<char>>> {
        entries_map(self.features@)
    }
}

/// A key is in the entry map exactly when some entry carries it.
pub proof fn lemma_entries_map_key(es: Seq<(String, Vec<String>)>, k: Seq<char>)
    ensures
        entries_map(es).contains_key(k) <==> exists|j: int| 0 <= j < es.len() && es[j].0@ == k,
    decreases es.len(),
{
    if es.len() > 0 {
        lemma_entries_map_key(es.drop_last(), k);
        if es.last().0@ == k {
            assert(es[es.len() - 1].0@ == k);
        } else {
            if exists|j: int| 0 <= j < es.len() && es[j].0@ == k {
                let j = choose|j: int| 0 <= j < es.len() && es[j].0@ == k;
                assert(es.drop_last()[j] == es[j]);
            }
        }
    }
}

/// The entry map is finite.
pub proof fn lemma_entries_map_finite(es: Seq<(String, Vec<String>)>)
    ensures
        entries_map(es).dom().finite(),
    decreases es.len(),
{
    if es.len() > 0 {
        lemma_entries_map_finite(es.drop_last());
    }
}

/// The entry map carries, for each key, the list of its first entry.
pub proof fn lemma_entries_map_first(es: Seq<(String, Vec<String>)>, i: int)
    requires
        0 <= i < es.len(),
        forall|j: int| 0 <= j < i ==> es[j].0@ != es[i].0@,
    ensures
        entries_map(es).contains_key(es[i].0@),
        entries_map(es)[es[i].0@] == names_seq(es[i].1@),
    decreases es.len(),
{
    lemma_entries_map_key(es.drop_last(), es[i].0@);
    if i == es.len() - 1 {
        if entries_map(es.drop_last()).contains_key(es[i].0@) {
            let j = choose|j: int|
                0 <= j < es.drop_last().len() && es.drop_last()[j].0@ == es[i].0@;
            assert(es[j] == es.drop_last()[j]);
            assert(false);
        }
    } else {
        assert(es.drop_last()[i] == es[i]);
        lemma_entries_map_first(es.drop_last(), i);
    }
}

impl FeatureScopeDecl {
    /// The implication list declared for `name`, when declared.
    pub fn get<'a>(&'a self, name: &str) -> (r: Option<&'a Vec<String>>)
        ensures
            match r {
                Some(v) => self@.contains_key(name@) && self@[name@] == names_seq(v@),
                None => !self@.contains_key(name@),
            },
    {
        let mut i: usize = 0;
        while i < self.features.len()
            invariant
                i <= self.features@.len(),
                forall|j: int| 0 <= j < i ==> self.features@[j].0@ != name@,
            decreases self.features@.len() - i,
        {
            let pair = &self.features[i];
            if str_eq(pair.0.as_str(), name) {
                proof {
                    lemma_entries_map_first(self.features@, i as int);
                }
                return Some(&pair.1);
            }
            i = i + 1;
        }
        proof {
            lemma_entries_map_key(self.features@, name@);
        }
        None
    }

    /// Whether `name` is a declared capability.
    pub fn contains_key(&self, name: &str) -> (r: bool)
        ensures
            r == self@.contains_key(name@),
    {
        self.get(name).is_some()
    }
}

impl Default for FeatureScopeDecl {
    /// A table that declares only the empty `default` capability.
    fn default() -> (r: Self)
        ensures
            r@ == Map::<Seq<char>, Seq<Seq<char>>>::empty().insert(
                default_name(),
                Seq::<Seq<char>>::empty(),
            ),
    {
        let mut features: Vec<(String, Vec<String>)> = Vec::new();
        features.push((<String as StringExecFns>::from_str("default"), Vec::new()));
        let r = FeatureScopeDecl { features };
        proof {
            let es = r.features@;
            assert(es.drop_last() =~= Seq::<(String, Vec<String>)>::empty());
            assert(entries_map(es.drop_last()) == Map::<Seq<char>, Seq<Seq<char>>>::empty());
            assert(names_seq(es.last().1@) =~= Seq::<Seq<char>>::empty());
            assert(es.last().0@ == default_name());
            assert(entries_map(es) =~= Map::<Seq<char>, Seq<Seq<char>>>::empty().insert(
                default_name(),
                Seq::<Seq<char>>::empty(),
            ));
        }
        r
    }
}

/// Feature-scope metadata of one package: its capability declarations and its
/// references to other packages' capabilities.
pub struct ManifestMetadata {
    pub feature_scope_decl: Option<FeatureScopeDecl>,
    pub feature_scope_refs: Vec<FeatureScopeRef>,
}

/// Manifest text that does not parse, or whose feature-scope sections do not
/// have the expected shape.
#[derive(Debug)]
pub enum ManifestError {
    Malformed,
}

pub open spec fn deref_opt(m: Option<&TomlItem>) -> Option<TomlItem> {
    match m {
        Some(t) => Some(*t),
        None => None,
    }
}

pub open spec fn is_string_item(t: TomlItem) -> bool {
    t matches TomlItem::Str(_)
}

pub open spec fn string_of(t: TomlItem) -> Seq<char> {
    match t {
        TomlItem::Str(s) => s@,
        _ => Seq::empty(),
    }
}

pub open spec fn string_items_of(items: Seq<TomlItem>) -> Seq<Seq<char>> {
    Seq::new(items.len(), |i: int| string_of(items[i]))
}

pub open spec fn is_string_array(t: TomlItem) -> bool {
    match t {
        TomlItem::Arr(items) => forall|i: int|
            0 <= i < items@.len() ==> is_string_item(items@[i]),
        _ => false,
    }
}

pub open spec fn strings_of(t: TomlItem) -> Seq<Seq<char>> {
    match t {
        TomlItem::Arr(items) => string_items_of(items@),
        _ => Seq::empty(),
    }
}

/// Reads an array of strings.
fn parse_string_array(t: &TomlItem) -> (r: Result<Vec<String>, ManifestError>)
    ensures
        match r {
            Ok(v) => is_string_array(*t) && names_seq(v@) == strings_of(*t),
            Err(_) => !is_string_array(*t),
        },
{
    let items = match t {
        TomlItem::Arr(its) => its,
        _ => {
            return Err(ManifestError::Malformed);
        },
    };
    let mut strs: Vec<String> = Vec::new();
    let mut j: usize = 0;
    while j < items.len()
        invariant
            j <= items@.len(),
            *t matches TomlItem::Arr(x) && x@ == items@,
            strs@.len() == j,
            forall|q: int|
                0 <= q < j ==> is_string_item(items@[q]) && strs@[q]@ == string_of(items@[q]),
        decreases items@.len() - j,
    {
        match &items[j] {
            TomlItem::Str(s) => {
                proof {
                    assert(items@[j as int] == TomlItem::Str(*s));
                }
                strs.push(s.clone());
                proof {
                    assert(strs@[j as int]@ == string_of(items@[j as int]));
                }
            },
            _ => {
                assert(!is_string_item(items@[j as int]));
                return Err(ManifestError::Malformed);
            },
        }
        j = j + 1;
    }
    proof {
        assert(is_string_array(*t));
        assert forall|q: int| 0 <= q < strs@.len() implies names_seq(strs@)[q] == strings_of(
            *t,
        )[q] by {
            assert(names_seq(strs@)[q] == strs@[q]@);
        }
        assert(names_seq(strs@) =~= strings_of(*t));
    }
    Ok(strs)
}

/// Whether every declaration-table value is an array of strings.
pub open spec fn decl_table_ok(entries: Seq<(String, TomlItem)>) -> bool {
    forall|i: int| 0 <= i < entries.len() ==> is_string_array(entries[i].1)
}

/// First-occurrence map of a declaration table read from a TOML document.
pub open spec fn decl_map_of_table(entries: Seq<(String, TomlItem)>) -> Map<
    Seq<char>,
    Seq<Seq<char>>,
>
    decreases entries.len(),
{
    if entries.len() == 0 {
        Map::empty()
    } else {
        let m = decl_map_of_table(entries.drop_last());
        let k = entries.last().0@;
        if m.contains_key(k) {
            m
        } else {
            m.insert(k, strings_of(entries.last().1))
        }
    }
}

/// Normalization: a table without a `default` entry gets an empty one.
pub open spec fn with_default(m: Map<Seq<char>, Seq<Seq<char>>>) -> Map<Seq<char>, Seq<Seq<char>>> {
    if m.contains_key(default_name()) {
        m
    } else {
        m.insert(default_name(), Seq::<Seq<char>>::empty())
    }
}

/// Outcome of reading the capability-declaration section of package metadata:
/// `None` = malformed; `Some(None)` = no section; `Some(Some(m))` = a section
/// whose normalized table is `m`.
pub open spec fn decl_outcome(metadata: Option<TomlItem>) -> Option<
    Option<Map<Seq<char>, Seq<Seq<char>>>>,
> {
    match metadata {
        None => Some(None),
        Some(md) => match toml_get(md, "feature-scope-decl"@) {
            None => Some(None),
            Some(t) => match t {
                TomlItem::Table(es) => if decl_table_ok(es@) {
                    Some(Some(with_default(decl_map_of_table(es@))))
                } else {
                    None
                },
                _ => None,
            },
        },
    }
}

fn contains_entry_key(es: &Vec<(String, Vec<String>)>, key: &str) -> (r: bool)
    ensures
        r == entries_map(es@).contains_key(key@),
{
    let mut i: usize = 0;
    while i < es.len()
        invariant
            i <= es@.len(),
            forall|j: int| 0 <= j < i ==> es@[j].0@ != key@,
        decreases es@.len() - i,
    {
        if str_eq(es[i].0.as_str(), key) {
            proof {
                lemma_entries_map_key(es@, key@);
            }
            return true;
        }
        i = i + 1;
    }
    proof {
        lemma_entries_map_key(es@, key@);
    }
    false
}

/// Reads the capability-declaration section from package metadata. A missing
/// section is not an error; a section that is not a table of string arrays is.
/// The parsed table always holds a `default` entry.
pub fn parse_feature_scope_decl(metadata: Option<&TomlItem>) -> (r: Result<
    Option<FeatureScopeDecl>,
    ManifestError,
>)
    ensures
        ({
            let o = decl_outcome(deref_opt(metadata));
            match r {
                Ok(None) => o matches Some(x) && x is None,
                Ok(Some(d)) => o matches Some(x) && x matches Some(m) && d@ == m,
                Err(_) => o is None,
            }
        }),
{
    let md = match metadata {
        None => {
            return Ok(None);
        },
        Some(t) => t,
    };
    let decl_item = match md.get("feature-scope-decl") {
        None => {
            return Ok(None);
        },
        Some(v) => v,
    };
    let entries = match decl_item {
        TomlItem::Table(es) => es,
        _ => {
            return Err(ManifestError::Malformed);
        },
    };
    proof {
        assert(toml_get(*md, "feature-scope-decl"@) == Some(TomlItem::Table(*entries)));
    }
    let mut features: Vec<(String, Vec<String>)> = Vec::new();
    proof {
        assert(entries@.take(0) =~= Seq::<(String, TomlItem)>::empty());
    }
    let mut i: usize = 0;
    while i < entries.len()
        invariant
            i <= entries@.len(),
            decl_outcome(deref_opt(metadata)) == (if decl_table_ok(entries@) {
                Some(Some(with_default(decl_map_of_table(entries@))))
            } else {
                None::<Option<Map<Seq<char>, Seq<Seq<char>>>>>
            }),
            forall|j: int| 0 <= j < i ==> is_string_array(entries@[j].1),
            entries_map(features@) == decl_map_of_table(entries@.take(i as int)),
        decreases entries@.len() - i,
    {
        let pair = &entries[i];
        let strs = match parse_string_array(&pair.1) {
            Ok(v) => v,
            Err(e) => {
                assert(!decl_table_ok(entries@));
                return Err(e);
            },
        };
        let ghost prev = features@;
        if !contains_entry_key(&features, pair.0.as_str()) {
            features.push((pair.0.clone(), strs));
        }
        proof {
            entries@.lemma_take_succ_push(i as int);
            assert(entries@.take(i as int + 1).drop_last() =~= entries@.take(i as int));
            assert(entries@.take(i as int + 1).last() == entries@[i as int]);
            if !entries_map(prev).contains_key(entries@[i as int].0@) {
                assert(features@.drop_last() =~= prev);
                assert(entries_map(features@) == entries_map(prev).insert(
                    entries@[i as int].0@,
                    names_seq(features@.last().1@),
                ));
            }
            assert(entries_map(features@) == decl_map_of_table(entries@.take(i as int + 1)));
        }
        i = i + 1;
    }
    proof {
        assert(entries@.take(entries@.len() as int) =~= entries@);
        assert(decl_table_ok(entries@));
    }
    if !contains_entry_key(&features, "default") {
        let ghost prev = features@;
        features.push((<String as StringExecFns>::from_str("default"), Vec::new()));
        proof {
            assert(features@.drop_last() =~= prev);
            assert(names_seq(features@.last().1@) =~= Seq::<Seq<char>>::empty());
            assert(entries_map(features@) == entries_map(prev).insert(
                default_name(),
                Seq::<Seq<char>>::empty(),
            ));
        }
    }
    let d = FeatureScopeDecl { features };
    proof {
        assert(d@ == with_default(decl_map_of_table(entries@)));
    }
    Ok(Some(d))
}

/// Whether a capability-reference entry has the required shape: a table with
/// a string `package`, a string-array `features`, and an optional boolean
/// `default-features`.
pub open spec fn ref_entry_ok(t: TomlItem) -> bool {
    &&& t matches TomlItem::Table(_)
    &&& (toml_get(t, "package"@) matches Some(p) && p matches TomlItem::Str(_))
    &&& (toml_get(t, "features"@) matches Some(f) && is_string_array(f))
    &&& (match toml_get(t, "default-features"@) {
        None => true,
        Some(d) => d matches TomlItem::Bool(_),
    })
}

/// The reference that a well-formed entry describes.
pub open spec fn ref_view_of_entry(t: TomlItem) -> RefView {
    RefView {
        package: match toml_get(t, "package"@) {
            Some(p) => string_of(p),
            None => Seq::empty(),
        },
        features: match toml_get(t, "features"@) {
            Some(f) => strings_of(f),
            None => Seq::empty(),
        },
        default_enabled: match toml_get(t, "default-features"@) {
            Some(TomlItem::Bool(b)) => b,
            _ => true,
        },
    }
}

pub open spec fn refs_ok(items: Seq<TomlItem>) -> bool {
    forall|i: int| 0 <= i < items.len() ==> ref_entry_ok(items[i])
}

pub open spec fn ref_views_of(items: Seq<TomlItem>) -> Seq<RefView> {
    Seq::new(items.len(), |i: int| ref_view_of_entry(items[i]))
}

/// Outcome of reading the capability-reference section of package metadata:
/// `None` = malformed; `Some(s)` = the reference list with views `s`.
pub open spec fn refs_outcome(metadata: Option<TomlItem>) -> Option<Seq<RefView>> {
    match metadata {
        None => Some(Seq::empty()),
        Some(md) => match toml_get(md, "feature-scope"@) {
            None => Some(Seq::empty()),
            Some(t) => match t {
                TomlItem::Arr(items) => if refs_ok(items@) {
                    Some(ref_views_of(items@))
                } else {
                    None
                },
                _ => None,
            },
        },
    }
}

/// Reads the capability-reference section from package metadata. A missing
/// section yields no references; an entry without its required fields is an
/// error.
pub fn parse_feature_scope_refs(metadata: Option<&TomlItem>) -> (r: Result<
    Vec<FeatureScopeRef>,
    ManifestError,
>)
    ensures
        ({
            let o = refs_outcome(deref_opt(metadata));
            match r {
                Ok(v) => o matches Some(s) && refs_views(v@) == s,
                Err(_) => o is None,
            }
        }),
{
    let md = match metadata {
        None => {
            let r: Vec<FeatureScopeRef> = Vec::new();
            proof {
                assert(refs_views(r@) =~= Seq::<RefView>::empty());
            }
            return Ok(r);
        },
        Some(t) => t,
    };
    let refs_item = match md.get("feature-scope") {
        None => {
            let r: Vec<FeatureScopeRef> = Vec::new();
            proof {
                assert(refs_views(r@) =~= Seq::<RefView>::empty());
            }
            return Ok(r);
        },
        Some(v) => v,
    };
    let items = match refs_item {
        TomlItem::Arr(its) => its,
        _ => {
            return Err(ManifestError::Malformed);
        },
    };
    proof {
        assert(toml_get(*md, "feature-scope"@) == Some(TomlItem::Arr(*items)));
    }
    let mut out: Vec<FeatureScopeRef> = Vec::new();
    let mut i: usize = 0;
    while i < items.len()
        invariant
            i <= items@.len(),
            refs_outcome(deref_opt(metadata)) == (if refs_ok(items@) {
                Some(ref_views_of(items@))
            } else {
                None::<Seq<RefView>>
            }),
            forall|j: int| 0 <= j < i ==> ref_entry_ok(items@[j]),
            out@.len() == i,
            forall|j: int| 0 <= j < i ==> out@[j]@ == ref_view_of_entry(items@[j]),
        decreases items@.len() - i,
    {
        let entry = &items[i];
        match entry {
            TomlItem::Table(_) => {},
            _ => {
                assert(!ref_entry_ok(items@[i as int]));
                return Err(ManifestError::Malformed);
            },
        }
        let package = match entry.get("package") {
            Some(TomlItem::Str(s)) => s.clone(),
            _ => {
                assert(!ref_entry_ok(items@[i as int]));
                return Err(ManifestError::Malformed);
            },
        };
        let features = match entry.get("features") {
            Some(f) => match parse_string_array(f) {
                Ok(v) => v,
                Err(e) => {
                    assert(!ref_entry_ok(items@[i as int]));
                    return Err(e);
                },
            },
            None => {
                assert(!ref_entry_ok(items@[i as int]));
                return Err(ManifestError::Malformed);
            },
        };
        let default_enabled = match entry.get("default-features") {
            None => true,
            Some(TomlItem::Bool(b)) => *b,
            Some(_) => {
                assert(!ref_entry_ok(items@[i as int]));
                return Err(ManifestError::Malformed);
            },
        };
        let fr = FeatureScopeRef { package, features, default_enabled };
        proof {
            assert(ref_entry_ok(items@[i as int]));
            assert(fr@ == ref_view_of_entry(items@[i as int]));
        }
        out.push(fr);
        i = i + 1;
    }
    proof {
        assert(refs_ok(items@));
        assert forall|q: int| 0 <= q < out@.len() implies refs_views(out@)[q] == ref_views_of(
            items@,
        )[q] by {
            assert(refs_views(out@)[q] == out@[q]@);
        }
        assert(refs_views(out@) =~= ref_views_of(items@));
    }
    Ok(out)
}

/// The package-metadata table of a manifest document, when present.
pub open spec fn spec_package_metadata(root: TomlItem) -> Option<TomlItem> {
    match toml_get(root, "package"@) {
        None => None,
        Some(p) => toml_get(p, "metadata"@),
    }
}

/// Parses manifest text and reads the feature-scope metadata out of it:
/// the capability-declaration table (normalized to hold `default`) and the
/// capability-reference list.
pub fn parse_manifest_str(content: &str) -> (r: Result<ManifestMetadata, ManifestError>)
    ensures
        ({
            match toml_tree_of(content@) {
                None => r matches Err(_),
                Some(root) => ({
                    let md = spec_package_metadata(root);
                    match r {
                        Ok(mm) => ({
                            let dx = decl_outcome(md);
                            let rx = refs_outcome(md);
                            &&& dx matches Some(x)
                            &&& (match mm.feature_scope_decl {
                                Some(d) => x matches Some(m) && d@ == m,
                                None => x is None,
                            })
                            &&& (rx matches Some(s) && refs_views(mm.feature_scope_refs@) == s)
                        }),
                        Err(_) => decl_outcome(md) is None || refs_outcome(md) is None,
                    }
                }),
            }
        }),
{
    let tree = match parse_toml(content) {
        None => {
            return Err(ManifestError::Malformed);
        },
        Some(t) => t,
    };
    let metadata = match tree.get("package") {
        None => None,
        Some(p) => p.get("metadata"),
    };
    proof {
        assert(deref_opt(metadata) == spec_package_metadata(tree));
    }
    let feature_scope_decl = match parse_feature_scope_decl(metadata) {
        Ok(d) => d,
        Err(e) => {
            return Err(e);
        },
    };
    let feature_scope_refs = match parse_feature_scope_refs(metadata) {
        Ok(v) => v,
        Err(e) => {
            return Err(e);
        },
    };
    Ok(ManifestMetadata { feature_scope_decl, feature_scope_refs })
}

} // verus!
