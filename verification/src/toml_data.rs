use vstd::prelude::*;

verus! {

/// In-memory model of the parts of a TOML document that manifest parsing
/// reads: strings, booleans, arrays and tables. Every other kind of TOML
/// value is carried as `Other`.
pub enum TomlItem {
    Str(String),
    Bool(bool),
    Arr(Vec<TomlItem>),
    Table(Vec<(String, TomlItem)>),
    Other,
}

/// The value of the first table entry with the given key.
pub open spec fn tbl_lookup(entries: Seq<(String, TomlItem)>, key: Seq<char>) -> Option<TomlItem>
    decreases entries.len(),
{
    if entries.len() == 0 {
        None
    } else if entries[0].0@ == key {
        Some(entries[0].1)
    } else {
        tbl_lookup(entries.drop_first(), key)
    }
}

/// The value at `key` when `t` is a table that holds it.
pub open spec fn toml_get(t: TomlItem, key: Seq<char>) -> Option<TomlItem> {
    match t {
        TomlItem::Table(entries) => tbl_lookup(entries@, key),
        _ => None,
    }
}

impl TomlItem {
    pub fn get<'a>(&'a self, key: &str) -> (r: Option<&'a TomlItem>)
        ensures
            match r {
                Some(v) => toml_get(*self, key@) == Some(*v),
                None => toml_get(*self, key@) is None,
            },
    {
        match self {
            TomlItem::Table(entries) => {
                proof {
                    assert(entries@.skip(0) =~= entries@);
                    assert(toml_get(*self, key@) == tbl_lookup(entries@, key@));
                }
                let mut i: usize = 0;
                while i < entries.len()
                    invariant
                        i <= entries@.len(),
                        toml_get(*self, key@) == tbl_lookup(entries@, key@),
                        tbl_lookup(entries@, key@) == tbl_lookup(entries@.skip(i as int), key@),
                    decreases entries@.len() - i,
                {
                    let pair = &entries[i];
                    if crate::names::str_eq(pair.0.as_str(), key) {
                        proof {
                            assert(entries@.skip(i as int)[0] == entries@[i as int]);
                            assert(tbl_lookup(entries@.skip(i as int), key@) == Some(
                                entries@[i as int].1,
                            ));
                        }
                        return Some(&pair.1);
                    }
                    proof {
                        assert(entries@.skip(i as int).drop_first() =~= entries@.skip(
                            i as int + 1,
                        ));
                    }
                    i = i + 1;
                }
                None
            },
            _ => None,
        }
    }
}

#[verifier::external_type_specification]
#[verifier::external_body]
pub struct ExTomlValue(toml::Value);

/// The document tree that a piece of TOML text parses to, when it parses;
/// `None` when the text is not well-formed TOML.
pub uninterp spec fn toml_tree_of(s: Seq<char>) -> Option<TomlItem>;

/// Relies on toml::from_str: parses TOML text into a `toml::Value` tree.
/// The result is a function of the text alone.
#[verifier::external_body]
pub(crate) fn parse_toml(s: &str) -> (r: Option<TomlItem>)
    ensures
        r == toml_tree_of(s@),
{
    match toml::from_str::<toml::Value>(s) {
        Ok(v) => Some(toml_item_of_value(&v)),
        Err(_) => None,
    }
}

/// Relies on the shape of toml::Value: carries each variant that manifest
/// parsing reads into the model, one for one. Only `parse_toml` uses it; the
/// contract stated there covers the composition.
#[verifier::external_body]
fn toml_item_of_value(v: &toml::Value) -> TomlItem {
    match v {
        toml::Value::String(s) => TomlItem::Str(s.clone()),
        toml::Value::Boolean(b) => TomlItem::Bool(*b),
        toml::Value::Array(items) => TomlItem::Arr(items.iter().map(toml_item_of_value).collect()),
        toml::Value::Table(entries) => TomlItem::Table(
            entries.iter().map(|(k, val)| (k.clone(), toml_item_of_value(val))).collect(),
        ),
        _ => TomlItem::Other,
    }
}

} // verus!
