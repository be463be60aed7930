//! The configuration document: a tree of tables, arrays and strings, with
//! dotted-path lookup, and a parser for the TOML text it is loaded from.

use vstd::prelude::*;
use crate::text::{eq_str, find_char_spec, split_char_spec, split_on_char, str_views};

verus! {

/// A node of the configuration tree. Tables keep their entries in document
/// order; values of kinds the checks never read are collapsed into `Other`.
pub enum ConfigValue {
    Table(Vec<(String, ConfigValue)>),
    Array(Vec<ConfigValue>),
    Str(String),
    Other,
}

/// The value stored under `key` in a table's entries: the first entry whose
/// key matches, if any.
pub open spec fn table_get(entries: Seq<(String, ConfigValue)>, key: Seq<char>) -> Option<ConfigValue>
    decreases entries.len(),
{
    if entries.len() == 0 {
        None
    } else if entries[0].0@ == key {
        Some(entries[0].1)
    } else {
        table_get(entries.drop_first(), key)
    }
}

/// Descend through table keys, one path segment at a time. The lookup yields
/// nothing as soon as a segment is missing or the current node is not a table.
pub open spec fn lookup_path(v: ConfigValue, path: Seq<Seq<char>>) -> Option<ConfigValue>
    decreases path.len(),
{
    if path.len() == 0 {
        Some(v)
    } else {
        match v {
            ConfigValue::Table(entries) => match table_get(entries@, path[0]) {
                Some(child) => lookup_path(child, path.skip(1)),
                None => None,
            },
            _ => None,
        }
    }
}

/// The string carried by a node, if it is a string.
pub open spec fn str_of(v: ConfigValue) -> Option<Seq<char>> {
    match v {
        ConfigValue::Str(s) => Some(s@),
        _ => None,
    }
}

/// The elements carried by a node, if it is an array.
pub open spec fn arr_of(v: ConfigValue) -> Option<Seq<ConfigValue>> {
    match v {
        ConfigValue::Array(items) => Some(items@),
        _ => None,
    }
}

/// The elements of the array found under `path`, or the empty sequence when
/// the path is absent or does not name an array.
pub open spec fn arr_or_empty(v: ConfigValue, path: Seq<Seq<char>>) -> Seq<ConfigValue> {
    match lookup_path(v, path) {
        Some(ConfigValue::Array(items)) => items@,
        _ => Seq::empty(),
    }
}

impl ConfigValue {
    /// Look up one key in this node, which must be a table.
    pub fn get_entry<'a>(&'a self, key: &str) -> (r: Option<&'a ConfigValue>)
        ensures
            match r {
                Some(child) => lookup_path(*self, seq![key@]) == Some(*child),
                None => lookup_path(*self, seq![key@]) is None,
            },
    {
        match self {
            ConfigValue::Table(entries) => {
                let ghost all = entries@;
                let n = entries.len();
                let mut i: usize = 0;
                while i < n
                    invariant
                        0 <= i <= n,
                        n == entries@.len(),
                        entries@ == all,
                        *self is Table,
                        (*self)->Table_0 == *entries,
                        forall|j: int| 0 <= j < i ==> entries@[j].0@ != key@,
                    decreases n - i,
                {
                    if eq_str(entries[i].0.as_str(), key) {
                        proof {
                            lemma_table_get_index(entries@, key@, i as int);
                            assert(table_get(entries@, key@) == Some(entries@[i as int].1));
                            assert(seq![key@][0] == key@);
                            assert(seq![key@].skip(1) =~= Seq::<Seq<char>>::empty());
                            assert(*self is Table);
                            assert((*self)->Table_0 == *entries);
                            assert(lookup_path(*self, seq![key@]) == lookup_path(
                                entries@[i as int].1,
                                seq![key@].skip(1),
                            ));
                            assert(lookup_path(entries@[i as int].1, seq![key@].skip(1))
                                == Some(entries@[i as int].1));
                        }
                        return Some(&entries[i].1);
                    }
                    i += 1;
                }
                proof {
                    lemma_table_get_absent(entries@, key@);
                }
                None
            },
            _ => None,
        }
    }

    /// Look up the value two table keys deep.
    pub fn get_path2<'a>(&'a self, seg1: &str, seg2: &str) -> (r: Option<&'a ConfigValue>)
        ensures
            match r {
                Some(child) => lookup_path(*self, seq![seg1@, seg2@]) == Some(*child),
                None => lookup_path(*self, seq![seg1@, seg2@]) is None,
            },
    {
        let ghost path = seq![seg1@, seg2@];
        match self.get_entry(seg1) {
            Some(node) => {
                proof {
                    assert(path[0] == seg1@);
                    assert(path.skip(1) =~= seq![seg2@]);
                    lemma_lookup_step(*self, path, *node);
                }
                node.get_entry(seg2)
            },
            None => {
                proof {
                    assert(path[0] == seg1@);
                    lemma_lookup_step_none(*self, path);
                }
                None
            },
        }
    }

    /// Descend along the given path segments.
    pub fn lookup_segments<'a>(&'a self, segments: &Vec<String>) -> (r: Option<&'a ConfigValue>)
        ensures
            match r {
                Some(child) => lookup_path(*self, str_views(segments@)) == Some(*child),
                None => lookup_path(*self, str_views(segments@)) is None,
            },
    {
        let ghost path = str_views(segments@);
        proof {
            assert(path.skip(0) =~= path);
        }
        let mut cur: &ConfigValue = self;
        let n = segments.len();
        let mut i: usize = 0;
        while i < n
            invariant
                0 <= i <= n,
                n == segments@.len(),
                path == str_views(segments@),
                path.len() == n,
                lookup_path(*self, path) == lookup_path(*cur, path.skip(i as int)),
            decreases n - i,
        {
            let next = cur.get_entry(segments[i].as_str());
            match next {
                Some(child) => {
                    proof {
                        let rest = path.skip(i as int);
                        assert(rest[0] == segments@[i as int]@);
                        assert(rest.skip(1) =~= path.skip(i + 1));
                        lemma_lookup_step(*cur, rest, *child);
                    }
                    cur = child;
                },
                None => {
                    proof {
                        let rest = path.skip(i as int);
                        assert(rest[0] == segments@[i as int]@);
                        lemma_lookup_step_none(*cur, rest);
                    }
                    return None;
                },
            }
            i += 1;
        }
        proof {
            assert(path.skip(n as int) =~= Seq::<Seq<char>>::empty());
        }
        Some(cur)
    }
}

/// When the entry at position `i` is the first whose key matches, the table
/// lookup yields its value.
proof fn lemma_table_get_index(entries: Seq<(String, ConfigValue)>, key: Seq<char>, i: int)
    requires
        0 <= i < entries.len(),
        entries[i].0@ == key,
        forall|j: int| 0 <= j < i ==> entries[j].0@ != key,
    ensures
        table_get(entries, key) == Some(entries[i].1),
    decreases i,
{
    if i == 0 {
    } else {
        assert(forall|j: int| 0 <= j < i - 1 ==> entries.drop_first()[j] == entries[j + 1]);
        lemma_table_get_index(entries.drop_first(), key, i - 1);
    }
}

/// When no key matches, the table lookup yields nothing.
proof fn lemma_table_get_absent(entries: Seq<(String, ConfigValue)>, key: Seq<char>)
    requires
        forall|j: int| 0 <= j < entries.len() ==> entries[j].0@ != key,
    ensures
        table_get(entries, key) is None,
    decreases entries.len(),
{
    if entries.len() > 0 {
        assert(forall|j: int|
            0 <= j < entries.len() - 1 ==> entries.drop_first()[j] == entries[j + 1]);
        lemma_table_get_absent(entries.drop_first(), key);
    }
}

/// Descending one segment into a table commutes with a full-path lookup.
proof fn lemma_lookup_step(v: ConfigValue, path: Seq<Seq<char>>, child: ConfigValue)
    requires
        path.len() >= 1,
        lookup_path(v, seq![path[0]]) == Some(child),
    ensures
        lookup_path(v, path) == lookup_path(child, path.skip(1)),
{
    let single = seq![path[0]];
    assert(single[0] == path[0]);
    assert(single.skip(1) =~= Seq::<Seq<char>>::empty());
    match v {
        ConfigValue::Table(entries) => {
            match table_get(entries@, path[0]) {
                Some(c2) => {
                    assert(lookup_path(v, single) == lookup_path(c2, single.skip(1)));
                    assert(lookup_path(c2, Seq::<Seq<char>>::empty()) == Some(c2));
                    assert(c2 == child);
                },
                None => {
                    assert(lookup_path(v, single) is None);
                },
            }
        },
        _ => {
            assert(lookup_path(v, single) is None);
        },
    }
}

/// A failed single-segment lookup fails the full path too.
proof fn lemma_lookup_step_none(v: ConfigValue, path: Seq<Seq<char>>)
    requires
        path.len() >= 1,
        lookup_path(v, seq![path[0]]) is None,
    ensures
        lookup_path(v, path) is None,
{
    let single = seq![path[0]];
    assert(single[0] == path[0]);
    assert(single.skip(1) =~= Seq::<Seq<char>>::empty());
    match v {
        ConfigValue::Table(entries) => {
            match table_get(entries@, path[0]) {
                Some(c2) => {
                    assert(lookup_path(v, single) == lookup_path(c2, single.skip(1)));
                    assert(lookup_path(c2, Seq::<Seq<char>>::empty()) == Some(c2));
                },
                None => {},
            }
        },
        _ => {},
    }
}

/// Dotted-path lookups over a configuration tree, as the checks use them:
/// `lookup` descends through the tables named by the dot-separated segments
/// of `option`; `lookup_str` and `lookup_vec` additionally require the found
/// node to be a string or an array.
pub trait TomlHelper where Self: Sized {
    fn lookup<'a>(&'a self, option: &str) -> Option<&'a Self>;

    fn lookup_str<'a>(&'a self, option: &'a str) -> Option<&'a str>;

    fn lookup_vec<'a>(&'a self, option: &'a str) -> Option<&'a Vec<Self>>;
}

impl TomlHelper for ConfigValue {
    fn lookup<'a>(&'a self, option: &str) -> (r: Option<&'a ConfigValue>)
        ensures
            match r {
                Some(child) => lookup_path(*self, split_char_spec(option@, '.')) == Some(*child),
                None => lookup_path(*self, split_char_spec(option@, '.')) is None,
            },
    {
        let segments = split_on_char(option, '.');
        self.lookup_segments(&segments)
    }

    fn lookup_str<'a>(&'a self, option: &'a str) -> (r: Option<&'a str>)
        ensures
            match r {
                Some(s) => {
                    &&& lookup_path(*self, split_char_spec(option@, '.')) matches Some(node)
                    &&& str_of(node) == Some(s@)
                },
                None => match lookup_path(*self, split_char_spec(option@, '.')) {
                    Some(node) => str_of(node) is None,
                    None => true,
                },
            },
    {
        match self.lookup(option) {
            Some(ConfigValue::Str(s)) => Some(s.as_str()),
            _ => None,
        }
    }

    fn lookup_vec<'a>(&'a self, option: &'a str) -> (r: Option<&'a Vec<ConfigValue>>)
        ensures
            match r {
                Some(items) => {
                    &&& lookup_path(*self, split_char_spec(option@, '.')) matches Some(node)
                    &&& arr_of(node) == Some(items@)
                },
                None => match lookup_path(*self, split_char_spec(option@, '.')) {
                    Some(node) => arr_of(node) is None,
                    None => true,
                },
            },
    {
        match self.lookup(option) {
            Some(ConfigValue::Array(items)) => Some(items),
            _ => None,
        }
    }
}

/// Declares toml::Value so it can appear in the converter's signature; the
/// library never reads inside a value of it.
#[verifier::external_type_specification]
#[verifier::external_body]
pub struct ExTomlValue(toml::Value);

/// The configuration tree that parsing the given TOML text yields, or
/// nothing when the text is not well-formed TOML. The result depends on the
/// text alone.
pub uninterp spec fn toml_tree_of(text: Seq<char>) -> Option<ConfigValue>;

/// Relies on toml::Value's public variants: each carries exactly the table,
/// array or string it was parsed as. Tables, arrays and strings are moved
/// over one for one; values of every other kind become `Other`.
#[verifier::external_body]
fn toml_to_value(v: &toml::Value) -> ConfigValue {
    match v {
        toml::Value::String(s) => ConfigValue::Str(s.clone()),
        toml::Value::Array(items) => ConfigValue::Array(items.iter().map(toml_to_value).collect()),
        toml::Value::Table(t) => ConfigValue::Table(
            t.iter().map(|(k, x)| (k.clone(), toml_to_value(x))).collect(),
        ),
        _ => ConfigValue::Other,
    }
}

/// Relies on toml::from_str for toml::Value: it accepts exactly the
/// well-formed TOML documents, deterministically, and the tree it returns is
/// a function of the text alone.
#[verifier::external_body]
pub fn parse_document(text: &str) -> (r: Option<ConfigValue>)
    ensures
        r == toml_tree_of(text@),
{
    match toml::from_str::<toml::Value>(text) {
        Ok(v) => Some(toml_to_value(&v)),
        Err(_) => None,
    }
}

} // verus!
