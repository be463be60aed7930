//! The reconciliation reference: the set of object names belonging to the
//! current library and the set of extension traits the configuration
//! explicitly declares as manual, both built from the configuration tree.

use vstd::prelude::*;
use crate::config::{arr_or_empty, lookup_path, str_of, ConfigValue};
use crate::text::{eq_str, find_char, find_char_spec, lemma_find_char};

verus! {

/// The text before the first dot, or all of `s` when it has no dot.
pub open spec fn lib_of(s: Seq<char>) -> Seq<char> {
    match find_char_spec(s, '.') {
        Some(i) => s.take(i),
        None => s,
    }
}

/// The text after the first dot, when there is one.
pub open spec fn local_of(s: Seq<char>) -> Option<Seq<char>> {
    match find_char_spec(s, '.') {
        Some(i) => Some(s.skip(i + 1)),
        None => None,
    }
}

/// The second dot-separated segment of `s`, when there is one: the text
/// between the first dot and the next dot or the end.
pub open spec fn second_segment_of(s: Seq<char>) -> Option<Seq<char>> {
    match local_of(s) {
        Some(rest) => match find_char_spec(rest, '.') {
            Some(j) => Some(rest.take(j)),
            None => Some(rest),
        },
        None => None,
    }
}

/// Split a fully-qualified name on its first dot into the library part and
/// the local part.
pub fn split_first_dot(s: &str) -> (r: Option<(String, String)>)
    ensures
        match r {
            Some(p) => lib_of(s@) == p.0@ && local_of(s@) == Some(p.1@),
            None => local_of(s@) is None && lib_of(s@) == s@,
        },
{
    let n = s.unicode_len();
    match find_char(s, '.') {
        Some(i) => {
            proof {
                lemma_find_char(s@, '.');
                assert(s@.subrange(0, i as int) =~= s@.take(i as int));
                assert(s@.subrange(i + 1, n as int) =~= s@.skip(i + 1));
            }
            let head = s.substring_char(0, i).to_owned();
            let rest = s.substring_char(i + 1, n).to_owned();
            Some((head, rest))
        },
        None => None,
    }
}

/// Extract the second dot-separated segment of a fully-qualified name.
pub fn second_segment(s: &str) -> (r: Option<String>)
    ensures
        match r {
            Some(seg) => second_segment_of(s@) == Some(seg@),
            None => second_segment_of(s@) is None,
        },
{
    match split_first_dot(s) {
        Some((_, rest)) => {
            match find_char(rest.as_str(), '.') {
                Some(j) => {
                    proof {
                        lemma_find_char(rest@, '.');
                        assert(rest@.subrange(0, j as int) =~= rest@.take(j as int));
                    }
                    Some(rest.as_str().substring_char(0, j).to_owned())
                },
                None => Some(rest),
            }
        },
        None => None,
    }
}

/// The set of character sequences held by a sequence of strings.
pub open spec fn strset(v: Seq<String>) -> Set<Seq<char>> {
    Set::new(|n: Seq<char>| exists|i: int| 0 <= i < v.len() && v[i]@ == n)
}

/// No two strings of the sequence hold the same characters.
pub open spec fn no_dup_views(v: Seq<String>) -> bool {
    forall|i: int, j: int| 0 <= i < j < v.len() ==> v[i]@ != v[j]@
}

/// Pushing a string adds exactly its characters to the set.
proof fn lemma_strset_push(v: Seq<String>, s: String)
    ensures
        strset(v.push(s)) == strset(v).insert(s@),
{
    assert forall|n: Seq<char>| strset(v.push(s)).contains(n) implies strset(v).insert(
        s@,
    ).contains(n) by {
        let i = choose|i: int| 0 <= i < v.push(s).len() && v.push(s)[i]@ == n;
        if i < v.len() {
            assert(v[i]@ == n);
        } else {
            assert(n == s@);
        }
    }
    assert forall|n: Seq<char>| strset(v).insert(s@).contains(n) implies strset(
        v.push(s),
    ).contains(n) by {
        if n == s@ {
            assert(v.push(s)[v.len() as int]@ == n);
        } else {
            let i = choose|i: int| 0 <= i < v.len() && v[i]@ == n;
            assert(v.push(s)[i]@ == n);
        }
    }
    assert(strset(v.push(s)) =~= strset(v).insert(s@));
}

/// Is some string of `v` equal to `s`?
fn contains_str(v: &Vec<String>, s: &str) -> (r: bool)
    ensures
        r == strset(v@).contains(s@),
{
    let n = v.len();
    let mut i: usize = 0;
    while i < n
        invariant
            0 <= i <= n,
            n == v@.len(),
            forall|j: int| 0 <= j < i ==> v@[j]@ != s@,
        decreases n - i,
    {
        if eq_str(v[i].as_str(), s) {
            assert(strset(v@).contains(s@));
            return true;
        }
        i += 1;
    }
    false
}

/// Add `s` to the set of strings unless an equal one is already there.
fn insert_str(v: &mut Vec<String>, s: String)
    ensures
        strset(final(v)@) == strset(old(v)@).insert(s@),
        no_dup_views(old(v)@) ==> no_dup_views(final(v)@),
{
    let present = contains_str(v, s.as_str());
    if !present {
        proof {
            lemma_strset_push(v@, s);
        }
        v.push(s);

    } else {
        proof {
            assert(strset(v@) =~= strset(v@).insert(s@));
        }
    }
}

/// The name a `generate` or `builders` entry contributes: its second
/// dot-separated segment. Entries that are not strings contribute nothing.
pub open spec fn gen_entry_name(e: ConfigValue) -> Option<Seq<char>> {
    match e {
        ConfigValue::Str(s) => second_segment_of(s@),
        _ => None,
    }
}

/// A `generate` or `builders` string entry with no dot is malformed.
pub open spec fn gen_entry_bad(e: ConfigValue) -> bool {
    e matches ConfigValue::Str(s) && second_segment_of(s@) is None
}

/// The name a `manual` entry contributes: the local part of its
/// fully-qualified name, when its library part equals the current library.
pub open spec fn manual_entry_name(e: ConfigValue, lib: Seq<char>) -> Option<Seq<char>> {
    match e {
        ConfigValue::Str(s) => if lib_of(s@) == lib {
            local_of(s@)
        } else {
            None
        },
        _ => None,
    }
}

/// A `manual` string entry that names the current library but has no local
/// part is malformed.
pub open spec fn manual_entry_bad(e: ConfigValue, lib: Seq<char>) -> bool {
    e matches ConfigValue::Str(s) && lib_of(s@) == lib && local_of(s@) is None
}

/// The fully-qualified name an `object` entry carries, when it is a table
/// whose `name` field is a string.
pub open spec fn object_name(e: ConfigValue) -> Option<Seq<char>> {
    match lookup_path(e, seq!["name"@]) {
        Some(node) => str_of(node),
        None => None,
    }
}

/// The local name an `object` entry contributes, when its library part
/// equals the current library and a local part exists. Entries whose name is
/// missing, foreign, or dotless are skipped.
pub open spec fn object_entry_name(e: ConfigValue, lib: Seq<char>) -> Option<Seq<char>> {
    match object_name(e) {
        Some(n) => if lib_of(n) == lib {
            local_of(n)
        } else {
            None
        },
        None => None,
    }
}

/// The strings held by a sequence of nodes, as a set.
pub open spec fn strs_set(entries: Seq<ConfigValue>) -> Set<Seq<char>>
    decreases entries.len(),
{
    if entries.len() == 0 {
        Set::empty()
    } else {
        let prev = strs_set(entries.drop_last());
        match entries.last() {
            ConfigValue::Str(s) => prev.insert(s@),
            _ => prev,
        }
    }
}

/// The traits an `object` entry declares as manual: the strings of its
/// `manual_traits` array, counted only when the entry contributes a name.
pub open spec fn object_entry_traits(e: ConfigValue, lib: Seq<char>) -> Set<Seq<char>> {
    if object_entry_name(e, lib) is Some {
        strs_set(arr_or_empty(e, seq!["manual_traits"@]))
    } else {
        Set::empty()
    }
}

/// The names contributed by all `generate` or `builders` entries.
pub open spec fn gen_names_set(entries: Seq<ConfigValue>) -> Set<Seq<char>>
    decreases entries.len(),
{
    if entries.len() == 0 {
        Set::empty()
    } else {
        let prev = gen_names_set(entries.drop_last());
        match gen_entry_name(entries.last()) {
            Some(n) => prev.insert(n),
            None => prev,
        }
    }
}

/// The names contributed by all `manual` entries.
pub open spec fn manual_names_set(entries: Seq<ConfigValue>, lib: Seq<char>) -> Set<Seq<char>>
    decreases entries.len(),
{
    if entries.len() == 0 {
        Set::empty()
    } else {
        let prev = manual_names_set(entries.drop_last(), lib);
        match manual_entry_name(entries.last(), lib) {
            Some(n) => prev.insert(n),
            None => prev,
        }
    }
}

/// The names contributed by all `object` entries.
pub open spec fn object_names_set(entries: Seq<ConfigValue>, lib: Seq<char>) -> Set<Seq<char>>
    decreases entries.len(),
{
    if entries.len() == 0 {
        Set::empty()
    } else {
        let prev = object_names_set(entries.drop_last(), lib);
        match object_entry_name(entries.last(), lib) {
            Some(n) => prev.insert(n),
            None => prev,
        }
    }
}

/// The traits declared as manual by all `object` entries.
pub open spec fn objects_traits_set(entries: Seq<ConfigValue>, lib: Seq<char>) -> Set<Seq<char>>
    decreases entries.len(),
{
    if entries.len() == 0 {
        Set::empty()
    } else {
        objects_traits_set(entries.drop_last(), lib).union(
            object_entry_traits(entries.last(), lib),
        )
    }
}

/// The dotted path of the current-library option.
pub open spec fn library_path() -> Seq<Seq<char>> {
    seq!["options"@, "library"@]
}

/// The dotted path of the generation list.
pub open spec fn generate_path() -> Seq<Seq<char>> {
    seq!["options"@, "generate"@]
}

/// The dotted path of the builder list.
pub open spec fn builders_path() -> Seq<Seq<char>> {
    seq!["options"@, "builders"@]
}

/// The dotted path of the manual-objects list.
pub open spec fn manual_path() -> Seq<Seq<char>> {
    seq!["options"@, "manual"@]
}

/// The path of the object array.
pub open spec fn object_path() -> Seq<Seq<char>> {
    seq!["object"@]
}

/// The library the document declares as current, when present.
pub open spec fn spec_current_library(doc: ConfigValue) -> Option<Seq<char>> {
    match lookup_path(doc, library_path()) {
        Some(node) => str_of(node),
        None => None,
    }
}

/// Every object identifier belonging to the current library: the union of
/// the contributions of the generation list, the builder list, the
/// manual-objects list and the object array.
pub open spec fn spec_listed_objects(doc: ConfigValue, lib: Seq<char>) -> Set<Seq<char>> {
    gen_names_set(arr_or_empty(doc, generate_path())).union(
        gen_names_set(arr_or_empty(doc, builders_path())),
    ).union(manual_names_set(arr_or_empty(doc, manual_path()), lib)).union(
        object_names_set(arr_or_empty(doc, object_path()), lib),
    )
}

/// Every trait name the object array declares as manual for the current
/// library.
pub open spec fn spec_declared_traits(doc: ConfigValue, lib: Seq<char>) -> Set<Seq<char>> {
    objects_traits_set(arr_or_empty(doc, object_path()), lib)
}

/// Some list entry is a malformed fully-qualified name.
pub open spec fn spec_registry_malformed(doc: ConfigValue, lib: Seq<char>) -> bool {
    ||| exists|i: int|
        0 <= i < arr_or_empty(doc, generate_path()).len() && gen_entry_bad(
            arr_or_empty(doc, generate_path())[i],
        )
    ||| exists|i: int|
        0 <= i < arr_or_empty(doc, builders_path()).len() && gen_entry_bad(
            arr_or_empty(doc, builders_path())[i],
        )
    ||| exists|i: int|
        0 <= i < arr_or_empty(doc, manual_path()).len() && manual_entry_bad(
            arr_or_empty(doc, manual_path())[i],
            lib,
        )
}

/// A fatal fault of the configuration document.
#[derive(Clone, Copy, Debug, PartialEq, Eq, Structural)]
pub enum RegistryError {
    /// The document does not declare a current library.
    MissingLibrary,
    /// A fully-qualified name in one of the lists has no separator.
    MalformedName,
}

/// The reconciliation reference: object names of the current library, and
/// trait names explicitly declared as manual. Both are deduplicated,
/// case-sensitive string sets.
pub struct Registry {
    pub listed_objects: Vec<String>,
    pub correctly_declared_traits: Vec<String>,
}

impl Registry {
    /// The object names, as a set.
    pub open spec fn listed_set(&self) -> Set<Seq<char>> {
        strset(self.listed_objects@)
    }

    /// The declared trait names, as a set.
    pub open spec fn declared_set(&self) -> Set<Seq<char>> {
        strset(self.correctly_declared_traits@)
    }

    /// Both underlying lists are free of duplicates.
    pub open spec fn wf(&self) -> bool {
        no_dup_views(self.listed_objects@) && no_dup_views(self.correctly_declared_traits@)
    }

    /// Is `name` a listed object of the current library?
    pub fn contains_listed(&self, name: &str) -> (r: bool)
        ensures
            r == self.listed_set().contains(name@),
    {
        contains_str(&self.listed_objects, name)
    }

    /// Is `name` a correctly declared manual trait?
    pub fn contains_declared(&self, name: &str) -> (r: bool)
        ensures
            r == self.declared_set().contains(name@),
    {
        contains_str(&self.correctly_declared_traits, name)
    }
}

/// The array two keys deep, if one is there.
fn get_array2<'a>(doc: &'a ConfigValue, seg1: &str, seg2: &str) -> (r: Option<
    &'a Vec<ConfigValue>,
>)
    ensures
        match r {
            Some(items) => arr_or_empty(*doc, seq![seg1@, seg2@]) == items@,
            None => arr_or_empty(*doc, seq![seg1@, seg2@]) == Seq::<ConfigValue>::empty(),
        },
{
    match doc.get_path2(seg1, seg2) {
        Some(node) => match node {
            ConfigValue::Array(items) => Some(items),
            _ => None,
        },
        None => None,
    }
}

/// The array one key deep, if one is there.
fn get_array1<'a>(doc: &'a ConfigValue, seg: &str) -> (r: Option<&'a Vec<ConfigValue>>)
    ensures
        match r {
            Some(items) => arr_or_empty(*doc, seq![seg@]) == items@,
            None => arr_or_empty(*doc, seq![seg@]) == Seq::<ConfigValue>::empty(),
        },
{
    match doc.get_entry(seg) {
        Some(node) => match node {
            ConfigValue::Array(items) => Some(items),
            _ => None,
        },
        None => None,
    }
}

/// One step of the generation-list fold.
proof fn lemma_gen_names_step(s: Seq<ConfigValue>, i: int)
    requires
        0 <= i < s.len(),
    ensures
        gen_names_set(s.take(i + 1)) == match gen_entry_name(s[i]) {
            Some(n) => gen_names_set(s.take(i)).insert(n),
            None => gen_names_set(s.take(i)),
        },
{
    assert(s.take(i + 1).drop_last() =~= s.take(i));
    assert(s.take(i + 1).last() == s[i]);
}

/// One step of the manual-list fold.
proof fn lemma_manual_names_step(s: Seq<ConfigValue>, lib: Seq<char>, i: int)
    requires
        0 <= i < s.len(),
    ensures
        manual_names_set(s.take(i + 1), lib) == match manual_entry_name(s[i], lib) {
            Some(n) => manual_names_set(s.take(i), lib).insert(n),
            None => manual_names_set(s.take(i), lib),
        },
{
    assert(s.take(i + 1).drop_last() =~= s.take(i));
    assert(s.take(i + 1).last() == s[i]);
}

/// One step of the object-name fold.
proof fn lemma_object_names_step(s: Seq<ConfigValue>, lib: Seq<char>, i: int)
    requires
        0 <= i < s.len(),
    ensures
        object_names_set(s.take(i + 1), lib) == match object_entry_name(s[i], lib) {
            Some(n) => object_names_set(s.take(i), lib).insert(n),
            None => object_names_set(s.take(i), lib),
        },
{
    assert(s.take(i + 1).drop_last() =~= s.take(i));
    assert(s.take(i + 1).last() == s[i]);
}

/// One step of the object-traits fold.
proof fn lemma_objects_traits_step(s: Seq<ConfigValue>, lib: Seq<char>, i: int)
    requires
        0 <= i < s.len(),
    ensures
        objects_traits_set(s.take(i + 1), lib) == objects_traits_set(s.take(i), lib).union(
            object_entry_traits(s[i], lib),
        ),
{
    assert(s.take(i + 1).drop_last() =~= s.take(i));
    assert(s.take(i + 1).last() == s[i]);
}

/// One step of the trait-strings fold.
proof fn lemma_strs_set_step(s: Seq<ConfigValue>, i: int)
    requires
        0 <= i < s.len(),
    ensures
        strs_set(s.take(i + 1)) == match s[i] {
            ConfigValue::Str(t) => strs_set(s.take(i)).insert(t@),
            _ => strs_set(s.take(i)),
        },
{
    assert(s.take(i + 1).drop_last() =~= s.take(i));
    assert(s.take(i + 1).last() == s[i]);
}

/// Add the second segment of every string entry; report whether every string
/// entry had one.
fn add_gen_names(listed: &mut Vec<String>, items: &Vec<ConfigValue>) -> (ok: bool)
    ensures
        ok == (forall|j: int| 0 <= j < items@.len() ==> !gen_entry_bad(items@[j])),
        ok ==> strset(final(listed)@) == strset(old(listed)@).union(gen_names_set(items@)),
        ok ==> (no_dup_views(old(listed)@) ==> no_dup_views(final(listed)@)),
{
    let n = items.len();
    let mut i: usize = 0;
    proof {
        assert(items@.take(0) =~= Seq::<ConfigValue>::empty());
        assert(strset(listed@) =~= strset(listed@).union(gen_names_set(items@.take(0))));
    }
    while i < n
        invariant
            0 <= i <= n,
            n == items@.len(),
            forall|j: int| 0 <= j < i ==> !gen_entry_bad(items@[j]),
            strset(listed@) == strset(old(listed)@).union(gen_names_set(items@.take(i as int))),
            no_dup_views(old(listed)@) ==> no_dup_views(listed@),
        decreases n - i,
    {
        let e = &items[i];
        proof {
            lemma_gen_names_step(items@, i as int);
        }
        match e {
            ConfigValue::Str(s) => {
                match second_segment(s.as_str()) {
                    Some(seg) => {
                        proof {
                            assert((strset(old(listed)@).union(
                                gen_names_set(items@.take(i as int)),
                            )).insert(seg@) =~= strset(old(listed)@).union(
                                gen_names_set(items@.take(i as int)).insert(seg@),
                            ));
                        }
                        insert_str(listed, seg);
                    },
                    None => {
                        assert(gen_entry_bad(items@[i as int]));
                        return false;
                    },
                }
            },
            _ => {},
        }
        i += 1;
    }
    proof {
        assert(items@.take(n as int) =~= items@);
    }
    true
}

/// Add the local part of every string entry that names the current library;
/// report whether every such entry had a local part.
fn add_manual_names(listed: &mut Vec<String>, items: &Vec<ConfigValue>, lib: &str) -> (ok: bool)
    ensures
        ok == (forall|j: int| 0 <= j < items@.len() ==> !manual_entry_bad(items@[j], lib@)),
        ok ==> strset(final(listed)@) == strset(old(listed)@).union(manual_names_set(items@, lib@)),
        ok ==> (no_dup_views(old(listed)@) ==> no_dup_views(final(listed)@)),
{
    let n = items.len();
    let mut i: usize = 0;
    proof {
        assert(items@.take(0) =~= Seq::<ConfigValue>::empty());
        assert(strset(listed@) =~= strset(listed@).union(
            manual_names_set(items@.take(0), lib@),
        ));
    }
    while i < n
        invariant
            0 <= i <= n,
            n == items@.len(),
            forall|j: int| 0 <= j < i ==> !manual_entry_bad(items@[j], lib@),
            strset(listed@) == strset(old(listed)@).union(
                manual_names_set(items@.take(i as int), lib@),
            ),
            no_dup_views(old(listed)@) ==> no_dup_views(listed@),
        decreases n - i,
    {
        let e = &items[i];
        proof {
            lemma_manual_names_step(items@, lib@, i as int);
        }
        match e {
            ConfigValue::Str(s) => {
                match split_first_dot(s.as_str()) {
                    Some((l, rest)) => {
                        if eq_str(l.as_str(), lib) {
                            proof {
                                assert((strset(old(listed)@).union(
                                    manual_names_set(items@.take(i as int), lib@),
                                )).insert(rest@) =~= strset(old(listed)@).union(
                                    manual_names_set(items@.take(i as int), lib@).insert(rest@),
                                ));
                            }
                            insert_str(listed, rest);
                        }
                    },
                    None => {
                        if eq_str(s.as_str(), lib) {
                            assert(manual_entry_bad(items@[i as int], lib@));
                            return false;
                        }
                    },
                }
            },
            _ => {},
        }
        i += 1;
    }
    proof {
        assert(items@.take(n as int) =~= items@);
    }
    true
}

/// Add every string of a `manual_traits` array to the declared set.
fn add_trait_strs(declared: &mut Vec<String>, items: &Vec<ConfigValue>)
    ensures
        strset(final(declared)@) == strset(old(declared)@).union(strs_set(items@)),
        no_dup_views(old(declared)@) ==> no_dup_views(final(declared)@),
{
    let n = items.len();
    let mut i: usize = 0;
    proof {
        assert(items@.take(0) =~= Seq::<ConfigValue>::empty());
        assert(strset(declared@) =~= strset(declared@).union(strs_set(items@.take(0))));
    }
    while i < n
        invariant
            0 <= i <= n,
            n == items@.len(),
            strset(declared@) == strset(old(declared)@).union(strs_set(items@.take(i as int))),
            no_dup_views(old(declared)@) ==> no_dup_views(declared@),
        decreases n - i,
    {
        let e = &items[i];
        proof {
            lemma_strs_set_step(items@, i as int);
        }
        match e {
            ConfigValue::Str(s) => {
                proof {
                    assert((strset(old(declared)@).union(
                        strs_set(items@.take(i as int)),
                    )).insert(s@) =~= strset(old(declared)@).union(
                        strs_set(items@.take(i as int)).insert(s@),
                    ));
                }
                let t = s.clone();
                insert_str(declared, t);
            },
            _ => {},
        }
        i += 1;
    }
    proof {
        assert(items@.take(n as int) =~= items@);
    }
}

/// Walk the object array: every entry whose fully-qualified name belongs to
/// the current library contributes its local name and its declared manual
/// traits.
fn add_objects(listed: &mut Vec<String>, declared: &mut Vec<String>, items: &Vec<ConfigValue>, lib: &str)
    ensures
        strset(final(listed)@) == strset(old(listed)@).union(object_names_set(items@, lib@)),
        strset(final(declared)@) == strset(old(declared)@).union(objects_traits_set(items@, lib@)),
        no_dup_views(old(listed)@) ==> no_dup_views(final(listed)@),
        no_dup_views(old(declared)@) ==> no_dup_views(final(declared)@),
{
    let n = items.len();
    let mut i: usize = 0;
    proof {
        assert(items@.take(0) =~= Seq::<ConfigValue>::empty());
        assert(strset(listed@) =~= strset(listed@).union(
            object_names_set(items@.take(0), lib@),
        ));
        assert(strset(declared@) =~= strset(declared@).union(
            objects_traits_set(items@.take(0), lib@),
        ));
    }
    while i < n
        invariant
            0 <= i <= n,
            n == items@.len(),
            strset(listed@) == strset(old(listed)@).union(
                object_names_set(items@.take(i as int), lib@),
            ),
            strset(declared@) == strset(old(declared)@).union(
                objects_traits_set(items@.take(i as int), lib@),
            ),
            no_dup_views(old(listed)@) ==> no_dup_views(listed@),
            no_dup_views(old(declared)@) ==> no_dup_views(declared@),
        decreases n - i,
    {
        let e = &items[i];
        proof {
            lemma_object_names_step(items@, lib@, i as int);
            lemma_objects_traits_step(items@, lib@, i as int);
        }
        let mut contributed = false;
        match e.get_entry("name") {
            Some(node) => match node {
                ConfigValue::Str(s) => {
                    match split_first_dot(s.as_str()) {
                        Some((l, rest)) => {
                            if eq_str(l.as_str(), lib) {
                                proof {
                                    assert(object_name(items@[i as int]) == Some(s@));
                                    assert(object_entry_name(items@[i as int], lib@)
                                        == Some(rest@));
                                }
                                match get_array1(e, "manual_traits") {
                                    Some(titems) => {
                                        proof {
                                            assert(object_entry_traits(items@[i as int], lib@)
                                                == strs_set(titems@));
                                        }
                                        add_trait_strs(declared, titems);
                                    },
                                    None => {
                                        proof {
                                            assert(object_entry_traits(items@[i as int], lib@)
                                                =~= Set::<Seq<char>>::empty());
                                        }
                                    },
                                }
                                proof {
                                    assert((strset(old(listed)@).union(
                                        object_names_set(items@.take(i as int), lib@),
                                    )).insert(rest@) =~= strset(old(listed)@).union(
                                        object_names_set(items@.take(i as int), lib@).insert(
                                            rest@,
                                        ),
                                    ));
                                }
                                insert_str(listed, rest);
                                contributed = true;
                            }
                        },
                        None => {},
                    }
                },
                _ => {},
            },
            None => {},
        }
        if !contributed {
            proof {
                assert(object_entry_name(items@[i as int], lib@) is None);
                assert(object_entry_traits(items@[i as int], lib@) =~= Set::<Seq<char>>::empty());
            }
        }
        proof {
            assert(strset(declared@) =~= strset(old(declared)@).union(
                objects_traits_set(items@.take(i + 1), lib@),
            ));
        }
        i += 1;
    }
    proof {
        assert(items@.take(n as int) =~= items@);
    }
}

/// Build the reconciliation reference from a configuration tree: resolve the
/// current library, then collect the listed objects of the generation list,
/// the builder list, the manual-objects list and the object array, and the
/// declared manual traits of the object array.
pub fn build_registry(doc: &ConfigValue) -> (r: Result<Registry, RegistryError>)
    ensures
        (r == Err::<Registry, RegistryError>(RegistryError::MissingLibrary)) <==> (
        spec_current_library(*doc) is None),
        spec_current_library(*doc) matches Some(lib) ==> {
            &&& ((r == Err::<Registry, RegistryError>(RegistryError::MalformedName))
                <==> spec_registry_malformed(*doc, lib))
            &&& (!spec_registry_malformed(*doc, lib) ==> {
                &&& r matches Ok(reg)
                &&& reg.wf()
                &&& reg.listed_set() == spec_listed_objects(*doc, lib)
                &&& reg.declared_set() == spec_declared_traits(*doc, lib)
            })
        },
{
    let lib: String = match doc.get_path2("options", "library") {
        Some(node) => match node {
            ConfigValue::Str(s) => s.clone(),
            _ => {
                return Err(RegistryError::MissingLibrary);
            },
        },
        None => {
            return Err(RegistryError::MissingLibrary);
        },
    };
    assert(spec_current_library(*doc) == Some(lib@));
    let mut listed: Vec<String> = Vec::new();
    let mut declared: Vec<String> = Vec::new();
    let ghost empty_strs: Seq<String> = listed@;

    if let Some(items) = get_array2(doc, "options", "generate") {
        if !add_gen_names(&mut listed, items) {
            proof {
                assert(arr_or_empty(*doc, generate_path()) == items@);
                let j = choose|j: int| 0 <= j < items@.len() && gen_entry_bad(items@[j]);
                assert(gen_entry_bad(arr_or_empty(*doc, generate_path())[j]));
                assert(spec_registry_malformed(*doc, lib@));
            }
            return Err(RegistryError::MalformedName);
        }
    }
    let ghost after_gen = listed@;

    if let Some(items) = get_array2(doc, "options", "builders") {
        if !add_gen_names(&mut listed, items) {
            proof {
                assert(arr_or_empty(*doc, builders_path()) == items@);
                let j = choose|j: int| 0 <= j < items@.len() && gen_entry_bad(items@[j]);
                assert(gen_entry_bad(arr_or_empty(*doc, builders_path())[j]));
                assert(spec_registry_malformed(*doc, lib@));
            }
            return Err(RegistryError::MalformedName);
        }
    }
    let ghost after_builders = listed@;

    if let Some(items) = get_array2(doc, "options", "manual") {
        if !add_manual_names(&mut listed, items, lib.as_str()) {
            proof {
                assert(arr_or_empty(*doc, manual_path()) == items@);
                let j = choose|j: int| 0 <= j < items@.len() && manual_entry_bad(items@[j], lib@);
                assert(manual_entry_bad(arr_or_empty(*doc, manual_path())[j], lib@));
                assert(spec_registry_malformed(*doc, lib@));
            }
            return Err(RegistryError::MalformedName);
        }
    }
    let ghost after_manual = listed@;

    if let Some(items) = get_array1(doc, "object") {
        add_objects(&mut listed, &mut declared, items, lib.as_str());
    }

    proof {
        let g = gen_names_set(arr_or_empty(*doc, generate_path()));
        let b = gen_names_set(arr_or_empty(*doc, builders_path()));
        let m = manual_names_set(arr_or_empty(*doc, manual_path()), lib@);
        let o = object_names_set(arr_or_empty(*doc, object_path()), lib@);
        assert(strset(empty_strs) =~= Set::<Seq<char>>::empty());
        assert(strset(after_gen) =~= g);
        assert(strset(after_builders) =~= g.union(b));
        assert(strset(after_manual) =~= g.union(b).union(m));
        assert(strset(listed@) =~= g.union(b).union(m).union(o));
        assert(strset(declared@) =~= spec_declared_traits(*doc, lib@));
    }
    Ok(Registry { listed_objects: listed, correctly_declared_traits: declared })
}

/// An empty configuration registers nothing: with no generation, builder or
/// manual entries and an empty object array, both registry sets are empty.
pub proof fn lemma_empty_config(doc: ConfigValue, lib: Seq<char>)
    requires
        arr_or_empty(doc, generate_path()).len() == 0,
        arr_or_empty(doc, builders_path()).len() == 0,
        arr_or_empty(doc, manual_path()).len() == 0,
        arr_or_empty(doc, object_path()).len() == 0,
    ensures
        spec_listed_objects(doc, lib) == Set::<Seq<char>>::empty(),
        spec_declared_traits(doc, lib) == Set::<Seq<char>>::empty(),
{
    assert(spec_listed_objects(doc, lib) =~= Set::<Seq<char>>::empty());
    assert(spec_declared_traits(doc, lib) =~= Set::<Seq<char>>::empty());
}

/// Splitting a well-formed fully-qualified name: when the library part holds
/// no dot, the split yields exactly the library part and the local name.
pub proof fn lemma_qualified_split(lib: Seq<char>, name: Seq<char>)
    requires
        forall|i: int| 0 <= i < lib.len() ==> lib[i] != '.',
    ensures
        lib_of(lib + seq!['.'] + name) == lib,
        local_of(lib + seq!['.'] + name) == Some(name),
{
    let s = lib + seq!['.'] + name;
    lemma_find_char(s, '.');
    assert(s.len() == lib.len() + 1 + name.len());
    assert(s[lib.len() as int] == '.');
    assert(forall|j: int| 0 <= j < lib.len() ==> s[j] == lib[j]);
    match find_char_spec(s, '.') {
        None => {
            assert(false);
        },
        Some(k) => {
            if k < lib.len() {
                assert(s[k] == lib[k]);
                assert(false);
            }
            if k > lib.len() {
                assert(s[lib.len() as int] != '.');
                assert(false);
            }
            assert(k == lib.len());
            assert(s.take(k) =~= lib);
            assert(s.skip(k + 1) =~= name);
        },
    }
}

/// A manual entry that names the current library contributes exactly its
/// local name to the listed objects.
pub proof fn lemma_manual_entry_scoped(s: String, lib: Seq<char>, name: Seq<char>)
    requires
        s@ == lib + seq!['.'] + name,
        forall|i: int| 0 <= i < lib.len() ==> lib[i] != '.',
    ensures
        manual_entry_name(ConfigValue::Str(s), lib) == Some(name),
{
    lemma_qualified_split(lib, name);
}

/// A manual entry whose library part differs from the current library
/// contributes nothing, and is never malformed.
pub proof fn lemma_foreign_manual_entry(s: String, current: Seq<char>)
    requires
        lib_of(s@) != current,
    ensures
        manual_entry_name(ConfigValue::Str(s), current) is None,
        !manual_entry_bad(ConfigValue::Str(s), current),
{
}

/// An object entry naming the current library contributes exactly the local
/// name of its fully-qualified name.
pub proof fn lemma_object_entry_scoped(e: ConfigValue, lib: Seq<char>, name: Seq<char>)
    requires
        object_name(e) == Some(lib + seq!['.'] + name),
        forall|i: int| 0 <= i < lib.len() ==> lib[i] != '.',
    ensures
        object_entry_name(e, lib) == Some(name),
{
    lemma_qualified_split(lib, name);
}

/// An object entry whose name's library part differs from the current
/// library contributes neither a listed object nor declared traits.
pub proof fn lemma_foreign_object_entry(e: ConfigValue, current: Seq<char>)
    requires
        match object_name(e) {
            Some(nm) => lib_of(nm) != current,
            None => true,
        },
    ensures
        object_entry_name(e, current) is None,
        object_entry_traits(e, current) == Set::<Seq<char>>::empty(),
{
}

} // verus!
