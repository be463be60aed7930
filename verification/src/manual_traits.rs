//! The manual-extension-trait check: extract candidate trait names from
//! source text with a lightweight lexical heuristic, then reconcile them
//! against the registry — a candidate whose owning object is listed for the
//! current library but which is not declared as manual is a violation.

use vstd::prelude::*;
use crate::config::{parse_document, toml_tree_of};
use crate::registry::{
    build_registry, spec_current_library, spec_declared_traits, spec_listed_objects,
    spec_registry_malformed, Registry, RegistryError,
};
use crate::text::{
    ends_with_str, find_char, find_char_spec, is_prefix_of, is_suffix_of, lemma_find_char,
    lines_spec, split_lines, starts_with_str, str_views, trim, trim_spec,
};

verus! {

/// The keyword pair that opens a trait declaration.
pub open spec fn pub_trait_prefix() -> Seq<char> {
    "pub trait "@
}

/// The suffix that marks a manual extension trait.
pub open spec fn ext_manual_suffix() -> Seq<char> {
    "ExtManual"@
}

/// Position of the first occurrence of `c`, or the length of `s` when `c`
/// does not occur.
pub open spec fn find_or_len(s: Seq<char>, c: char) -> int {
    match find_char_spec(s, c) {
        Some(i) => i,
        None => s.len() as int,
    }
}

/// Position of the earliest trait-name terminator: the first `{`, `<` or
/// `:`, or the end of the text when none occurs.
pub open spec fn term_pos(rest: Seq<char>) -> int {
    let a = find_or_len(rest, '{');
    let b = find_or_len(rest, '<');
    let c = find_or_len(rest, ':');
    if b < a {
        if c < b {
            c
        } else {
            b
        }
    } else {
        if c < a {
            c
        } else {
            a
        }
    }
}

/// The candidate trait name a line yields, if any: after trimming, the line
/// must open a public trait declaration, and the name before the terminator,
/// trimmed of surrounding whitespace, must carry the manual-extension suffix.
pub open spec fn line_candidate(line: Seq<char>) -> Option<Seq<char>> {
    let t = trim_spec(line);
    if is_prefix_of(pub_trait_prefix(), t) {
        let rest = t.skip(pub_trait_prefix().len() as int);
        let name = trim_spec(rest.take(term_pos(rest)));
        if is_suffix_of(ext_manual_suffix(), name) {
            Some(name)
        } else {
            None
        }
    } else {
        None
    }
}

/// The candidates of a sequence of lines, in order.
pub open spec fn line_candidates(lines: Seq<Seq<char>>) -> Seq<Seq<char>>
    decreases lines.len(),
{
    if lines.len() == 0 {
        Seq::empty()
    } else {
        line_candidates(lines.drop_last()) + match line_candidate(lines.last()) {
            Some(n) => seq![n],
            None => Seq::empty(),
        }
    }
}

/// The candidate trait names of a whole text, in line order.
pub open spec fn candidates_of(text: Seq<char>) -> Seq<Seq<char>> {
    line_candidates(lines_spec(text))
}

/// Every candidate an extraction yields carries the manual-extension suffix.
pub proof fn lemma_candidates_suffixed(lines: Seq<Seq<char>>)
    ensures
        forall|i: int|
            0 <= i < line_candidates(lines).len() ==> is_suffix_of(
                ext_manual_suffix(),
                #[trigger] line_candidates(lines)[i],
            ),
    decreases lines.len(),
{
    if lines.len() > 0 {
        lemma_candidates_suffixed(lines.drop_last());
        let prev = line_candidates(lines.drop_last());
        match line_candidate(lines.last()) {
            Some(n) => {
                assert(line_candidates(lines) == prev + seq![n]);
                assert forall|i: int| 0 <= i < line_candidates(lines).len() implies is_suffix_of(
                    ext_manual_suffix(),
                    line_candidates(lines)[i],
                ) by {
                    if i < prev.len() {
                        assert(line_candidates(lines)[i] == prev[i]);
                    } else {
                        assert(line_candidates(lines)[i] == n);
                    }
                }
            },
            None => {
                assert(line_candidates(lines) =~= prev);
            },
        }
    }
}

/// Extract the candidate trait name of one line.
fn extract_from_line(line: &str) -> (r: Option<String>)
    ensures
        match r {
            Some(n) => line_candidate(line@) == Some(n@),
            None => line_candidate(line@) is None,
        },
{
    let t = trim(line);
    if !starts_with_str(t, "pub trait ") {
        return None;
    }
    let plen = "pub trait ".unicode_len();
    let tlen = t.unicode_len();
    let rest = t.substring_char(plen, tlen);
    proof {
        assert(rest@ =~= trim_spec(line@).skip(pub_trait_prefix().len() as int));
    }
    let rlen = rest.unicode_len();
    proof {
        lemma_find_char(rest@, '{');
        lemma_find_char(rest@, '<');
        lemma_find_char(rest@, ':');
    }
    let p1 = match find_char(rest, '{') {
        Some(i) => i,
        None => rlen,
    };
    let p2 = match find_char(rest, '<') {
        Some(i) => i,
        None => rlen,
    };
    let p3 = match find_char(rest, ':') {
        Some(i) => i,
        None => rlen,
    };
    let mut tp = p1;
    if p2 < tp {
        tp = p2;
    }
    if p3 < tp {
        tp = p3;
    }
    assert(tp as int == term_pos(rest@));
    let raw = rest.substring_char(0, tp);
    proof {
        assert(raw@ =~= rest@.take(term_pos(rest@)));
    }
    let name = trim(raw);
    if ends_with_str(name, "ExtManual") {
        Some(name.to_owned())
    } else {
        None
    }
}

/// Extract every candidate trait name of `content`, in line order.
pub fn extract_trait_names(content: &str) -> (r: Vec<String>)
    ensures
        str_views(r@) == candidates_of(content@),
{
    let lines = split_lines(content);
    let ghost ls = lines_spec(content@);
    let mut out: Vec<String> = Vec::new();
    let n = lines.len();
    let mut i: usize = 0;
    proof {
        assert(ls.take(0) =~= Seq::<Seq<char>>::empty());
        assert(str_views(out@) =~= line_candidates(ls.take(0)));
    }
    while i < n
        invariant
            0 <= i <= n,
            n == lines@.len(),
            str_views(lines@) == ls,
            str_views(out@) == line_candidates(ls.take(i as int)),
        decreases n - i,
    {
        let cand = extract_from_line(lines[i].as_str());
        proof {
            assert(ls.take(i + 1).drop_last() =~= ls.take(i as int));
            assert(ls.take(i + 1).last() == ls[i as int]);
            assert(ls[i as int] == lines@[i as int]@);
        }
        match cand {
            Some(name) => {
                proof {
                    assert(str_views(out@.push(name)) =~= str_views(out@).push(name@));
                    assert(line_candidates(ls.take(i as int)) + seq![name@] =~= line_candidates(
                        ls.take(i as int),
                    ).push(name@));
                }
                out.push(name);
            },
            None => {
                proof {
                    assert(line_candidates(ls.take(i as int)) + Seq::<Seq<char>>::empty()
                        =~= line_candidates(ls.take(i as int)));
                }
            },
        }
        i += 1;
    }
    proof {
        assert(ls.take(n as int) =~= ls);
    }
    out
}

/// The owning object of a candidate trait name: the name without the
/// manual-extension suffix.
pub open spec fn owner_of(name: Seq<char>) -> Seq<char> {
    name.take(name.len() - ext_manual_suffix().len())
}

/// A candidate is a violation exactly when it carries the manual-extension
/// suffix, its owning object is listed, and the candidate itself is not
/// declared.
pub open spec fn is_violation(
    listed: Set<Seq<char>>,
    declared: Set<Seq<char>>,
    c: Seq<char>,
) -> bool {
    is_suffix_of(ext_manual_suffix(), c) && listed.contains(owner_of(c)) && !declared.contains(c)
}

/// The violations among the candidates, in candidate order, duplicates kept.
pub open spec fn spec_violations(
    listed: Set<Seq<char>>,
    declared: Set<Seq<char>>,
    cands: Seq<Seq<char>>,
) -> Seq<Seq<char>>
    decreases cands.len(),
{
    if cands.len() == 0 {
        Seq::empty()
    } else {
        spec_violations(listed, declared, cands.drop_last()) + (
        if is_violation(listed, declared, cands.last()) {
            seq![cands.last()]
        } else {
            Seq::empty()
        })
    }
}

/// Reconciliation is a pure function of the registry sets and the candidate
/// sequence: two runs on the same pair yield the same violation sequence.
pub proof fn lemma_reconcile_deterministic(
    listed: Set<Seq<char>>,
    declared: Set<Seq<char>>,
    candidates: Seq<Seq<char>>,
    v1: Seq<Seq<char>>,
    v2: Seq<Seq<char>>,
)
    requires
        v1 == spec_violations(listed, declared, candidates),
        v2 == spec_violations(listed, declared, candidates),
    ensures
        v1 == v2,
{
}

/// Keep every candidate whose owning object is listed but which is not
/// itself declared, in order.
pub fn reconcile(registry: &Registry, candidates: &Vec<String>) -> (v: Vec<String>)
    ensures
        str_views(v@) == spec_violations(
            registry.listed_set(),
            registry.declared_set(),
            str_views(candidates@),
        ),
{
    let ghost cs = str_views(candidates@);
    let ghost listed = registry.listed_set();
    let ghost declared = registry.declared_set();
    let mut out: Vec<String> = Vec::new();
    let n = candidates.len();
    let mut i: usize = 0;
    proof {
        assert(cs.take(0) =~= Seq::<Seq<char>>::empty());
        assert(str_views(out@) =~= spec_violations(listed, declared, cs.take(0)));
    }
    while i < n
        invariant
            0 <= i <= n,
            n == candidates@.len(),
            cs == str_views(candidates@),
            listed == registry.listed_set(),
            declared == registry.declared_set(),
            str_views(out@) == spec_violations(listed, declared, cs.take(i as int)),
        decreases n - i,
    {
        let name = &candidates[i];
        proof {
            assert(cs.take(i + 1).drop_last() =~= cs.take(i as int));
            assert(cs.take(i + 1).last() == cs[i as int]);
            assert(cs[i as int] == candidates@[i as int]@);
        }
        let mut viol = false;
        if ends_with_str(name.as_str(), "ExtManual") {
            let nlen = name.as_str().unicode_len();
            let slen = "ExtManual".unicode_len();
            let owner = name.as_str().substring_char(0, nlen - slen);
            proof {
                assert(owner@ =~= owner_of(name@));
            }
            if registry.contains_listed(owner) && !registry.contains_declared(name.as_str()) {
                viol = true;
            }
        }
        if viol {
            let picked = name.clone();
            proof {
                assert(is_violation(listed, declared, cs[i as int]));
                assert(str_views(out@.push(picked)) =~= str_views(out@).push(picked@));
                assert(spec_violations(listed, declared, cs.take(i as int)) + seq![cs[i as int]]
                    =~= spec_violations(listed, declared, cs.take(i as int)).push(cs[i as int]));
            }
            out.push(picked);
        } else {
            proof {
                assert(!is_violation(listed, declared, cs[i as int]));
                assert(spec_violations(listed, declared, cs.take(i as int))
                    + Seq::<Seq<char>>::empty() =~= spec_violations(
                    listed,
                    declared,
                    cs.take(i as int),
                ));
            }
        }
        i += 1;
    }
    proof {
        assert(cs.take(n as int) =~= cs);
    }
    out
}

/// The violations of one source text against the registry.
pub fn undeclared_traits_in(registry: &Registry, content: &str) -> (v: Vec<String>)
    ensures
        str_views(v@) == spec_violations(
            registry.listed_set(),
            registry.declared_set(),
            candidates_of(content@),
        ),
{
    let candidates = extract_trait_names(content);
    reconcile(registry, &candidates)
}

/// The violations of a sequence of source texts, in text-then-line order.
pub open spec fn all_violations(
    listed: Set<Seq<char>>,
    declared: Set<Seq<char>>,
    texts: Seq<Seq<char>>,
) -> Seq<Seq<char>>
    decreases texts.len(),
{
    if texts.len() == 0 {
        Seq::empty()
    } else {
        all_violations(listed, declared, texts.drop_last()) + spec_violations(
            listed,
            declared,
            candidates_of(texts.last()),
        )
    }
}

/// Scan every source text and collect the violations, in scan order.
pub fn scan_sources(registry: &Registry, texts: &Vec<String>) -> (v: Vec<String>)
    ensures
        str_views(v@) == all_violations(
            registry.listed_set(),
            registry.declared_set(),
            str_views(texts@),
        ),
{
    let ghost ts = str_views(texts@);
    let ghost listed = registry.listed_set();
    let ghost declared = registry.declared_set();
    let mut out: Vec<String> = Vec::new();
    let n = texts.len();
    let mut i: usize = 0;
    proof {
        assert(ts.take(0) =~= Seq::<Seq<char>>::empty());
        assert(str_views(out@) =~= all_violations(listed, declared, ts.take(0)));
    }
    while i < n
        invariant
            0 <= i <= n,
            n == texts@.len(),
            ts == str_views(texts@),
            listed == registry.listed_set(),
            declared == registry.declared_set(),
            str_views(out@) == all_violations(listed, declared, ts.take(i as int)),
        decreases n - i,
    {
        let mut found = undeclared_traits_in(registry, texts[i].as_str());
        proof {
            assert(ts.take(i + 1).drop_last() =~= ts.take(i as int));
            assert(ts.take(i + 1).last() == ts[i as int]);
            assert(ts[i as int] == texts@[i as int]@);
            assert(str_views(out@ + found@) =~= str_views(out@) + str_views(found@));
        }
        out.append(&mut found);
        i += 1;
    }
    proof {
        assert(ts.take(n as int) =~= ts);
    }
    out
}

/// A fatal fault while checking one folder's configuration.
#[derive(Clone, Copy, Debug, PartialEq, Eq, Structural)]
pub enum CheckError {
    /// The configuration text is not a well-formed document.
    InvalidDocument,
    /// The document does not declare a current library.
    MissingLibrary,
    /// A fully-qualified name in one of the lists has no separator.
    MalformedName,
}

/// The whole manual-traits check on plain values: parse the configuration
/// text, build the registry, and reconcile the candidates of every source
/// text, reporting each undeclared manual trait in scan order.
pub fn check_folder_content(gir_text: &str, source_texts: &Vec<String>) -> (r: Result<
    Vec<String>,
    CheckError,
>)
    ensures
        (r == Err::<Vec<String>, CheckError>(CheckError::InvalidDocument)) <==> (toml_tree_of(
            gir_text@,
        ) is None),
        toml_tree_of(gir_text@) matches Some(doc) ==> {
            &&& ((r == Err::<Vec<String>, CheckError>(CheckError::MissingLibrary))
                <==> spec_current_library(doc) is None)
            &&& (spec_current_library(doc) matches Some(lib) ==> {
                &&& ((r == Err::<Vec<String>, CheckError>(CheckError::MalformedName))
                    <==> spec_registry_malformed(doc, lib))
                &&& (!spec_registry_malformed(doc, lib) ==> {
                    &&& r matches Ok(v)
                    &&& str_views(v@) == all_violations(
                        spec_listed_objects(doc, lib),
                        spec_declared_traits(doc, lib),
                        str_views(source_texts@),
                    )
                })
            })
        },
{
    let doc = match parse_document(gir_text) {
        Some(d) => d,
        None => {
            return Err(CheckError::InvalidDocument);
        },
    };
    let registry = match build_registry(&doc) {
        Ok(reg) => reg,
        Err(RegistryError::MissingLibrary) => {
            return Err(CheckError::MissingLibrary);
        },
        Err(RegistryError::MalformedName) => {
            return Err(CheckError::MalformedName);
        },
    };
    Ok(scan_sources(&registry, source_texts))
}

/// The verdict of one run: it passes exactly when no violation was found.
pub fn verdict(violations: &Vec<String>) -> (ok: bool)
    ensures
        ok == (violations@.len() == 0),
{
    violations.len() == 0
}

} // verus!
