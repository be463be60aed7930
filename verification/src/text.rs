//! Character-level string utilities: trimming, searching, splitting into
//! pieces and lines, and prefix/suffix tests, each specified over the
//! character sequence (`Seq<char>`) view of the string.

use vstd::prelude::*;

verus! {

/// The whitespace characters recognized when trimming text.
pub open spec fn is_space_char(c: char) -> bool {
    c == ' ' || c == '\t' || c == '\n' || c == '\r' || c == '\u{000B}' || c == '\u{000C}'
}

/// Executable counterpart of `is_space_char`.
pub fn is_space(c: char) -> (r: bool)
    ensures
        r == is_space_char(c),
{
    c == ' ' || c == '\t' || c == '\n' || c == '\r' || c == '\u{000B}' || c == '\u{000C}'
}

/// All strings of a sequence, each as its sequence of characters.
pub open spec fn str_views(v: Seq<String>) -> Seq<Seq<char>> {
    v.map_values(|s: String| s@)
}

/// `s` without its leading whitespace.
pub open spec fn trim_start_spec(s: Seq<char>) -> Seq<char>
    decreases s.len(),
{
    if s.len() == 0 {
        s
    } else if is_space_char(s[0]) {
        trim_start_spec(s.drop_first())
    } else {
        s
    }
}

/// Trimming leading whitespace never lengthens the text.
pub proof fn lemma_trim_start_len(s: Seq<char>)
    ensures
        trim_start_spec(s).len() <= s.len(),
    decreases s.len(),
{
    if s.len() > 0 && is_space_char(s[0]) {
        lemma_trim_start_len(s.drop_first());
    }
}

/// `s` without its trailing whitespace.
pub open spec fn trim_end_spec(s: Seq<char>) -> Seq<char>
    decreases s.len(),
{
    if s.len() == 0 {
        s
    } else if is_space_char(s.last()) {
        trim_end_spec(s.drop_last())
    } else {
        s
    }
}

/// `s` without leading and trailing whitespace.
pub open spec fn trim_spec(s: Seq<char>) -> Seq<char> {
    trim_end_spec(trim_start_spec(s))
}

/// Remove leading whitespace.
pub fn trim_start(s: &str) -> (r: &str)
    ensures
        r@ == trim_start_spec(s@),
    decreases s@.len(),
{
    let n = s.unicode_len();
    if n == 0 {
        s
    } else if is_space(s.get_char(0)) {
        let rest = s.substring_char(1, n);
        proof {
            assert(rest@ =~= s@.drop_first());
        }
        trim_start(rest)
    } else {
        s
    }
}

/// Remove trailing whitespace.
pub fn trim_end(s: &str) -> (r: &str)
    ensures
        r@ == trim_end_spec(s@),
    decreases s@.len(),
{
    let n = s.unicode_len();
    if n == 0 {
        s
    } else if is_space(s.get_char(n - 1)) {
        let rest = s.substring_char(0, n - 1);
        proof {
            assert(rest@ =~= s@.drop_last());
        }
        trim_end(rest)
    } else {
        s
    }
}

/// Remove leading and trailing whitespace.
pub fn trim(s: &str) -> (r: &str)
    ensures
        r@ == trim_spec(s@),
{
    trim_end(trim_start(s))
}

/// Position of the first occurrence of `c` in `s`, if any.
pub open spec fn find_char_spec(s: Seq<char>, c: char) -> Option<int>
    decreases s.len(),
{
    if s.len() == 0 {
        None
    } else if s[0] == c {
        Some(0int)
    } else {
        match find_char_spec(s.drop_first(), c) {
            Some(i) => Some(i + 1),
            None => None,
        }
    }
}

/// `find_char_spec` returns the position of the first occurrence of `c`,
/// and `None` exactly when `c` does not occur.
pub proof fn lemma_find_char(s: Seq<char>, c: char)
    ensures
        match find_char_spec(s, c) {
            Some(i) => 0 <= i < s.len() && s[i] == c && (forall|j: int| 0 <= j < i ==> s[j] != c),
            None => forall|j: int| 0 <= j < s.len() ==> s[j] != c,
        },
    decreases s.len(),
{
    if s.len() == 0 {
    } else if s[0] == c {
    } else {
        lemma_find_char(s.drop_first(), c);
        assert(forall|j: int| 1 <= j < s.len() ==> s[j] == s.drop_first()[j - 1]);
    }
}

/// Find the first occurrence of `c` in `s`.
pub fn find_char(s: &str, c: char) -> (r: Option<usize>)
    ensures
        match r {
            Some(i) => find_char_spec(s@, c) == Some(i as int),
            None => find_char_spec(s@, c) is None,
        },
{
    let n = s.unicode_len();
    let mut i: usize = 0;
    while i < n
        invariant
            0 <= i <= n,
            n == s@.len(),
            forall|j: int| 0 <= j < i ==> s@[j] != c,
        decreases n - i,
    {
        if s.get_char(i) == c {
            proof {
                lemma_find_char(s@, c);
            }
            return Some(i);
        }
        i += 1;
    }
    proof {
        lemma_find_char(s@, c);
    }
    None
}

/// Character-wise string equality.
pub fn eq_str(a: &str, b: &str) -> (r: bool)
    ensures
        r == (a@ == b@),
{
    let na = a.unicode_len();
    let nb = b.unicode_len();
    if na != nb {
        return false;
    }
    let mut i: usize = 0;
    while i < na
        invariant
            0 <= i <= na,
            na == a@.len(),
            na == b@.len(),
            forall|j: int| 0 <= j < i ==> a@[j] == b@[j],
        decreases na - i,
    {
        if a.get_char(i) != b.get_char(i) {
            return false;
        }
        i += 1;
    }
    proof {
        assert(a@ =~= b@);
    }
    true
}

/// `p` is an initial segment of `s`.
pub open spec fn is_prefix_of(p: Seq<char>, s: Seq<char>) -> bool {
    p.len() <= s.len() && (forall|i: int| 0 <= i < p.len() ==> s[i] == p[i])
}

/// `p` is a final segment of `s`.
pub open spec fn is_suffix_of(p: Seq<char>, s: Seq<char>) -> bool {
    p.len() <= s.len() && (forall|i: int| 0 <= i < p.len() ==> s[s.len() - p.len() + i] == p[i])
}

/// Does `s` start with `p`?
pub fn starts_with_str(s: &str, p: &str) -> (r: bool)
    ensures
        r == is_prefix_of(p@, s@),
{
    let np = p.unicode_len();
    let ns = s.unicode_len();
    if np > ns {
        return false;
    }
    let mut i: usize = 0;
    while i < np
        invariant
            0 <= i <= np,
            np == p@.len(),
            ns == s@.len(),
            np <= ns,
            forall|j: int| 0 <= j < i ==> s@[j] == p@[j],
        decreases np - i,
    {
        if s.get_char(i) != p.get_char(i) {
            return false;
        }
        i += 1;
    }
    true
}

/// Does `s` end with `p`?
pub fn ends_with_str(s: &str, p: &str) -> (r: bool)
    ensures
        r == is_suffix_of(p@, s@),
{
    let np = p.unicode_len();
    let ns = s.unicode_len();
    if np > ns {
        return false;
    }
    let mut i: usize = 0;
    while i < np
        invariant
            0 <= i <= np,
            np == p@.len(),
            ns == s@.len(),
            np <= ns,
            forall|j: int| 0 <= j < i ==> s@[ns - np + j] == p@[j],
        decreases np - i,
    {
        if s.get_char(ns - np + i) != p.get_char(i) {
            return false;
        }
        i += 1;
    }
    true
}

/// The pieces of `s` between occurrences of the separator `c`, in order.
/// There is always at least one piece; an occurrence of `c` at either end
/// contributes an empty piece.
pub open spec fn split_char_spec(s: Seq<char>, c: char) -> Seq<Seq<char>>
    decreases s.len(),
{
    if s.len() == 0 {
        seq![s]
    } else if s[0] == c {
        seq![Seq::<char>::empty()] + split_char_spec(s.drop_first(), c)
    } else {
        let rest = split_char_spec(s.drop_first(), c);
        seq![seq![s[0]] + rest[0]] + rest.drop_first()
    }
}

/// Splitting yields at least one piece.
pub proof fn lemma_split_nonempty(s: Seq<char>, c: char)
    ensures
        split_char_spec(s, c).len() >= 1,
    decreases s.len(),
{
    if s.len() == 0 {
    } else if s[0] == c {
    } else {
        lemma_split_nonempty(s.drop_first(), c);
    }
}

/// Splitting steps over the first occurrence of the separator: with no
/// occurrence the only piece is `s` itself; otherwise the first piece is
/// the text before the first occurrence, followed by the pieces of the
/// text after it.
pub proof fn lemma_split_step(s: Seq<char>, c: char)
    ensures
        match find_char_spec(s, c) {
            None => split_char_spec(s, c) == seq![s],
            Some(i) => split_char_spec(s, c) == seq![s.take(i)] + split_char_spec(
                s.skip(i + 1),
                c,
            ),
        },
    decreases s.len(),
{
    if s.len() == 0 {
        assert(split_char_spec(s, c) =~= seq![s]);
    } else if s[0] == c {
        assert(s.take(0) =~= Seq::<char>::empty());
        assert(s.skip(1) =~= s.drop_first());
        assert(split_char_spec(s, c) =~= seq![s.take(0)] + split_char_spec(s.skip(1), c));
    } else {
        let df = s.drop_first();
        lemma_split_step(df, c);
        lemma_split_nonempty(df, c);
        let rest = split_char_spec(df, c);
        match find_char_spec(df, c) {
            None => {
                // rest == seq![df], so the single piece is all of s
                assert(seq![s[0]] + rest[0] =~= s);
                assert(rest.drop_first() =~= Seq::<Seq<char>>::empty());
                assert(split_char_spec(s, c) =~= seq![s]);
            },
            Some(j) => {
                // rest == seq![df.take(j)] + split(df.skip(j + 1))
                let tail = split_char_spec(df.skip(j + 1), c);
                lemma_find_char(df, c);
                assert(rest[0] == df.take(j));
                assert(seq![s[0]] + df.take(j) =~= s.take(j + 1));
                assert(rest.drop_first() =~= tail);
                assert(df.skip(j + 1) =~= s.skip(j + 2));
                assert(split_char_spec(s, c) =~= seq![s.take(j + 1)] + split_char_spec(
                    s.skip(j + 2),
                    c,
                ));
            },
        }
    }
}

/// Split `s` on every occurrence of `c`.
pub fn split_on_char(s: &str, c: char) -> (r: Vec<String>)
    ensures
        str_views(r@) == split_char_spec(s@, c),
{
    let n = s.unicode_len();
    let mut acc: Vec<String> = Vec::new();
    let mut start: usize = 0;
    let mut i: usize = 0;
    proof {
        assert(s@.skip(0) =~= s@);
        assert(str_views(acc@) + split_char_spec(s@, c) =~= split_char_spec(s@, c));
    }
    while i < n
        invariant
            0 <= start <= i <= n,
            n == s@.len(),
            forall|j: int| start <= j < i ==> s@[j] != c,
            split_char_spec(s@, c) == str_views(acc@) + split_char_spec(
                s@.skip(start as int),
                c,
            ),
        decreases n - i,
    {
        if s.get_char(i) == c {
            let piece = s.substring_char(start, i);
            let owned = piece.to_owned();
            proof {
                let tail = s@.skip(start as int);
                lemma_find_char(tail, c);
                assert(forall|j: int| 0 <= j < tail.len() ==> tail[j] == s@[start + j]);
                assert(tail[i - start] == c);
                assert(forall|j: int| 0 <= j < i - start ==> tail[j] != c);
                assert(find_char_spec(tail, c) == Some(i - start as int));
                lemma_split_step(tail, c);
                assert(tail.take(i - start as int) =~= s@.subrange(start as int, i as int));
                assert(tail.skip(i - start + 1) =~= s@.skip(i + 1));
                assert(str_views(acc@.push(owned)) =~= str_views(acc@) + seq![owned@]);
                assert(str_views(acc@) + split_char_spec(tail, c) =~= (str_views(acc@) + seq![
                    owned@,
                ]) + split_char_spec(s@.skip(i + 1), c));
            }
            acc.push(owned);
            start = i + 1;
        }
        i += 1;
    }
    let last = s.substring_char(start, n);
    let owned = last.to_owned();
    proof {
        let tail = s@.skip(start as int);
        lemma_find_char(tail, c);
        assert(forall|j: int| 0 <= j < tail.len() ==> tail[j] == s@[start + j]);
        assert(find_char_spec(tail, c) is None);
        lemma_split_step(tail, c);
        assert(tail =~= s@.subrange(start as int, n as int));
        assert(str_views(acc@.push(owned)) =~= str_views(acc@) + seq![owned@]);
        assert(str_views(acc@) + split_char_spec(tail, c) =~= str_views(acc@.push(owned)));
    }
    acc.push(owned);
    acc
}

/// A line piece without a trailing carriage return.
pub open spec fn strip_cr(p: Seq<char>) -> Seq<char> {
    if p.len() > 0 && p.last() == '\r' {
        p.drop_last()
    } else {
        p
    }
}

/// The lines of `text`: pieces between newline characters, without the line
/// endings themselves (a carriage return before a newline is removed, and a
/// final newline does not open a further empty line).
pub open spec fn lines_spec(text: Seq<char>) -> Seq<Seq<char>> {
    if text.len() == 0 {
        Seq::empty()
    } else {
        let raw = split_char_spec(text, '\n');
        let pieces = if text.last() == '\n' {
            raw.drop_last()
        } else {
            raw
        };
        pieces.map_values(|p: Seq<char>| strip_cr(p))
    }
}

/// Split `text` into lines.
pub fn split_lines(text: &str) -> (r: Vec<String>)
    ensures
        str_views(r@) == lines_spec(text@),
{
    let n = text.unicode_len();
    if n == 0 {
        let r: Vec<String> = Vec::new();
        proof {
            assert(str_views(r@) =~= lines_spec(text@));
        }
        return r;
    }
    let mut pieces = split_on_char(text, '\n');
    proof {
        lemma_split_nonempty(text@, '\n');
        assert(pieces@.len() == str_views(pieces@).len());
    }
    if text.get_char(n - 1) == '\n' {
        pieces.pop();
        proof {
            assert(str_views(pieces@) =~= split_char_spec(text@, '\n').drop_last());
        }
    }
    let ghost target: Seq<Seq<char>> = lines_spec(text@);
    proof {
        assert(target =~= str_views(pieces@).map_values(|p: Seq<char>| strip_cr(p)));
    }
    let mut out: Vec<String> = Vec::new();
    let mut i: usize = 0;
    let m = pieces.len();
    while i < m
        invariant
            0 <= i <= m,
            m == pieces@.len(),
            target == str_views(pieces@).map_values(|p: Seq<char>| strip_cr(p)),
            str_views(out@) =~= target.take(i as int),
        decreases m - i,
    {
        let piece: &String = &pieces[i];
        let len = piece.as_str().unicode_len();
        let stripped: String = if len > 0 && piece.as_str().get_char(len - 1) == '\r' {
            piece.as_str().substring_char(0, len - 1).to_owned()
        } else {
            piece.clone()
        };
        proof {
            assert(stripped@ =~= strip_cr(piece@));
            assert(str_views(out@.push(stripped)) =~= str_views(out@).push(stripped@));
            assert(target.take(i + 1) =~= target.take(i as int).push(target[i as int]));
        }
        out.push(stripped);
        i += 1;
    }
    proof {
        assert(target.take(m as int) =~= target);
    }
    out
}

} // verus!
