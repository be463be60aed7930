//! The indentation check for configuration files: every line's leading
//! whitespace must run to a multiple of four characters.

use vstd::prelude::*;
use crate::text::{lemma_trim_start_len, lines_spec, split_lines, trim_start, trim_start_spec};

verus! {

/// The length of a line's leading whitespace run.
pub open spec fn leading_ws(line: Seq<char>) -> int {
    line.len() - trim_start_spec(line).len()
}

/// A line is well indented when its leading whitespace is a multiple of four.
pub open spec fn line_indent_ok(line: Seq<char>) -> bool {
    leading_ws(line) % 4 == 0
}

/// Position of the first badly indented line, if any.
pub open spec fn first_bad_indent(lines: Seq<Seq<char>>) -> Option<int>
    decreases lines.len(),
{
    if lines.len() == 0 {
        None
    } else if !line_indent_ok(lines.first()) {
        Some(0int)
    } else {
        match first_bad_indent(lines.drop_first()) {
            Some(i) => Some(i + 1),
            None => None,
        }
    }
}

/// `first_bad_indent` points at the first badly indented line, and is `None`
/// exactly when every line is well indented.
pub proof fn lemma_first_bad_indent(lines: Seq<Seq<char>>)
    ensures
        match first_bad_indent(lines) {
            Some(i) => 0 <= i < lines.len() && !line_indent_ok(lines[i]) && (forall|j: int|
                0 <= j < i ==> line_indent_ok(lines[j])),
            None => forall|j: int| 0 <= j < lines.len() ==> line_indent_ok(lines[j]),
        },
    decreases lines.len(),
{
    if lines.len() == 0 {
    } else if !line_indent_ok(lines.first()) {
    } else {
        lemma_first_bad_indent(lines.drop_first());
        assert(forall|j: int| 1 <= j < lines.len() ==> lines[j] == lines.drop_first()[j - 1]);
    }
}

/// Check the indentation of one line.
fn check_line_indent(line: &str) -> (r: bool)
    ensures
        r == line_indent_ok(line@),
{
    let total = line.unicode_len();
    let trimmed = trim_start(line);
    let tlen = trimmed.unicode_len();
    proof {
        lemma_trim_start_len(line@);
    }
    let lead = total - tlen;
    lead % 4 == 0
}

/// Check the indentation of a file's text: the number of the first badly
/// indented line, counted from one, or nothing when all lines pass.
pub fn check_indent_text(text: &str) -> (r: Option<usize>)
    ensures
        match r {
            Some(k) => 1 <= k && first_bad_indent(lines_spec(text@)) == Some(k - 1 as int),
            None => first_bad_indent(lines_spec(text@)) is None,
        },
{
    let lines = split_lines(text);
    let ghost ls = lines_spec(text@);
    let n = lines.len();
    let mut i: usize = 0;
    while i < n
        invariant
            0 <= i <= n,
            n == lines@.len(),
            ls == lines_spec(text@),
            ls.len() == n,
            forall|j: int| 0 <= j < i ==> #[trigger] line_indent_ok(ls[j]),
            forall|j: int| 0 <= j < n ==> ls[j] == lines@[j]@,
        decreases n - i,
    {
        if !check_line_indent(lines[i].as_str()) {
            proof {
                lemma_first_bad_indent(ls);
                match first_bad_indent(ls) {
                    None => {
                        assert(line_indent_ok(ls[i as int]));
                    },
                    Some(m) => {
                        if m < i {
                            assert(line_indent_ok(ls[m]));
                        }
                        if m > i {
                            assert(line_indent_ok(ls[i as int]));
                        }
                        assert(m == i);
                    },
                }
            }
            return Some(i + 1);
        }
        i += 1;
    }
    proof {
        lemma_first_bad_indent(ls);
    }
    None
}

} // verus!
