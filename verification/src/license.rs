//! The license-header check: a source file must open with the fixed license
//! notice followed by one empty line.

use vstd::prelude::*;
use crate::text::{eq_str, lines_spec, split_lines};

verus! {

/// The exact notice every source file must carry on its first line.
pub open spec fn license_line() -> Seq<char> {
    "// Take a look at the license at the top of the repository in the LICENSE file."@
}

/// What the header of one file looks like.
#[derive(Clone, Copy, Debug, PartialEq, Eq, Structural)]
pub enum LicenseCheck {
    /// First line is the notice and the second line is empty.
    Valid,
    /// Fewer than two lines, or a first line that is not the notice.
    MissingHeader,
    /// The notice is there but the second line is not empty.
    MissingEmptyLine,
}

/// The header verdict of a file's text: only its first two lines matter.
pub open spec fn spec_license_check(text: Seq<char>) -> LicenseCheck {
    let lines = lines_spec(text);
    if lines.len() < 2 {
        LicenseCheck::MissingHeader
    } else if lines[0] != license_line() {
        LicenseCheck::MissingHeader
    } else if lines[1].len() != 0 {
        LicenseCheck::MissingEmptyLine
    } else {
        LicenseCheck::Valid
    }
}

/// Check the license header of one file's text.
pub fn check_license_text(text: &str) -> (r: LicenseCheck)
    ensures
        r == spec_license_check(text@),
{
    let lines = split_lines(text);
    if lines.len() < 2 {
        return LicenseCheck::MissingHeader;
    }
    proof {
        assert(lines@[0]@ == lines_spec(text@)[0]);
        assert(lines@[1]@ == lines_spec(text@)[1]);
    }
    if !eq_str(
        lines[0].as_str(),
        "// Take a look at the license at the top of the repository in the LICENSE file.",
    ) {
        return LicenseCheck::MissingHeader;
    }
    if lines[1].as_str().unicode_len() != 0 {
        return LicenseCheck::MissingEmptyLine;
    }
    LicenseCheck::Valid
}

} // verus!
