//! Terminal emphasis for report lines, over the `colored` crate.

use vstd::prelude::*;
use colored::Colorize;

verus! {

/// True when `s` holds no ANSI escape character. Styling such a text only
/// frames it; a text that already holds escape sequences may be rewritten.
pub open spec fn no_escape(s: Seq<char>) -> bool {
    forall|i: int| 0 <= i < s.len() ==> s[i] != '\u{1b}'
}

/// True when `r` is `mid` framed by some prefix and suffix (either of which
/// may be empty).
pub open spec fn framed(r: Seq<char>, mid: Seq<char>) -> bool {
    exists|p: Seq<char>, q: Seq<char>| r == #[trigger] (p + mid + q)
}

/// Relies on colored's `Colorize::bold` and the `Display` impl of
/// `ColoredString`: the result is either the input itself (when colour is
/// off) or the input framed by a style prefix and the reset suffix; only an
/// input that already holds escape sequences may be rewritten inside.
#[verifier::external_body]
pub(crate) fn bold_str(s: &str) -> (r: String)
    ensures
        no_escape(s@) ==> framed(r@, s@),
{
    s.bold().to_string()
}

/// Relies on colored's `Colorize::cyan` and `Colorize::bold` and the
/// `Display` impl of `ColoredString`, exactly as `bold_str` does.
#[verifier::external_body]
pub(crate) fn cyan_bold_str(s: &str) -> (r: String)
    ensures
        no_escape(s@) ==> framed(r@, s@),
{
    s.cyan().bold().to_string()
}

} // verus!
