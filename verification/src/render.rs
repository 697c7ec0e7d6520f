//! The report's line format: `label: value`, with the label emphasized and
//! the identity line emphasized as a whole.

use vstd::prelude::*;
use vstd::string::StringExecFns;
use crate::style::bold_str;
use crate::style::cyan_bold_str;
use crate::style::framed;
use crate::style::no_escape;

verus! {

/// Render `label: value` with the label emphasized. For a label free of
/// escape characters the result is the label, framed by whatever styling was
/// applied, followed by `": "` and the value unchanged.
pub fn render_line_bold(label: &str, value: &str) -> (r: String)
    ensures
        no_escape(label@) ==> exists|b: Seq<char>|
            #[trigger] framed(b, label@) && r@ == b + ": "@ + value@,
{
    let mut r = bold_str(label);
    let ghost b0 = r@;
    r.append(": ");
    r.append(value);
    proof {
        if no_escape(label@) {
            assert(r@ =~= b0 + ": "@ + value@);
            assert(framed(b0, label@) && r@ == b0 + ": "@ + value@);
        }
    }
    r
}

/// Render the identity line `user@host`, emphasized as a whole. For inputs
/// free of escape characters the styled line frames `user@host` unchanged.
pub fn render_identity(user: &str, host: &str) -> (r: String)
    ensures
        no_escape(user@) && no_escape(host@) ==> framed(r@, user@ + "@"@ + host@),
{
    let mut id = user.to_owned();
    id.append("@");
    id.append(host);
    proof {
        if no_escape(user@) && no_escape(host@) {
            reveal_strlit("@");
            assert(no_escape(id@)) by {
                assert forall|i: int| 0 <= i < id@.len() implies id@[i] != '\u{1b}' by {
                    if i < user@.len() {
                        assert(id@[i] == user@[i]);
                    } else if i < user@.len() + 1 {
                        assert(id@[i] == '@');
                    } else {
                        assert(id@[i] == host@[i - user@.len() - 1]);
                    }
                }
            }
        }
    }
    cyan_bold_str(id.as_str())
}

/// The fallback every collector shares: a present value passes through
/// unchanged; an absent one becomes the literal `Unknown`.
pub fn value_or_unknown(v: Option<String>) -> (r: String)
    ensures
        match v {
            Some(s) => r@ == s@,
            None => r@ == "Unknown"@,
        },
{
    match v {
        Some(s) => s,
        None => "Unknown".to_owned(),
    }
}

} // verus!
