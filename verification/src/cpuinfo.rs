//! The CPU-model extraction: in a `key : value` text, the value of the first
//! line whose key field begins with `model name`.

use vstd::prelude::*;
use vstd::slice::slice_index_get;
use vstd::slice::slice_subrange;
use vstd::slice::slice_to_vec;
use crate::scan::find_nl;
use crate::scan::find_nonws;
use crate::scan::first_idx;
use crate::scan::first_match;
use crate::scan::first_nl;
use crate::scan::lemma_first_idx;
use crate::scan::lemma_first_idx_char;
use crate::scan::lemma_first_match_prefix;
use crate::scan::lemma_first_match_push;
use crate::scan::lines_of;
use crate::scan::nl_p;
use crate::scan::nonws_p;
use crate::scan::starts_with;

verus! {

/// The colon predicate.
pub open spec fn colon_p() -> spec_fn(u8) -> bool {
    |b: u8| b == 58
}

/// The bytes of `model name`.
pub open spec fn model_name_key() -> Seq<u8> {
    seq![109u8, 111u8, 100u8, 101u8, 108u8, 32u8, 110u8, 97u8, 109u8, 101u8]
}

/// The value of a `key : value` record: everything past the first colon,
/// with leading whitespace dropped; absent when the line has no colon.
pub open spec fn record_value(line: Seq<u8>) -> Option<Seq<u8>> {
    let c = first_idx(line, colon_p());
    if c == line.len() {
        None
    } else {
        let rest = line.skip(c as int + 1);
        Some(rest.skip(first_idx(rest, nonws_p()) as int))
    }
}

/// What the CPU text denotes: the value of the first `model name` record.
pub open spec fn spec_cpu_model(s: Seq<u8>) -> Option<Seq<u8>> {
    match first_match(lines_of(s), model_name_key()) {
        None => None,
        Some(l) => record_value(l),
    }
}

/// The bytes of `model name`, for the scan.
fn model_name_key_vec() -> (r: Vec<u8>)
    ensures
        r@ == model_name_key(),
{
    let mut v: Vec<u8> = Vec::new();
    v.push(109);
    v.push(111);
    v.push(100);
    v.push(101);
    v.push(108);
    v.push(32);
    v.push(110);
    v.push(97);
    v.push(109);
    v.push(101);
    proof {
        assert(v@ =~= model_name_key());
    }
    v
}

/// First index at or past `from` holding a colon, or the length.
fn find_colon(s: &[u8], from: usize) -> (r: usize)
    requires
        from <= s@.len(),
    ensures
        from <= r <= s@.len(),
        r - from == first_idx(s@.skip(from as int), colon_p()),
{
    let n = s.len();
    let mut i = from;
    while i < n && *slice_index_get(s, i) != 58
        invariant
            from <= i <= n,
            n == s@.len(),
            forall|j: int| from <= j < i ==> s@[j] != 58,
        decreases n - i,
    {
        i += 1;
    }
    proof {
        let rem = s@.skip(from as int);
        assert forall|j: int| 0 <= j < i - from implies !(colon_p()(rem[j])) by {
            assert(rem[j] == s@[from + j]);
        }
        if i - from < rem.len() {
            assert(rem[i - from] == s@[i as int]);
        }
        lemma_first_idx_char(rem, colon_p(), (i - from) as nat);
    }
    i
}

/// Scan the CPU text for the first `model name` record and hand its value
/// out; absent when no line carries the key or the line has no colon.
pub fn parse_cpu_model(input: &[u8]) -> (r: Option<Vec<u8>>)
    ensures
        match r {
            Some(v) => spec_cpu_model(input@) == Some(v@),
            None => spec_cpu_model(input@) is None,
        },
{
    let key = model_name_key_vec();
    let n = input.len();
    let mut pos: usize = 0;
    let ghost lines = lines_of(input@);
    let ghost mut k: int = 0;
    proof {
        assert(input@.skip(0) =~= input@);
        assert(lines.take(0) =~= Seq::<Seq<u8>>::empty());
    }
    while pos < n
        invariant
            n == input@.len(),
            pos <= n,
            0 <= k <= lines.len(),
            lines == lines_of(input@),
            lines_of(input@.skip(pos as int)) == lines.skip(k),
            first_match(lines.take(k), model_name_key()) is None,
            key@ == model_name_key(),
        decreases n - pos,
    {
        let ghost rem = input@.skip(pos as int);
        proof {
            lemma_first_idx(rem, nl_p());
            assert(rem.len() > 0);
            assert(lines_of(rem).len() >= 1);
            assert(lines.skip(k).len() == lines.len() - k);
            assert(k < lines.len());
            assert(lines.skip(k)[0] == lines[k]);
        }
        let end = find_nl(input, pos);
        let line = slice_subrange(input, pos, end);
        proof {
            if end - pos == rem.len() {
                assert(line@ =~= rem);
            } else {
                assert(line@ =~= rem.take(first_nl(rem) as int));
            }
            assert(lines_of(rem)[0] == line@);
            assert(lines[k] == line@);
            assert(lines.take(k + 1) =~= lines.take(k).push(lines[k]));
            lemma_first_match_push(lines.take(k), lines[k], model_name_key());
        }
        if starts_with(line, key.as_slice()) {
            proof {
                lemma_first_match_prefix(lines, k + 1, model_name_key());
                assert(first_match(lines, model_name_key()) == Some(line@));
            }
            let line_len = line.len();
            let c = find_colon(line, 0);
            proof {
                assert(line@.skip(0) =~= line@);
            }
            if c == line_len {
                return None;
            }
            let v_start = find_nonws(line, c + 1);
            let tok = slice_subrange(line, v_start, line_len);
            proof {
                let rest = line@.skip(c as int + 1);
                assert(rest.skip((v_start - c - 1) as int) =~= line@.skip(v_start as int));
                assert(tok@ =~= line@.skip(v_start as int));
            }
            return Some(slice_to_vec(tok));
        }
        proof {
            if end < n {
                assert(rem.skip(first_nl(rem) as int + 1) =~= input@.skip(end + 1));
                assert(lines_of(rem).drop_first() =~= lines_of(rem.skip(first_nl(rem) as int + 1)));
                assert(lines.skip(k).drop_first() =~= lines.skip(k + 1));
            } else {
                assert(end == n);
                assert(first_nl(rem) == rem.len());
                assert(lines_of(rem) == seq![rem]);
                assert(lines.skip(k).len() == 1);
                assert(k + 1 == lines.len());
                assert(input@.skip(n as int).len() == 0);
                assert(lines.skip(k + 1) =~= Seq::<Seq<u8>>::empty());
            }
            k = k + 1;
        }
        pos = if end < n {
            end + 1
        } else {
            n
        };
    }
    proof {
        assert(input@.skip(pos as int).len() == 0);
        assert(lines.skip(k).len() == 0);
        assert(lines.take(k) =~= lines);
    }
    None
}

} // verus!
