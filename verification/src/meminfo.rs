//! The memory-statistics extraction: parse a `KEY: VALUE unit` text (one
//! record per line) and derive a snapshot of total, available and used
//! kibibytes. Only the first line beginning with `MemTotal:` and the first
//! beginning with `MemAvailable:` count; a missing or unparseable field, a
//! zero total, or an available value above the total yield an absent result.

use vstd::prelude::*;
use vstd::slice::slice_subrange;
use crate::scan::field_value;
use crate::scan::find_nl;
use crate::scan::first_match;
use crate::scan::first_nl;
use crate::scan::key_value_lines;
use crate::scan::lemma_first_idx;
use crate::scan::lemma_first_match_prefix;
use crate::scan::lemma_first_match_push;
use crate::scan::lines_of;
use crate::scan::nl_p;
use crate::scan::parse_field_value;
use crate::scan::starts_with;

verus! {

/// The bytes of `MemTotal:`.
pub open spec fn mem_total_key() -> Seq<u8> {
    seq![77u8, 101u8, 109u8, 84u8, 111u8, 116u8, 97u8, 108u8, 58u8]
}

/// The bytes of `MemAvailable:`.
pub open spec fn mem_available_key() -> Seq<u8> {
    seq![
        77u8,
        101u8,
        109u8,
        65u8,
        118u8,
        97u8,
        105u8,
        108u8,
        97u8,
        98u8,
        108u8,
        101u8,
        58u8,
    ]
}

/// A memory snapshot in kibibytes.
#[derive(Clone, Copy, PartialEq, Eq, Structural, Debug)]
pub struct MemStats {
    pub total_kib: u64,
    pub avail_kib: u64,
}

impl MemStats {
    /// The snapshot's invariant: a positive total bounding the available part.
    pub open spec fn wf(self) -> bool {
        0 < self.total_kib && self.avail_kib <= self.total_kib
    }

    /// The used part: total minus available.
    pub open spec fn spec_used_kib(self) -> nat {
        (self.total_kib - self.avail_kib) as nat
    }

    pub fn used_kib(&self) -> (r: u64)
        requires
            self.wf(),
        ensures
            r as nat == self.spec_used_kib(),
    {
        self.total_kib - self.avail_kib
    }
}

/// What a sequence of records denotes: a snapshot exactly when both keys are
/// present with parseable values, the total is positive, and the available
/// part does not exceed it.
pub open spec fn parse_mem_lines(ls: Seq<Seq<u8>>) -> Option<MemStats> {
    let t = key_value_lines(ls, mem_total_key());
    let a = key_value_lines(ls, mem_available_key());
    match (t, a) {
        (Some(total), Some(avail)) => if 0 < total && avail <= total {
            Some(MemStats { total_kib: total, avail_kib: avail })
        } else {
            None
        },
        _ => None,
    }
}

/// What the memory text denotes.
pub open spec fn spec_parse_meminfo(s: Seq<u8>) -> Option<MemStats> {
    parse_mem_lines(lines_of(s))
}

/// A snapshot parsed from a well-formed text is exactly the two recorded
/// values, and its used part is their difference.
pub proof fn lemma_parse_values(s: Seq<u8>, t: u64, a: u64)
    requires
        key_value_lines(lines_of(s), mem_total_key()) == Some(t),
        key_value_lines(lines_of(s), mem_available_key()) == Some(a),
        0 < t,
        a <= t,
    ensures
        spec_parse_meminfo(s) == Some((MemStats { total_kib: t, avail_kib: a })),
        spec_parse_meminfo(s).unwrap().spec_used_kib() == t - a,
{
}

/// A present but zero `MemTotal` makes the snapshot absent: no division by
/// zero ever arises downstream.
pub proof fn lemma_zero_total_absent(s: Seq<u8>)
    requires
        key_value_lines(lines_of(s), mem_total_key()) == Some(0u64),
    ensures
        spec_parse_meminfo(s) is None,
{
}

/// A missing (or unparseable) key makes the snapshot absent.
pub proof fn lemma_missing_key_absent(s: Seq<u8>)
    requires
        key_value_lines(lines_of(s), mem_total_key()) is None || key_value_lines(
            lines_of(s),
            mem_available_key(),
        ) is None,
    ensures
        spec_parse_meminfo(s) is None,
{
}

/// Only the first occurrence of each key counts: once both keys have a first
/// record, appending any further record — a second `MemTotal` with a
/// different value, say — cannot change the result.
pub proof fn lemma_first_occurrence_wins(ls: Seq<Seq<u8>>, extra: Seq<u8>)
    requires
        first_match(ls, mem_total_key()) is Some,
        first_match(ls, mem_available_key()) is Some,
    ensures
        parse_mem_lines(ls.push(extra)) == parse_mem_lines(ls),
{
    lemma_first_match_push(ls, extra, mem_total_key());
    lemma_first_match_push(ls, extra, mem_available_key());
}

/// The bytes of `MemTotal:`, for the scan.
fn mem_total_key_vec() -> (r: Vec<u8>)
    ensures
        r@ == mem_total_key(),
{
    let mut v: Vec<u8> = Vec::new();
    v.push(77);
    v.push(101);
    v.push(109);
    v.push(84);
    v.push(111);
    v.push(116);
    v.push(97);
    v.push(108);
    v.push(58);
    proof {
        assert(v@ =~= mem_total_key());
    }
    v
}

/// The bytes of `MemAvailable:`, for the scan.
fn mem_available_key_vec() -> (r: Vec<u8>)
    ensures
        r@ == mem_available_key(),
{
    let mut v: Vec<u8> = Vec::new();
    v.push(77);
    v.push(101);
    v.push(109);
    v.push(65);
    v.push(118);
    v.push(97);
    v.push(105);
    v.push(108);
    v.push(97);
    v.push(98);
    v.push(108);
    v.push(101);
    v.push(58);
    proof {
        assert(v@ =~= mem_available_key());
    }
    v
}

/// The direct-counter strategy: build the snapshot from already-queried
/// total and available counts, under the same validity rule as the text
/// parser — a zero total or an available count above the total is absent.
pub fn mem_stats_from_counters(total_kib: u64, avail_kib: u64) -> (r: Option<MemStats>)
    ensures
        r == if 0 < total_kib && avail_kib <= total_kib {
            Some((MemStats { total_kib: total_kib, avail_kib: avail_kib }))
        } else {
            None::<MemStats>
        },
        r matches Some(m) ==> m.wf(),
{
    if 0 < total_kib && avail_kib <= total_kib {
        Some(MemStats { total_kib: total_kib, avail_kib: avail_kib })
    } else {
        None
    }
}

/// Scan the memory text line by line for the first `MemTotal:` and first
/// `MemAvailable:` records and derive the snapshot. The scan stops as soon
/// as both are resolved, so later repeats of a key cannot matter; an
/// unparseable first record makes the whole result absent.
pub fn parse_meminfo(input: &[u8]) -> (r: Option<MemStats>)
    ensures
        r == spec_parse_meminfo(input@),
        r matches Some(m) ==> m.wf(),
{
    let tkey = mem_total_key_vec();
    let akey = mem_available_key_vec();
    let n = input.len();
    let mut pos: usize = 0;
    let mut total: Option<u64> = None;
    let mut avail: Option<u64> = None;
    let ghost lines = lines_of(input@);
    let ghost mut k: int = 0;
    proof {
        assert(input@.skip(0) =~= input@);
        assert(lines.take(0) =~= Seq::<Seq<u8>>::empty());
    }
    while pos < n && !(total.is_some() && avail.is_some())
        invariant
            n == input@.len(),
            pos <= n,
            0 <= k <= lines.len(),
            lines == lines_of(input@),
            lines_of(input@.skip(pos as int)) == lines.skip(k),
            total == key_value_lines(lines.take(k), mem_total_key()),
            avail == key_value_lines(lines.take(k), mem_available_key()),
            first_match(lines.take(k), mem_total_key()) is Some ==> total is Some,
            first_match(lines.take(k), mem_available_key()) is Some ==> avail is Some,
            tkey@ == mem_total_key(),
            akey@ == mem_available_key(),
        decreases n - pos,
    {
        let ghost rem = input@.skip(pos as int);
        proof {
            lemma_first_idx(rem, nl_p());
            assert(rem.len() > 0);
            assert(lines_of(rem).len() >= 1);
            assert(lines.skip(k).len() == lines.len() - k);
            assert(k < lines.len());
            assert(lines.skip(k)[0] == lines[k]);
        }
        let end = find_nl(input, pos);
        let line = slice_subrange(input, pos, end);
        proof {
            if end - pos == rem.len() {
                assert(line@ =~= rem);
            } else {
                assert(line@ =~= rem.take(first_nl(rem) as int));
            }
            assert(lines_of(rem)[0] == line@);
            assert(lines[k] == line@);
            assert(lines.take(k + 1) =~= lines.take(k).push(lines[k]));
            lemma_first_match_push(lines.take(k), lines[k], mem_total_key());
            lemma_first_match_push(lines.take(k), lines[k], mem_available_key());
        }
        if starts_with(line, tkey.as_slice()) && total.is_none() {
            match parse_field_value(line) {
                Some(v) => {
                    total = Some(v);
                },
                None => {
                    proof {
                        lemma_first_match_prefix(lines, k + 1, mem_total_key());
                    }
                    return None;
                },
            }
        }
        if starts_with(line, akey.as_slice()) && avail.is_none() {
            match parse_field_value(line) {
                Some(v) => {
                    avail = Some(v);
                },
                None => {
                    proof {
                        lemma_first_match_prefix(lines, k + 1, mem_available_key());
                    }
                    return None;
                },
            }
        }
        proof {
            if end < n {
                assert(rem.skip(first_nl(rem) as int + 1) =~= input@.skip(end + 1));
                assert(lines_of(rem).drop_first() =~= lines_of(rem.skip(first_nl(rem) as int + 1)));
                assert(lines.skip(k).drop_first() =~= lines.skip(k + 1));
            } else {
                assert(end == n);
                assert(first_nl(rem) == rem.len());
                assert(lines_of(rem) == seq![rem]);
                assert(lines.skip(k).len() == 1);
                assert(k + 1 == lines.len());
                assert(input@.skip(n as int).len() == 0);
                assert(lines.skip(k + 1) =~= Seq::<Seq<u8>>::empty());
            }
            k = k + 1;
        }
        pos = if end < n {
            end + 1
        } else {
            n
        };
    }
    proof {
        if pos >= n {
            assert(input@.skip(pos as int).len() == 0);
            assert(lines.skip(k).len() == 0);
            assert(lines.take(k) =~= lines);
        } else {
            assert(total is Some && avail is Some);
            assert(first_match(lines.take(k), mem_total_key()) is Some);
            assert(first_match(lines.take(k), mem_available_key()) is Some);
            lemma_first_match_prefix(lines, k, mem_total_key());
            lemma_first_match_prefix(lines, k, mem_available_key());
        }
    }
    match (total, avail) {
        (Some(t), Some(a)) => {
            if 0 < t && a <= t {
                Some(MemStats { total_kib: t, avail_kib: a })
            } else {
                None
            }
        },
        _ => None,
    }
}

} // verus!
