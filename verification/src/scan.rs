//! Byte-level text scanning shared by the parsers: lines, whitespace
//! fields, first-match lookup over lines, and decimal number parsing.

use vstd::prelude::*;
use vstd::slice::slice_index_get;
use vstd::slice::slice_subrange;

verus! {

/// ASCII whitespace, as the field splitting of the text sources uses it.
pub open spec fn is_ws(b: u8) -> bool {
    b == 32 || b == 9 || b == 10 || b == 13 || b == 11 || b == 12
}

/// Index of the first byte of `s` satisfying `p`, or `s.len()` if none does.
pub open spec fn first_idx(s: Seq<u8>, p: spec_fn(u8) -> bool) -> nat
    decreases s.len(),
{
    if s.len() == 0 {
        0
    } else if p(s[0]) {
        0
    } else {
        1 + first_idx(s.drop_first(), p)
    }
}

/// The newline predicate.
pub open spec fn nl_p() -> spec_fn(u8) -> bool {
    |b: u8| b == 10
}

/// The whitespace predicate.
pub open spec fn ws_p() -> spec_fn(u8) -> bool {
    |b: u8| is_ws(b)
}

/// The non-whitespace predicate.
pub open spec fn nonws_p() -> spec_fn(u8) -> bool {
    |b: u8| !is_ws(b)
}

/// Index of the first newline of `s`, or `s.len()`.
pub open spec fn first_nl(s: Seq<u8>) -> nat {
    first_idx(s, nl_p())
}

pub proof fn lemma_first_idx(s: Seq<u8>, p: spec_fn(u8) -> bool)
    ensures
        first_idx(s, p) <= s.len(),
        forall|i: int| 0 <= i < first_idx(s, p) ==> !p(s[i]),
        first_idx(s, p) < s.len() ==> p(s[first_idx(s, p) as int]),
    decreases s.len(),
{
    if s.len() == 0 {
    } else if p(s[0]) {
    } else {
        lemma_first_idx(s.drop_first(), p);
        assert forall|i: int| 0 <= i < first_idx(s, p) implies !p(s[i]) by {
            if i > 0 {
                assert(s[i] == s.drop_first()[i - 1]);
            }
        }
        if first_idx(s, p) < s.len() {
            assert(s[first_idx(s, p) as int] == s.drop_first()[first_idx(s.drop_first(), p) as int]);
        }
    }
}

/// The three properties of `lemma_first_idx` pin the index down.
pub proof fn lemma_first_idx_char(s: Seq<u8>, p: spec_fn(u8) -> bool, n: nat)
    requires
        n <= s.len(),
        forall|i: int| 0 <= i < n ==> !p(s[i]),
        n < s.len() ==> p(s[n as int]),
    ensures
        first_idx(s, p) == n,
{
    lemma_first_idx(s, p);
    let m = first_idx(s, p);
    if m < n {
        assert(!p(s[m as int]));
    } else if n < m {
        assert(!p(s[n as int]));
    }
}

/// The lines of `s`: maximal newline-free spans; a trailing newline closes
/// the last line rather than opening an empty one.
pub open spec fn lines_of(s: Seq<u8>) -> Seq<Seq<u8>>
    decreases s.len(),
{
    if s.len() == 0 {
        Seq::empty()
    } else if first_nl(s) >= s.len() {
        seq![s]
    } else {
        seq![s.take(first_nl(s) as int)] + lines_of(s.skip(first_nl(s) as int + 1))
    }
}

/// The first line of `ls` that begins with `key`.
pub open spec fn first_match(ls: Seq<Seq<u8>>, key: Seq<u8>) -> Option<Seq<u8>>
    decreases ls.len(),
{
    if ls.len() == 0 {
        None
    } else if key.is_prefix_of(ls[0]) {
        Some(ls[0])
    } else {
        first_match(ls.drop_first(), key)
    }
}

/// An ASCII decimal digit.
pub open spec fn is_digit(b: u8) -> bool {
    48 <= b && b <= 57
}

/// The number the digit string `s` denotes.
pub open spec fn digits_val(s: Seq<u8>) -> nat
    decreases s.len(),
{
    if s.len() == 0 {
        0
    } else {
        (digits_val(s.drop_last()) * 10 + (s.last() - 48)) as nat
    }
}

/// A non-empty, all-digit field that fits in a `u64`; anything else fails.
pub open spec fn parse_u64(s: Seq<u8>) -> Option<u64> {
    if s.len() > 0 && (forall|i: int| 0 <= i < s.len() ==> is_digit(s[i])) && digits_val(s)
        <= u64::MAX {
        Some(digits_val(s) as u64)
    } else {
        None
    }
}

/// The second whitespace-delimited field of `line`, if it has one.
pub open spec fn second_field(line: Seq<u8>) -> Option<Seq<u8>> {
    let a = line.skip(first_idx(line, nonws_p()) as int);
    let b = a.skip(first_idx(a, ws_p()) as int);
    let c = b.skip(first_idx(b, nonws_p()) as int);
    if c.len() == 0 {
        None
    } else {
        Some(c.take(first_idx(c, ws_p()) as int))
    }
}

/// The number in `line`'s second field.
pub open spec fn field_value(line: Seq<u8>) -> Option<u64> {
    match second_field(line) {
        None => None,
        Some(f) => parse_u64(f),
    }
}

/// The value recorded for `key`: the parsed second field of the first line
/// beginning with `key`.
pub open spec fn key_value_lines(ls: Seq<Seq<u8>>, key: Seq<u8>) -> Option<u64> {
    match first_match(ls, key) {
        None => None,
        Some(l) => field_value(l),
    }
}

/// Appending a line never disturbs an already-found first match; a fresh
/// line matters only where no earlier line matched.
pub proof fn lemma_first_match_push(ls: Seq<Seq<u8>>, l: Seq<u8>, key: Seq<u8>)
    ensures
        first_match(ls.push(l), key) == if first_match(ls, key) is Some {
            first_match(ls, key)
        } else if key.is_prefix_of(l) {
            Some(l)
        } else {
            None
        },
    decreases ls.len(),
{
    if ls.len() == 0 {
        assert(ls.push(l)[0] == l);
        assert(ls.push(l).drop_first() =~= Seq::<Seq<u8>>::empty());
    } else {
        assert(ls.push(l)[0] == ls[0]);
        assert(ls.push(l).drop_first() =~= ls.drop_first().push(l));
        lemma_first_match_push(ls.drop_first(), l, key);
    }
}

/// Once a prefix of the lines holds a match, the rest of the lines cannot
/// change it.
pub proof fn lemma_first_match_prefix(ls: Seq<Seq<u8>>, k: int, key: Seq<u8>)
    requires
        0 <= k <= ls.len(),
        first_match(ls.take(k), key) is Some,
    ensures
        first_match(ls, key) == first_match(ls.take(k), key),
    decreases k,
{
    if k == 0 {
        assert(ls.take(0) =~= Seq::<Seq<u8>>::empty());
    } else {
        assert(ls.take(k)[0] == ls[0]);
        if !key.is_prefix_of(ls[0]) {
            assert(ls.take(k).drop_first() =~= ls.drop_first().take(k - 1));
            lemma_first_match_prefix(ls.drop_first(), k - 1, key);
        }
    }
}

/// A digit string is worth at least any of its prefixes.
pub proof fn lemma_digits_val_prefix_le(s: Seq<u8>, i: int)
    requires
        0 <= i <= s.len(),
        forall|j: int| 0 <= j < s.len() ==> is_digit(s[j]),
    ensures
        digits_val(s.take(i)) <= digits_val(s),
    decreases s.len(),
{
    if i == s.len() {
        assert(s.take(i) =~= s);
    } else {
        assert(s.drop_last().take(i) =~= s.take(i));
        assert(forall|j: int| 0 <= j < s.drop_last().len() ==> is_digit(#[trigger] s.drop_last()[j]));
        lemma_digits_val_prefix_le(s.drop_last(), i);
        assert(is_digit(s.last()));
        assert(digits_val(s) == digits_val(s.drop_last()) * 10 + (s.last() - 48));
    }
}

pub(crate) fn is_ws_byte(b: u8) -> (r: bool)
    ensures
        r == is_ws(b),
{
    b == 32 || b == 9 || b == 10 || b == 13 || b == 11 || b == 12
}

/// First index at or past `from` holding a newline, or the length.
pub(crate) fn find_nl(s: &[u8], from: usize) -> (r: usize)
    requires
        from <= s@.len(),
    ensures
        from <= r <= s@.len(),
        r - from == first_idx(s@.skip(from as int), nl_p()),
{
    let n = s.len();
    let mut i = from;
    while i < n && *slice_index_get(s, i) != 10
        invariant
            from <= i <= n,
            n == s@.len(),
            forall|j: int| from <= j < i ==> s@[j] != 10,
        decreases n - i,
    {
        i += 1;
    }
    proof {
        let rem = s@.skip(from as int);
        assert forall|j: int| 0 <= j < i - from implies !(nl_p()(rem[j])) by {
            assert(rem[j] == s@[from + j]);
        }
        if i - from < rem.len() {
            assert(rem[i - from] == s@[i as int]);
        }
        lemma_first_idx_char(rem, nl_p(), (i - from) as nat);
    }
    i
}

/// First index at or past `from` holding whitespace, or the length.
pub(crate) fn find_ws(s: &[u8], from: usize) -> (r: usize)
    requires
        from <= s@.len(),
    ensures
        from <= r <= s@.len(),
        r - from == first_idx(s@.skip(from as int), ws_p()),
{
    let n = s.len();
    let mut i = from;
    while i < n && !is_ws_byte(*slice_index_get(s, i))
        invariant
            from <= i <= n,
            n == s@.len(),
            forall|j: int| from <= j < i ==> !is_ws(s@[j]),
        decreases n - i,
    {
        i += 1;
    }
    proof {
        let rem = s@.skip(from as int);
        assert forall|j: int| 0 <= j < i - from implies !(ws_p()(rem[j])) by {
            assert(rem[j] == s@[from + j]);
        }
        if i - from < rem.len() {
            assert(rem[i - from] == s@[i as int]);
        }
        lemma_first_idx_char(rem, ws_p(), (i - from) as nat);
    }
    i
}

/// First index at or past `from` holding non-whitespace, or the length.
pub(crate) fn find_nonws(s: &[u8], from: usize) -> (r: usize)
    requires
        from <= s@.len(),
    ensures
        from <= r <= s@.len(),
        r - from == first_idx(s@.skip(from as int), nonws_p()),
{
    let n = s.len();
    let mut i = from;
    while i < n && is_ws_byte(*slice_index_get(s, i))
        invariant
            from <= i <= n,
            n == s@.len(),
            forall|j: int| from <= j < i ==> is_ws(s@[j]),
        decreases n - i,
    {
        i += 1;
    }
    proof {
        let rem = s@.skip(from as int);
        assert forall|j: int| 0 <= j < i - from implies !(nonws_p()(rem[j])) by {
            assert(rem[j] == s@[from + j]);
        }
        if i - from < rem.len() {
            assert(rem[i - from] == s@[i as int]);
        }
        lemma_first_idx_char(rem, nonws_p(), (i - from) as nat);
    }
    i
}

/// Parse a non-empty all-digit slice as a `u64`; anything else is `None`.
pub(crate) fn parse_digits(s: &[u8]) -> (r: Option<u64>)
    ensures
        r == parse_u64(s@),
{
    let n = s.len();
    if n == 0 {
        return None;
    }
    let mut acc: u64 = 0;
    let mut i: usize = 0;
    while i < n
        invariant
            0 <= i <= n,
            n == s@.len(),
            forall|j: int| 0 <= j < i ==> is_digit(s@[j]),
            acc as nat == digits_val(s@.take(i as int)),
        decreases n - i,
    {
        let b = *slice_index_get(s, i);
        if b < 48 || b > 57 {
            assert(!is_digit(s@[i as int]));
            return None;
        }
        let d = (b - 48) as u64;
        proof {
            assert(s@.take(i + 1).drop_last() =~= s@.take(i as int));
            assert(s@.take(i + 1).last() == s@[i as int]);
        }
        let next = match acc.checked_mul(10) {
            Some(m) => m.checked_add(d),
            None => None,
        };
        match next {
            Some(v) => {
                acc = v;
            },
            None => {
                proof {
                    assert(digits_val(s@.take(i + 1)) > u64::MAX);
                    if forall|j: int| 0 <= j < s@.len() ==> is_digit(s@[j]) {
                        lemma_digits_val_prefix_le(s@, i + 1);
                        assert(digits_val(s@) > u64::MAX);
                    }
                }
                return None;
            },
        }
        i += 1;
    }
    proof {
        assert(s@.take(n as int) =~= s@);
    }
    Some(acc)
}

/// Does `line` begin with `key`?
pub(crate) fn starts_with(line: &[u8], key: &[u8]) -> (r: bool)
    ensures
        r == key@.is_prefix_of(line@),
{
    let kn = key.len();
    if line.len() < kn {
        return false;
    }
    let mut i: usize = 0;
    while i < kn
        invariant
            0 <= i <= kn,
            kn == key@.len(),
            kn <= line@.len(),
            forall|j: int| 0 <= j < i ==> key@[j] == line@[j],
        decreases kn - i,
    {
        if *slice_index_get(key, i) != *slice_index_get(line, i) {
            proof {
                assert(line@.subrange(0, kn as int)[i as int] == line@[i as int]);
            }
            return false;
        }
        i += 1;
    }
    proof {
        assert(key@ =~= line@.subrange(0, kn as int));
    }
    true
}

/// Parse the number in `line`'s second whitespace-delimited field.
pub(crate) fn parse_field_value(line: &[u8]) -> (r: Option<u64>)
    ensures
        r == field_value(line@),
{
    let a_idx = find_nonws(line, 0);
    let b_idx = find_ws(line, a_idx);
    let c_idx = find_nonws(line, b_idx);
    proof {
        let lv = line@;
        assert(lv.skip(0) =~= lv);
        let a = lv.skip(a_idx as int);
        assert(a.skip((b_idx - a_idx) as int) =~= lv.skip(b_idx as int));
        let b = lv.skip(b_idx as int);
        assert(b.skip((c_idx - b_idx) as int) =~= lv.skip(c_idx as int));
    }
    if c_idx == line.len() {
        proof {
            assert(line@.skip(c_idx as int).len() == 0);
        }
        return None;
    }
    let d_idx = find_ws(line, c_idx);
    let tok = slice_subrange(line, c_idx, d_idx);
    proof {
        let c = line@.skip(c_idx as int);
        assert(c.take((d_idx - c_idx) as int) =~= line@.subrange(c_idx as int, d_idx as int));
    }
    parse_digits(tok)
}

} // verus!
