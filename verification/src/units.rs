//! Fixed-point unit conversions for the report: kibibytes to hundredths of a
//! gibibyte, a used/whole ratio to tenths of a percent, and uptime seconds to
//! whole hours and minutes — together with their decimal rendering.

use vstd::prelude::*;
use vstd::string::StringExecFns;
use vstd::arithmetic::div_mod::lemma_fundamental_div_mod;
use vstd::arithmetic::div_mod::lemma_mod_bound;
use crate::digits::dec_str;
use crate::digits::u64_to_dec;

verus! {

/// Hundredths of a gibibyte that `kib` kibibytes amount to, rounded to the
/// nearest hundredth with ties rounded up.
pub open spec fn gib_hundredths(kib: nat) -> nat {
    (kib * 100 + 524288) / 1048576
}

/// Tenths of a percent that `part` is of `whole`, rounded to the nearest
/// tenth with ties rounded up (meaningful for `whole > 0`).
pub open spec fn percent_tenths(part: nat, whole: nat) -> nat {
    (part * 2000 + whole) / (2 * whole)
}

/// The rounding of `gib_hundredths` never strays by more than half a
/// hundredth: `kib * 100 + 524288` lies within one divisor width of
/// `gib_hundredths(kib) * 1048576`.
pub proof fn lemma_gib_hundredths_accurate(kib: nat)
    ensures
        gib_hundredths(kib) * 1048576 <= kib * 100 + 524288,
        kib * 100 + 524288 < (gib_hundredths(kib) + 1) * 1048576,
{
    let w = (kib * 100 + 524288) as int;
    lemma_fundamental_div_mod(w, 1048576);
    lemma_mod_bound(w, 1048576);
    let q = w / 1048576;
    assert(w == 1048576 * q + w % 1048576);
    assert(gib_hundredths(kib) == q);
    assert((q + 1) * 1048576 == 1048576 * q + 1048576) by (nonlinear_arith);
    assert(q * 1048576 == 1048576 * q) by (nonlinear_arith);
}

/// The rounding of `percent_tenths` never strays by more than half a tenth:
/// `part * 2000 + whole` lies within one divisor width of
/// `percent_tenths(part, whole) * (2 * whole)`.
pub proof fn lemma_percent_tenths_accurate(part: nat, whole: nat)
    requires
        0 < whole,
    ensures
        percent_tenths(part, whole) * (2 * whole) <= part * 2000 + whole,
        part * 2000 + whole < (percent_tenths(part, whole) + 1) * (2 * whole),
{
    let w = (part * 2000 + whole) as int;
    let d = (2 * whole) as int;
    lemma_fundamental_div_mod(w, d);
    lemma_mod_bound(w, d);
    let q = w / d;
    assert(w == d * q + w % d);
    assert(percent_tenths(part, whole) == q);
    assert((q + 1) * d == d * q + d) by (nonlinear_arith);
    assert(q * d == d * q) by (nonlinear_arith);
}

pub fn gib_hundredths_u64(kib: u64) -> (r: u64)
    ensures
        r as nat == gib_hundredths(kib as nat),
{
    let wide: u128 = (kib as u128) * 100 + 524288;
    let q: u128 = wide / 1048576;
    proof {
        let w = wide as int;
        let qi = w / 1048576;
        lemma_fundamental_div_mod(w, 1048576);
        lemma_mod_bound(w, 1048576);
        assert(1048576 * qi <= w);
        assert(w <= u64::MAX as int * 100 + 524288);
        assert(qi <= u64::MAX as int) by (nonlinear_arith)
            requires
                1048576 * qi <= w,
                w <= u64::MAX as int * 100 + 524288,
        ;
    }
    q as u64
}

pub fn percent_tenths_u64(part: u64, whole: u64) -> (r: u64)
    requires
        0 < whole,
        part <= whole,
    ensures
        r as nat == percent_tenths(part as nat, whole as nat),
        r <= 1000,
{
    let wide: u128 = (part as u128) * 2000 + (whole as u128);
    let divisor: u128 = 2 * (whole as u128);
    let q: u128 = wide / divisor;
    proof {
        let w = wide as int;
        let d = divisor as int;
        let qi = w / d;
        lemma_fundamental_div_mod(w, d);
        lemma_mod_bound(w, d);
        assert(d * qi <= w);
        assert(w <= 2001 * (whole as int));
        assert(qi <= 1000) by (nonlinear_arith)
            requires
                d == 2 * (whole as int),
                0 < whole as int,
                d * qi <= w,
                w <= 2001 * (whole as int),
        ;
        assert(qi >= 0) by (nonlinear_arith)
            requires
                d * qi + w % d == w,
                0 <= w % d < d,
                0 < d,
                0 <= w,
        ;
    }
    q as u64
}

/// `h` hundredths rendered as a decimal number with two fractional digits.
pub open spec fn two_dec_str(h: nat) -> Seq<char> {
    dec_str(h / 100) + "."@ + pad2_str(h % 100)
}

/// A value below 100 as exactly two digits.
pub open spec fn pad2_str(f: nat) -> Seq<char> {
    if f < 10 {
        "0"@ + dec_str(f)
    } else {
        dec_str(f)
    }
}

/// `t` tenths rendered as a decimal number with one fractional digit.
pub open spec fn one_dec_str(t: nat) -> Seq<char> {
    dec_str(t / 10) + "."@ + dec_str(t % 10)
}

pub fn render_two_dec(h: u64) -> (r: String)
    ensures
        r@ == two_dec_str(h as nat),
{
    let mut r = u64_to_dec(h / 100);
    r.append(".");
    if h % 100 < 10 {
        r.append("0");
    }
    let frac = u64_to_dec(h % 100);
    r.append(frac.as_str());
    proof {
        assert(r@ =~= two_dec_str(h as nat));
    }
    r
}

pub fn render_one_dec(t: u64) -> (r: String)
    ensures
        r@ == one_dec_str(t as nat),
{
    let mut r = u64_to_dec(t / 10);
    r.append(".");
    let frac = u64_to_dec(t % 10);
    r.append(frac.as_str());
    proof {
        assert(r@ =~= one_dec_str(t as nat));
    }
    r
}

/// Uptime in seconds rendered as whole hours and leftover minutes:
/// `hours = secs div 3600`, `minutes = (secs div 60) mod 60`.
pub open spec fn uptime_str(secs: u64) -> Seq<char> {
    dec_str((secs as nat) / 3600) + " hours, "@ + dec_str(((secs as nat) / 60) % 60) + " minutes"@
}

pub fn render_uptime(secs: u64) -> (r: String)
    ensures
        r@ == uptime_str(secs),
{
    let hours = secs / 3600;
    let minutes = (secs / 60) % 60;
    let mut r = u64_to_dec(hours);
    r.append(" hours, ");
    let m = u64_to_dec(minutes);
    r.append(m.as_str());
    r.append(" minutes");
    proof {
        assert(r@ =~= uptime_str(secs));
    }
    r
}

} // verus!
