//! Numbers and texts as the report shows them.
use vstd::prelude::*;
use vstd::slice::slice_subrange;

use crate::text;

verus! {

broadcast use vstd::string::group_string_axioms;

// ---------------------------------------------------------------------------
// Sizes
// ---------------------------------------------------------------------------

/// `n / d` rounded to the nearest whole number, and to the even one from the middle.
pub open spec fn half_even(n: nat, d: nat) -> nat {
    let q = n / d;
    let r = n % d;
    if 2 * r > d || (2 * r == d && q % 2 == 1) {
        q + 1
    } else {
        q
    }
}

/// The numbers below this one have an exact double-precision value.
pub const EXACT_LIMIT: u64 = 0x20_0000_0000_0000;

/// The number that the nearest double-precision value stands for: 53 binary digits are kept. The
/// last of them is worth at least `unit`.
pub open spec fn nearest_double(n: nat, unit: nat) -> nat
    decreases n, (n - unit),
{
    if unit == 0 || n < EXACT_LIMIT * unit {
        half_even(n, unit) * unit
    } else {
        nearest_double(n, 2 * unit)
    }
}

/// A kibibyte.
pub const KB: u64 = 0x400;

/// A mebibyte.
pub const MB: u64 = 0x10_0000;

/// A gibibyte.
pub const GB: u64 = 0x4000_0000;

/// A tebibyte.
pub const TB: u64 = 0x100_0000_0000;

/// A number of tenths with its decimal point.
pub open spec fn tenths_text(t: nat) -> Seq<char> {
    text::decimal(t / 10) + "."@ + text::decimal(t % 10)
}

/// A size in a unit, with one digit behind the point.
pub open spec fn in_unit(bytes: nat, unit: nat) -> Seq<char> {
    tenths_text(half_even(nearest_double(bytes, 1) * 10, unit))
}

/// A size in the largest unit that it reaches.
pub open spec fn size_text(bytes: nat) -> Seq<char> {
    if bytes >= TB {
        in_unit(bytes, TB as nat) + " TB"@
    } else if bytes >= GB {
        in_unit(bytes, GB as nat) + " GB"@
    } else if bytes >= MB {
        in_unit(bytes, MB as nat) + " MB"@
    } else if bytes >= KB {
        in_unit(bytes, KB as nat) + " KB"@
    } else {
        text::decimal(bytes) + " B"@
    }
}

fn round_half_even(n: u128, d: u128) -> (r: u128)
    requires
        0 < d <= 0x1_0000_0000_0000_0000,
    ensures
        r == half_even(n as nat, d as nat),
        r <= n / d + 1,
{
    let q: u128 = n / d;
    let rest: u128 = n % d;
    if 2 * rest > d || (2 * rest == d && q % 2 == 1) {
        assert(q < u128::MAX) by {
            assert(d > 1);
            assert(q <= n / 2) by (nonlinear_arith)
                requires
                    q == n / d,
                    d > 1,
            ;
        }
        q + 1
    } else {
        q
    }
}

fn as_double(n: u64) -> (r: u128)
    ensures
        r == nearest_double(n as nat, 1),
        r <= 0x2_0000_0000_0000_0000,
{
    let mut unit: u128 = 1;
    while n as u128 >= EXACT_LIMIT as u128 * unit
        invariant
            1 <= unit <= 0x1000,
            nearest_double(n as nat, 1) == nearest_double(n as nat, unit as nat),
        decreases 0x2000 - unit,
    {
        assert(unit < 0x800) by (nonlinear_arith)
            requires
                n as u128 >= EXACT_LIMIT as u128 * unit,
                n <= u64::MAX,
                EXACT_LIMIT == 0x20_0000_0000_0000u64,
        ;
        unit = unit * 2;
    }
    let q: u128 = round_half_even(n as u128, unit);
    proof {
        assert(q <= EXACT_LIMIT && q * unit <= 0x2_0000_0000_0000_0000) by {
            assert(n as u128 / unit < EXACT_LIMIT) by (nonlinear_arith)
                requires
                    (n as u128) < EXACT_LIMIT as u128 * unit,
                    unit >= 1,
            ;
            assert(q * unit <= 0x20_0000_0000_0000 * 0x1000) by (nonlinear_arith)
                requires
                    q <= 0x20_0000_0000_0000,
                    unit <= 0x1000,
            ;
        }
    }
    q * unit
}

fn unit_text(bytes: u64, unit: u64, name: &str) -> (r: String)
    requires
        unit >= KB,
    ensures
        r@ == in_unit(bytes as nat, unit as nat) + name@,
{
    let value: u128 = as_double(bytes);
    let tenths: u128 = round_half_even(value * 10, unit as u128);
    proof {
        let ten: int = value * 10;
        assert(ten / (unit as int) <= 0xa000_0000_0000_0000) by (nonlinear_arith)
            requires
                unit >= 0x400,
                0 <= ten <= 0x14_0000_0000_0000_0000,
        ;
    }
    let mut out = text::decimal_text((tenths / 10) as u64);
    out.append(".");
    out.append(text::decimal_text((tenths % 10) as u64).as_str());
    out.append(name);
    out
}

/// A size in bytes as the report shows it.
pub fn format_bytes(bytes: u64) -> (r: String)
    ensures
        r@ == size_text(bytes as nat),
{
    if bytes >= TB {
        unit_text(bytes, TB, " TB")
    } else if bytes >= GB {
        unit_text(bytes, GB, " GB")
    } else if bytes >= MB {
        unit_text(bytes, MB, " MB")
    } else if bytes >= KB {
        unit_text(bytes, KB, " KB")
    } else {
        text::concat(text::decimal_text(bytes).as_str(), " B")
    }
}

/// Sizes below 9007199254740992 bytes are shown to the nearest tenth of their unit.
pub proof fn law_sizes_are_rounded_to_the_nearest_tenth(bytes: u64, unit: u64)
    requires
        bytes < EXACT_LIMIT,
        unit > 0,
    ensures
        in_unit(bytes as nat, unit as nat) == tenths_text(
            half_even(bytes as nat * 10, unit as nat),
        ),
        -(unit as int) <= 2 * (half_even(bytes as nat * 10, unit as nat) * unit - bytes * 10)
            <= unit as int,
{
    let n = bytes as nat;
    assert(half_even(n, 1) == n) by {
        assert(n % 1 == 0 && n / 1 == n);
    }
    assert(nearest_double(n, 1) == n);
    let q = (n * 10) / (unit as nat);
    let r = (n * 10) % (unit as nat);
    vstd::arithmetic::div_mod::lemma_fundamental_div_mod((n * 10) as int, unit as int);
    assert((q + 1) * unit == q * unit + unit) by (nonlinear_arith);
    assert(q * unit == unit * q) by (nonlinear_arith);
}

// ---------------------------------------------------------------------------
// Texts
// ---------------------------------------------------------------------------

/// A text cut to a width; a text that is cut ends in an ellipsis.
pub open spec fn truncated(s: Seq<char>, max: nat) -> Seq<char> {
    if s.len() <= max {
        s
    } else {
        s.take(if max == 0 {
            0
        } else {
            max - 1
        }).push('…')
    }
}

/// A text cut to a width.
pub fn truncate_str(s: &str, max: usize) -> (r: String)
    ensures
        r@ == truncated(s@, max as nat),
{
    let chars = text::to_chars(s);
    if chars.len() <= max {
        return s.to_owned();
    }
    let n: usize = if max == 0 {
        0
    } else {
        max - 1
    };
    let kept = slice_subrange(chars.as_slice(), 0, n);
    assert(kept@ =~= s@.take(n as int));
    let mut out = text::from_chars(kept);
    out.push('…');
    out
}

/// A text that is cut keeps to its width, and one that fits is not cut.
pub proof fn law_truncation(s: Seq<char>, max: nat)
    ensures
        max > 0 ==> truncated(s, max).len() <= max,
        s.len() <= max ==> truncated(s, max) == s,
        truncated(truncated(s, max), max) == truncated(s, max) || max == 0,
{
}

/// A size is shown in the largest unit that it reaches, each unit being 1024 of the one before, and
/// below the first in whole bytes.
pub proof fn law_the_unit_of_a_size(bytes: nat)
    ensures
        bytes < 1024 ==> size_text(bytes) == text::decimal(bytes) + " B"@,
        1024 <= bytes < 1024 * 1024 ==> size_text(bytes) == in_unit(bytes, 1024) + " KB"@,
        1024 * 1024 <= bytes < 1024 * 1024 * 1024 ==> size_text(bytes) == in_unit(
            bytes,
            1024 * 1024,
        ) + " MB"@,
        1024 * 1024 * 1024 <= bytes < 1024 * 1024 * 1024 * 1024 ==> size_text(bytes) == in_unit(
            bytes,
            1024 * 1024 * 1024,
        ) + " GB"@,
        1024 * 1024 * 1024 * 1024 <= bytes ==> size_text(bytes) == in_unit(
            bytes,
            1024 * 1024 * 1024 * 1024,
        ) + " TB"@,
{
}

/// A whole number of units is shown as that number, with a zero behind the point, and the tenths
/// that a size is rounded to are shown behind the point.
pub proof fn law_tenths(whole: nat, tenth: nat)
    requires
        tenth < 10,
    ensures
        tenths_text(whole * 10 + tenth) == text::decimal(whole) + "."@ + text::decimal(tenth),
{
    assert((whole * 10 + tenth) / 10 == whole && (whole * 10 + tenth) % 10 == tenth);
}

/// Halves are rounded to the even neighbour, and everything else to the nearest number.
pub proof fn law_halves_are_rounded_to_even(n: nat, d: nat)
    requires
        d > 0,
    ensures
        ({
            let q = half_even(n, d);
            &&& -(d as int) <= 2 * (q * d - n) <= d
            &&& 2 * (q * d - n) == d || 2 * (q * d - n) == -(d as int) ==> q % 2 == 0
        }),
{
    let q = n / d;
    vstd::arithmetic::div_mod::lemma_fundamental_div_mod(n as int, d as int);
    assert((q + 1) * d == q * d + d) by (nonlinear_arith);
    assert(q * d == d * q) by (nonlinear_arith);
}

/// A text that is cut is as long as its width allows: it starts with the same characters, and its
/// last one is an ellipsis.
pub proof fn law_what_is_cut(s: Seq<char>, max: nat, i: int)
    requires
        0 < max < s.len(),
    ensures
        truncated(s, max).len() == max,
        truncated(s, max).last() == '…',
        0 <= i < max - 1 ==> truncated(s, max)[i] == s[i],
{
}

/// Sizes that take more than 53 binary digits are off by at most one part in 9007199254740992 before
/// they are rounded to tenths; smaller ones are exact.
pub proof fn law_large_sizes_are_nearly_exact(n: nat)
    ensures
        n < EXACT_LIMIT ==> nearest_double(n, 1) == n,
        EXACT_LIMIT * (nearest_double(n, 1) - n) <= n,
        EXACT_LIMIT * (n - nearest_double(n, 1)) <= n,
{
    if n < EXACT_LIMIT {
        assert(n % 1 == 0 && n / 1 == n);
        assert(half_even(n, 1) == n);
    } else {
        lemma_nearly(n, 1);
    }
}

proof fn lemma_nearly(n: nat, unit: nat)
    requires
        unit > 0,
        2 * n >= EXACT_LIMIT * unit,
    ensures
        EXACT_LIMIT * (nearest_double(n, unit) - n) <= n,
        EXACT_LIMIT * (n - nearest_double(n, unit)) <= n,
    decreases n, (n - unit),
{
    if n < EXACT_LIMIT * unit {
        law_halves_are_rounded_to_even(n, unit);
        let e = half_even(n, unit) * unit - n;
        assert(-(unit as int) <= 2 * e <= unit);
    } else {
        assert(EXACT_LIMIT * (2 * unit) == 2 * (EXACT_LIMIT * unit)) by (nonlinear_arith);
        lemma_nearly(n, 2 * unit);
    }
}

/// Without any room, what is left of a text is the ellipsis alone.
pub proof fn law_no_room(s: Seq<char>)
    ensures
        s.len() > 0 ==> truncated(s, 0) == seq!['…'],
        s.len() == 0 ==> truncated(s, 0) == s,
{
    if s.len() > 0 {
        assert(truncated(s, 0) =~= seq!['…']);
    }
}

} // verus!
