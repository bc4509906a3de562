//! Whether damage covers so much of the surface that a full redraw is cheaper.
//!
//! The comparison is the one single-precision arithmetic makes: both counts of pixels and the
//! product of the total with the threshold are rounded to a 24-bit significand, ties to even.

use vstd::prelude::*;

verus! {

/// The first whole number that has more digits than a single-precision significand.
pub const SIGNIFICAND_LIMIT: u128 = 0x100_0000;

/// The numerator of the largest share of the surface that is redrawn in parts, over
/// [`SIGNIFICAND_LIMIT`]: the single-precision number nearest to seven tenths.
pub const MAX_DAMAGED_SHARE: u128 = 11744051;

/// The spacing of single-precision numbers at `n`, for a whole number `n`.
pub open spec fn spacing(n: nat) -> nat
    decreases n,
{
    if n < 0x100_0000 {
        1
    } else {
        2 * spacing(n / 2)
    }
}

/// The single-precision number nearest to `n`, and of two equally near the even one.
pub open spec fn rounded(n: nat) -> nat {
    let unit = spacing(n);
    let below = n / unit;
    let rest = n % unit;
    if 2 * rest < unit || (2 * rest == unit && below % 2 == 0) {
        below * unit
    } else {
        (below + 1) * unit
    }
}

/// Whether `damaged` pixels out of `total` are past the share that is worth redrawing in parts.
pub open spec fn past_share(damaged: nat, total: nat) -> bool {
    rounded(damaged) * 0x100_0000 > rounded(rounded(total) * 11744051)
}

proof fn lemma_spacing(n: nat)
    ensures
        spacing(n) >= 1,
        n >= 0x100_0000 ==> spacing(n) * 0x80_0000 <= n,
        n < 0x100_0000 ==> spacing(n) == 1,
    decreases n,
{
    if n >= 0x100_0000 {
        lemma_spacing(n / 2);
        if n / 2 < 0x100_0000 {
            assert(spacing(n / 2) == 1);
        }
    }
}

proof fn lemma_rounded_bound(n: nat)
    ensures
        rounded(n) <= 2 * n,
{
    lemma_spacing(n);
    let unit = spacing(n);
    let below = n / unit;
    if n < 0x100_0000 {
        assert(n % 1 == 0);
        assert(below == n);
    } else {
        assert(below * unit <= n && (below + 1) * unit <= n + unit) by (nonlinear_arith)
            requires
                unit >= 1,
                below == n / unit,
        ;
    }
}

/// The spacing is never coarser than the number has digits for, and it grows by doubling.
proof fn lemma_spacing_grows(smaller: nat, larger: nat)
    requires
        smaller <= larger,
    ensures
        spacing(larger) == spacing(smaller) || spacing(larger) >= 2 * spacing(smaller),
        smaller < 0x100_0000 * spacing(smaller),
        larger >= 0x100_0000 ==> 0x80_0000 * spacing(larger) <= larger,
    decreases larger,
{
    lemma_spacing(smaller);
    lemma_spacing(larger);
    if smaller >= 0x100_0000 {
        lemma_spacing_grows(smaller / 2, larger / 2);
    } else if larger >= 0x100_0000 {
        lemma_spacing(larger / 2);
    }
}

/// A number is rounded by no more than the spacing, and a larger one to no smaller one.
proof fn lemma_rounded_grows(smaller: nat, larger: nat)
    requires
        smaller <= larger,
    ensures
        rounded(smaller) <= rounded(larger),
        rounded(larger) <= larger + spacing(larger),
        larger <= rounded(larger) + spacing(larger),
{
    lemma_spacing_grows(smaller, larger);
    lemma_spacing(smaller);
    lemma_spacing(larger);
    let (fine, coarse) = (spacing(smaller), spacing(larger));
    let (under, below) = (smaller / fine, larger / coarse);
    vstd::arithmetic::div_mod::lemma_fundamental_div_mod(smaller as int, fine as int);
    vstd::arithmetic::div_mod::lemma_fundamental_div_mod(larger as int, coarse as int);
    assert((under + 1) * fine == fine * under + fine) by (nonlinear_arith);
    assert(under * fine == fine * under) by (nonlinear_arith);
    assert((below + 1) * coarse == coarse * below + coarse) by (nonlinear_arith);
    assert(below * coarse == coarse * below) by (nonlinear_arith);
    if fine == coarse {
        assert(under <= below) by (nonlinear_arith)
            requires
                fine >= 1,
                fine * under <= smaller,
                smaller <= larger,
                larger < fine * below + fine,
        ;
        if under < below {
            assert((under + 1) * fine <= below * fine) by (nonlinear_arith)
                requires
                    under + 1 <= below,
            ;
        }
    } else {
        assert(under + 1 <= 0x100_0000) by (nonlinear_arith)
            requires
                fine >= 1,
                fine * under <= smaller,
                smaller < 0x100_0000 * fine,
        ;
        assert((under + 1) * fine <= 0x100_0000 * fine) by (nonlinear_arith)
            requires
                under + 1 <= 0x100_0000,
        ;
        assert(below >= 0x80_0000) by (nonlinear_arith)
            requires
                coarse >= 1,
                0x80_0000 * coarse <= larger,
                larger < coarse * below + coarse,
        ;
        assert(below * coarse >= 0x80_0000 * coarse) by (nonlinear_arith)
            requires
                below >= 0x80_0000,
        ;
    }
}

/// More damage is never a smaller share: what is not past the share for so many pixels is not past
/// it for fewer.
pub proof fn law_share_grows_with_damage(damaged: nat, more: nat, total: nat)
    requires
        damaged <= more,
        past_share(damaged, total),
    ensures
        past_share(more, total),
{
    lemma_rounded_grows(damaged, more);
}

/// Half of the surface, or less, is worth redrawing in parts.
pub proof fn law_half_is_not_past_the_share(damaged: nat, total: nat)
    requires
        2 * damaged <= total,
    ensures
        !past_share(damaged, total),
{
    let nearest = rounded(total);
    let product = nearest * 11744051;
    lemma_rounded_grows(damaged, damaged);
    lemma_rounded_grows(total, total);
    lemma_rounded_grows(product, product);
    lemma_spacing(damaged);
    lemma_spacing(total);
    lemma_spacing(product);
    if damaged < 0x100_0000 {
        assert(rounded(damaged) == damaged);
    }
    if total < 0x100_0000 {
        assert(rounded(total) == total);
    }
    if product < 0x100_0000 {
        assert(rounded(product) == product);
    }
}

/// The single-precision number nearest to `n`.
pub fn round_to_significand(n: u128) -> (nearest: u128)
    requires
        n < 0x1_0000_0000_0000_0000_0000_0000_0000,
    ensures
        nearest == rounded(n as nat),
{
    let mut unit: u128 = 1;
    let mut below: u128 = n;
    proof {
        assert(n / 1 == n);
    }
    while below >= SIGNIFICAND_LIMIT
        invariant
            unit >= 1,
            unit == 1 || unit <= n,
            below * unit <= n,
            below == n / unit,
            spacing(n as nat) == unit * spacing(below as nat),
            n < 0x1_0000_0000_0000_0000_0000_0000_0000,
        decreases below,
    {
        let ghost before = below;
        let ghost at = unit;
        assert(unit * 2 <= n) by (nonlinear_arith)
            requires
                before * unit <= n,
                before >= 2,
                unit >= 1,
                before == below,
        ;
        below = below / 2;
        unit = unit * 2;
        proof {
            assert(below * unit <= n) by (nonlinear_arith)
                requires
                    before * at <= n,
                    below == before / 2,
                    unit == at * 2,
                    at >= 1,
            ;
            vstd::arithmetic::div_mod::lemma_div_denominator(n as int, at as int, 2);
            assert(at * (2 * spacing(below as nat)) == unit * spacing(below as nat))
                by (nonlinear_arith)
                requires
                    unit == at * 2,
            ;
        }
    }
    proof {
        assert(unit * 1 == unit);
        assert(spacing(n as nat) == unit);
        assert((n as nat) % (unit as nat) == n % unit);
        lemma_rounded_bound(n as nat);
    }
    let rest: u128 = n % unit;
    assert((below + 1) * unit <= n + unit) by (nonlinear_arith)
        requires
            below * unit <= n,
    ;
    assert(below * unit >= 0) by (nonlinear_arith);
    if 2 * rest < unit || (2 * rest == unit && below % 2 == 0) {
        below * unit
    } else {
        (below + 1) * unit
    }
}

/// Whether `damaged` pixels out of `total` are past the share that is worth redrawing in parts.
pub fn is_past_share(damaged: u128, total: u128) -> (past: bool)
    requires
        damaged <= 0x10_0000_0000_0000_0000,
        total <= 0x10_0000_0000_0000_0000,
    ensures
        past == past_share(damaged as nat, total as nat),
{
    proof {
        lemma_rounded_bound(damaged as nat);
        lemma_rounded_bound(total as nat);
    }
    let share: u128 = round_to_significand(round_to_significand(total) * MAX_DAMAGED_SHARE);
    round_to_significand(damaged) * SIGNIFICAND_LIMIT > share
}

/// Three quarters of the surface, or more, are past the share that is worth redrawing in parts.
pub proof fn law_three_quarters_are_past_the_share(damaged: nat, total: nat)
    requires
        0 < total,
        3 * total <= 4 * damaged,
    ensures
        past_share(damaged, total),
{
    let nearest = rounded(total);
    let product = nearest * 11744051;
    lemma_rounded_grows(damaged, damaged);
    lemma_rounded_grows(total, total);
    lemma_rounded_grows(product, product);
    lemma_spacing(damaged);
    lemma_spacing(total);
    lemma_spacing(product);
    if damaged < 0x100_0000 {
        assert(rounded(damaged) == damaged);
    }
    if total < 0x100_0000 {
        assert(rounded(total) == total);
    }
    if product < 0x100_0000 {
        assert(rounded(product) == product);
    }
}

/// A number that has no more than twenty-four binary digits is its own nearest, and no number is
/// further from its nearest than its last digit counts.
pub proof fn law_rounding_is_close(n: nat)
    ensures
        n <= 0x100_0000 ==> rounded(n) == n,
        n - n / 0x80_0000 <= rounded(n) <= n + n / 0x80_0000,
{
    lemma_rounded_grows(n, n);
    lemma_spacing(n);
    if n < 0x100_0000 {
        assert(rounded(n) == n);
    } else {
        let unit = spacing(n);
        assert(unit <= n / 0x80_0000) by (nonlinear_arith)
            requires
                unit * 0x80_0000 <= n,
        ;
        if n == 0x100_0000 {
            reveal_with_fuel(spacing, 3);
        }
    }
}

} // verus!
