//! The split of the base fee between what is burned and what the block author
//! gets. The burned part is a percentage of the fee, computed by the
//! `Perbill` type of the `sp-runtime` crate.

use vstd::prelude::*;

verus! {

/// The percentage of the base fee that is burned.
pub const BURN_PERCENT: u32 = 50;

/// `percent` as parts per billion; more than 100 percent count as 100.
pub open spec fn parts_per_billion(percent: u32) -> nat {
    if percent > 100 {
        1_000_000_000
    } else {
        (percent * 10_000_000) as nat
    }
}

/// `percent` percent of `amount`, rounded to the nearest whole number, and
/// down where two are as near: the whole billions of `amount` are multiplied
/// by the parts per billion, and what is left of `amount` is multiplied,
/// divided by a billion and rounded.
pub open spec fn percent_of(percent: u32, amount: u128) -> nat {
    let part = parts_per_billion(percent);
    let whole = amount as nat / 1_000_000_000;
    let rest = amount as nat % 1_000_000_000;
    whole * part + (rest * part) / 1_000_000_000 + if (rest * part) % 1_000_000_000
        > 500_000_000 {
        1nat
    } else {
        0nat
    }
}

/// Multiplies `amount` by `Perbill::from_percent(percent)`. Trusted: the
/// product is `percent` percent of `amount`, computed and rounded as
/// [`percent_of`] says.
#[verifier::external_body]
pub(crate) fn perbill_mul(percent: u32, amount: u128) -> (out: u128)
    ensures
        out == percent_of(percent, amount),
{
    sp_runtime::Perbill::from_percent(percent) * amount
}

/// Half of an amount, rounded as the percentage is, is half of it rounded
/// down.
pub proof fn lemma_half(amount: u128)
    ensures
        percent_of(BURN_PERCENT, amount) == amount / 2,
{
    let a = amount as int;
    let whole = a / 1_000_000_000;
    let rest = a % 1_000_000_000;
    let half = rest / 2;
    let odd = rest % 2;
    assert(a == whole * 1_000_000_000 + rest);
    assert(rest == 2 * half + odd);
    assert(rest * 500_000_000 == half * 1_000_000_000 + odd * 500_000_000) by (nonlinear_arith)
        requires
            rest == 2 * half + odd,
    ;
    assert((rest * 500_000_000) / 1_000_000_000 == half && (rest * 500_000_000) % 1_000_000_000
        == odd * 500_000_000) by {
        vstd::arithmetic::div_mod::lemma_fundamental_div_mod_converse(
            rest * 500_000_000,
            1_000_000_000,
            half,
            odd * 500_000_000,
        );
    }
    assert(a == 2 * (whole * 500_000_000 + half) + odd) by (nonlinear_arith)
        requires
            a == whole * 1_000_000_000 + rest,
            rest == 2 * half + odd,
    ;
    assert(a / 2 == whole * 500_000_000 + half) by {
        vstd::arithmetic::div_mod::lemma_fundamental_div_mod_converse(
            a,
            2,
            whole * 500_000_000 + half,
            odd,
        );
    }
}

/// Splits the base fee: the first part is burned, the second goes to the block
/// author. Half of the fee, rounded down, is burned.
pub fn split_fee(base_fee: u128) -> (parts: (u128, u128))
    ensures
        parts.0 == base_fee / 2,
        parts.1 == base_fee - base_fee / 2,
{
    proof {
        lemma_half(base_fee);
    }
    let burned = perbill_mul(BURN_PERCENT, base_fee);
    (burned, base_fee - burned)
}

} // verus!
