//! Proportions of integer amounts, rounded down, with wide intermediate
//! products so that no precision is lost.
use crate::resv::lemma_caps;
use crate::wide::{
    add_carry, cap, div, from_u128, lemma_val_bound, low_u128, product, sub_borrow, widen,
    WideUint,
};
use vstd::prelude::*;

verus! {

/// Relies on cosmwasm_std's `Uint128::multiply_ratio`: `self * nom / denom`
/// rounded down, computed in `u128` (it panics on a zero denominator and on
/// an overflowing product).
#[verifier::external_body]
fn multiply_ratio(a: u128, nom: u128, denom: u128) -> (r: u128)
    requires
        denom > 0,
        a * nom <= u128::MAX,
    ensures
        r == (a * nom) / (denom as int),
{
    cosmwasm_std::Uint128(a).multiply_ratio(nom, denom).u128()
}

/// `a * n / d` rounded down, where it fits in `u128`.
pub open spec fn ratio_of(a: nat, n: nat, d: nat) -> Option<u128> {
    if a * n / d <= u128::MAX {
        Some((a * n / d) as u128)
    } else {
        None
    }
}

/// `a * n / d` rounded down, or `None` where the result exceeds `u128`.
pub fn mul_div(a: u128, n: u128, d: u128) -> (r: Option<u128>)
    requires
        d > 0,
    ensures
        r == ratio_of(a as nat, n as nat, d as nat),
{
    if a.checked_mul(n).is_some() {
        return Some(multiply_ratio(a, n, d));
    }
    let num = product(&from_u128(a, 2), &from_u128(n, 2));
    let den = widen(&from_u128(d, 2), 4);
    let q = div(&num, &den);
    proof {
        lemma_caps();
    }
    let (_, over) = sub_borrow(&widen(&from_u128(u128::MAX, 2), 4), &q);
    if over {
        None
    } else {
        proof {
            vstd::arithmetic::div_mod::lemma_small_mod(q.val(), cap(2));
        }
        Some(low_u128(&q))
    }
}

/// `a * n / d` rounded down for a wide `a`, or `None` where the result
/// exceeds `u128`.
pub fn mul_div_wide(a: &WideUint, n: u128, d: u128) -> (r: Option<u128>)
    requires
        d > 0,
        2 <= a.width() <= 8,
    ensures
        r == ratio_of(a.val(), n as nat, d as nat),
{
    let w = a.limbs.len() + 2;
    let num = product(a, &from_u128(n, 2));
    let den = widen(&from_u128(d, 2), w);
    let q = div(&num, &den);
    proof {
        lemma_caps();
    }
    let (_, over) = sub_borrow(&widen(&from_u128(u128::MAX, 2), w), &q);
    if over {
        None
    } else {
        proof {
            vstd::arithmetic::div_mod::lemma_small_mod(q.val(), cap(2));
        }
        Some(low_u128(&q))
    }
}

/// The exact sum of four amounts, on three limbs.
pub fn sum_of_four(a: u128, b: u128, c: u128, e: u128) -> (r: WideUint)
    ensures
        r.width() == 3,
        r.val() == a + b + c + e,
{
    proof {
        lemma_caps();
    }
    let (s1, c1) = add_carry(&from_u128(a, 3), &from_u128(b, 3), false);
    proof {
        lemma_val_bound(s1.limbs@);
    }
    let (s2, c2) = add_carry(&s1, &from_u128(c, 3), false);
    proof {
        lemma_val_bound(s2.limbs@);
    }
    let (s3, c3) = add_carry(&s2, &from_u128(e, 3), false);
    proof {
        lemma_val_bound(s3.limbs@);
    }
    s3
}

/// The share `num / denom` of `normalized_to`, rounded down: `None` where it
/// exceeds `u128`.
pub fn calc_pro_rata(num: u128, denom: u128, normalized_to: u128) -> (r: Option<u128>)
    requires
        denom > 0,
    ensures
        r == ratio_of(num as nat, normalized_to as nat, denom as nat),
{
    mul_div(num, normalized_to, denom)
}

/// A share of at most the whole is at most the amount shared.
pub proof fn lemma_share_le(part: nat, amount: nat, whole: nat)
    requires
        part <= whole,
        whole > 0,
    ensures
        part * amount / whole <= amount,
{
    assert(part * amount <= whole * amount) by (nonlinear_arith)
        requires
            part <= whole,
    ;
    vstd::arithmetic::div_mod::lemma_div_is_ordered(
        (part * amount) as int,
        (whole * amount) as int,
        whole as int,
    );
    assert(whole * amount == amount * whole) by (nonlinear_arith);
    vstd::arithmetic::div_mod::lemma_div_multiples_vanish(amount as int, whole as int);
}

} // verus!
