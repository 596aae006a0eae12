//! Stake-weighted reservation-price votes held at a fixed scale of 10^19,
//! and the delta update of their running aggregate.
use crate::wide::{
    cap, div, from_u128, is_zero, low_u128, product, saturating_add,
    saturating_sub, truncate, widen, zero, WideUint,
};
use vstd::arithmetic::power2::{lemma2_to64, lemma2_to64_rest, lemma_pow2_adds, pow2};
use vstd::prelude::*;

verus! {

/// The scale of the fixed-point stake and price: 19 decimal places.
pub const PRECISION: u64 = 10_000_000_000_000_000_000;

/// 2^128, the range of `u128`.
pub open spec fn u128_range() -> nat {
    cap(2)
}

pub proof fn lemma_caps()
    ensures
        cap(1) == 0x1_0000_0000_0000_0000,
        cap(2) == 0x1_0000_0000_0000_0000 * 0x1_0000_0000_0000_0000,
        cap(3) == cap(2) * cap(1),
        cap(6) == cap(3) * cap(3),
        cap(4) == cap(2) * cap(2),
        u128_range() == u128::MAX + 1,
{
    lemma2_to64();
    lemma2_to64_rest();
    lemma_pow2_adds(64, 64);
    lemma_pow2_adds(128, 64);
    lemma_pow2_adds(192, 192);
    lemma_pow2_adds(128, 128);
    assert(cap(2) == pow2(128));
    assert(cap(2) == 0x1_0000_0000_0000_0000 * 0x1_0000_0000_0000_0000);
}

/// `a + b - c` on 384 bits, where the sum stops at the largest value and the
/// difference at zero.
pub open spec fn sat_add_sub(a: nat, b: nat, c: nat) -> nat {
    let s: nat = if a + b < cap(6) {
        a + b
    } else {
        (cap(6) - 1) as nat
    };
    if s >= c {
        (s - c) as nat
    } else {
        0
    }
}

/// A reservation-price vote: a stake and a price, both scaled by
/// `PRECISION` and held on 192 bits.
#[derive(Debug)]
pub struct ResvVote {
    pub stake: WideUint,
    pub price: WideUint,
}

impl ResvVote {
    pub open spec fn wf(&self) -> bool {
        self.stake.width() == 3 && self.price.width() == 3
    }

    /// The scaled stake.
    pub open spec fn stake_v(&self) -> nat {
        self.stake.val()
    }

    /// The scaled price.
    pub open spec fn price_v(&self) -> nat {
        self.price.val()
    }

    /// The precision as a 192-bit value.
    fn precision() -> (r: WideUint)
        ensures
            r.width() == 3,
            r.val() == PRECISION,
    {
        from_u128(PRECISION as u128, 3)
    }

    fn scaled(x: u128) -> (r: WideUint)
        ensures
            r.width() == 3,
            r.val() == x * PRECISION,
    {
        let p = product(&from_u128(x, 2), &from_u128(PRECISION as u128, 2));
        proof {
            lemma_caps();
            assert(x * PRECISION < cap(3)) by (nonlinear_arith)
                requires
                    x < cap(2),
                    PRECISION < cap(1),
                    cap(3) == cap(2) * cap(1),
            ;
            vstd::arithmetic::div_mod::lemma_small_mod((x * PRECISION) as nat, cap(3));
        }
        truncate(&p, 3)
    }

    /// A vote of `stake` at `price`, both in whole units.
    pub fn new(stake: u128, price: u128) -> (r: ResvVote)
        ensures
            r.wf(),
            r.stake_v() == stake * PRECISION,
            r.price_v() == price * PRECISION,
    {
        ResvVote { stake: Self::scaled(stake), price: Self::scaled(price) }
    }

    /// The empty vote: no stake, price zero.
    pub fn empty() -> (r: ResvVote)
        ensures
            r.wf(),
            r.stake_v() == 0,
            r.price_v() == 0,
    {
        ResvVote { stake: zero(3), price: zero(3) }
    }

    /// A copy of this vote.
    pub fn duplicate(&self) -> (r: ResvVote)
        requires
            self.wf(),
        ensures
            r.wf(),
            r.stake_v() == self.stake_v(),
            r.price_v() == self.price_v(),
    {
        ResvVote { stake: widen(&self.stake, 3), price: widen(&self.price, 3) }
    }

    /// The stake in whole units, rounded down.
    pub fn uint128_stake(&self) -> (r: u128)
        requires
            self.wf(),
        ensures
            r == (self.stake_v() / (PRECISION as nat)) % u128_range(),
    {
        low_u128(&div(&self.stake, &Self::precision()))
    }

    /// The price in whole units, rounded down.
    pub fn uint128_price(&self) -> (r: u128)
        requires
            self.wf(),
        ensures
            r == (self.price_v() / (PRECISION as nat)) % u128_range(),
    {
        low_u128(&div(&self.price, &Self::precision()))
    }

    /// The scaled stake times the scaled price, on 384 bits.
    pub fn stake_mul_price(&self) -> (r: WideUint)
        requires
            self.wf(),
        ensures
            r.width() == 6,
            r.val() == self.stake_v() * self.price_v(),
    {
        product(&self.stake, &self.price)
    }

    /// A vote from 384-bit scaled values, keeping their low 192 bits.
    pub fn new_from_u384(stake: &WideUint, price: &WideUint) -> (r: ResvVote)
        requires
            stake.width() == 6,
            price.width() == 6,
        ensures
            r.wf(),
            r.stake_v() == stake.val() % cap(3),
            r.price_v() == price.val() % cap(3),
    {
        ResvVote { stake: truncate(stake, 3), price: truncate(price, 3) }
    }
}

/// The aggregate stake `s` after one voter's weight goes from `os` to `ns`.
pub open spec fn agg_stake_of(s: nat, os: nat, ns: nat) -> nat {
    sat_add_sub(s, ns, os)
}

/// The aggregate price after one voter's vote goes from (`os`, `op`) to
/// (`ns`, `np`): the stake-weighted mean, or the current price `p` where no
/// stake is left.
pub open spec fn agg_price_of(s: nat, p: nat, os: nat, op: nat, ns: nat, np: nat) -> nat {
    let t = agg_stake_of(s, os, ns);
    if t == 0 {
        p
    } else {
        sat_add_sub(s * p, ns * np, os * op) / t
    }
}

pub open spec fn agg_stake_after(curr: ResvVote, old: ResvVote, new: ResvVote) -> nat {
    agg_stake_of(curr.stake_v(), old.stake_v(), new.stake_v())
}

pub open spec fn agg_price_after(curr: ResvVote, old: ResvVote, new: ResvVote) -> nat {
    agg_price_of(
        curr.stake_v(),
        curr.price_v(),
        old.stake_v(),
        old.price_v(),
        new.stake_v(),
        new.price_v(),
    )
}

/// The aggregate vote after one voter replaces `old` by `new`, computed from
/// the deltas alone.
pub fn new_agg_resv_vote(curr_agg: &ResvVote, old: &ResvVote, new: &ResvVote) -> (r: ResvVote)
    requires
        curr_agg.wf(),
        old.wf(),
        new.wf(),
    ensures
        r.wf(),
        r.stake_v() == agg_stake_after(*curr_agg, *old, *new) % cap(3),
        r.price_v() == agg_price_after(*curr_agg, *old, *new) % cap(3),
{
    let s = widen(&curr_agg.stake, 6);
    let ns = widen(&new.stake, 6);
    let os = widen(&old.stake, 6);
    proof {
        lemma_caps();
    }
    let new_stake = saturating_sub(&saturating_add(&s, &ns), &os);
    let new_price = if is_zero(&new_stake) {
        widen(&curr_agg.price, 6)
    } else {
        let sum = saturating_add(&curr_agg.stake_mul_price(), &new.stake_mul_price());
        let num = saturating_sub(&sum, &old.stake_mul_price());
        div(&num, &new_stake)
    };
    ResvVote::new_from_u384(&new_stake, &new_price)
}

/// Where no bound is reached, the aggregate is the exact stake-weighted mean
/// after the change: the stake moves by the difference of the weights, and
/// the price is the sum of stake times price over the new stake.
pub proof fn lemma_agg_exact(curr: ResvVote, old: ResvVote, new: ResvVote)
    requires
        curr.stake_v() + new.stake_v() < cap(3),
        old.stake_v() <= curr.stake_v() + new.stake_v(),
        old.stake_v() * old.price_v() <= curr.stake_v() * curr.price_v() + new.stake_v()
            * new.price_v(),
        curr.stake_v() * curr.price_v() + new.stake_v() * new.price_v() < cap(6),
        curr.stake_v() < cap(3),
        curr.price_v() < cap(3),
        new.stake_v() < cap(3),
        new.price_v() < cap(3),
    ensures
        agg_stake_after(curr, old, new) == curr.stake_v() + new.stake_v() - old.stake_v(),
        agg_stake_after(curr, old, new) > 0 ==> agg_price_after(curr, old, new) == (
        curr.stake_v() * curr.price_v() + new.stake_v() * new.price_v() - old.stake_v()
            * old.price_v()) / (curr.stake_v() + new.stake_v() - old.stake_v()),
{
    lemma_caps();
    let a = curr.stake_v() * curr.price_v();
    let b = new.stake_v() * new.price_v();
    assert(a < cap(6) && b < cap(6)) by (nonlinear_arith)
        requires
            curr.stake_v() < cap(3),
            curr.price_v() < cap(3),
            new.stake_v() < cap(3),
            new.price_v() < cap(3),
            cap(6) == cap(3) * cap(3),
            a == curr.stake_v() * curr.price_v(),
            b == new.stake_v() * new.price_v(),
    ;
    assert(cap(3) < cap(6)) by (nonlinear_arith)
        requires
            cap(6) == cap(3) * cap(3),
            cap(3) > 1,
    ;
}

} // verus!
