//! Holders of the fractional token: spendable balance, staked tokens and
//! reservation-price vote, kept in a sequence with one entry per address.
use crate::resv::PRECISION;
use crate::types::StakedTokens;
use vstd::prelude::*;

verus! {

/// A holder's reservation-price vote, in whole units.
#[derive(Clone, Copy, Debug, PartialEq, Eq, Structural)]
pub struct VoteCast {
    pub stake: u128,
    pub price: u128,
}

/// One holder of the fractional token.
#[derive(Debug)]
pub struct Holder {
    pub address: String,
    /// Spendable balance.
    pub balance: u128,
    /// Staked tokens, once the holder has staked.
    pub staked: Option<StakedTokens>,
    /// The holder's last reservation-price vote.
    pub resv_vote: Option<VoteCast>,
}

pub open spec fn staked_amount(h: Holder) -> nat {
    match h.staked {
        Some(s) => s.amount as nat,
        None => 0,
    }
}

/// Tokens a holder owns: spendable and staked.
pub open spec fn tokens_of(h: Holder) -> nat {
    h.balance as nat + staked_amount(h)
}

/// The scaled weight of a holder's reservation-price vote.
pub open spec fn weight_of(h: Holder) -> nat {
    match h.resv_vote {
        Some(v) => (v.stake * PRECISION) as nat,
        None => 0,
    }
}

/// The sum of `f` over a sequence of holders.
pub open spec fn sum_by(s: Seq<Holder>, f: spec_fn(Holder) -> nat) -> nat
    decreases s.len(),
{
    if s.len() == 0 {
        0
    } else {
        sum_by(s.drop_last(), f) + f(s.last())
    }
}

pub proof fn lemma_sum_push(s: Seq<Holder>, h: Holder, f: spec_fn(Holder) -> nat)
    ensures
        sum_by(s.push(h), f) == sum_by(s, f) + f(h),
{
    assert(s.push(h).drop_last() =~= s);
}

pub proof fn lemma_sum_update(s: Seq<Holder>, i: int, h: Holder, f: spec_fn(Holder) -> nat)
    requires
        0 <= i < s.len(),
    ensures
        sum_by(s.update(i, h), f) + f(s[i]) == sum_by(s, f) + f(h),
    decreases s.len(),
{
    let t = s.update(i, h);
    if i == s.len() - 1 {
        assert(t.drop_last() =~= s.drop_last());
    } else {
        lemma_sum_update(s.drop_last(), i, h, f);
        assert(t.drop_last() =~= s.drop_last().update(i, h));
    }
}

pub proof fn lemma_sum_ge(s: Seq<Holder>, i: int, f: spec_fn(Holder) -> nat)
    requires
        0 <= i < s.len(),
    ensures
        f(s[i]) <= sum_by(s, f),
    decreases s.len(),
{
    if i < s.len() - 1 {
        lemma_sum_ge(s.drop_last(), i, f);
    }
}

/// Where `f` is at most `k` times `g` on every holder, so are the sums.
pub proof fn lemma_sum_scaled_le(
    s: Seq<Holder>,
    f: spec_fn(Holder) -> nat,
    g: spec_fn(Holder) -> nat,
    k: nat,
)
    requires
        forall|i: int| 0 <= i < s.len() ==> f(#[trigger] s[i]) <= k * g(s[i]),
    ensures
        sum_by(s, f) <= k * sum_by(s, g),
    decreases s.len(),
{
    if s.len() > 0 {
        let t = s.drop_last();
        assert forall|i: int| 0 <= i < t.len() implies f(#[trigger] t[i]) <= k * g(t[i]) by {
            assert(t[i] == s[i]);
        }
        lemma_sum_scaled_le(t, f, g, k);
        let a = sum_by(t, f);
        let b = sum_by(t, g);
        let x = f(s.last());
        let y = g(s.last());
        assert(x <= k * y);
        assert(a + x <= k * (b + y)) by (nonlinear_arith)
            requires
                a <= k * b,
                x <= k * y,
        ;
    }
}

/// The position of the holder with address `a`, or -1.
pub open spec fn holder_index(s: Seq<Holder>, a: Seq<char>) -> int
    decreases s.len(),
{
    if s.len() == 0 {
        -1
    } else if s.last().address@ == a {
        s.len() - 1
    } else {
        holder_index(s.drop_last(), a)
    }
}

/// No two holders share an address.
pub open spec fn unique_addresses(s: Seq<Holder>) -> bool {
    forall|i: int, j: int|
        0 <= i < s.len() && 0 <= j < s.len() && i != j ==> #[trigger] s[i].address@ != #[trigger] s[j].address@
}

pub proof fn lemma_holder_index(s: Seq<Holder>, a: Seq<char>)
    ensures
        -1 <= holder_index(s, a) < s.len(),
        holder_index(s, a) >= 0 ==> s[holder_index(s, a)].address@ == a,
        holder_index(s, a) == -1 ==> forall|i: int| 0 <= i < s.len() ==> s[i].address@ != a,
        unique_addresses(s) ==> forall|i: int|
            0 <= i < s.len() && #[trigger] s[i].address@ == a ==> holder_index(s, a) == i,
    decreases s.len(),
{
    if s.len() > 0 {
        let t = s.drop_last();
        lemma_holder_index(t, a);
        assert forall|i: int| 0 <= i < t.len() implies #[trigger] t[i] == s[i] by {}
        if s.last().address@ != a {
            assert(holder_index(s, a) == holder_index(t, a));
            if holder_index(t, a) >= 0 {
                assert(s[holder_index(t, a)] == t[holder_index(t, a)]);
            }
        }
        if holder_index(s, a) == -1 {
            assert forall|i: int| 0 <= i < s.len() implies s[i].address@ != a by {
                if i < t.len() {
                    assert(t[i] == s[i]);
                }
            }
        }
        if unique_addresses(s) {
            assert forall|i: int, j: int|
                0 <= i < t.len() && 0 <= j < t.len() && i != j implies #[trigger] t[i].address@
                != #[trigger] t[j].address@ by {
                assert(t[i] == s[i] && t[j] == s[j]);
            }
            assert forall|i: int|
                0 <= i < s.len() && #[trigger] s[i].address@ == a implies holder_index(s, a) == i by {
                if i < s.len() - 1 {
                    assert(t[i] == s[i]);
                    assert(s[i].address@ != s[s.len() - 1].address@);
                }
            }
        }
    }
}

/// A holder's spendable balance (zero for an unknown address).
pub open spec fn balance_of(s: Seq<Holder>, a: Seq<char>) -> nat {
    let i = holder_index(s, a);
    if i >= 0 {
        s[i].balance as nat
    } else {
        0
    }
}

/// A holder's stake record, if it has staked.
pub open spec fn stake_of(s: Seq<Holder>, a: Seq<char>) -> Option<StakedTokens> {
    let i = holder_index(s, a);
    if i >= 0 {
        s[i].staked
    } else {
        None
    }
}

/// Replacing a holder by one with the same address keeps every position.
pub proof fn lemma_index_update(s: Seq<Holder>, i: int, h: Holder, a: Seq<char>)
    requires
        0 <= i < s.len(),
        h.address@ == s[i].address@,
    ensures
        holder_index(s.update(i, h), a) == holder_index(s, a),
    decreases s.len(),
{
    let t = s.update(i, h);
    if i < s.len() - 1 {
        lemma_index_update(s.drop_last(), i, h, a);
        assert(t.drop_last() =~= s.drop_last().update(i, h));
    } else {
        assert(t.drop_last() =~= s.drop_last());
    }
}

/// Appending a holder with a new address keeps every other position.
pub proof fn lemma_index_push(s: Seq<Holder>, h: Holder, a: Seq<char>)
    ensures
        holder_index(s.push(h), a) == if h.address@ == a {
            s.len() as int
        } else {
            holder_index(s, a)
        },
{
    assert(s.push(h).drop_last() =~= s);
}

/// Where a holder is replaced by one with the same address, the addresses
/// stay unique.
pub proof fn lemma_unique_update(s: Seq<Holder>, i: int, h: Holder)
    requires
        0 <= i < s.len(),
        h.address@ == s[i].address@,
        unique_addresses(s),
    ensures
        unique_addresses(s.update(i, h)),
{
    let t = s.update(i, h);
    assert forall|j: int, k: int|
        0 <= j < t.len() && 0 <= k < t.len() && j != k implies #[trigger] t[j].address@
        != #[trigger] t[k].address@ by {
        assert(t[j].address@ == s[j].address@);
        assert(t[k].address@ == s[k].address@);
    }
}

pub proof fn lemma_unique_push(s: Seq<Holder>, h: Holder)
    requires
        unique_addresses(s),
        forall|i: int| 0 <= i < s.len() ==> s[i].address@ != h.address@,
    ensures
        unique_addresses(s.push(h)),
{
    let t = s.push(h);
    assert forall|j: int, k: int|
        0 <= j < t.len() && 0 <= k < t.len() && j != k implies #[trigger] t[j].address@
        != #[trigger] t[k].address@ by {
        if j < s.len() {
            assert(t[j] == s[j]);
        }
        if k < s.len() {
            assert(t[k] == s[k]);
        }
    }
}

/// The position of the holder with address `a`.
pub fn find_holder(holders: &Vec<Holder>, a: &String) -> (r: Option<usize>)
    ensures
        r.is_some() == (holder_index(holders@, a@) >= 0),
        r.is_some() ==> r.unwrap() as int == holder_index(holders@, a@),
{
    let mut i: usize = holders.len();
    proof {
        assert(holders@.take(i as int) =~= holders@);
    }
    while i > 0
        invariant
            i <= holders@.len(),
            holder_index(holders@, a@) == holder_index(holders@.take(i as int), a@),
        decreases i,
    {
        let ghost t = holders@.take(i as int);
        proof {
            assert(t.drop_last() =~= holders@.take(i - 1));
            assert(t.last() == holders@[i - 1]);
        }
        if holders[i - 1].address == *a {
            return Some(i - 1);
        }
        i = i - 1;
    }
    proof {
        assert(holders@.take(0) =~= Seq::<Holder>::empty());
    }
    None
}

/// Each holder's vote weighs at most its staked tokens.
pub open spec fn weights_backed(s: Seq<Holder>) -> bool {
    forall|i: int| 0 <= i < s.len() ==> match #[trigger] s[i].resv_vote {
        Some(v) => v.stake <= staked_amount(s[i]),
        None => true,
    }
}

/// Every holder's reservation vote weighs exactly its staked tokens, and a
/// holder without a vote has nothing staked.
pub open spec fn votes_track_stakes(s: Seq<Holder>) -> bool {
    forall|i: int| 0 <= i < s.len() ==> match #[trigger] s[i].resv_vote {
        Some(v) => v.stake as nat == staked_amount(s[i]),
        None => staked_amount(s[i]) == 0,
    }
}

/// Where `f` is exactly `k` times `g` on every holder, so are the sums.
pub proof fn lemma_sum_scaled_eq(
    s: Seq<Holder>,
    f: spec_fn(Holder) -> nat,
    g: spec_fn(Holder) -> nat,
    k: nat,
)
    requires
        forall|i: int| 0 <= i < s.len() ==> f(#[trigger] s[i]) == k * g(s[i]),
    ensures
        sum_by(s, f) == k * sum_by(s, g),
    decreases s.len(),
{
    if s.len() > 0 {
        let t = s.drop_last();
        assert forall|i: int| 0 <= i < t.len() implies f(#[trigger] t[i]) == k * g(t[i]) by {
            assert(t[i] == s[i]);
        }
        lemma_sum_scaled_eq(t, f, g, k);
        let a = sum_by(t, g);
        let y = g(s.last());
        assert(f(s[s.len() - 1]) == k * g(s[s.len() - 1]));
        assert(k * a + k * y == k * (a + y)) by (nonlinear_arith);
    } else {
        assert(k * 0 == 0) by (nonlinear_arith);
    }
}

} // verus!
