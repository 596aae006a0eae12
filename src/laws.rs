//! Properties that hold across the vault's operations.
use crate::holders::{lemma_sum_scaled_eq, staked_amount, sum_by, votes_track_stakes};
use crate::resv::{lemma_caps, u128_range, PRECISION};
use crate::types::{BidInfo, PropInfo, VoteRegister, VoteResult};
use crate::vault::{
    last_bid_index, lemma_weights_bounded, min_next_bid, staked_fn, tokens_fn, vote_outcome,
    weight_fn, Vault, VaultError,
};
use vstd::prelude::*;

verus! {

/// Where every holder's reservation vote weighs exactly its staked tokens
/// (as it does after each holder's last vote, and as unstaking and voting
/// keep it), the aggregate stake decodes to the sum of all staked tokens.
/// Staking without voting again adds stake that no vote carries.
pub proof fn lemma_aggregate_equals_total_stake(v: &Vault)
    requires
        v.wf(),
        votes_track_stakes(v.holders@),
    ensures
        v.agg_resv.stake_v() == PRECISION * sum_by(v.holders@, staked_fn()),
        v.agg_stake_units() == sum_by(v.holders@, staked_fn()),
{
    let s = v.holders@;
    assert forall|i: int| 0 <= i < s.len() implies weight_fn()(#[trigger] s[i]) == PRECISION
        * staked_fn()(s[i]) by {
        match s[i].resv_vote {
            Some(c) => {
                assert(c.stake as nat == staked_amount(s[i]));
            },
            None => {},
        }
    }
    lemma_sum_scaled_eq(s, weight_fn(), staked_fn(), PRECISION as nat);
    let total = sum_by(s, staked_fn());
    assert forall|i: int| 0 <= i < s.len() implies staked_fn()(#[trigger] s[i]) <= 1 * tokens_fn()(
        s[i],
    ) by {}
    crate::holders::lemma_sum_scaled_le(s, staked_fn(), tokens_fn(), 1);
    lemma_weights_bounded(s, v.total_supply as nat);
    vstd::arithmetic::div_mod::lemma_div_multiples_vanish(total as int, PRECISION as int);
    assert(PRECISION * total == total * PRECISION) by (nonlinear_arith);
    lemma_caps();
    vstd::arithmetic::div_mod::lemma_small_mod(total, u128_range());
}

/// In every state, each bid in the log raises the one before it by at least
/// the minimum increment that the running auction started with.
pub proof fn lemma_bid_increments(v: &Vault)
    requires
        v.wf(),
    ensures
        forall|i: int|
            0 <= i < v.bids@.len() - 1 ==> #[trigger] v.bids@[i + 1].amount >= min_next_bid(
                v.bids@[i].amount,
                v.auction.auc_config_snapshot.min_bid_inc,
            ),
{
}

/// A veto share at or above the veto threshold defeats a proposal, whatever
/// the yes and no votes, and its stake is then never returned.
pub proof fn lemma_veto_forfeits(t: VoteRegister, supply: nat, quorum: u128, veto_threshold: u128)
    requires
        supply > 0,
        (t.veto as nat) * 10000 / supply >= veto_threshold,
    ensures
        vote_outcome(t, supply, quorum, veto_threshold) == VoteResult::LostWithVeto,
{
}

/// A vetoed proposal's stake cannot be retrieved.
pub proof fn lemma_vetoed_stake_kept(v: &Vault, prop_id: u32)
    requires
        prop_id < v.props@.len(),
        v.props@[prop_id as int].info.outcome == Some(VoteResult::LostWithVeto),
    ensures
        v.retrieve_stake_check(prop_id) == Err::<(), VaultError>(VaultError::StakeForfeited),
{
}

/// Once a bid has been paid back, asking again is refused.
pub proof fn lemma_retrieve_bid_once(v1: &Vault, v2: &Vault, bidder: Seq<char>)
    requires
        v1.retrieve_bid_check(bidder).is_ok(),
        v2.info == v1.info,
        v2.bids@ == v1.bids@.update(
            last_bid_index(v1.bids@, bidder),
            BidInfo { retrieved_bid: true, ..v1.bids@[last_bid_index(v1.bids@, bidder)] },
        ),
    ensures
        v2.retrieve_bid_check(bidder) == Err::<(), VaultError>(VaultError::BidAlreadyRetrieved),
{
    let k = last_bid_index(v1.bids@, bidder);
    crate::vault::lemma_last_bid_index(v1.bids@, bidder);
    crate::vault::lemma_last_bid_update(
        v1.bids@,
        k,
        BidInfo { retrieved_bid: true, ..v1.bids@[k] },
        bidder,
    );
}

/// Once a proposal's stake has been returned, asking again is refused.
pub proof fn lemma_retrieve_stake_once(v1: &Vault, v2: &Vault, prop_id: u32)
    requires
        v1.retrieve_stake_check(prop_id).is_ok(),
        v2.props@.len() == v1.props@.len(),
        v2.props@[prop_id as int].info == (PropInfo {
            stake_withdrawn: true,
            ..v1.props@[prop_id as int].info
        }),
    ensures
        v2.retrieve_stake_check(prop_id) == Err::<(), VaultError>(VaultError::StakeAlreadyRetrieved),
{
}

/// A proposal whose veto share reaches the veto threshold is decided as
/// defeated with its stake, whatever its yes and no votes; deciding it then
/// carries nothing out (see `Vault::try_finalize_vote_may_execute_proposal`).
pub proof fn lemma_vetoed_outcome(v: &Vault, prop_id: u32)
    requires
        v.total_supply > 0,
        prop_id < v.props@.len(),
        (v.props@[prop_id as int].tally.veto as nat) * 10000 / (v.total_supply as nat)
            >= v.config.prop_conf.veto_threshold,
    ensures
        v.outcome_of(prop_id) == VoteResult::LostWithVeto,
{
    lemma_veto_forfeits(
        v.props@[prop_id as int].tally,
        v.total_supply as nat,
        v.config.prop_conf.vote_quorum,
        v.config.prop_conf.veto_threshold,
    );
}

} // verus!
