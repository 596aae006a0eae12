//! The fractional-token vault: staking, reservation-price votes, the
//! buyout auction and proposal governance, as transitions of one state.
use crate::holders::{
    balance_of, find_holder, holder_index, lemma_holder_index, lemma_index_push,
    lemma_index_update, lemma_sum_ge, lemma_sum_push, lemma_sum_scaled_le,
    lemma_sum_update, lemma_unique_push, lemma_unique_update, stake_of, staked_amount, sum_by,
    tokens_of, unique_addresses, votes_track_stakes, weight_of, weights_backed, Holder, VoteCast,
};
use crate::resv::{
    agg_price_of, agg_stake_after, lemma_caps, new_agg_resv_vote, ResvVote, PRECISION,
};
use crate::types::{
    new_register, nft_message_for, register_of, same_nft, try_send_msg_to_nft, AllowedNftMsg, AuctionInfo, BidInfo, FtokenConf, FtokenInfo,
    FtokenInstance, Outbound, PropInfo, Proposal, StakedTokens, UndrNftInfo, Vote, VoteRegister,
    VoteResult,
};
use crate::wide::cap;
use vstd::prelude::*;

verus! {

/// Why the vault refused a request.
#[derive(Clone, Copy, Debug, PartialEq, Eq, Structural)]
pub enum VaultError {
    /// The spendable balance is below the amount.
    InsufficientFunds,
    /// The address has never staked.
    NotStaked,
    /// Staked tokens stay bonded until the given height.
    StillBonded { unlock_height: u64 },
    /// The amount exceeds the staked tokens.
    InsufficientStake,
    /// A reservation-price vote must lie within the band; `ceiling` is
    /// `None` where the band has no upper end within `u128`.
    ResvPriceOutOfBounds { floor: u128, ceiling: Option<u128> },
    /// The asset has left the vault.
    VaultInactive,
    /// A first bid must reach the aggregate reservation price.
    BelowReservationPrice { price: u128 },
    /// Too little stake backs the reservation price for bidding to open.
    VaultLocked { threshold: u128, staked_bp: u128 },
    /// The auction's deadline has passed.
    AuctionClosed,
    /// A bid must raise the last bid by the minimum increment; `None` where
    /// that minimum exceeds `u128`.
    BelowMinIncrement { min_bid: Option<u128> },
    /// No bid has opened the auction yet.
    AuctionNotStarted,
    /// The auction runs until the given height.
    AuctionStillOpen { end_height: u64 },
    /// The asset is still in the vault.
    VaultStillActive,
    /// The address holds no bid.
    DidNotBid,
    /// The bid was already paid back.
    BidAlreadyRetrieved,
    /// The winning bid pays for the asset and is not paid back.
    WinnerCannotRetrieve,
    /// A proposal must stake at least the given amount.
    InsufficientProposalStake { min_stake: u128 },
    /// A proposed configuration has an empty reservation band.
    InvalidConfig,
    /// No more proposal identifiers are left.
    TooManyProposals,
    /// No proposal has this identifier.
    NoSuchProposal,
    /// The proposal's voting period is over.
    VotingClosed,
    /// The proposal's voting period runs until the given height.
    VotingOpen { end_height: u64 },
    /// The proposal's outcome is already decided.
    AlreadyFinalized,
    /// The proposal's outcome is not decided yet.
    NotFinalized,
    /// A vetoed proposal forfeits its stake.
    StakeForfeited,
    /// The proposal's stake was already returned.
    StakeAlreadyRetrieved,
    /// The received asset is not the one this vault was made for.
    NftInfoMismatch,
    /// The asset arrived from another contract than its own.
    WrongNftContract,
    /// The asset's contract does not report the vault as owner.
    NotTransferred,
    /// The asset still has transfer approvals.
    ApprovalsPresent,
    /// A vault needs a positive supply.
    ZeroSupply,
    /// Viewing the asset's private data needs this many tokens, staked or
    /// spendable; `None` where that exceeds `u128`.
    BelowViewThreshold { required: Option<u128> },
}

/// A voter's last register on one proposal.
#[derive(Debug)]
pub struct VoterReg {
    pub voter: String,
    pub reg: VoteRegister,
}

/// A proposal with its running tally and the registers behind it.
#[derive(Debug)]
pub struct PropRecord {
    pub info: PropInfo,
    pub tally: VoteRegister,
    pub votes: Vec<VoterReg>,
}

pub open spec fn tokens_fn() -> spec_fn(Holder) -> nat {
    |h: Holder| tokens_of(h)
}

pub open spec fn weight_fn() -> spec_fn(Holder) -> nat {
    |h: Holder| weight_of(h)
}

pub open spec fn staked_fn() -> spec_fn(Holder) -> nat {
    |h: Holder| staked_amount(h)
}

/// A holder's reservation-price vote.
pub open spec fn vote_of(s: Seq<Holder>, a: Seq<char>) -> Option<VoteCast> {
    let i = holder_index(s, a);
    if i >= 0 {
        s[i].resv_vote
    } else {
        None
    }
}

/// The holder at `b` looks the same in both sequences.
pub open spec fn holder_same(s1: Seq<Holder>, s2: Seq<Holder>, b: Seq<char>) -> bool {
    &&& balance_of(s2, b) == balance_of(s1, b)
    &&& stake_of(s2, b) == stake_of(s1, b)
    &&& vote_of(s2, b) == vote_of(s1, b)
}

/// Every holder but the one at `a` looks the same in both sequences.
pub open spec fn others_same(s1: Seq<Holder>, s2: Seq<Holder>, a: Seq<char>) -> bool {
    forall|b: Seq<char>| b != a ==> #[trigger] holder_same(s1, s2, b)
}

/// The smallest amount that may follow a bid of `last`.
pub open spec fn min_next_bid(last: u128, inc: u32) -> int {
    (last * (10000 + inc)) / 10000
}

/// Each bid raises the one before by the minimum increment, so the log is
/// ordered by amount.
pub open spec fn bids_ordered(bids: Seq<BidInfo>, inc: u32) -> bool {
    &&& forall|i: int| 0 <= i < bids.len() - 1 ==> #[trigger] bids[i + 1].amount >= min_next_bid(bids[i].amount, inc)
    &&& forall|i: int, j: int| 0 <= i <= j < bids.len() ==> #[trigger] bids[i].amount <= #[trigger] bids[j].amount
}

/// A proposal the vault could carry out.
pub open spec fn proposal_valid(p: Proposal) -> bool {
    match p {
        Proposal::ChangeConfig { config } => config.valid(),
        Proposal::MsgToNft { .. } => true,
    }
}

/// The stake a proposal still holds in the vault.
pub open spec fn locked_of(r: PropRecord) -> nat {
    if r.info.stake_withdrawn {
        0
    } else {
        r.info.stake as nat
    }
}

/// The stakes all proposals still hold in the vault.
pub open spec fn locked_stakes(s: Seq<PropRecord>) -> nat
    decreases s.len(),
{
    if s.len() == 0 {
        0
    } else {
        locked_stakes(s.drop_last()) + locked_of(s.last())
    }
}

pub proof fn lemma_locked_update(s: Seq<PropRecord>, i: int, r: PropRecord)
    requires
        0 <= i < s.len(),
    ensures
        locked_stakes(s.update(i, r)) + locked_of(s[i]) == locked_stakes(s) + locked_of(r),
    decreases s.len(),
{
    let t = s.update(i, r);
    if i == s.len() - 1 {
        assert(t.drop_last() =~= s.drop_last());
    } else {
        lemma_locked_update(s.drop_last(), i, r);
        assert(t.drop_last() =~= s.drop_last().update(i, r));
    }
}

pub proof fn lemma_locked_ge(s: Seq<PropRecord>, i: int)
    requires
        0 <= i < s.len(),
    ensures
        locked_of(s[i]) <= locked_stakes(s),
    decreases s.len(),
{
    if i < s.len() - 1 {
        lemma_locked_ge(s.drop_last(), i);
    }
}

/// `a + b`, stopping at the largest `u64`.
pub open spec fn sat_add_u64(a: u64, b: u64) -> u64 {
    if a + b <= u64::MAX {
        (a + b) as u64
    } else {
        u64::MAX
    }
}

pub open spec fn max_u64(a: u64, b: u64) -> u64 {
    if a >= b {
        a
    } else {
        b
    }
}

/// The state of one vault.
#[derive(Debug)]
pub struct Vault {
    pub info: FtokenInfo,
    pub config: FtokenConf,
    pub total_supply: u128,
    pub holders: Vec<Holder>,
    /// Fractional tokens held by the vault itself: proposal stakes and
    /// tokens handed in for sale proceeds.
    pub contract_tokens: u128,
    pub agg_resv: ResvVote,
    pub auction: AuctionInfo,
    pub bids: Vec<BidInfo>,
    pub props: Vec<PropRecord>,
    /// The key with which the vault views the asset on its contract.
    pub nft_viewing_key: String,
}

impl Vault {
    /// The ledger and the holders' records are consistent.
    pub open spec fn holders_ok(&self) -> bool {
        &&& unique_addresses(self.holders@)
        &&& weights_backed(self.holders@)
        &&& sum_by(self.holders@, tokens_fn()) + self.contract_tokens == self.total_supply
    }

    /// The auction and the bid log are consistent.
    pub open spec fn auction_ok(&self) -> bool {
        let bids = self.bids@;
        &&& self.auction.is_active == (bids.len() > 0)
        &&& bids_ordered(bids, self.auction.auc_config_snapshot.min_bid_inc)
        &&& !self.info.vault_active ==> self.auction.is_active && bids.last().winning_bid
        &&& forall|i: int|
            0 <= i < bids.len() && #[trigger] bids[i].winning_bid ==> i == bids.len() - 1
                && !self.info.vault_active
    }

    /// Proposals are numbered by position, the vault holds every stake not
    /// yet returned, and every proposed configuration is one it can run on.
    pub open spec fn props_ok(&self) -> bool {
        &&& self.props@.len() <= u32::MAX
        &&& forall|i: int| 0 <= i < self.props@.len() ==> #[trigger] self.props@[i].info.prop_id == i
        &&& locked_stakes(self.props@) <= self.contract_tokens
        &&& forall|i: int| 0 <= i < self.props@.len() ==> proposal_valid(#[trigger] self.props@[i].info.proposal)
    }

    pub open spec fn wf(&self) -> bool {
        &&& self.total_supply > 0
        &&& self.config.valid()
        &&& self.agg_resv.wf()
        &&& self.agg_resv.stake_v() == sum_by(self.holders@, weight_fn())
        &&& self.holders_ok()
        &&& self.auction_ok()
        &&& self.props_ok()
    }

    /// A new vault whose depositor holds the whole supply, with the given
    /// starting reservation price and no stake behind it.
    pub fn new(
        instance: FtokenInstance,
        config: FtokenConf,
        total_supply: u128,
        init_resv_price: u128,
        nft_viewing_key: String,
    ) -> (r: Vault)
        requires
            total_supply > 0,
            config.valid(),
        ensures
            r.wf(),
            r.info.instance == instance,
            r.info.vault_active,
            r.config == config,
            r.total_supply == total_supply,
            balance_of(r.holders@, instance.depositor@) == total_supply,
            forall|a: Seq<char>| a != instance.depositor@ ==> #[trigger] balance_of(r.holders@, a) == 0,
            r.holders@.len() == 1,
            r.contract_tokens == 0,
            r.agg_resv.stake_v() == 0,
            r.agg_resv.price_v() == init_resv_price * PRECISION,
            !r.auction.is_active,
            r.bids@.len() == 0,
            r.props@.len() == 0,
            r.nft_viewing_key == nft_viewing_key,
    {
        let depositor = Holder {
            address: instance.depositor.clone(),
            balance: total_supply,
            staked: None,
            resv_vote: None,
        };
        let mut holders: Vec<Holder> = Vec::new();
        holders.push(depositor);
        let r = Vault {
            info: FtokenInfo { instance, vault_active: true },
            config,
            total_supply,
            holders,
            contract_tokens: 0,
            agg_resv: ResvVote::new(0, init_resv_price),
            auction: AuctionInfo::init(),
            bids: Vec::new(),
            props: Vec::new(),
            nft_viewing_key,
        };
        proof {
            let s = r.holders@;
            assert(s.drop_last() =~= Seq::<Holder>::empty());
            assert(sum_by(s.drop_last(), tokens_fn()) == 0);
            assert(sum_by(s.drop_last(), weight_fn()) == 0);
            assert(tokens_fn()(s.last()) == total_supply);
            assert(weight_fn()(s.last()) == 0);
            assert(sum_by(s, tokens_fn()) == total_supply);
            assert(sum_by(s, weight_fn()) == 0);
            assert forall|a: Seq<char>| a != r.info.instance.depositor@ implies #[trigger] balance_of(
                r.holders@,
                a,
            ) == 0 by {
                lemma_holder_index(s, a);
            }
            lemma_holder_index(s, r.info.instance.depositor@);
        }
        r
    }

    /// Takes the holder at `a` out of the sequence, adding a blank one first
    /// where the address is new; the caller puts it back with `put_holder`.
    fn take_holder(&mut self, a: &String) -> (r: (usize, Holder))
        requires
            unique_addresses(old(self).holders@),
        ensures
            r.0 < final(self).holders@.len(),
            holder_index(old(self).holders@, a@) >= 0 ==> r.0 == holder_index(old(self).holders@, a@)
                && final(self).holders@.len() == old(self).holders@.len()
                && r.1 == old(self).holders@[r.0 as int],
            holder_index(old(self).holders@, a@) < 0 ==> r.0 == old(self).holders@.len()
                && final(self).holders@.len() == old(self).holders@.len() + 1
                && r.1.address@ == a@ && r.1.balance == 0 && r.1.staked.is_none()
                && r.1.resv_vote.is_none(),
            final(self).holders@ == old(self).holders@.update(r.0 as int, final(self).holders@[r.0 as int])
                || final(self).holders@.drop_last() == old(self).holders@,
            holder_index(old(self).holders@, a@) >= 0 ==> final(self).holders@ == old(
                self,
            ).holders@.update(r.0 as int, final(self).holders@[r.0 as int]),
            holder_index(old(self).holders@, a@) < 0 ==> final(self).holders@.drop_last() == old(
                self,
            ).holders@,
            final(self).info == old(self).info,
            final(self).config == old(self).config,
            final(self).total_supply == old(self).total_supply,
            final(self).contract_tokens == old(self).contract_tokens,
            final(self).agg_resv == old(self).agg_resv,
            final(self).auction == old(self).auction,
            final(self).bids == old(self).bids,
            final(self).props == old(self).props,
    {
        proof {
            lemma_holder_index(self.holders@, a@);
        }
        let i = match find_holder(&self.holders, a) {
            Some(i) => i,
            None => {
                self.holders.push(
                    Holder { address: a.clone(), balance: 0, staked: None, resv_vote: None },
                );
                self.holders.len() - 1
            },
        };
        let mut h = Holder { address: String::new(), balance: 0, staked: None, resv_vote: None };
        self.holders.set_and_swap(i, &mut h);
        proof {
            if holder_index(old(self).holders@, a@) < 0 {
                assert(self.holders@.drop_last() =~= old(self).holders@);
            } else {
                assert(self.holders@ =~= old(self).holders@.update(i as int, self.holders@[i as int]));
            }
        }
        (i, h)
    }

    /// Puts a holder taken by `take_holder` back at its position.
    fn put_holder(&mut self, i: usize, h: Holder)
        requires
            i < old(self).holders@.len(),
        ensures
            final(self).holders@ == old(self).holders@.update(i as int, h),
            final(self).info == old(self).info,
            final(self).config == old(self).config,
            final(self).total_supply == old(self).total_supply,
            final(self).contract_tokens == old(self).contract_tokens,
            final(self).agg_resv == old(self).agg_resv,
            final(self).auction == old(self).auction,
            final(self).bids == old(self).bids,
            final(self).props == old(self).props,
    {
        self.holders.set(i, h);
    }
}

/// Replacing the holder at `a` by another with the same address leaves every
/// other holder as it was, and finds the new one at the same place.
pub proof fn lemma_replace_holder(s: Seq<Holder>, t: Seq<Holder>, i: int, h: Holder, a: Seq<char>)
    requires
        unique_addresses(s),
        0 <= i <= s.len(),
        i < s.len() ==> s[i].address@ == a && t == s.update(i, h),
        i == s.len() ==> holder_index(s, a) < 0 && t == s.push(h),
        h.address@ == a,
    ensures
        unique_addresses(t),
        holder_index(t, a) == i,
        others_same(s, t, a),
        t[i] == h,
{
    lemma_holder_index(s, a);
    if i < s.len() {
        lemma_unique_update(s, i, h);
        lemma_holder_index(t, a);
        assert forall|b: Seq<char>| b != a implies #[trigger] holder_same(s, t, b) by {
            lemma_index_update(s, i, h, b);
            lemma_holder_index(s, b);
            let k = holder_index(s, b);
            if k >= 0 {
                assert(k != i);
                assert(t[k] == s[k]);
            }
        }
    } else {
        lemma_unique_push(s, h);
        lemma_index_push(s, h, a);
        assert forall|b: Seq<char>| b != a implies #[trigger] holder_same(s, t, b) by {
            lemma_index_push(s, h, b);
            lemma_holder_index(s, b);
            let k = holder_index(s, b);
            if k >= 0 {
                assert(t[k] == s[k]);
            }
        }
    }
}

/// A holder's staked amount (zero before it has staked).
pub open spec fn staked_at(s: Seq<Holder>, a: Seq<char>) -> nat {
    match stake_of(s, a) {
        Some(st) => st.amount as nat,
        None => 0,
    }
}

/// The height until which a holder's stake is bonded (zero before it has staked).
pub open spec fn unlock_at(s: Seq<Holder>, a: Seq<char>) -> u64 {
    match stake_of(s, a) {
        Some(st) => st.unlock_height,
        None => 0,
    }
}

/// Replacing one holder moves each sum by the difference of the two, and
/// keeps the holders' invariants where the new holder keeps them.
pub proof fn lemma_holder_change(
    s: Seq<Holder>,
    t: Seq<Holder>,
    i: int,
    o: Holder,
    h: Holder,
    a: Seq<char>,
)
    requires
        unique_addresses(s),
        weights_backed(s),
        0 <= i <= s.len(),
        i < s.len() ==> s[i] == o && t == s.update(i, h),
        i == s.len() ==> holder_index(s, a) < 0 && t == s.push(h) && o.balance == 0
            && o.staked.is_none() && o.resv_vote.is_none(),
        h.address@ == a,
        o.address@ == a,
        match h.resv_vote {
            Some(v) => v.stake <= staked_amount(h),
            None => true,
        },
    ensures
        unique_addresses(t),
        weights_backed(t),
        holder_index(t, a) == i,
        others_same(s, t, a),
        t[i] == h,
        sum_by(t, tokens_fn()) + tokens_of(o) == sum_by(s, tokens_fn()) + tokens_of(h),
        sum_by(t, weight_fn()) + weight_of(o) == sum_by(s, weight_fn()) + weight_of(h),
        balance_of(t, a) == h.balance,
        stake_of(t, a) == h.staked,
        vote_of(t, a) == h.resv_vote,
        balance_of(s, a) == o.balance,
        stake_of(s, a) == o.staked,
        vote_of(s, a) == o.resv_vote,
{
    lemma_replace_holder(s, t, i, h, a);
    lemma_holder_index(s, a);
    lemma_holder_index(t, a);
    if i < s.len() {
        lemma_sum_update(s, i, h, tokens_fn());
        lemma_sum_update(s, i, h, weight_fn());
        assert forall|k: int| 0 <= k < t.len() implies match #[trigger] t[k].resv_vote {
            Some(v) => v.stake <= staked_amount(t[k]),
            None => true,
        } by {
            if k != i {
                assert(t[k] == s[k]);
            }
        }
    } else {
        lemma_sum_push(s, h, tokens_fn());
        lemma_sum_push(s, h, weight_fn());
        assert forall|k: int| 0 <= k < t.len() implies match #[trigger] t[k].resv_vote {
            Some(v) => v.stake <= staked_amount(t[k]),
            None => true,
        } by {
            if k < s.len() {
                assert(t[k] == s[k]);
            }
        }
    }
}

/// The sum of the vote weights is at most the supply at scale, which fits
/// in 192 bits.
pub proof fn lemma_weights_bounded(s: Seq<Holder>, supply: nat)
    requires
        weights_backed(s),
        sum_by(s, tokens_fn()) <= supply,
        supply <= u128::MAX,
    ensures
        sum_by(s, weight_fn()) <= PRECISION * supply,
        PRECISION * supply < cap(3),
{
    assert forall|i: int| 0 <= i < s.len() implies weight_fn()(#[trigger] s[i]) <= PRECISION
        * tokens_fn()(s[i]) by {
        let h = s[i];
        match h.resv_vote {
            Some(c) => {
                assert(c.stake <= tokens_of(h));
                assert(c.stake * PRECISION <= PRECISION * tokens_of(h)) by (nonlinear_arith)
                    requires
                        c.stake <= tokens_of(h),
                ;
            },
            None => {},
        }
    }
    lemma_sum_scaled_le(s, weight_fn(), tokens_fn(), PRECISION as nat);
    let a = sum_by(s, tokens_fn());
    assert(PRECISION * a <= PRECISION * supply) by (nonlinear_arith)
        requires
            a <= supply,
    ;
    lemma_caps();
    assert(PRECISION * supply < cap(3)) by (nonlinear_arith)
        requires
            supply < cap(2),
            PRECISION < cap(1),
            cap(3) == cap(2) * cap(1),
    ;
}

/// A reservation price lies in the band around the aggregate price.
pub open spec fn in_band(price: u128, floor: Option<u128>, ceiling: Option<u128>) -> bool {
    &&& floor.is_some()
    &&& price >= floor.unwrap()
    &&& (ceiling.is_none() || price <= ceiling.unwrap())
}

impl Vault {
    /// A holder's spendable balance.
    pub fn balance(&self, a: &String) -> (r: u128)
        ensures
            r == balance_of(self.holders@, a@),
    {
        proof {
            lemma_holder_index(self.holders@, a@);
        }
        match find_holder(&self.holders, a) {
            Some(i) => {
                self.holders[i].balance
            },
            None => 0,
        }
    }

    /// A holder's stake record, if it has staked.
    pub fn staked_tokens(&self, a: &String) -> (r: Option<StakedTokens>)
        ensures
            r == stake_of(self.holders@, a@),
    {
        proof {
            lemma_holder_index(self.holders@, a@);
        }
        match find_holder(&self.holders, a) {
            Some(i) => {
                self.holders[i].staked
            },
            None => None,
        }
    }

    /// A holder's reservation-price vote, if it has voted.
    pub fn resv_vote_of(&self, a: &String) -> (r: Option<VoteCast>)
        ensures
            r == vote_of(self.holders@, a@),
    {
        proof {
            lemma_holder_index(self.holders@, a@);
        }
        match find_holder(&self.holders, a) {
            Some(i) => {
                self.holders[i].resv_vote
            },
            None => None,
        }
    }

    /// Moves `amount` of spendable tokens from `sender` to `recipient`.
    pub fn transfer(&mut self, sender: &String, recipient: &String, amount: u128) -> (r: Result<
        (),
        VaultError,
    >)
        requires
            old(self).wf(),
        ensures
            final(self).wf(),
            r.is_err() == (balance_of(old(self).holders@, sender@) < amount),
            r.is_err() ==> r == Err::<(), VaultError>(VaultError::InsufficientFunds) && *final(self)
                == *old(self),
            r.is_ok() && sender@ != recipient@ ==> {
                &&& balance_of(final(self).holders@, sender@) == balance_of(old(self).holders@, sender@) - amount
                &&& balance_of(final(self).holders@, recipient@) == balance_of(old(self).holders@, recipient@) + amount
                &&& stake_of(final(self).holders@, sender@) == stake_of(old(self).holders@, sender@)
                &&& stake_of(final(self).holders@, recipient@) == stake_of(old(self).holders@, recipient@)
                &&& vote_of(final(self).holders@, sender@) == vote_of(old(self).holders@, sender@)
                &&& vote_of(final(self).holders@, recipient@) == vote_of(old(self).holders@, recipient@)
            },
            r.is_ok() ==> forall|b: Seq<char>|
                b != sender@ && b != recipient@ ==> #[trigger] holder_same(
                    old(self).holders@,
                    final(self).holders@,
                    b,
                ),
            r.is_ok() && (sender@ == recipient@ || amount == 0) ==> forall|b: Seq<char>|
                #[trigger] holder_same(old(self).holders@, final(self).holders@, b),
            final(self).info == old(self).info,
            final(self).config == old(self).config,
            final(self).total_supply == old(self).total_supply,
            final(self).contract_tokens == old(self).contract_tokens,
            final(self).agg_resv == old(self).agg_resv,
            final(self).auction == old(self).auction,
            final(self).bids == old(self).bids,
            final(self).props == old(self).props,
    {
        let bal = self.balance(sender);
        if bal < amount {
            return Err(VaultError::InsufficientFunds);
        }
        if amount == 0 || *sender == *recipient {
            return Ok(());
        }
        let ghost s0 = self.holders@;
        let (i, mut h) = self.take_holder(sender);
        let ghost o1 = h;
        h.balance = h.balance - amount;
        self.put_holder(i, h);
        let ghost s1 = self.holders@;
        proof {
            lemma_holder_index(s0, sender@);
            if (i as int) < s0.len() {
                assert(s1 =~= s0.update(i as int, s1[i as int]));
            } else {
                assert(s1 =~= s0.push(s1[i as int]));
            }
            lemma_holder_change(s0, s1, i as int, o1, self.holders@[i as int], sender@);
            lemma_holder_index(s1, recipient@);
            if holder_index(s1, recipient@) >= 0 {
                lemma_sum_ge(s1, holder_index(s1, recipient@), tokens_fn());
            }
        }
        let (j, mut g) = self.take_holder(recipient);
        let ghost o2 = g;
        g.balance = g.balance + amount;
        self.put_holder(j, g);
        proof {
            lemma_holder_index(s1, recipient@);
            if (j as int) < s1.len() {
                assert(self.holders@ =~= s1.update(j as int, self.holders@[j as int]));
            } else {
                assert(self.holders@ =~= s1.push(self.holders@[j as int]));
            }
            lemma_holder_change(s1, self.holders@, j as int, o2, self.holders@[j as int], recipient@);
            assert forall|b: Seq<char>| b != sender@ && b != recipient@ implies #[trigger] holder_same(
                s0,
                self.holders@,
                b,
            ) by {
                assert(holder_same(s0, s1, b));
                assert(holder_same(s1, self.holders@, b));
            }
            assert(holder_same(s1, self.holders@, sender@));
            assert(holder_same(s0, s1, recipient@));
        }
        Ok(())
    }

    /// Stakes `amount` of the sender's spendable tokens, bonding them for at
    /// least the minimum bond period from `height`.
    pub fn try_stake(&mut self, sender: &String, amount: u128, height: u64) -> (r: Result<(), VaultError>)
        requires
            old(self).wf(),
        ensures
            final(self).wf(),
            r.is_err() == (balance_of(old(self).holders@, sender@) < amount),
            r.is_err() ==> r == Err::<(), VaultError>(VaultError::InsufficientFunds) && *final(self)
                == *old(self),
            r.is_ok() ==> {
                &&& balance_of(final(self).holders@, sender@) == balance_of(old(self).holders@, sender@) - amount
                &&& stake_of(final(self).holders@, sender@) == Some(
                    StakedTokens {
                        amount: (staked_at(old(self).holders@, sender@) + amount) as u128,
                        unlock_height: max_u64(
                            unlock_at(old(self).holders@, sender@),
                            sat_add_u64(height, old(self).config.min_ftkn_bond_prd),
                        ),
                    },
                )
                &&& vote_of(final(self).holders@, sender@) == vote_of(old(self).holders@, sender@)
                &&& others_same(old(self).holders@, final(self).holders@, sender@)
            },
            final(self).info == old(self).info,
            final(self).config == old(self).config,
            final(self).total_supply == old(self).total_supply,
            final(self).contract_tokens == old(self).contract_tokens,
            final(self).agg_resv == old(self).agg_resv,
            final(self).auction == old(self).auction,
            final(self).bids == old(self).bids,
            final(self).props == old(self).props,
    {
        let bal = self.balance(sender);
        if bal < amount {
            return Err(VaultError::InsufficientFunds);
        }
        let ghost s0 = self.holders@;
        let (i, mut h) = self.take_holder(sender);
        let ghost o = h;
        proof {
            lemma_holder_index(s0, sender@);
            if (i as int) < s0.len() {
                lemma_sum_ge(s0, i as int, tokens_fn());
            }
        }
        let (cur_amount, cur_unlock) = match h.staked {
            Some(st) => (st.amount, st.unlock_height),
            None => (0u128, 0u64),
        };
        let bonded = height.saturating_add(self.config.min_ftkn_bond_prd);
        let unlock = if cur_unlock >= bonded { cur_unlock } else { bonded };
        h.balance = h.balance - amount;
        h.staked = Some(StakedTokens { amount: cur_amount + amount, unlock_height: unlock });
        self.put_holder(i, h);
        proof {
            if (i as int) < s0.len() {
                assert(self.holders@ =~= s0.update(i as int, self.holders@[i as int]));
            } else {
                assert(self.holders@ =~= s0.push(self.holders@[i as int]));
            }
            lemma_holder_change(s0, self.holders@, i as int, o, self.holders@[i as int], sender@);
        }
        Ok(())
    }

    /// The aggregate after one voter's vote goes from `old` to `new`, kept
    /// exact by the bound on the total weight.
    fn replace_vote(&mut self, old_vote: Option<VoteCast>, new_vote: Option<VoteCast>)
        requires
            old(self).agg_resv.wf(),
            old(self).agg_resv.stake_v() + weight_of_cast(new_vote) - weight_of_cast(old_vote)
                < cap(3),
            weight_of_cast(old_vote) <= old(self).agg_resv.stake_v(),
        ensures
            final(self).agg_resv.wf(),
            final(self).agg_resv.stake_v() == old(self).agg_resv.stake_v() + weight_of_cast(new_vote)
                - weight_of_cast(old_vote),
            final(self).agg_resv.price_v() == agg_price_of(
                old(self).agg_resv.stake_v(),
                old(self).agg_resv.price_v(),
                weight_of_cast(old_vote),
                price_of_cast(old_vote),
                weight_of_cast(new_vote),
                price_of_cast(new_vote),
            ) % cap(3),
            final(self).holders == old(self).holders,
            final(self).info == old(self).info,
            final(self).config == old(self).config,
            final(self).total_supply == old(self).total_supply,
            final(self).contract_tokens == old(self).contract_tokens,
            final(self).auction == old(self).auction,
            final(self).bids == old(self).bids,
            final(self).props == old(self).props,
    {
        let o = cast_to_resv(old_vote);
        let n = cast_to_resv(new_vote);
        let agg = new_agg_resv_vote(&self.agg_resv, &o, &n);
        proof {
            lemma_caps();
            let s = self.agg_resv.stake_v();
            crate::wide::lemma_val_bound(self.agg_resv.stake.limbs@);
            crate::wide::lemma_val_bound(self.agg_resv.price.limbs@);
            crate::wide::lemma_val_bound(n.stake.limbs@);
            assert(s < cap(3));
            assert(cap(3) < cap(6)) by (nonlinear_arith)
                requires
                    cap(6) == cap(3) * cap(3),
                    cap(3) > 1,
            ;
            assert(s + n.stake_v() < cap(6)) by (nonlinear_arith)
                requires
                    s < cap(3),
                    n.stake_v() < cap(3),
                    cap(6) == cap(3) * cap(3),
                    cap(3) > 2,
            ;
            assert(agg_stake_after(self.agg_resv, o, n) == s + n.stake_v() - o.stake_v());
            vstd::arithmetic::div_mod::lemma_small_mod(
                agg_stake_after(self.agg_resv, o, n),
                cap(3),
            );
            vstd::arithmetic::div_mod::lemma_small_mod(self.agg_resv.price_v(), cap(3));
        }
        self.agg_resv = agg;
    }
}

/// The scaled weight of an optional vote.
pub open spec fn weight_of_cast(v: Option<VoteCast>) -> nat {
    match v {
        Some(c) => (c.stake * PRECISION) as nat,
        None => 0,
    }
}

/// The scaled price of an optional vote.
pub open spec fn price_of_cast(v: Option<VoteCast>) -> nat {
    match v {
        Some(c) => (c.price * PRECISION) as nat,
        None => 0,
    }
}

/// The scaled form of an optional vote; no vote weighs nothing at price zero.
pub fn cast_to_resv(v: Option<VoteCast>) -> (r: ResvVote)
    ensures
        r.wf(),
        r.stake_v() == weight_of_cast(v),
        r.price_v() == price_of_cast(v),
{
    match v {
        Some(c) => ResvVote::new(c.stake, c.price),
        None => ResvVote::empty(),
    }
}

impl Vault {
    /// The aggregate reservation price in whole units, as the band is drawn around it.
    pub open spec fn agg_price_units(&self) -> nat {
        (self.agg_resv.price_v() / (PRECISION as nat)) % crate::resv::u128_range()
    }

    /// The lowest reservation price a vote may name.
    pub open spec fn band_floor(&self) -> Option<u128> {
        crate::ratio::ratio_of(self.agg_price_units(), 100, self.config.auc_conf.resv_boundary as nat)
    }

    /// The highest reservation price a vote may name (`None`: no bound within `u128`).
    pub open spec fn band_ceiling(&self) -> Option<u128> {
        crate::ratio::ratio_of(self.agg_price_units(), self.config.auc_conf.resv_boundary as nat, 100)
    }

    /// What an unstake request is answered with.
    pub open spec fn unstake_check(&self, sender: Seq<char>, amount: u128, height: u64) -> Result<(), VaultError> {
        match stake_of(self.holders@, sender) {
            None => Err(VaultError::NotStaked),
            Some(st) => if height < st.unlock_height {
                Err(VaultError::StillBonded { unlock_height: st.unlock_height })
            } else if amount > st.amount {
                Err(VaultError::InsufficientStake)
            } else {
                Ok(())
            },
        }
    }

    /// What a reservation-price vote is answered with.
    pub open spec fn resv_vote_check(&self, sender: Seq<char>, price: u128) -> Result<(), VaultError> {
        if !in_band(price, self.band_floor(), self.band_ceiling()) {
            Err(VaultError::ResvPriceOutOfBounds {
                floor: match self.band_floor() {
                    Some(f) => f,
                    None => u128::MAX,
                },
                ceiling: self.band_ceiling(),
            })
        } else if stake_of(self.holders@, sender).is_none() {
            Err(VaultError::NotStaked)
        } else {
            Ok(())
        }
    }

    /// Unstakes `amount`, once the bond has run out. Where the holder has
    /// voted on the reservation price, the vote now weighs the holder's
    /// remaining stake, at the same price, and the aggregate follows.
    pub fn try_unstake(&mut self, sender: &String, amount: u128, height: u64) -> (r: Result<(), VaultError>)
        requires
            old(self).wf(),
        ensures
            final(self).wf(),
            r == old(self).unstake_check(sender@, amount, height),
            r.is_err() ==> *final(self) == *old(self),
            votes_track_stakes(old(self).holders@) ==> votes_track_stakes(final(self).holders@),
            r.is_ok() ==> {
                let old_vote = vote_of(old(self).holders@, sender@);
                let new_vote = match old_vote {
                    Some(c) => Some(
                        VoteCast {
                            stake: (staked_at(old(self).holders@, sender@) - amount) as u128,
                            price: c.price,
                        },
                    ),
                    None => None,
                };
                &&& balance_of(final(self).holders@, sender@) == balance_of(old(self).holders@, sender@) + amount
                &&& stake_of(final(self).holders@, sender@) == Some(
                    StakedTokens {
                        amount: (staked_at(old(self).holders@, sender@) - amount) as u128,
                        unlock_height: unlock_at(old(self).holders@, sender@),
                    },
                )
                &&& vote_of(final(self).holders@, sender@) == new_vote
                &&& others_same(old(self).holders@, final(self).holders@, sender@)
                &&& final(self).agg_resv.stake_v() == old(self).agg_resv.stake_v()
                    - weight_of_cast(old_vote) + weight_of_cast(new_vote)
                &&& final(self).agg_resv.price_v() == agg_price_of(
                    old(self).agg_resv.stake_v(),
                    old(self).agg_resv.price_v(),
                    weight_of_cast(old_vote),
                    price_of_cast(old_vote),
                    weight_of_cast(new_vote),
                    price_of_cast(new_vote),
                ) % cap(3)
            },
            final(self).info == old(self).info,
            final(self).config == old(self).config,
            final(self).total_supply == old(self).total_supply,
            final(self).contract_tokens == old(self).contract_tokens,
            final(self).auction == old(self).auction,
            final(self).bids == old(self).bids,
            final(self).props == old(self).props,
    {
        let st = match self.staked_tokens(sender) {
            None => return Err(VaultError::NotStaked),
            Some(st) => st,
        };
        if height < st.unlock_height {
            return Err(VaultError::StillBonded { unlock_height: st.unlock_height });
        }
        if amount > st.amount {
            return Err(VaultError::InsufficientStake);
        }
        let ghost s0 = self.holders@;
        proof {
            lemma_holder_index(s0, sender@);
        }
        let (i, mut h) = self.take_holder(sender);
        let ghost o = h;
        proof {
            lemma_sum_ge(s0, i as int, tokens_fn());
            lemma_sum_ge(s0, i as int, weight_fn());
        }
        let old_vote = h.resv_vote;
        let new_vote = match old_vote {
            Some(c) => Some(VoteCast { stake: st.amount - amount, price: c.price }),
            None => None,
        };
        h.balance = h.balance + amount;
        h.staked = Some(StakedTokens { amount: st.amount - amount, unlock_height: st.unlock_height });
        h.resv_vote = new_vote;
        self.put_holder(i, h);
        proof {
            assert(self.holders@ =~= s0.update(i as int, self.holders@[i as int]));
            lemma_holder_change(s0, self.holders@, i as int, o, self.holders@[i as int], sender@);
            lemma_weights_bounded(self.holders@, self.total_supply as nat);
            if votes_track_stakes(s0) {
                assert(match s0[i as int].resv_vote {
                    Some(v) => v.stake as nat == staked_amount(s0[i as int]),
                    None => staked_amount(s0[i as int]) == 0,
                });
            }
            lemma_track_update(s0, i as int, self.holders@[i as int]);
        }
        self.replace_vote(old_vote, new_vote);
        Ok(())
    }

    /// Records the sender's reservation-price vote at its whole stake, once
    /// the price lies in the band around the aggregate, updates the aggregate
    /// by the difference, and bonds the stake for the minimum period.
    pub fn try_vote_resv_price(&mut self, sender: &String, price: u128, height: u64) -> (r: Result<
        (),
        VaultError,
    >)
        requires
            old(self).wf(),
        ensures
            final(self).wf(),
            r == old(self).resv_vote_check(sender@, price),
            r.is_err() ==> *final(self) == *old(self),
            votes_track_stakes(old(self).holders@) ==> votes_track_stakes(final(self).holders@),
            r.is_ok() ==> {
                let old_vote = vote_of(old(self).holders@, sender@);
                let new_vote = Some(VoteCast { stake: staked_at(old(self).holders@, sender@) as u128, price });
                &&& balance_of(final(self).holders@, sender@) == balance_of(old(self).holders@, sender@)
                &&& stake_of(final(self).holders@, sender@) == Some(
                    StakedTokens {
                        amount: staked_at(old(self).holders@, sender@) as u128,
                        unlock_height: max_u64(
                            unlock_at(old(self).holders@, sender@),
                            sat_add_u64(height, old(self).config.min_ftkn_bond_prd),
                        ),
                    },
                )
                &&& vote_of(final(self).holders@, sender@) == new_vote
                &&& others_same(old(self).holders@, final(self).holders@, sender@)
                &&& final(self).agg_resv.stake_v() == old(self).agg_resv.stake_v()
                    - weight_of_cast(old_vote) + weight_of_cast(new_vote)
                &&& final(self).agg_resv.price_v() == agg_price_of(
                    old(self).agg_resv.stake_v(),
                    old(self).agg_resv.price_v(),
                    weight_of_cast(old_vote),
                    price_of_cast(old_vote),
                    weight_of_cast(new_vote),
                    price_of_cast(new_vote),
                ) % cap(3)
            },
            final(self).info == old(self).info,
            final(self).config == old(self).config,
            final(self).total_supply == old(self).total_supply,
            final(self).contract_tokens == old(self).contract_tokens,
            final(self).auction == old(self).auction,
            final(self).bids == old(self).bids,
            final(self).props == old(self).props,
    {
        let agg_price = self.agg_resv.uint128_price();
        let boundary = self.config.auc_conf.resv_boundary as u128;
        let floor = crate::ratio::mul_div(agg_price, 100, boundary);
        let ceiling = crate::ratio::mul_div(agg_price, boundary, 100);
        let ok_floor = match floor {
            Some(f) => price >= f,
            None => false,
        };
        let ok_ceiling = match ceiling {
            Some(c) => price <= c,
            None => true,
        };
        if !ok_floor || !ok_ceiling {
            let f = match floor {
                Some(f) => f,
                None => u128::MAX,
            };
            return Err(VaultError::ResvPriceOutOfBounds { floor: f, ceiling });
        }
        let st = match self.staked_tokens(sender) {
            None => return Err(VaultError::NotStaked),
            Some(st) => st,
        };
        let ghost s0 = self.holders@;
        proof {
            lemma_holder_index(s0, sender@);
        }
        let (i, mut h) = self.take_holder(sender);
        let ghost o = h;
        proof {
            lemma_sum_ge(s0, i as int, weight_fn());
        }
        let old_vote = h.resv_vote;
        let new_vote = Some(VoteCast { stake: st.amount, price });
        let bonded = height.saturating_add(self.config.min_ftkn_bond_prd);
        let unlock = if st.unlock_height >= bonded { st.unlock_height } else { bonded };
        h.staked = Some(StakedTokens { amount: st.amount, unlock_height: unlock });
        h.resv_vote = new_vote;
        self.put_holder(i, h);
        proof {
            assert(self.holders@ =~= s0.update(i as int, self.holders@[i as int]));
            lemma_holder_change(s0, self.holders@, i as int, o, self.holders@[i as int], sender@);
            lemma_weights_bounded(self.holders@, self.total_supply as nat);
            lemma_track_update(s0, i as int, self.holders@[i as int]);
        }
        self.replace_vote(old_vote, new_vote);
        Ok(())
    }
}

/// Replacing one holder by one whose vote weighs exactly its stake keeps
/// every vote tracking its stake.
pub proof fn lemma_track_update(s: Seq<Holder>, i: int, h: Holder)
    requires
        0 <= i < s.len(),
        votes_track_stakes(s) ==> match h.resv_vote {
            Some(v) => v.stake as nat == staked_amount(h),
            None => staked_amount(h) == 0,
        },
    ensures
        votes_track_stakes(s) ==> votes_track_stakes(s.update(i, h)),
{
    let t = s.update(i, h);
    if votes_track_stakes(s) {
        assert forall|k: int| 0 <= k < t.len() implies match #[trigger] t[k].resv_vote {
            Some(v) => v.stake as nat == staked_amount(t[k]),
            None => staked_amount(t[k]) == 0,
        } by {
            if k != i {
                assert(t[k] == s[k]);
            }
        }
    }
}

/// The position of the latest bid by `a`, or -1.
pub open spec fn last_bid_index(bids: Seq<BidInfo>, a: Seq<char>) -> int
    decreases bids.len(),
{
    if bids.len() == 0 {
        -1
    } else if bids.last().bidder@ == a {
        bids.len() - 1
    } else {
        last_bid_index(bids.drop_last(), a)
    }
}

pub proof fn lemma_last_bid_index(bids: Seq<BidInfo>, a: Seq<char>)
    ensures
        -1 <= last_bid_index(bids, a) < bids.len(),
        last_bid_index(bids, a) >= 0 ==> bids[last_bid_index(bids, a)].bidder@ == a,
    decreases bids.len(),
{
    if bids.len() > 0 {
        lemma_last_bid_index(bids.drop_last(), a);
        let k = last_bid_index(bids.drop_last(), a);
        if bids.last().bidder@ != a && k >= 0 {
            assert(bids.drop_last()[k] == bids[k]);
        }
    }
}

/// Changing a bid's flags keeps every latest-bid position.
pub proof fn lemma_last_bid_update(bids: Seq<BidInfo>, k: int, b: BidInfo, a: Seq<char>)
    requires
        0 <= k < bids.len(),
        b.bidder@ == bids[k].bidder@,
    ensures
        last_bid_index(bids.update(k, b), a) == last_bid_index(bids, a),
    decreases bids.len(),
{
    let t = bids.update(k, b);
    if k < bids.len() - 1 {
        lemma_last_bid_update(bids.drop_last(), k, b, a);
        assert(t.drop_last() =~= bids.drop_last().update(k, b));
    } else {
        assert(t.drop_last() =~= bids.drop_last());
    }
}

/// The position of the latest bid by `a`.
pub fn find_last_bid(bids: &Vec<BidInfo>, a: &String) -> (r: Option<usize>)
    ensures
        r.is_some() == (last_bid_index(bids@, a@) >= 0),
        r.is_some() ==> r.unwrap() as int == last_bid_index(bids@, a@),
{
    let mut i: usize = bids.len();
    proof {
        assert(bids@.take(i as int) =~= bids@);
    }
    while i > 0
        invariant
            i <= bids@.len(),
            last_bid_index(bids@, a@) == last_bid_index(bids@.take(i as int), a@),
        decreases i,
    {
        let ghost t = bids@.take(i as int);
        proof {
            assert(t.drop_last() =~= bids@.take(i - 1));
            assert(t.last() == bids@[i - 1]);
        }
        if bids[i - 1].bidder == *a {
            return Some(i - 1);
        }
        i = i - 1;
    }
    proof {
        assert(bids@.take(0) =~= Seq::<BidInfo>::empty());
    }
    None
}

/// A raise by a non-negative number of basis points never lowers a bid.
pub proof fn lemma_min_next_ge(last: u128, inc: u32)
    ensures
        min_next_bid(last, inc) >= last,
{
    let x = last as int;
    let m = 10000 + inc as int;
    assert(x * m >= x * 10000) by (nonlinear_arith)
        requires
            x >= 0,
            m >= 10000,
    ;
    vstd::arithmetic::div_mod::lemma_div_is_ordered(x * 10000, x * m, 10000);
    vstd::arithmetic::div_mod::lemma_div_multiples_vanish(x, 10000);
    assert(x * 10000 == 10000 * x) by (nonlinear_arith);
}

impl Vault {
    /// The aggregate staked share in whole units.
    pub open spec fn agg_stake_units(&self) -> nat {
        (self.agg_resv.stake_v() / (PRECISION as nat)) % crate::resv::u128_range()
    }

    /// The share of the supply, in basis points, that backs the reservation price.
    pub open spec fn staked_bp(&self) -> Option<u128> {
        crate::ratio::ratio_of(self.agg_stake_units(), 10000, self.total_supply as nat)
    }

    /// The smallest bid that may follow the last one.
    pub open spec fn min_bid(&self) -> Option<u128> {
        crate::ratio::ratio_of(
            self.bids@.last().amount as nat,
            (10000 + self.auction.auc_config_snapshot.min_bid_inc) as nat,
            10000,
        )
    }

    /// What a bid is answered with.
    pub open spec fn bid_check(&self, amount: u128, height: u64) -> Result<(), VaultError> {
        if !self.info.vault_active {
            Err(VaultError::VaultInactive)
        } else if !self.auction.is_active {
            if amount < self.agg_price_units() {
                Err(VaultError::BelowReservationPrice { price: self.agg_price_units() as u128 })
            } else if self.staked_bp().is_some() && self.staked_bp().unwrap()
                < self.config.auc_conf.unlock_threshold {
                Err(
                    VaultError::VaultLocked {
                        threshold: self.config.auc_conf.unlock_threshold,
                        staked_bp: self.staked_bp().unwrap(),
                    },
                )
            } else {
                Ok(())
            }
        } else if height > self.auction.end_height {
            Err(VaultError::AuctionClosed)
        } else if amount < min_next_bid(
            self.bids@.last().amount,
            self.auction.auc_config_snapshot.min_bid_inc,
        ) {
            Err(VaultError::BelowMinIncrement { min_bid: self.min_bid() })
        } else {
            Ok(())
        }
    }

    /// What the bidder pays now: the whole bid, or the raise over its own
    /// latest bid.
    pub open spec fn bid_charge(&self, bidder: Seq<char>, amount: u128) -> int {
        let k = last_bid_index(self.bids@, bidder);
        if k >= 0 {
            amount - self.bids@[k].amount
        } else {
            amount as int
        }
    }

    /// Places a bid. The first bid that reaches the reservation price while
    /// enough stake backs it opens the auction and freezes the auction
    /// settings; later bids must raise the last one by the minimum increment
    /// before the deadline. The bidder pays only the raise over its own
    /// latest bid; the returned message collects it.
    #[verifier::rlimit(60)]
    pub fn try_bid(&mut self, bidder: &String, amount: u128, height: u64) -> (r: Result<Outbound, VaultError>)
        requires
            old(self).wf(),
        ensures
            final(self).wf(),
            r.is_ok() == old(self).bid_check(amount, height).is_ok(),
            r.is_err() ==> r == Err::<Outbound, VaultError>(
                old(self).bid_check(amount, height).get_Err_0(),
            ) && *final(self) == *old(self),
            r.is_ok() ==> {
                &&& final(self).bids@.len() == old(self).bids@.len() + 1
                &&& final(self).bids@.drop_last() == old(self).bids@
                &&& final(self).bids@.last().bidder == *bidder
                &&& final(self).bids@.last().amount == amount
                &&& !final(self).bids@.last().winning_bid
                &&& !final(self).bids@.last().retrieved_bid
                &&& final(self).auction.is_active
                &&& old(self).auction.is_active ==> final(self).auction == old(self).auction
                &&& !old(self).auction.is_active ==> final(self).auction.end_height == sat_add_u64(
                    height,
                    old(self).config.auc_conf.auc_period,
                ) && final(self).auction.auc_config_snapshot == old(self).config.auc_conf
                &&& r.get_Ok_0() == Outbound::TransferFrom {
                    token: final(self).auction.auc_config_snapshot.bid_token,
                    owner: *bidder,
                    recipient: old(self).info.instance.ftoken_contr.address,
                    amount: old(self).bid_charge(bidder@, amount) as u128,
                }
            },
            final(self).info == old(self).info,
            final(self).config == old(self).config,
            final(self).total_supply == old(self).total_supply,
            final(self).holders == old(self).holders,
            final(self).contract_tokens == old(self).contract_tokens,
            final(self).agg_resv == old(self).agg_resv,
            final(self).props == old(self).props,
    {
        if !self.info.vault_active {
            return Err(VaultError::VaultInactive);
        }
        if !self.auction.is_active {
            let price = self.agg_resv.uint128_price();
            if amount < price {
                return Err(VaultError::BelowReservationPrice { price });
            }
            let staked = self.agg_resv.uint128_stake();
            if let Some(bp) = crate::ratio::mul_div(staked, 10000, self.total_supply) {
                if bp < self.config.auc_conf.unlock_threshold {
                    return Err(
                        VaultError::VaultLocked {
                            threshold: self.config.auc_conf.unlock_threshold,
                            staked_bp: bp,
                        },
                    );
                }
            }
            self.auction = AuctionInfo {
                is_active: true,
                end_height: height.saturating_add(self.config.auc_conf.auc_period),
                auc_config_snapshot: self.config.auc_conf.duplicate(),
            };
        } else {
            if height > self.auction.end_height {
                return Err(VaultError::AuctionClosed);
            }
            let last = self.bids[self.bids.len() - 1].amount;
            let inc = self.auction.auc_config_snapshot.min_bid_inc;
            let min_bid = crate::ratio::mul_div(last, 10000 + inc as u128, 10000);
            let enough = match min_bid {
                Some(m) => amount >= m,
                None => false,
            };
            if !enough {
                return Err(VaultError::BelowMinIncrement { min_bid });
            }
        }
        let ghost b0 = self.bids@;
        let charge = match find_last_bid(&self.bids, bidder) {
            Some(k) => {
                proof {
                    lemma_last_bid_index(b0, bidder@);
                    lemma_min_next_ge(b0.last().amount, self.auction.auc_config_snapshot.min_bid_inc);
                    assert(b0[k as int].amount <= b0[b0.len() - 1].amount);
                }
                amount - self.bids[k].amount
            },
            None => amount,
        };
        let token = self.auction.auc_config_snapshot.bid_token.duplicate();
        let recipient = self.info.instance.ftoken_contr.address.clone();
        self.bids.push(BidInfo::new(bidder.clone(), amount));
        proof {
            let b1 = self.bids@;
            let inc = self.auction.auc_config_snapshot.min_bid_inc;
            assert(b1.drop_last() =~= b0);
            if b0.len() > 0 {
                lemma_min_next_ge(b0.last().amount, inc);
            }
            assert forall|i: int| 0 <= i < b1.len() - 1 implies #[trigger] b1[i + 1].amount
                >= min_next_bid(b1[i].amount, inc) by {
                assert(b1[i] == b0[i]);
                if i + 1 < b0.len() {
                    assert(b1[i + 1] == b0[i + 1]);
                }
            }
            assert forall|i: int, j: int| 0 <= i <= j < b1.len() implies #[trigger] b1[i].amount
                <= #[trigger] b1[j].amount by {
                if j < b0.len() {
                    assert(b1[i] == b0[i] && b1[j] == b0[j]);
                } else if i < b0.len() {
                    assert(b1[i] == b0[i]);
                    assert(b0[i].amount <= b0[b0.len() - 1].amount);
                }
            }
            assert forall|i: int| 0 <= i < b1.len() && #[trigger] b1[i].winning_bid implies i == b1.len()
                - 1 && !self.info.vault_active by {
                if i < b0.len() {
                    assert(b1[i] == b0[i]);
                }
            }
        }
        Ok(Outbound::TransferFrom { token, owner: bidder.clone(), recipient, amount: charge })
    }

    /// What a request to close the auction is answered with.
    pub open spec fn finalize_auction_check(&self, height: u64) -> Result<(), VaultError> {
        if !self.info.vault_active {
            Err(VaultError::VaultInactive)
        } else if !self.auction.is_active {
            Err(VaultError::AuctionNotStarted)
        } else if height < self.auction.end_height {
            Err(VaultError::AuctionStillOpen { end_height: self.auction.end_height })
        } else {
            Ok(())
        }
    }

    /// Closes the auction once its deadline is reached: the last bid wins,
    /// the asset is sent to its bidder, and the vault closes for good.
    pub fn try_finalize_auction(&mut self, height: u64) -> (r: Result<Outbound, VaultError>)
        requires
            old(self).wf(),
        ensures
            final(self).wf(),
            r.is_ok() == old(self).finalize_auction_check(height).is_ok(),
            r.is_err() ==> r == Err::<Outbound, VaultError>(
                old(self).finalize_auction_check(height).get_Err_0(),
            ) && *final(self) == *old(self),
            r.is_ok() ==> {
                let n = old(self).bids@.len();
                let w = old(self).bids@[n - 1];
                &&& !final(self).info.vault_active
                &&& final(self).info.instance == old(self).info.instance
                &&& final(self).bids@ == old(self).bids@.update(
                    n - 1,
                    BidInfo { winning_bid: true, ..w },
                )
                &&& r.get_Ok_0() == Outbound::SendNft {
                    nft_contr: old(self).info.instance.init_nft_info.nft_contr,
                    recipient: w.bidder,
                    token_id: old(self).info.instance.init_nft_info.token_id,
                    payload: None,
                }
            },
            final(self).config == old(self).config,
            final(self).total_supply == old(self).total_supply,
            final(self).holders == old(self).holders,
            final(self).contract_tokens == old(self).contract_tokens,
            final(self).agg_resv == old(self).agg_resv,
            final(self).auction == old(self).auction,
            final(self).props == old(self).props,
    {
        if !self.info.vault_active {
            return Err(VaultError::VaultInactive);
        }
        if !self.auction.is_active {
            return Err(VaultError::AuctionNotStarted);
        }
        if height < self.auction.end_height {
            return Err(VaultError::AuctionStillOpen { end_height: self.auction.end_height });
        }
        let n = self.bids.len();
        let ghost b0 = self.bids@;
        let w = BidInfo {
            bidder: self.bids[n - 1].bidder.clone(),
            amount: self.bids[n - 1].amount,
            winning_bid: true,
            retrieved_bid: self.bids[n - 1].retrieved_bid,
        };
        let msg = Outbound::SendNft {
            nft_contr: self.info.instance.init_nft_info.nft_contr.duplicate(),
            recipient: self.bids[n - 1].bidder.clone(),
            token_id: self.info.instance.init_nft_info.token_id.clone(),
            payload: None,
        };
        self.bids.set(n - 1, w);
        self.info.vault_active = false;
        proof {
            let b1 = self.bids@;
            assert(b1 =~= b0.update(n - 1, BidInfo { winning_bid: true, ..b0[n - 1] }));
            assert forall|i: int| 0 <= i < b1.len() - 1 implies #[trigger] b1[i + 1].amount
                >= min_next_bid(b1[i].amount, self.auction.auc_config_snapshot.min_bid_inc) by {
                assert(b1[i].amount == b0[i].amount);
                assert(b1[i + 1].amount == b0[i + 1].amount);
            }
            assert forall|i: int, j: int| 0 <= i <= j < b1.len() implies #[trigger] b1[i].amount
                <= #[trigger] b1[j].amount by {
                assert(b1[i].amount == b0[i].amount);
                assert(b1[j].amount == b0[j].amount);
            }
        }
        Ok(msg)
    }

    /// What a request to take a bid back is answered with.
    pub open spec fn retrieve_bid_check(&self, bidder: Seq<char>) -> Result<(), VaultError> {
        let k = last_bid_index(self.bids@, bidder);
        if self.info.vault_active {
            Err(VaultError::VaultStillActive)
        } else if k < 0 {
            Err(VaultError::DidNotBid)
        } else if self.bids@[k].retrieved_bid {
            Err(VaultError::BidAlreadyRetrieved)
        } else if self.bids@[k].winning_bid {
            Err(VaultError::WinnerCannotRetrieve)
        } else {
            Ok(())
        }
    }

    /// Pays a losing bidder its latest bid back, once the auction has closed;
    /// the bid is marked so that it is paid only once.
    pub fn try_retrieve_bid(&mut self, bidder: &String) -> (r: Result<Outbound, VaultError>)
        requires
            old(self).wf(),
        ensures
            final(self).wf(),
            r.is_ok() == old(self).retrieve_bid_check(bidder@).is_ok(),
            r.is_err() ==> r == Err::<Outbound, VaultError>(
                old(self).retrieve_bid_check(bidder@).get_Err_0(),
            ) && *final(self) == *old(self),
            r.is_ok() ==> {
                let k = last_bid_index(old(self).bids@, bidder@);
                let b = old(self).bids@[k];
                &&& final(self).bids@ == old(self).bids@.update(k, BidInfo { retrieved_bid: true, ..b })
                &&& r.get_Ok_0() == Outbound::Transfer {
                    token: old(self).auction.auc_config_snapshot.bid_token,
                    recipient: *bidder,
                    amount: b.amount,
                }
            },
            final(self).info == old(self).info,
            final(self).config == old(self).config,
            final(self).total_supply == old(self).total_supply,
            final(self).holders == old(self).holders,
            final(self).contract_tokens == old(self).contract_tokens,
            final(self).agg_resv == old(self).agg_resv,
            final(self).auction == old(self).auction,
            final(self).props == old(self).props,
    {
        if self.info.vault_active {
            return Err(VaultError::VaultStillActive);
        }
        let k = match find_last_bid(&self.bids, bidder) {
            None => return Err(VaultError::DidNotBid),
            Some(k) => k,
        };
        proof {
            lemma_last_bid_index(self.bids@, bidder@);
        }
        if self.bids[k].retrieved_bid {
            return Err(VaultError::BidAlreadyRetrieved);
        }
        if self.bids[k].winning_bid {
            return Err(VaultError::WinnerCannotRetrieve);
        }
        let ghost b0 = self.bids@;
        let amount = self.bids[k].amount;
        let nb = BidInfo {
            bidder: self.bids[k].bidder.clone(),
            amount,
            winning_bid: false,
            retrieved_bid: true,
        };
        self.bids.set(k, nb);
        proof {
            let b1 = self.bids@;
            assert(b1 =~= b0.update(k as int, BidInfo { retrieved_bid: true, ..b0[k as int] }));
            assert forall|i: int| 0 <= i < b1.len() - 1 implies #[trigger] b1[i + 1].amount
                >= min_next_bid(b1[i].amount, self.auction.auc_config_snapshot.min_bid_inc) by {
                assert(b1[i].amount == b0[i].amount);
                assert(b1[i + 1].amount == b0[i + 1].amount);
            }
            assert forall|i: int, j: int| 0 <= i <= j < b1.len() implies #[trigger] b1[i].amount
                <= #[trigger] b1[j].amount by {
                assert(b1[i].amount == b0[i].amount);
                assert(b1[j].amount == b0[j].amount);
            }
            assert forall|i: int| 0 <= i < b1.len() && #[trigger] b1[i].winning_bid implies i == b1.len()
                - 1 && !self.info.vault_active by {
                assert(b1[i].winning_bid == b0[i].winning_bid);
            }
        }
        Ok(
            Outbound::Transfer {
                token: self.auction.auc_config_snapshot.bid_token.duplicate(),
                recipient: bidder.clone(),
                amount,
            },
        )
    }
}

/// `a + b`, stopping at the largest `u128`.
pub open spec fn sat_add_u128(a: nat, b: nat) -> u128 {
    if a + b <= u128::MAX {
        (a + b) as u128
    } else {
        u128::MAX
    }
}

/// A running count after one voter's share goes from `o` to `n`: the old
/// share is taken out (stopping at zero) and the new one added (stopping at
/// the largest `u128`).
pub open spec fn tally_delta(t: u128, o: u128, n: u128) -> u128 {
    let base: nat = if t >= o {
        (t - o) as nat
    } else {
        0
    };
    sat_add_u128(base, n as nat)
}

/// The tally after one voter's register goes from `o` to `n`.
pub open spec fn tally_after(t: VoteRegister, o: VoteRegister, n: VoteRegister) -> VoteRegister {
    VoteRegister {
        yes: tally_delta(t.yes, o.yes, n.yes),
        no: tally_delta(t.no, o.no, n.no),
        veto: tally_delta(t.veto, o.veto, n.veto),
        abstain: tally_delta(t.abstain, o.abstain, n.abstain),
    }
}

fn tally_delta_exec(t: u128, o: u128, n: u128) -> (r: u128)
    ensures
        r == tally_delta(t, o, n),
{
    let base = if t >= o { t - o } else { 0 };
    if base <= u128::MAX - n { base + n } else { u128::MAX }
}

/// The outcome of a tally over a supply: a veto share at or above the veto
/// threshold defeats the proposal with its stake; where the turnout (all four
/// counts, summed exactly) is below quorum it is lost;
/// otherwise it wins where yes outweighs no, and a tie is lost.
pub open spec fn vote_outcome(
    t: VoteRegister,
    supply: nat,
    quorum: u128,
    veto_threshold: u128,
) -> VoteResult {
    let veto_bp = crate::ratio::ratio_of(t.veto as nat, 10000, supply);
    let turnout = crate::ratio::ratio_of(
        t.yes as nat + t.no as nat + t.veto as nat + t.abstain as nat,
        10000,
        supply,
    );
    if veto_bp.is_none() || veto_bp.unwrap() >= veto_threshold {
        VoteResult::LostWithVeto
    } else if turnout.is_some() && turnout.unwrap() < quorum {
        VoteResult::Lost
    } else if t.yes > t.no {
        VoteResult::Won
    } else {
        VoteResult::Lost
    }
}

fn sat_add_exec(a: u128, b: u128) -> (r: u128)
    ensures
        r == sat_add_u128(a as nat, b as nat),
{
    if a <= u128::MAX - b { a + b } else { u128::MAX }
}

/// Decides a proposal from its final tally.
pub fn determine_vote_res(
    tally: &VoteRegister,
    total_supply: u128,
    quorum: u128,
    veto_threshold: u128,
) -> (r: VoteResult)
    requires
        total_supply > 0,
    ensures
        r == vote_outcome(*tally, total_supply as nat, quorum, veto_threshold),
{
    let veto_bp = crate::ratio::mul_div(tally.veto, 10000, total_supply);
    let vetoed = match veto_bp {
        None => true,
        Some(bp) => bp >= veto_threshold,
    };
    if vetoed {
        return VoteResult::LostWithVeto;
    }
    let total = crate::ratio::sum_of_four(tally.yes, tally.no, tally.veto, tally.abstain);
    let turnout = crate::ratio::mul_div_wide(&total, 10000, total_supply);
    if let Some(bp) = turnout {
        if bp < quorum {
            return VoteResult::Lost;
        }
    }
    if tally.yes > tally.no {
        VoteResult::Won
    } else {
        VoteResult::Lost
    }
}

/// The last register of voter `a`, or zero.
pub open spec fn voter_reg_of(s: Seq<VoterReg>, a: Seq<char>) -> VoteRegister
    decreases s.len(),
{
    if s.len() == 0 {
        VoteRegister { yes: 0, no: 0, veto: 0, abstain: 0 }
    } else if s.last().voter@ == a {
        s.last().reg
    } else {
        voter_reg_of(s.drop_last(), a)
    }
}

/// The position of the last register of voter `a`, or -1.
pub open spec fn voter_index(s: Seq<VoterReg>, a: Seq<char>) -> int
    decreases s.len(),
{
    if s.len() == 0 {
        -1
    } else if s.last().voter@ == a {
        s.len() - 1
    } else {
        voter_index(s.drop_last(), a)
    }
}

pub proof fn lemma_voter_index(s: Seq<VoterReg>, a: Seq<char>)
    ensures
        -1 <= voter_index(s, a) < s.len(),
        voter_index(s, a) >= 0 ==> s[voter_index(s, a)].voter@ == a && voter_reg_of(s, a) == s[voter_index(s, a)].reg,
        voter_index(s, a) < 0 ==> voter_reg_of(s, a) == (VoteRegister { yes: 0, no: 0, veto: 0, abstain: 0 }),
    decreases s.len(),
{
    if s.len() > 0 {
        lemma_voter_index(s.drop_last(), a);
        let k = voter_index(s.drop_last(), a);
        if s.last().voter@ != a && k >= 0 {
            assert(s.drop_last()[k] == s[k]);
        }
    }
}

/// Replacing the last register of a voter makes it that voter's register.
pub proof fn lemma_voter_update(s: Seq<VoterReg>, k: int, v: VoterReg, a: Seq<char>)
    requires
        0 <= k < s.len(),
        k == voter_index(s, a),
        v.voter@ == a,
    ensures
        voter_reg_of(s.update(k, v), a) == v.reg,
    decreases s.len(),
{
    let t = s.update(k, v);
    if k < s.len() - 1 {
        lemma_voter_update(s.drop_last(), k, v, a);
        assert(t.drop_last() =~= s.drop_last().update(k, v));
    }
}

fn find_voter(s: &Vec<VoterReg>, a: &String) -> (r: Option<usize>)
    ensures
        r.is_some() == (voter_index(s@, a@) >= 0),
        r.is_some() ==> r.unwrap() as int == voter_index(s@, a@),
{
    let mut i: usize = s.len();
    proof {
        assert(s@.take(i as int) =~= s@);
    }
    while i > 0
        invariant
            i <= s@.len(),
            voter_index(s@, a@) == voter_index(s@.take(i as int), a@),
        decreases i,
    {
        let ghost t = s@.take(i as int);
        proof {
            assert(t.drop_last() =~= s@.take(i - 1));
            assert(t.last() == s@[i - 1]);
        }
        if s[i - 1].voter == *a {
            return Some(i - 1);
        }
        i = i - 1;
    }
    proof {
        assert(s@.take(0) =~= Seq::<VoterReg>::empty());
    }
    None
}

impl Vault {
    /// Hands the claimer's whole spendable balance to the vault, once the
    /// auction has closed, and pays out its share of the winning bid,
    /// rounded down.
    pub fn try_claim_proceeds(&mut self, claimer: &String) -> (r: Result<Outbound, VaultError>)
        requires
            old(self).wf(),
        ensures
            final(self).wf(),
            r.is_err() == old(self).info.vault_active,
            r.is_err() ==> r == Err::<Outbound, VaultError>(VaultError::VaultStillActive)
                && *final(self) == *old(self),
            r.is_ok() ==> {
                let bal = balance_of(old(self).holders@, claimer@);
                let win = old(self).bids@.last().amount;
                &&& balance_of(final(self).holders@, claimer@) == 0
                &&& stake_of(final(self).holders@, claimer@) == stake_of(old(self).holders@, claimer@)
                &&& vote_of(final(self).holders@, claimer@) == vote_of(old(self).holders@, claimer@)
                &&& others_same(old(self).holders@, final(self).holders@, claimer@)
                &&& final(self).contract_tokens == old(self).contract_tokens + bal
                &&& r.get_Ok_0() == Outbound::Transfer {
                    token: old(self).auction.auc_config_snapshot.bid_token,
                    recipient: *claimer,
                    amount: (bal * (win as nat) / (old(self).total_supply as nat)) as u128,
                }
            },
            final(self).info == old(self).info,
            final(self).config == old(self).config,
            final(self).total_supply == old(self).total_supply,
            final(self).agg_resv == old(self).agg_resv,
            final(self).auction == old(self).auction,
            final(self).bids == old(self).bids,
            final(self).props == old(self).props,
    {
        if self.info.vault_active {
            return Err(VaultError::VaultStillActive);
        }
        let bal = self.balance(claimer);
        let ghost s0 = self.holders@;
        if bal > 0 {
            proof {
                lemma_holder_index(s0, claimer@);
                lemma_sum_ge(s0, holder_index(s0, claimer@), tokens_fn());
            }
            let (i, mut h) = self.take_holder(claimer);
            let ghost o = h;
            h.balance = 0;
            self.put_holder(i, h);
            self.contract_tokens = self.contract_tokens + bal;
            proof {
                assert(self.holders@ =~= s0.update(i as int, self.holders@[i as int]));
                lemma_holder_change(s0, self.holders@, i as int, o, self.holders@[i as int], claimer@);
            }
        } else {
            proof {
                assert forall|b: Seq<char>| b != claimer@ implies #[trigger] holder_same(s0, self.holders@, b) by {}
            }
        }
        let win = self.bids[self.bids.len() - 1].amount;
        proof {
            crate::ratio::lemma_share_le(bal as nat, win as nat, self.total_supply as nat);
            lemma_holder_index(s0, claimer@);
            if holder_index(s0, claimer@) >= 0 {
                lemma_sum_ge(s0, holder_index(s0, claimer@), tokens_fn());
            }
        }
        let amount = match crate::ratio::calc_pro_rata(bal, self.total_supply, win) {
            Some(a) => a,
            None => 0,
        };
        Ok(
            Outbound::Transfer {
                token: self.auction.auc_config_snapshot.bid_token.duplicate(),
                recipient: claimer.clone(),
                amount,
            },
        )
    }

    /// What a new proposal is answered with.
    pub open spec fn propose_check(&self, proposer: Seq<char>, proposal: Proposal, stake: u128) -> Result<(), VaultError> {
        if !self.info.vault_active {
            Err(VaultError::VaultInactive)
        } else if stake < self.config.prop_conf.min_stake {
            Err(VaultError::InsufficientProposalStake { min_stake: self.config.prop_conf.min_stake })
        } else if !proposal_valid(proposal) {
            Err(VaultError::InvalidConfig)
        } else if self.props@.len() >= u32::MAX {
            Err(VaultError::TooManyProposals)
        } else if balance_of(self.holders@, proposer) < stake {
            Err(VaultError::InsufficientFunds)
        } else {
            Ok(())
        }
    }

    /// Opens a proposal, locking the proposer's stake in the vault until the
    /// outcome is decided; voting runs for the configured period from `height`.
    pub fn try_propose(&mut self, proposer: &String, proposal: Proposal, stake: u128, height: u64) -> (r:
        Result<u32, VaultError>)
        requires
            old(self).wf(),
        ensures
            final(self).wf(),
            r.is_ok() == old(self).propose_check(proposer@, proposal, stake).is_ok(),
            r.is_err() ==> r == Err::<u32, VaultError>(
                old(self).propose_check(proposer@, proposal, stake).get_Err_0(),
            ) && *final(self) == *old(self),
            r.is_ok() ==> {
                let id = old(self).props@.len();
                let p = final(self).props@[id as int];
                &&& r.get_Ok_0() == id
                &&& final(self).props@.len() == id + 1
                &&& final(self).props@.drop_last() == old(self).props@
                &&& p.info == (PropInfo {
                    prop_id: id as u32,
                    proposer: *proposer,
                    proposal,
                    stake,
                    stake_withdrawn: false,
                    outcome: None,
                    end_height: sat_add_u64(height, old(self).config.prop_conf.vote_period),
                })
                &&& p.tally == (VoteRegister { yes: 0, no: 0, veto: 0, abstain: 0 })
                &&& p.votes@.len() == 0
                &&& balance_of(final(self).holders@, proposer@) == balance_of(old(self).holders@, proposer@) - stake
                &&& stake_of(final(self).holders@, proposer@) == stake_of(old(self).holders@, proposer@)
                &&& vote_of(final(self).holders@, proposer@) == vote_of(old(self).holders@, proposer@)
                &&& others_same(old(self).holders@, final(self).holders@, proposer@)
                &&& final(self).contract_tokens == old(self).contract_tokens + stake
            },
            final(self).info == old(self).info,
            final(self).config == old(self).config,
            final(self).total_supply == old(self).total_supply,
            final(self).agg_resv == old(self).agg_resv,
            final(self).auction == old(self).auction,
            final(self).bids == old(self).bids,
    {
        if !self.info.vault_active {
            return Err(VaultError::VaultInactive);
        }
        if stake < self.config.prop_conf.min_stake {
            return Err(VaultError::InsufficientProposalStake { min_stake: self.config.prop_conf.min_stake });
        }
        let valid = match &proposal {
            Proposal::ChangeConfig { config } => config.is_valid(),
            Proposal::MsgToNft { .. } => true,
        };
        if !valid {
            return Err(VaultError::InvalidConfig);
        }
        if self.props.len() >= 0xffff_ffff {
            return Err(VaultError::TooManyProposals);
        }
        let bal = self.balance(proposer);
        if bal < stake {
            return Err(VaultError::InsufficientFunds);
        }
        let ghost s0 = self.holders@;
        let ghost props_before = self.props@;
        if stake > 0 {
            proof {
                lemma_holder_index(s0, proposer@);
            }
            let (i, mut h) = self.take_holder(proposer);
            let ghost o = h;
            h.balance = h.balance - stake;
            self.put_holder(i, h);
            proof {
                assert(self.holders@ =~= s0.update(i as int, self.holders@[i as int]));
                lemma_holder_change(s0, self.holders@, i as int, o, self.holders@[i as int], proposer@);
            }
            self.contract_tokens = self.contract_tokens + stake;
        } else {
            proof {
                assert forall|b: Seq<char>| b != proposer@ implies #[trigger] holder_same(s0, self.holders@, b) by {}
            }
        }
        let id = self.props.len() as u32;
        let info = PropInfo {
            prop_id: id,
            proposer: proposer.clone(),
            proposal,
            stake,
            stake_withdrawn: false,
            outcome: None,
            end_height: height.saturating_add(self.config.prop_conf.vote_period),
        };
        self.props.push(
            PropRecord {
                info,
                tally: VoteRegister { yes: 0, no: 0, veto: 0, abstain: 0 },
                votes: Vec::new(),
            },
        );
        proof {
            let props_after = self.props@;
            assert(props_after.drop_last() =~= props_before);
            assert forall|k: int| 0 <= k < props_after.len() implies #[trigger] props_after[k].info.prop_id == k by {
                if k < props_before.len() {
                    assert(props_after[k] == props_before[k]);
                }
            }
            assert forall|k: int| 0 <= k < props_after.len() implies proposal_valid(#[trigger] props_after[k].info.proposal) by {
                if k < props_before.len() {
                    assert(props_after[k] == props_before[k]);
                }
            }
        }
        Ok(id)
    }
}

/// A record to hold a place while a proposal is taken out and put back.
fn placeholder_record() -> (r: PropRecord) {
    PropRecord {
        info: PropInfo {
            prop_id: 0,
            proposer: String::new(),
            proposal: Proposal::MsgToNft { msg: AllowedNftMsg::Reveal },
            stake: 0,
            stake_withdrawn: true,
            outcome: None,
            end_height: 0,
        },
        tally: VoteRegister { yes: 0, no: 0, veto: 0, abstain: 0 },
        votes: Vec::new(),
    }
}

impl Vault {
    /// What a vote on a proposal is answered with.
    pub open spec fn vote_proposal_check(&self, prop_id: u32, voter: Seq<char>, height: u64) -> Result<(), VaultError> {
        if prop_id >= self.props@.len() {
            Err(VaultError::NoSuchProposal)
        } else if self.props@[prop_id as int].info.end_height < height {
            Err(VaultError::VotingClosed)
        } else if stake_of(self.holders@, voter).is_none() {
            Err(VaultError::NotStaked)
        } else {
            Ok(())
        }
    }

    /// Casts the voter's whole stake on a proposal, replacing its earlier
    /// vote there, and bonds the stake at least until the vote ends.
    pub fn try_vote_proposal(&mut self, voter: &String, prop_id: u32, vote: Vote, height: u64) -> (r:
        Result<(), VaultError>)
        requires
            old(self).wf(),
        ensures
            final(self).wf(),
            r == old(self).vote_proposal_check(prop_id, voter@, height),
            r.is_err() ==> *final(self) == *old(self),
            r.is_ok() ==> {
                let p = old(self).props@[prop_id as int];
                let q = final(self).props@[prop_id as int];
                let w = staked_at(old(self).holders@, voter@);
                let new_reg = register_of(vote, w as u128);
                let old_reg = voter_reg_of(p.votes@, voter@);
                &&& final(self).props@ == old(self).props@.update(prop_id as int, q)
                &&& q.info == p.info
                &&& q.tally == tally_after(p.tally, old_reg, new_reg)
                &&& voter_reg_of(q.votes@, voter@) == new_reg
                &&& balance_of(final(self).holders@, voter@) == balance_of(old(self).holders@, voter@)
                &&& stake_of(final(self).holders@, voter@) == Some(
                    StakedTokens {
                        amount: w as u128,
                        unlock_height: max_u64(
                            unlock_at(old(self).holders@, voter@),
                            max_u64(
                                sat_add_u64(height, old(self).config.min_ftkn_bond_prd),
                                p.info.end_height,
                            ),
                        ),
                    },
                )
                &&& vote_of(final(self).holders@, voter@) == vote_of(old(self).holders@, voter@)
                &&& others_same(old(self).holders@, final(self).holders@, voter@)
            },
            final(self).info == old(self).info,
            final(self).config == old(self).config,
            final(self).total_supply == old(self).total_supply,
            final(self).contract_tokens == old(self).contract_tokens,
            final(self).agg_resv == old(self).agg_resv,
            final(self).auction == old(self).auction,
            final(self).bids == old(self).bids,
    {
        if prop_id as usize >= self.props.len() {
            return Err(VaultError::NoSuchProposal);
        }
        let id = prop_id as usize;
        let end_height = self.props[id].info.end_height;
        if end_height < height {
            return Err(VaultError::VotingClosed);
        }
        let st = match self.staked_tokens(voter) {
            None => return Err(VaultError::NotStaked),
            Some(st) => st,
        };
        let new_reg = new_register(vote, st.amount);
        let ghost props_before = self.props@;
        let mut rec = placeholder_record();
        self.props.set_and_swap(id, &mut rec);
        let ghost r0 = rec;
        let old_reg = match find_voter(&rec.votes, voter) {
            Some(k) => {
                proof {
                    lemma_voter_index(rec.votes@, voter@);
                }
                let o = rec.votes[k].reg;
                rec.votes.set(k, VoterReg { voter: voter.clone(), reg: new_reg });
                proof {
                    lemma_voter_update(r0.votes@, k as int, rec.votes@[k as int], voter@);
                }
                o
            },
            None => {
                proof {
                    lemma_voter_index(rec.votes@, voter@);
                }
                rec.votes.push(VoterReg { voter: voter.clone(), reg: new_reg });
                proof {
                    assert(rec.votes@.drop_last() =~= r0.votes@);
                }
                VoteRegister { yes: 0, no: 0, veto: 0, abstain: 0 }
            },
        };
        rec.tally = VoteRegister {
            yes: tally_delta_exec(rec.tally.yes, old_reg.yes, new_reg.yes),
            no: tally_delta_exec(rec.tally.no, old_reg.no, new_reg.no),
            veto: tally_delta_exec(rec.tally.veto, old_reg.veto, new_reg.veto),
            abstain: tally_delta_exec(rec.tally.abstain, old_reg.abstain, new_reg.abstain),
        };
        self.props.set(id, rec);
        proof {
            let props_after = self.props@;
            assert(props_after =~= props_before.update(id as int, props_after[id as int]));
            lemma_locked_update(props_before, id as int, props_after[id as int]);
            assert forall|k: int| 0 <= k < props_after.len() implies #[trigger] props_after[k].info.prop_id == k by {
                assert(props_after[k].info == props_before[k].info);
            }
            assert forall|k: int| 0 <= k < props_after.len() implies proposal_valid(#[trigger] props_after[k].info.proposal) by {
                assert(props_after[k].info == props_before[k].info);
            }
        }
        let ghost s0 = self.holders@;
        proof {
            lemma_holder_index(s0, voter@);
        }
        let (i, mut h) = self.take_holder(voter);
        let ghost o = h;
        let bonded = height.saturating_add(self.config.min_ftkn_bond_prd);
        let until = if bonded >= end_height { bonded } else { end_height };
        let unlock = if st.unlock_height >= until { st.unlock_height } else { until };
        h.staked = Some(StakedTokens { amount: st.amount, unlock_height: unlock });
        self.put_holder(i, h);
        proof {
            assert(self.holders@ =~= s0.update(i as int, self.holders@[i as int]));
            lemma_holder_change(s0, self.holders@, i as int, o, self.holders@[i as int], voter@);
        }
        Ok(())
    }

    /// What a request to decide a proposal is answered with.
    pub open spec fn finalize_proposal_check(&self, prop_id: u32, height: u64) -> Result<(), VaultError> {
        if prop_id >= self.props@.len() {
            Err(VaultError::NoSuchProposal)
        } else if height < self.props@[prop_id as int].info.end_height {
            Err(VaultError::VotingOpen { end_height: self.props@[prop_id as int].info.end_height })
        } else if self.props@[prop_id as int].info.outcome.is_some() {
            Err(VaultError::AlreadyFinalized)
        } else {
            Ok(())
        }
    }

    /// The outcome a proposal's tally gives under the current settings.
    pub open spec fn outcome_of(&self, prop_id: u32) -> VoteResult {
        vote_outcome(
            self.props@[prop_id as int].tally,
            self.total_supply as nat,
            self.config.prop_conf.vote_quorum,
            self.config.prop_conf.veto_threshold,
        )
    }

    /// Decides a proposal once its vote has ended, and carries out a won one:
    /// a configuration change replaces the configuration (an auction that
    /// has started keeps the settings it started with), and a message to the
    /// asset is returned for sending.
    pub fn try_finalize_vote_may_execute_proposal(&mut self, prop_id: u32, height: u64) -> (r: Result<
        (VoteResult, Option<Outbound>),
        VaultError,
    >)
        requires
            old(self).wf(),
        ensures
            final(self).wf(),
            r.is_ok() == old(self).finalize_proposal_check(prop_id, height).is_ok(),
            r.is_err() ==> r == Err::<(VoteResult, Option<Outbound>), VaultError>(
                old(self).finalize_proposal_check(prop_id, height).get_Err_0(),
            ) && *final(self) == *old(self),
            r.is_ok() ==> {
                let p = old(self).props@[prop_id as int];
                let q = final(self).props@[prop_id as int];
                let res = old(self).outcome_of(prop_id);
                &&& r.get_Ok_0().0 == res
                &&& final(self).props@ == old(self).props@.update(prop_id as int, q)
                &&& q.info == (PropInfo { outcome: Some(res), ..p.info })
                &&& q.tally == p.tally
                &&& q.votes == p.votes
                &&& (match p.info.proposal {
                    Proposal::ChangeConfig { config } => {
                        &&& final(self).config == if res == VoteResult::Won {
                            config
                        } else {
                            old(self).config
                        }
                        &&& r.get_Ok_0().1.is_none()
                    },
                    Proposal::MsgToNft { msg } => {
                        &&& final(self).config == old(self).config
                        &&& r.get_Ok_0().1 == if res == VoteResult::Won {
                            Some(
                                Outbound::NftMessage {
                                    nft_contr: old(self).info.instance.init_nft_info.nft_contr,
                                    msg: nft_message_for(msg, old(self).info.instance.init_nft_info.token_id),
                                },
                            )
                        } else {
                            None
                        }
                    },
                })
            },
            final(self).info == old(self).info,
            final(self).total_supply == old(self).total_supply,
            final(self).holders == old(self).holders,
            final(self).contract_tokens == old(self).contract_tokens,
            final(self).agg_resv == old(self).agg_resv,
            final(self).auction == old(self).auction,
            final(self).bids == old(self).bids,
    {
        if prop_id as usize >= self.props.len() {
            return Err(VaultError::NoSuchProposal);
        }
        let id = prop_id as usize;
        if height < self.props[id].info.end_height {
            return Err(VaultError::VotingOpen { end_height: self.props[id].info.end_height });
        }
        if self.props[id].info.outcome.is_some() {
            return Err(VaultError::AlreadyFinalized);
        }
        let res = determine_vote_res(
            &self.props[id].tally,
            self.total_supply,
            self.config.prop_conf.vote_quorum,
            self.config.prop_conf.veto_threshold,
        );
        let ghost props_before = self.props@;
        let mut rec = placeholder_record();
        self.props.set_and_swap(id, &mut rec);
        let mut msg_out: Option<Outbound> = None;
        if res == VoteResult::Won {
            match &rec.info.proposal {
                Proposal::ChangeConfig { config } => {
                    self.config = config.duplicate();
                },
                Proposal::MsgToNft { msg } => {
                    msg_out = Some(
                        Outbound::NftMessage {
                            nft_contr: self.info.instance.init_nft_info.nft_contr.duplicate(),
                            msg: try_send_msg_to_nft(msg, &self.info.instance.init_nft_info.token_id),
                        },
                    );
                },
            }
        }
        rec.info.outcome = Some(res);
        self.props.set(id, rec);
        proof {
            let props_after = self.props@;
            assert(props_after =~= props_before.update(id as int, props_after[id as int]));
            lemma_locked_update(props_before, id as int, props_after[id as int]);
            assert forall|k: int| 0 <= k < props_after.len() implies #[trigger] props_after[k].info.prop_id == k by {
                if k != id {
                    assert(props_after[k] == props_before[k]);
                }
            }
            assert forall|k: int| 0 <= k < props_after.len() implies proposal_valid(#[trigger] props_after[k].info.proposal) by {
                if k != id {
                    assert(props_after[k] == props_before[k]);
                }
            }
        }
        Ok((res, msg_out))
    }

    /// What a request for a proposal's stake is answered with.
    pub open spec fn retrieve_stake_check(&self, prop_id: u32) -> Result<(), VaultError> {
        if prop_id >= self.props@.len() {
            Err(VaultError::NoSuchProposal)
        } else {
            let p = self.props@[prop_id as int].info;
            match p.outcome {
                None => Err(VaultError::NotFinalized),
                Some(VoteResult::LostWithVeto) => Err(VaultError::StakeForfeited),
                Some(_) => if p.stake_withdrawn {
                    Err(VaultError::StakeAlreadyRetrieved)
                } else {
                    Ok(())
                },
            }
        }
    }

    /// Returns a decided proposal's stake to its proposer, once; a vetoed
    /// proposal's stake is never returned.
    pub fn try_retrieve_prop_stake(&mut self, prop_id: u32) -> (r: Result<(), VaultError>)
        requires
            old(self).wf(),
        ensures
            final(self).wf(),
            r == old(self).retrieve_stake_check(prop_id),
            r.is_err() ==> *final(self) == *old(self),
            r.is_ok() ==> {
                let p = old(self).props@[prop_id as int];
                let q = final(self).props@[prop_id as int];
                let who = p.info.proposer@;
                &&& final(self).props@ == old(self).props@.update(prop_id as int, q)
                &&& q.info == (PropInfo { stake_withdrawn: true, ..p.info })
                &&& q.tally == p.tally
                &&& final(self).contract_tokens == old(self).contract_tokens - p.info.stake
                &&& balance_of(final(self).holders@, who) == balance_of(old(self).holders@, who) + p.info.stake
                &&& stake_of(final(self).holders@, who) == stake_of(old(self).holders@, who)
                &&& vote_of(final(self).holders@, who) == vote_of(old(self).holders@, who)
                &&& others_same(old(self).holders@, final(self).holders@, who)
            },
            final(self).info == old(self).info,
            final(self).config == old(self).config,
            final(self).total_supply == old(self).total_supply,
            final(self).agg_resv == old(self).agg_resv,
            final(self).auction == old(self).auction,
            final(self).bids == old(self).bids,
    {
        if prop_id as usize >= self.props.len() {
            return Err(VaultError::NoSuchProposal);
        }
        let id = prop_id as usize;
        match self.props[id].info.outcome {
            None => return Err(VaultError::NotFinalized),
            Some(VoteResult::LostWithVeto) => return Err(VaultError::StakeForfeited),
            Some(_) => {},
        }
        if self.props[id].info.stake_withdrawn {
            return Err(VaultError::StakeAlreadyRetrieved);
        }
        let ghost props_before = self.props@;
        let stake = self.props[id].info.stake;
        let proposer = self.props[id].info.proposer.clone();
        proof {
            lemma_locked_ge(props_before, id as int);
        }
        let mut rec = placeholder_record();
        self.props.set_and_swap(id, &mut rec);
        rec.info.stake_withdrawn = true;
        self.props.set(id, rec);
        self.contract_tokens = self.contract_tokens - stake;
        proof {
            let props_after = self.props@;
            assert(props_after =~= props_before.update(id as int, props_after[id as int]));
            lemma_locked_update(props_before, id as int, props_after[id as int]);
            assert forall|k: int| 0 <= k < props_after.len() implies #[trigger] props_after[k].info.prop_id == k by {
                if k != id {
                    assert(props_after[k] == props_before[k]);
                }
            }
            assert forall|k: int| 0 <= k < props_after.len() implies proposal_valid(#[trigger] props_after[k].info.proposal) by {
                if k != id {
                    assert(props_after[k] == props_before[k]);
                }
            }
        }
        let ghost s0 = self.holders@;
        if stake > 0 {
            proof {
                lemma_holder_index(s0, proposer@);
                if holder_index(s0, proposer@) >= 0 {
                    lemma_sum_ge(s0, holder_index(s0, proposer@), tokens_fn());
                }
            }
            let (i, mut h) = self.take_holder(&proposer);
            let ghost o = h;
            h.balance = h.balance + stake;
            self.put_holder(i, h);
            proof {
                if (i as int) < s0.len() {
                    assert(self.holders@ =~= s0.update(i as int, self.holders@[i as int]));
                } else {
                    assert(self.holders@ =~= s0.push(self.holders@[i as int]));
                }
                lemma_holder_change(s0, self.holders@, i as int, o, self.holders@[i as int], proposer@);
            }
        } else {
            proof {
                assert forall|b: Seq<char>| b != proposer@ implies #[trigger] holder_same(s0, self.holders@, b) by {}
            }
        }
        Ok(())
    }

    /// Checks a received asset against the one this vault was made for, and
    /// that it came from that asset's own contract. Only where this passes is
    /// the contract asked who owns the asset.
    pub fn check_receipt_payload(&self, sender: &String, payload: &UndrNftInfo) -> (r: Result<(), VaultError>)
        ensures
            r == if !same_nft(*payload, self.info.instance.init_nft_info) {
                Err::<(), VaultError>(VaultError::NftInfoMismatch)
            } else if sender@ != self.info.instance.init_nft_info.nft_contr.address@ {
                Err(VaultError::WrongNftContract)
            } else {
                Ok(())
            },
    {
        if !payload.matches(&self.info.instance.init_nft_info) {
            return Err(VaultError::NftInfoMismatch);
        }
        if *sender != self.info.instance.init_nft_info.nft_contr.address {
            return Err(VaultError::WrongNftContract);
        }
        Ok(())
    }

    /// Checks the asset contract's answer on ownership: the vault's own
    /// contract must own the asset, and no transfer approval may remain.
    pub fn check_vault_ownership(&self, owner: &Option<String>, approvals: usize) -> (r: Result<(), VaultError>)
        ensures
            r == if !(owner.is_some() && owner.unwrap()@ == self.info.instance.ftoken_contr.address@) {
                Err::<(), VaultError>(VaultError::NotTransferred)
            } else if approvals > 0 {
                Err(VaultError::ApprovalsPresent)
            } else {
                Ok(())
            },
    {
        let owned = match owner {
            Some(o) => *o == self.info.instance.ftoken_contr.address,
            None => false,
        };
        if !owned {
            return Err(VaultError::NotTransferred);
        }
        if approvals > 0 {
            return Err(VaultError::ApprovalsPresent);
        }
        Ok(())
    }
}

/// The bids of one page of the log, newest first: the `start`-th newest
/// bid and the ones after it, at most `count` of them.
pub open spec fn page_of(bids: Seq<BidInfo>, start: int, count: int) -> Seq<BidInfo> {
    let n = if start >= bids.len() {
        0
    } else if bids.len() - start < count {
        bids.len() - start
    } else {
        count
    };
    Seq::new(n as nat, |j: int| bids[bids.len() - 1 - (start + j)])
}

impl Vault {
    /// The last bid and its position in the log.
    pub fn get_last_bid(&self) -> (r: Option<(BidInfo, usize)>)
        ensures
            r.is_some() == (self.bids@.len() > 0),
            r.is_some() ==> r.unwrap().0 == self.bids@.last() && r.unwrap().1 == self.bids@.len() - 1,
    {
        if self.bids.len() == 0 {
            return None;
        }
        let n = self.bids.len() - 1;
        Some((self.bids[n].duplicate(), n))
    }

    /// The latest bid of `addr` and its position in the log.
    pub fn may_get_bid_from_addr(&self, addr: &String) -> (r: Option<(BidInfo, usize)>)
        ensures
            r.is_some() == (last_bid_index(self.bids@, addr@) >= 0),
            r.is_some() ==> r.unwrap().1 == last_bid_index(self.bids@, addr@) && r.unwrap().0
                == self.bids@[last_bid_index(self.bids@, addr@)],
    {
        proof {
            lemma_last_bid_index(self.bids@, addr@);
        }
        match find_last_bid(&self.bids, addr) {
            Some(k) => Some((self.bids[k].duplicate(), k)),
            None => None,
        }
    }

    /// One page of the bid log, newest first, and the number of bids.
    pub fn get_bids(&self, page: u32, page_size: u32) -> (r: (Vec<BidInfo>, u64))
        ensures
            r.0@ == page_of(self.bids@, page * page_size, page_size as int),
            r.1 == self.bids@.len(),
    {
        let len = self.bids.len() as u64;
        assert((page as u64) * (page_size as u64) <= u64::MAX) by (nonlinear_arith)
            requires
                page <= u32::MAX,
                page_size <= u32::MAX,
        ;
        let start = (page as u64) * (page_size as u64);
        let mut out: Vec<BidInfo> = Vec::new();
        let ghost want = page_of(self.bids@, page * page_size, page_size as int);
        let mut j: u64 = 0;
        while j < page_size as u64 && start < len && j < len - start
            invariant
                len == self.bids@.len(),
                len <= usize::MAX,
                start == page * page_size,
                j <= page_size,
                start < len ==> j <= len - start,
                start >= len ==> j == 0,
                out@.len() == j,
                forall|k: int| 0 <= k < j ==> #[trigger] out@[k] == self.bids@[self.bids@.len() - 1 - (start + k)],
            decreases page_size - j,
        {
            let idx = (len - 1 - (start + j)) as usize;
            assert(idx as int == len - 1 - (start + j));
            let ghost before = out@;
            out.push(self.bids[idx].duplicate());
            proof {
                assert forall|k: int| 0 <= k < j + 1 implies #[trigger] out@[k] == self.bids@[self.bids@.len() - 1 - (start + k)] by {
                    if k < j {
                        assert(out@[k] == before[k]);
                    }
                }
            }
            j = j + 1;
        }
        proof {
            if start < len {
                if len - start < page_size {
                    assert(j == len - start);
                } else {
                    assert(j == page_size);
                }
            }
            assert(out@.len() == want.len());
            assert forall|k: int| 0 <= k < want.len() implies out@[k] == want[k] by {}
            assert(out@ =~= want);
        }
        (out, len)
    }

    /// Whether `account` holds enough tokens, staked or spendable, to view
    /// the asset's private data.
    pub fn check_ftoken_query_threshold(&self, account: &String) -> (r: Result<(), VaultError>)
        ensures
            ({
                let required = crate::ratio::ratio_of(
                    self.config.priv_metadata_view_threshold as nat,
                    self.total_supply as nat,
                    10000,
                );
                let held = sat_add_u128(
                    staked_at(self.holders@, account@),
                    balance_of(self.holders@, account@),
                );
                r == if required.is_some() && held >= required.unwrap() {
                    Ok::<(), VaultError>(())
                } else {
                    Err(VaultError::BelowViewThreshold { required })
                }
            }),
    {
        let required = crate::ratio::calc_pro_rata(
            self.config.priv_metadata_view_threshold as u128,
            10000,
            self.total_supply,
        );
        let staked = match self.staked_tokens(account) {
            Some(st) => st.amount,
            None => 0,
        };
        let held = sat_add_exec(staked, self.balance(account));
        match required {
            Some(req) => if held >= req {
                Ok(())
            } else {
                Err(VaultError::BelowViewThreshold { required })
            },
            None => Err(VaultError::BelowViewThreshold { required }),
        }
    }
}

} // verus!
