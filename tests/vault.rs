use fsnft::holders::VoteCast;
use fsnft::saga::{add_ftoken_init, Fractionalizer, FtokenInit, UploadedFtkn};
use fsnft::types::{
    VoteRegister, try_send_msg_to_nft, AccessLevel, AllowedNftMsg, AucConf, BidInfo, ContractInfo, Expiration,
    FtokenConf, Outbound, PropConf, Proposal, S721HandleMsg, StakedTokens, UndrNftInfo, Vote,
    VoteResult,
};
use fsnft::vault::{determine_vote_res, Vault, VaultError};

fn addr(s: &str) -> String {
    s.to_string()
}

fn contract(name: &str) -> ContractInfo {
    ContractInfo { code_hash: format!("{}_hash", name), address: name.to_string() }
}

fn default_conf() -> FtokenConf {
    FtokenConf {
        min_ftkn_bond_prd: 10,
        priv_metadata_view_threshold: 5_000,
        auc_conf: AucConf {
            bid_token: contract("s20"),
            auc_period: 100,
            resv_boundary: 500,
            min_bid_inc: 1000,
            unlock_threshold: 5_000,
        },
        prop_conf: PropConf { min_stake: 2, vote_period: 200, vote_quorum: 2000, veto_threshold: 1000 },
    }
}

fn nft() -> UndrNftInfo {
    UndrNftInfo { token_id: "MyNFT".to_string(), nft_contr: contract("s721") }
}

/// Runs the creation saga for user0's asset with a supply of 100.
fn fractionalize_default() -> (Fractionalizer, Vault) {
    let mut frc = Fractionalizer::new(
        UploadedFtkn { code_id: 1, code_hash: "ft_hash".to_string() },
        "frc_hash".to_string(),
    );
    let (_, instantiate) = frc
        .try_fractionalize(
            &addr("user0"),
            nft(),
            FtokenInit {
                name: "myftoken".to_string(),
                symbol: "TKN".to_string(),
                supply: 100,
                decimals: 6,
                contract_label: "ftoken_contract".to_string(),
                init_resv_price: 500,
                ftkn_conf: default_conf(),
            },
        )
        .unwrap();
    let init = match instantiate {
        Outbound::InstantiateFtoken { init, .. } => init,
        other => panic!("unexpected message {:?}", other),
    };
    let (vault, callback, set_key) = add_ftoken_init(init, &contract("ft"), &addr("frc"), addr("vk")).unwrap();
    assert_eq!(set_key, Outbound::SetViewingKey { nft_contr: contract("s721"), key: addr("vk") });
    let instance = match callback {
        Outbound::ReceiveFtokenCallback { instance, .. } => instance,
        other => panic!("unexpected message {:?}", other),
    };
    frc.try_receive_ftoken_callback(instance).unwrap();
    vault.check_receipt_payload(&addr("s721"), &nft()).unwrap();
    vault.check_vault_ownership(&Some(addr("ft")), 0).unwrap();
    (frc, vault)
}

/// user_from sends some tokens to user_to, then both stake.
fn transfer_ftkn_and_stake(
    v: &mut Vault,
    user_from: &str,
    user_to: &str,
    transfer_amount: u128,
    user_from_stake: u128,
    user_to_stake: u128,
    height: u64,
) -> Result<(), VaultError> {
    v.transfer(&addr(user_from), &addr(user_to), transfer_amount)?;
    v.try_stake(&addr(user_from), user_from_stake, height)?;
    v.try_stake(&addr(user_to), user_to_stake, height)?;
    Ok(())
}

fn transfer_from_amount(m: &Outbound) -> u128 {
    match m {
        Outbound::TransferFrom { amount, .. } => *amount,
        other => panic!("unexpected message {:?}", other),
    }
}

#[test]
fn frac_default_sanity() {
    let (frc, v) = fractionalize_default();
    assert_eq!(v.balance(&addr("user0")), 100);
    assert_eq!(frc.instances.len(), 1);
    assert_eq!(frc.instances[0], v.info.instance);
    assert_eq!(v.info.instance.ftkn_idx, 0);
    assert_eq!(v.info.instance.depositor, addr("user0"));
    assert_eq!(v.info.instance.ftoken_contr, contract("ft"));
    assert_eq!(v.info.instance.init_nft_info, nft());
    assert_eq!(v.info.instance.name, "myftoken".to_string());
    assert_eq!(v.info.instance.symbol, "TKN".to_string());
    assert_eq!(v.info.instance.decimals, 6);
    assert!(v.info.vault_active);
}

#[test]
fn test_stake_unstake() {
    let (_, mut v) = fractionalize_default();

    // user with no ftokens tries to stake
    assert_eq!(v.try_stake(&addr("user1"), 100, 0), Err(VaultError::InsufficientFunds));
    // more than available
    assert_eq!(v.try_stake(&addr("user0"), 200, 0), Err(VaultError::InsufficientFunds));

    // stake 100, bonded for 10 blocks
    v.try_stake(&addr("user0"), 100, 0).unwrap();
    let mut exp_staked = StakedTokens { amount: 100, unlock_height: 10 };
    assert_eq!(v.staked_tokens(&addr("user0")), Some(exp_staked));
    assert_eq!(v.balance(&addr("user0")), 0);

    assert_eq!(
        v.try_unstake(&addr("user0"), 100, 5),
        Err(VaultError::StillBonded { unlock_height: 10 })
    );
    assert_eq!(v.try_unstake(&addr("user0"), 500, 10), Err(VaultError::InsufficientStake));
    assert_eq!(v.try_unstake(&addr("user1"), 500, 10), Err(VaultError::NotStaked));

    // unstake partially
    v.try_unstake(&addr("user0"), 20, 10).unwrap();
    exp_staked.amount = 80;
    assert_eq!(v.staked_tokens(&addr("user0")), Some(exp_staked));
    assert_eq!(v.balance(&addr("user0")), 20);

    // unstake the rest later
    v.try_unstake(&addr("user0"), 80, 110).unwrap();
    exp_staked.amount = 0;
    assert_eq!(v.staked_tokens(&addr("user0")), Some(exp_staked));
    assert_eq!(v.balance(&addr("user0")), 100);
}

#[test]
fn test_transfer_ftokens_sanity() {
    let (_, mut v) = fractionalize_default();
    transfer_ftkn_and_stake(&mut v, "user0", "user1", 30, 0, 0, 0).unwrap();
    assert_eq!(v.balance(&addr("user0")), 70);
    assert_eq!(v.balance(&addr("user1")), 30);

    let r = transfer_ftkn_and_stake(&mut v, "user0", "user1", 200, 0, 0, 0);
    assert_eq!(r, Err(VaultError::InsufficientFunds));
}

#[test]
fn test_auction_process() {
    let (_, mut v) = fractionalize_default();
    transfer_ftkn_and_stake(&mut v, "user0", "user1", 30, 70, 30, 0).unwrap();

    // outside the band around 500: [100, 2500]
    assert_eq!(
        v.try_vote_resv_price(&addr("user1"), 99, 0),
        Err(VaultError::ResvPriceOutOfBounds { floor: 100, ceiling: Some(2500) })
    );
    assert_eq!(
        v.try_vote_resv_price(&addr("user1"), 2501, 0),
        Err(VaultError::ResvPriceOutOfBounds { floor: 100, ceiling: Some(2500) })
    );
    v.try_vote_resv_price(&addr("user1"), 100, 0).unwrap();
    assert_eq!(v.agg_resv.uint128_price(), 100);

    // not enough stake behind the price yet
    assert_eq!(
        v.try_bid(&addr("user2"), 1000, 0).unwrap_err(),
        VaultError::VaultLocked { threshold: 5000, staked_bp: 3000 }
    );

    // user0 votes too, which bonds its stake until 15
    v.try_vote_resv_price(&addr("user0"), 50, 5).unwrap();
    assert_eq!(v.agg_resv.uint128_price(), 65);

    // unstaking revises the aggregate and does not extend the bond
    assert_eq!(
        v.try_unstake(&addr("user0"), 40, 10),
        Err(VaultError::StillBonded { unlock_height: 15 })
    );
    v.try_unstake(&addr("user0"), 40, 15).unwrap();
    assert_eq!(v.agg_resv.uint128_price(), 75);

    // below the reservation price
    assert_eq!(
        v.try_bid(&addr("user2"), 70, 15).unwrap_err(),
        VaultError::BelowReservationPrice { price: 75 }
    );
    // at the reservation price: the auction starts
    let m = v.try_bid(&addr("user2"), 75, 15).unwrap();
    assert_eq!(transfer_from_amount(&m), 75);
    let (bid, pos) = v.get_last_bid().unwrap();
    let mut exp_bid = BidInfo { bidder: addr("user2"), amount: 75, winning_bid: false, retrieved_bid: false };
    assert_eq!(bid, exp_bid);
    assert_eq!(pos, 0);
    assert!(v.auction.is_active);
    assert_eq!(v.auction.end_height, 115);
    assert_eq!(v.auction.auc_config_snapshot, default_conf().auc_conf);

    // below the minimum increment
    assert_eq!(
        v.try_bid(&addr("user2"), 77, 15).unwrap_err(),
        VaultError::BelowMinIncrement { min_bid: Some(82) }
    );
    // the same bidder raises and pays the difference
    let m = v.try_bid(&addr("user2"), 85, 15).unwrap();
    assert_eq!(transfer_from_amount(&m), 10);
    let (bid, pos) = v.may_get_bid_from_addr(&addr("user2")).unwrap();
    exp_bid.amount = 85;
    assert_eq!(bid, exp_bid);
    assert_eq!(pos, 1);
    assert_eq!(v.auction.end_height, 115);

    // another bidder, at the last block
    let m = v.try_bid(&addr("user1"), 95, 115).unwrap();
    assert_eq!(transfer_from_amount(&m), 95);
    let (bid, pos) = v.get_last_bid().unwrap();
    exp_bid.bidder = addr("user1");
    exp_bid.amount = 95;
    assert_eq!(bid, exp_bid);
    assert_eq!(pos, 2);

    // closed after the deadline
    assert_eq!(v.try_bid(&addr("user2"), 95, 116).unwrap_err(), VaultError::AuctionClosed);
    // nothing to take back before the auction is finalized
    assert_eq!(v.try_retrieve_bid(&addr("user2")).unwrap_err(), VaultError::VaultStillActive);
    assert_eq!(v.try_claim_proceeds(&addr("user0")).unwrap_err(), VaultError::VaultStillActive);

    // anyone finalizes: user1 gets the asset
    match v.try_finalize_auction(116).unwrap() {
        Outbound::SendNft { nft_contr, recipient, token_id, payload } => {
            assert_eq!(nft_contr, contract("s721"));
            assert_eq!(recipient, addr("user1"));
            assert_eq!(token_id, "MyNFT".to_string());
            assert_eq!(payload, None);
        },
        other => panic!("unexpected message {:?}", other),
    }
    assert!(!v.info.vault_active);
    assert_eq!(v.try_bid(&addr("user2"), 1000, 116).unwrap_err(), VaultError::VaultInactive);

    // user2 takes its bid back once
    match v.try_retrieve_bid(&addr("user2")).unwrap() {
        Outbound::Transfer { token, recipient, amount } => {
            assert_eq!(token, contract("s20"));
            assert_eq!(recipient, addr("user2"));
            assert_eq!(amount, 85);
        },
        other => panic!("unexpected message {:?}", other),
    }
    assert_eq!(v.try_retrieve_bid(&addr("user2")).unwrap_err(), VaultError::BidAlreadyRetrieved);
    assert_eq!(v.try_retrieve_bid(&addr("user0")).unwrap_err(), VaultError::DidNotBid);
    assert_eq!(v.try_retrieve_bid(&addr("user1")).unwrap_err(), VaultError::WinnerCannotRetrieve);

    // holders unstake and claim their share of 95
    v.try_unstake(&addr("user0"), 30, 116).unwrap();
    v.try_unstake(&addr("user1"), 30, 116).unwrap();
    match v.try_claim_proceeds(&addr("user0")).unwrap() {
        Outbound::Transfer { amount, .. } => assert_eq!(amount, 70 * 95 / 100),
        other => panic!("unexpected message {:?}", other),
    }
    match v.try_claim_proceeds(&addr("user1")).unwrap() {
        Outbound::Transfer { amount, .. } => assert_eq!(amount, 30 * 95 / 100),
        other => panic!("unexpected message {:?}", other),
    }
    assert_eq!(v.balance(&addr("user0")), 0);
    assert_eq!(v.contract_tokens, 100);
}

#[test]
fn reservation_vote_needs_stake() {
    let (_, mut v) = fractionalize_default();
    assert_eq!(v.try_vote_resv_price(&addr("user0"), 500, 0), Err(VaultError::NotStaked));
}

#[test]
fn two_holders_aggregate_closed_form() {
    let (_, mut v) = fractionalize_default();
    assert_eq!(v.balance(&addr("user0")), 100);
    v.transfer(&addr("user0"), &addr("user1"), 30).unwrap();
    assert_eq!(v.balance(&addr("user0")), 70);
    assert_eq!(v.balance(&addr("user1")), 30);
    v.try_stake(&addr("user0"), 70, 0).unwrap();
    v.try_stake(&addr("user1"), 30, 0).unwrap();
    v.try_vote_resv_price(&addr("user0"), 400, 1).unwrap();
    assert_eq!(v.agg_resv.uint128_stake(), 70);
    assert_eq!(v.agg_resv.uint128_price(), 400);
    v.try_vote_resv_price(&addr("user1"), 1000, 1).unwrap();
    // (70 * 400 + 30 * 1000) / 100
    assert_eq!(v.agg_resv.uint128_stake(), 100);
    assert_eq!(v.agg_resv.uint128_price(), 580);
    assert_eq!(v.resv_vote_of(&addr("user1")), Some(VoteCast { stake: 30, price: 1000 }));
    // the aggregate stake equals the total staked while each vote carries its stake
    v.try_unstake(&addr("user1"), 10, 20).unwrap();
    assert_eq!(v.agg_resv.uint128_stake(), 90);
    assert_eq!(v.resv_vote_of(&addr("user1")), Some(VoteCast { stake: 20, price: 1000 }));
}

#[test]
fn staking_without_vote_is_not_in_aggregate() {
    let (_, mut v) = fractionalize_default();
    v.try_stake(&addr("user0"), 40, 0).unwrap();
    assert_eq!(v.agg_resv.uint128_stake(), 0);
}

#[test]
fn test_finalize_auction() {
    let (_, mut v) = fractionalize_default();
    assert_eq!(v.try_finalize_auction(0).unwrap_err(), VaultError::AuctionNotStarted);
    v.try_stake(&addr("user0"), 100, 0).unwrap();
    v.try_vote_resv_price(&addr("user0"), 500, 0).unwrap();
    v.try_bid(&addr("user2"), 500, 10).unwrap();
    assert_eq!(
        v.try_finalize_auction(109).unwrap_err(),
        VaultError::AuctionStillOpen { end_height: 110 }
    );
    v.try_finalize_auction(110).unwrap();
    assert!(v.bids[0].winning_bid);
    assert_eq!(v.try_finalize_auction(200).unwrap_err(), VaultError::VaultInactive);
}

#[test]
fn bid_list_is_newest_first_and_paged() {
    let (_, mut v) = fractionalize_default();
    let (empty, n) = v.get_bids(0, 10);
    assert!(empty.is_empty());
    assert_eq!(n, 0);
    v.try_stake(&addr("user0"), 100, 0).unwrap();
    v.try_vote_resv_price(&addr("user0"), 100, 0).unwrap();
    v.try_bid(&addr("a"), 100, 1).unwrap();
    v.try_bid(&addr("b"), 110, 1).unwrap();
    v.try_bid(&addr("c"), 121, 1).unwrap();
    let (page0, n) = v.get_bids(0, 2);
    assert_eq!(n, 3);
    assert_eq!(page0.iter().map(|b| b.amount).collect::<Vec<u128>>(), vec![121, 110]);
    let (page1, _) = v.get_bids(1, 2);
    assert_eq!(page1.iter().map(|b| b.amount).collect::<Vec<u128>>(), vec![100]);
    let (page2, _) = v.get_bids(2, 2);
    assert!(page2.is_empty());
}

#[test]
fn consecutive_bids_respect_increment() {
    let (_, mut v) = fractionalize_default();
    v.try_stake(&addr("user0"), 100, 0).unwrap();
    v.try_vote_resv_price(&addr("user0"), 100, 0).unwrap();
    v.try_bid(&addr("a"), 100, 1).unwrap();
    assert_eq!(
        v.try_bid(&addr("b"), 109, 1).unwrap_err(),
        VaultError::BelowMinIncrement { min_bid: Some(110) }
    );
    v.try_bid(&addr("b"), 110, 1).unwrap();
    for w in v.bids.windows(2) {
        assert!(w[1].amount >= w[0].amount * 11000 / 10000);
    }
}

fn proposal_setup() -> Vault {
    let (_, mut v) = fractionalize_default();
    transfer_ftkn_and_stake(&mut v, "user0", "user1", 30, 60, 30, 0).unwrap();
    v
}

#[test]
fn test_proposals() {
    let mut v = proposal_setup();
    assert_eq!(
        v.try_propose(&addr("user0"), Proposal::MsgToNft { msg: AllowedNftMsg::Reveal }, 1, 0),
        Err(VaultError::InsufficientProposalStake { min_stake: 2 })
    );
    assert_eq!(
        v.try_propose(&addr("user1"), Proposal::MsgToNft { msg: AllowedNftMsg::Reveal }, 5, 0),
        Err(VaultError::InsufficientFunds)
    );
    let id = v.try_propose(&addr("user0"), Proposal::MsgToNft { msg: AllowedNftMsg::Reveal }, 5, 0).unwrap();
    assert_eq!(id, 0);
    assert_eq!(v.balance(&addr("user0")), 5);
    assert_eq!(v.contract_tokens, 5);
    assert_eq!(v.props[0].info.end_height, 200);
    let mut bad = default_conf();
    bad.auc_conf.resv_boundary = 0;
    assert_eq!(
        v.try_propose(&addr("user0"), Proposal::ChangeConfig { config: bad }, 2, 0),
        Err(VaultError::InvalidConfig)
    );
}

#[test]
fn test_proposal_votes() {
    let mut v = proposal_setup();
    let approval = AllowedNftMsg::SetWhitelistedApproval {
        address: addr("viewer"),
        view_owner: Some(AccessLevel::All),
        view_private_metadata: None,
        expires: Some(Expiration::AtHeight(500)),
    };
    let id = v.try_propose(&addr("user0"), Proposal::MsgToNft { msg: approval }, 5, 0).unwrap();
    assert_eq!(v.try_vote_proposal(&addr("user0"), 9, Vote::Yes, 1), Err(VaultError::NoSuchProposal));
    assert_eq!(v.try_vote_proposal(&addr("user2"), id, Vote::Yes, 1), Err(VaultError::NotStaked));
    v.try_vote_proposal(&addr("user0"), id, Vote::Yes, 1).unwrap();
    v.try_vote_proposal(&addr("user1"), id, Vote::No, 1).unwrap();
    assert_eq!(v.props[0].tally.yes, 60);
    assert_eq!(v.props[0].tally.no, 30);
    // a voter changes its vote: only the difference moves
    v.try_vote_proposal(&addr("user1"), id, Vote::Abstain, 2).unwrap();
    assert_eq!(v.props[0].tally.no, 0);
    assert_eq!(v.props[0].tally.abstain, 30);
    // voting bonds the stake until the end of the vote
    assert_eq!(v.staked_tokens(&addr("user1")).unwrap().unlock_height, 200);
    assert_eq!(v.try_vote_proposal(&addr("user1"), id, Vote::Yes, 201), Err(VaultError::VotingClosed));
    assert_eq!(
        v.try_finalize_vote_may_execute_proposal(id, 199).unwrap_err(),
        VaultError::VotingOpen { end_height: 200 }
    );
    assert_eq!(v.try_retrieve_prop_stake(id), Err(VaultError::NotFinalized));
    let (res, msg) = v.try_finalize_vote_may_execute_proposal(id, 200).unwrap();
    assert_eq!(res, VoteResult::Won);
    assert_eq!(
        msg,
        Some(Outbound::NftMessage {
            nft_contr: contract("s721"),
            msg: S721HandleMsg::SetWhitelistedApproval {
                address: addr("viewer"),
                token_id: Some("MyNFT".to_string()),
                view_owner: Some(AccessLevel::All),
                view_private_metadata: None,
                transfer: None,
                expires: Some(Expiration::AtHeight(500)),
            },
        })
    );
    assert_eq!(
        v.try_finalize_vote_may_execute_proposal(id, 300).unwrap_err(),
        VaultError::AlreadyFinalized
    );
    // the stake comes back once
    v.try_retrieve_prop_stake(id).unwrap();
    assert_eq!(v.balance(&addr("user0")), 10);
    assert_eq!(v.try_retrieve_prop_stake(id), Err(VaultError::StakeAlreadyRetrieved));
}

#[test]
fn veto_forfeits_stake_whatever_the_split() {
    let mut v = proposal_setup();
    let id = v.try_propose(&addr("user0"), Proposal::MsgToNft { msg: AllowedNftMsg::Reveal }, 5, 0).unwrap();
    // 60 yes, 30 veto: veto share 3000 bp reaches the 1000 bp threshold
    v.try_vote_proposal(&addr("user0"), id, Vote::Yes, 1).unwrap();
    v.try_vote_proposal(&addr("user1"), id, Vote::Veto, 1).unwrap();
    let (res, msg) = v.try_finalize_vote_may_execute_proposal(id, 200).unwrap();
    assert_eq!(res, VoteResult::LostWithVeto);
    assert!(msg.is_none());
    assert_eq!(v.try_retrieve_prop_stake(id), Err(VaultError::StakeForfeited));
    assert_eq!(v.try_retrieve_prop_stake(id), Err(VaultError::StakeForfeited));
    assert_eq!(v.contract_tokens, 5);
}

#[test]
fn below_quorum_and_ties_are_lost() {
    let mut v = proposal_setup();
    let id = v.try_propose(&addr("user0"), Proposal::MsgToNft { msg: AllowedNftMsg::Reveal }, 5, 0).unwrap();
    let (res, _) = v.try_finalize_vote_may_execute_proposal(id, 200).unwrap();
    assert_eq!(res, VoteResult::Lost);
    v.try_retrieve_prop_stake(id).unwrap();

    let (_, mut w) = fractionalize_default();
    transfer_ftkn_and_stake(&mut w, "user0", "user1", 50, 50, 50, 0).unwrap();
    w.transfer(&addr("user1"), &addr("user2"), 0).unwrap();
    let id = w.try_propose(&addr("user2"), Proposal::MsgToNft { msg: AllowedNftMsg::Reveal }, 0, 0);
    assert_eq!(id, Err(VaultError::InsufficientProposalStake { min_stake: 2 }));
    w.try_unstake(&addr("user1"), 5, 10).unwrap();
    let id = w.try_propose(&addr("user1"), Proposal::MsgToNft { msg: AllowedNftMsg::Reveal }, 5, 10).unwrap();
    w.try_vote_proposal(&addr("user0"), id, Vote::Yes, 11).unwrap();
    w.try_vote_proposal(&addr("user1"), id, Vote::No, 11).unwrap();
    assert_eq!(w.props[0].tally.yes, 50);
    assert_eq!(w.props[0].tally.no, 45);
    let (_, mut t) = fractionalize_default();
    transfer_ftkn_and_stake(&mut t, "user0", "user1", 50, 45, 45, 0).unwrap();
    let id = t.try_propose(&addr("user0"), Proposal::MsgToNft { msg: AllowedNftMsg::Reveal }, 5, 0).unwrap();
    t.try_vote_proposal(&addr("user0"), id, Vote::Yes, 1).unwrap();
    t.try_vote_proposal(&addr("user1"), id, Vote::No, 1).unwrap();
    let (res, _) = t.try_finalize_vote_may_execute_proposal(id, 200).unwrap();
    assert_eq!(res, VoteResult::Lost);
}

fn changed_conf() -> FtokenConf {
    let mut c = default_conf();
    c.auc_conf.auc_period = 7;
    c.auc_conf.min_bid_inc = 5000;
    c
}

#[test]
fn test_auction_config_reflects_in_new_auction() {
    let mut v = proposal_setup();
    let id = v
        .try_propose(&addr("user0"), Proposal::ChangeConfig { config: changed_conf() }, 5, 0)
        .unwrap();
    v.try_vote_proposal(&addr("user0"), id, Vote::Yes, 1).unwrap();
    let (res, msg) = v.try_finalize_vote_may_execute_proposal(id, 200).unwrap();
    assert_eq!(res, VoteResult::Won);
    assert!(msg.is_none());
    assert_eq!(v.config, changed_conf());
    // an auction that starts now takes the new settings
    v.try_vote_resv_price(&addr("user0"), 500, 200).unwrap();
    v.try_vote_resv_price(&addr("user1"), 500, 200).unwrap();
    v.try_bid(&addr("user2"), 500, 210).unwrap();
    assert_eq!(v.auction.auc_config_snapshot, changed_conf().auc_conf);
    assert_eq!(v.auction.end_height, 217);
}

#[test]
fn test_auction_config_does_not_change() {
    let mut v = proposal_setup();
    v.try_vote_resv_price(&addr("user0"), 500, 0).unwrap();
    let id = v
        .try_propose(&addr("user0"), Proposal::ChangeConfig { config: changed_conf() }, 5, 0)
        .unwrap();
    v.try_vote_proposal(&addr("user0"), id, Vote::Yes, 1).unwrap();
    // the auction starts with the settings of the moment
    v.try_bid(&addr("user2"), 500, 2).unwrap();
    assert_eq!(v.auction.auc_config_snapshot, default_conf().auc_conf);
    // the change wins, but the running auction keeps its settings
    let (res, _) = v.try_finalize_vote_may_execute_proposal(id, 200).unwrap();
    assert_eq!(res, VoteResult::Won);
    assert_eq!(v.config, changed_conf());
    assert_eq!(v.auction.auc_config_snapshot, default_conf().auc_conf);
    assert_eq!(v.auction.end_height, 102);
    assert_eq!(
        v.try_bid(&addr("user3"), 549, 100).unwrap_err(),
        VaultError::BelowMinIncrement { min_bid: Some(550) }
    );
}

#[test]
fn receipt_check_is_repeatable_and_strict() {
    let (_, v) = fractionalize_default();
    for _ in 0..2 {
        assert_eq!(v.check_receipt_payload(&addr("s721"), &nft()), Ok(()));
        assert_eq!(v.check_vault_ownership(&Some(addr("ft")), 0), Ok(()));
        assert!(v.info.vault_active);
    }
    let other = UndrNftInfo { token_id: "Other".to_string(), nft_contr: contract("s721") };
    assert_eq!(v.check_receipt_payload(&addr("s721"), &other), Err(VaultError::NftInfoMismatch));
    assert_eq!(v.check_receipt_payload(&addr("evil"), &nft()), Err(VaultError::WrongNftContract));
    assert_eq!(v.check_vault_ownership(&Some(addr("user0")), 0), Err(VaultError::NotTransferred));
    assert_eq!(v.check_vault_ownership(&None, 0), Err(VaultError::NotTransferred));
    assert_eq!(v.check_vault_ownership(&Some(addr("ft")), 1), Err(VaultError::ApprovalsPresent));
}

#[test]
fn private_metadata_threshold() {
    let (_, mut v) = fractionalize_default();
    // half of 100 is needed
    assert_eq!(v.check_ftoken_query_threshold(&addr("user0")), Ok(()));
    v.transfer(&addr("user0"), &addr("user1"), 51).unwrap();
    assert_eq!(
        v.check_ftoken_query_threshold(&addr("user0")),
        Err(VaultError::BelowViewThreshold { required: Some(50) })
    );
    v.try_stake(&addr("user1"), 51, 0).unwrap();
    assert_eq!(v.check_ftoken_query_threshold(&addr("user1")), Ok(()));
}

#[test]
fn vault_needs_supply_and_band() {
    let (_, v) = fractionalize_default();
    let _ = v;
    let mut frc = Fractionalizer::new(
        UploadedFtkn { code_id: 1, code_hash: "ft_hash".to_string() },
        "frc_hash".to_string(),
    );
    let mut conf = default_conf();
    conf.auc_conf.resv_boundary = 0;
    let (_, inst) = frc
        .try_fractionalize(
            &addr("user0"),
            nft(),
            FtokenInit {
                name: "n".to_string(),
                symbol: "S".to_string(),
                supply: 0,
                decimals: 0,
                contract_label: "l".to_string(),
                init_resv_price: 1,
                ftkn_conf: conf,
            },
        )
        .unwrap();
    let mut init = match inst {
        Outbound::InstantiateFtoken { init, .. } => init,
        other => panic!("unexpected message {:?}", other),
    };
    assert_eq!(
        add_ftoken_init(init.clone(), &contract("ft"), &addr("frc"), addr("vk")).unwrap_err(),
        VaultError::ZeroSupply
    );
    init.supply = 10;
    assert_eq!(
        add_ftoken_init(init, &contract("ft"), &addr("frc"), addr("vk")).unwrap_err(),
        VaultError::InvalidConfig
    );
}

#[test]
fn allowed_messages_name_the_vaulted_asset() {
    let token = "MyNFT".to_string();
    assert_eq!(try_send_msg_to_nft(&AllowedNftMsg::Reveal, &token), S721HandleMsg::Reveal { token_id: token.clone() });
    assert_eq!(
        try_send_msg_to_nft(&AllowedNftMsg::MakeOwnershipPrivate, &token),
        S721HandleMsg::MakeOwnershipPrivate
    );
    assert_eq!(
        try_send_msg_to_nft(
            &AllowedNftMsg::SetMetadata { public_metadata: Some("{}".to_string()), private_metadata: None },
            &token
        ),
        S721HandleMsg::SetMetadata {
            token_id: token.clone(),
            public_metadata: Some("{}".to_string()),
            private_metadata: None
        }
    );
    assert_eq!(
        try_send_msg_to_nft(
            &AllowedNftMsg::SetGlobalApproval {
                view_owner: Some(AccessLevel::RevokeToken),
                view_private_metadata: Some(AccessLevel::ApproveToken),
                expires: Some(Expiration::Never),
            },
            &token
        ),
        S721HandleMsg::SetGlobalApproval {
            token_id: Some(token.clone()),
            view_owner: Some(AccessLevel::RevokeToken),
            view_private_metadata: Some(AccessLevel::ApproveToken),
            expires: Some(Expiration::Never),
        }
    );
}

#[test]
fn turnout_sums_all_counts_exactly() {
    let tally = VoteRegister { yes: u128::MAX, no: 0, veto: 0, abstain: u128::MAX };
    assert_eq!(determine_vote_res(&tally, u128::MAX, 15000, 1), VoteResult::Won);
    assert_eq!(determine_vote_res(&tally, u128::MAX, 20001, 1), VoteResult::Lost);
}

#[test]
fn unstake_reweighs_vote_to_remaining_stake() {
    let (_, mut v) = fractionalize_default();
    v.try_stake(&addr("user0"), 50, 0).unwrap();
    v.try_vote_resv_price(&addr("user0"), 500, 0).unwrap();
    v.try_stake(&addr("user0"), 50, 0).unwrap();
    v.try_unstake(&addr("user0"), 30, 20).unwrap();
    assert_eq!(v.resv_vote_of(&addr("user0")), Some(VoteCast { stake: 70, price: 500 }));
    assert_eq!(v.agg_resv.uint128_stake(), 70);
    assert_eq!(v.agg_resv.uint128_price(), 500);
}
