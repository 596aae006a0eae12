use fsnft::msg::{
    space_pad, status_level_to_u8, u8_to_status_level, ContractStatusLevel, InitConfig,
    InvalidStatusLevel, RESPONSE_BLOCK_SIZE,
};
use fsnft::saga::{register_receive, Fractionalizer, FtokenInit, SagaError, UploadedFtkn};
use fsnft::types::{AucConf, ContractInfo, FtokenConf, FtokenInstance, Outbound, PropConf, UndrNftInfo};

fn contract(name: &str) -> ContractInfo {
    ContractInfo { code_hash: format!("{}_hash", name), address: name.to_string() }
}

fn conf() -> FtokenConf {
    FtokenConf {
        min_ftkn_bond_prd: 10,
        priv_metadata_view_threshold: 5_000,
        auc_conf: AucConf {
            bid_token: contract("s20"),
            auc_period: 100,
            resv_boundary: 500,
            min_bid_inc: 1000,
            unlock_threshold: 5_000,
        },
        prop_conf: PropConf { min_stake: 2, vote_period: 200, vote_quorum: 2000, veto_threshold: 1000 },
    }
}

fn init(supply: u128) -> FtokenInit {
    FtokenInit {
        name: "myftoken".to_string(),
        symbol: "TKN".to_string(),
        supply,
        decimals: 6,
        contract_label: "ftoken_contract".to_string(),
        init_resv_price: 500,
        ftkn_conf: conf(),
    }
}

fn nft_info() -> UndrNftInfo {
    UndrNftInfo { token_id: "myNFT".to_string(), nft_contr: contract("nft_addr") }
}

#[test]
fn utest_test_init_sanity() {
    let frc = Fractionalizer::new(UploadedFtkn { code_id: 0, code_hash: String::new() }, "frc".to_string());
    assert!(frc.known_snip_721.is_empty());
    assert_eq!(frc.next_idx, 0);
    assert_eq!(frc.uploaded_ftoken, UploadedFtkn { code_id: 0, code_hash: String::new() });
    assert!(frc.pending.is_none());
}

#[test]
fn test_fractionalization_works() {
    let mut frc = Fractionalizer::new(UploadedFtkn { code_id: 3, code_hash: "ft_hash".to_string() }, "frc_hash".to_string());
    let depositor = "NFTdepositor".to_string();
    let (register, instantiate) = frc.try_fractionalize(&depositor, nft_info(), init(2_000)).unwrap();
    assert_eq!(
        register,
        Outbound::RegisterReceiveNft { nft_contr: contract("nft_addr"), code_hash: "frc_hash".to_string() }
    );
    let init_msg = match instantiate {
        Outbound::InstantiateFtoken { code_id, code_hash, init } => {
            assert_eq!(code_id, 3);
            assert_eq!(code_hash, "ft_hash".to_string());
            init
        },
        other => panic!("unexpected message {:?}", other),
    };
    assert_eq!(init_msg.ftkn_idx, 0);
    assert_eq!(init_msg.depositor, depositor);
    assert_eq!(init_msg.fract_hash, "frc_hash".to_string());
    assert_eq!(init_msg.nft_info, nft_info());
    assert_eq!(init_msg.supply, 2_000);
    assert_eq!(init_msg.label, "ftoken_contract".to_string());
    assert_eq!(frc.next_idx, 1);
    assert_eq!(frc.known_snip_721, vec!["nft_addr".to_string()]);
    assert_eq!(frc.pending, Some(depositor.clone()));

    // the instance confirms itself; an impostor is refused first
    let instance = register_receive(&init_msg, &contract("ftoken_contract"));
    let mut forged = instance.clone();
    forged.depositor = "someone".to_string();
    assert_eq!(frc.try_receive_ftoken_callback(forged), Err(SagaError::Unauthorized));
    assert!(frc.instances.is_empty());
    let send = frc.try_receive_ftoken_callback(instance.clone()).unwrap();
    assert_eq!(
        send,
        Outbound::SendNft {
            nft_contr: contract("nft_addr"),
            recipient: "ftoken_contract".to_string(),
            token_id: "myNFT".to_string(),
            payload: Some(nft_info()),
        }
    );
    assert_eq!(frc.instances, vec![instance.clone()]);
    assert!(frc.pending.is_none());
    // the slot is cleared: the same confirmation is not accepted twice
    assert_eq!(frc.try_receive_ftoken_callback(instance), Err(SagaError::Unauthorized));
}

#[test]
fn one_pending_slot_is_replaced() {
    let mut frc = Fractionalizer::new(UploadedFtkn { code_id: 1, code_hash: "h".to_string() }, "f".to_string());
    frc.try_fractionalize(&"alice".to_string(), nft_info(), init(10)).unwrap();
    frc.try_fractionalize(&"bob".to_string(), nft_info(), init(10)).unwrap();
    assert_eq!(frc.pending, Some("bob".to_string()));
    assert_eq!(frc.next_idx, 2);
    assert_eq!(frc.known_snip_721, vec!["nft_addr".to_string()]);
    let alice = FtokenInstance {
        ftkn_idx: 0,
        depositor: "alice".to_string(),
        ftoken_contr: contract("ft0"),
        init_nft_info: nft_info(),
        name: "n".to_string(),
        symbol: "s".to_string(),
        decimals: 0,
    };
    assert_eq!(frc.try_receive_ftoken_callback(alice), Err(SagaError::Unauthorized));
}

#[test]
fn instance_indices_run_out() {
    let mut frc = Fractionalizer::new(UploadedFtkn { code_id: 1, code_hash: "h".to_string() }, "f".to_string());
    frc.next_idx = u32::MAX;
    assert_eq!(
        frc.try_fractionalize(&"alice".to_string(), nft_info(), init(10)),
        Err(SagaError::TooManyInstances)
    );
}

#[test]
fn it_works() {
    let result = 2 + 2;
    assert_eq!(result, 4);
}

#[test]
fn status_levels_round_trip() {
    assert_eq!(status_level_to_u8(ContractStatusLevel::NormalRun), 0);
    assert_eq!(status_level_to_u8(ContractStatusLevel::StopAllButRedeems), 1);
    assert_eq!(status_level_to_u8(ContractStatusLevel::StopAll), 2);
    assert_eq!(u8_to_status_level(1), Ok(ContractStatusLevel::StopAllButRedeems));
    assert_eq!(u8_to_status_level(2), Ok(ContractStatusLevel::StopAll));
    assert_eq!(u8_to_status_level(3), Err(InvalidStatusLevel { code: 3 }));
}

#[test]
fn space_pad_fills_to_block() {
    let mut m = b"abc".to_vec();
    space_pad(4, &mut m);
    assert_eq!(m, b"abc ".to_vec());
    let mut full = vec![b'x'; 8];
    space_pad(4, &mut full);
    assert_eq!(full.len(), 8);
    let mut long = vec![b'y'; 300];
    let padded = space_pad(RESPONSE_BLOCK_SIZE, &mut long);
    assert_eq!(padded.len(), 512);
    assert!(padded[300..].iter().all(|b| *b == b' '));
}

#[test]
fn init_config_defaults_off() {
    let c = InitConfig::default();
    assert!(!c.public_total_supply());
    assert!(!c.deposit_enabled());
    let c = InitConfig {
        public_total_supply: Some(true),
        enable_deposit: Some(false),
        enable_redeem: Some(true),
        enable_mint: None,
        enable_burn: Some(true),
    };
    assert!(c.public_total_supply());
    assert!(!c.deposit_enabled());
    assert!(c.redeem_enabled());
    assert!(!c.mint_enabled());
    assert!(c.burn_enabled());
}
