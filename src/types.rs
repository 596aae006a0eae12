//! The records that the fractionalizer and the fractional-token vault keep
//! and exchange.
use vstd::prelude::*;

verus! {

/// Code hash and address of a contract.
#[derive(Clone, Debug, PartialEq, Eq)]
pub struct ContractInfo {
    pub code_hash: String,
    pub address: String,
}

impl ContractInfo {
    pub fn duplicate(&self) -> (r: ContractInfo)
        ensures
            r == *self,
    {
        ContractInfo { code_hash: self.code_hash.clone(), address: self.address.clone() }
    }
}

/// The escrowed asset: its token id and the contract that owns it.
#[derive(Clone, Debug, PartialEq, Eq)]
pub struct UndrNftInfo {
    pub token_id: String,
    pub nft_contr: ContractInfo,
}

/// Whether two asset references name the same asset on the same contract.
pub open spec fn same_nft(a: UndrNftInfo, b: UndrNftInfo) -> bool {
    &&& a.token_id@ == b.token_id@
    &&& a.nft_contr.code_hash@ == b.nft_contr.code_hash@
    &&& a.nft_contr.address@ == b.nft_contr.address@
}

impl UndrNftInfo {
    pub fn duplicate(&self) -> (r: UndrNftInfo)
        ensures
            r == *self,
    {
        UndrNftInfo { token_id: self.token_id.clone(), nft_contr: self.nft_contr.duplicate() }
    }

    /// Whether `other` names the same asset.
    pub fn matches(&self, other: &UndrNftInfo) -> (r: bool)
        ensures
            r == same_nft(*self, *other),
    {
        self.token_id == other.token_id && self.nft_contr.code_hash == other.nft_contr.code_hash
            && self.nft_contr.address == other.nft_contr.address
    }
}

/// Auction settings.
#[derive(Clone, Debug, PartialEq, Eq)]
pub struct AucConf {
    /// The token that bids are paid in.
    pub bid_token: ContractInfo,
    /// Blocks that an auction stays open once it starts.
    pub auc_period: u64,
    /// A reservation-price vote must lie between `price * 100 / resv_boundary`
    /// and `price * resv_boundary / 100`.
    pub resv_boundary: u32,
    /// Minimum raise over the last bid, in basis points.
    pub min_bid_inc: u32,
    /// Share of the supply, in basis points, that must back the reservation
    /// price before bidding opens.
    pub unlock_threshold: u128,
}

impl AucConf {
    pub fn duplicate(&self) -> (r: AucConf)
        ensures
            r == *self,
    {
        AucConf {
            bid_token: self.bid_token.duplicate(),
            auc_period: self.auc_period,
            resv_boundary: self.resv_boundary,
            min_bid_inc: self.min_bid_inc,
            unlock_threshold: self.unlock_threshold,
        }
    }

    /// Settings with no bid token and every number zero.
    pub fn empty() -> (r: AucConf)
        ensures
            r.bid_token.code_hash@ == Seq::<char>::empty(),
            r.bid_token.address@ == Seq::<char>::empty(),
            r.auc_period == 0,
            r.resv_boundary == 0,
            r.min_bid_inc == 0,
            r.unlock_threshold == 0,
    {
        AucConf {
            bid_token: ContractInfo { code_hash: String::new(), address: String::new() },
            auc_period: 0,
            resv_boundary: 0,
            min_bid_inc: 0,
            unlock_threshold: 0,
        }
    }
}

/// Proposal settings.
#[derive(Clone, Debug, PartialEq, Eq)]
pub struct PropConf {
    /// Minimum stake that a proposal locks.
    pub min_stake: u128,
    /// Blocks that a proposal stays open for votes.
    pub vote_period: u64,
    /// Share of the supply, in basis points, that must vote.
    pub vote_quorum: u128,
    /// Share of the supply, in basis points, of veto votes that defeats a
    /// proposal and forfeits its stake.
    pub veto_threshold: u128,
}

/// The vault's configuration.
#[derive(Clone, Debug, PartialEq, Eq)]
pub struct FtokenConf {
    /// Blocks that staked tokens stay bonded after staking or voting.
    pub min_ftkn_bond_prd: u64,
    /// Share of the supply, in basis points, that a holder needs to view the
    /// asset's private metadata.
    pub priv_metadata_view_threshold: u32,
    pub auc_conf: AucConf,
    pub prop_conf: PropConf,
}

impl FtokenConf {
    /// A configuration the vault can run on: the reservation band is not empty.
    pub open spec fn valid(&self) -> bool {
        self.auc_conf.resv_boundary > 0
    }

    pub fn is_valid(&self) -> (r: bool)
        ensures
            r == self.valid(),
    {
        self.auc_conf.resv_boundary > 0
    }

    pub fn duplicate(&self) -> (r: FtokenConf)
        ensures
            r == *self,
    {
        FtokenConf {
            min_ftkn_bond_prd: self.min_ftkn_bond_prd,
            priv_metadata_view_threshold: self.priv_metadata_view_threshold,
            auc_conf: self.auc_conf.duplicate(),
            prop_conf: PropConf {
                min_stake: self.prop_conf.min_stake,
                vote_period: self.prop_conf.vote_period,
                vote_quorum: self.prop_conf.vote_quorum,
                veto_threshold: self.prop_conf.veto_threshold,
            },
        }
    }
}

/// One fractional-token instance, as created by the fractionalizer.
#[derive(Clone, Debug, PartialEq, Eq)]
pub struct FtokenInstance {
    /// Index given by the fractionalizer.
    pub ftkn_idx: u32,
    /// Who deposited the asset.
    pub depositor: String,
    /// The fractional-token contract.
    pub ftoken_contr: ContractInfo,
    /// The asset it holds.
    pub init_nft_info: UndrNftInfo,
    pub name: String,
    pub symbol: String,
    pub decimals: u8,
}

impl FtokenInstance {
    pub fn duplicate(&self) -> (r: FtokenInstance)
        ensures
            r == *self,
    {
        FtokenInstance {
            ftkn_idx: self.ftkn_idx,
            depositor: self.depositor.clone(),
            ftoken_contr: self.ftoken_contr.duplicate(),
            init_nft_info: self.init_nft_info.duplicate(),
            name: self.name.clone(),
            symbol: self.symbol.clone(),
            decimals: self.decimals,
        }
    }
}

/// The vault's record of its instance and whether the asset is still held.
#[derive(Clone, Debug, PartialEq, Eq)]
pub struct FtokenInfo {
    pub instance: FtokenInstance,
    pub vault_active: bool,
}

/// Tokens a holder has staked and the height until which they are bonded.
#[derive(Clone, Copy, Debug, PartialEq, Eq, Structural, Default)]
pub struct StakedTokens {
    pub amount: u128,
    pub unlock_height: u64,
}

/// A vote on a proposal.
#[derive(Clone, Copy, Debug, PartialEq, Eq, Structural)]
pub enum Vote {
    Yes,
    No,
    Veto,
    Abstain,
}

/// The outcome of a proposal.
#[derive(Clone, Copy, Debug, PartialEq, Eq, Structural)]
pub enum VoteResult {
    Won,
    Lost,
    LostWithVeto,
}

/// Stake-weighted votes of each kind.
#[derive(Clone, Copy, Debug, PartialEq, Eq, Structural, Default)]
pub struct VoteRegister {
    pub yes: u128,
    pub no: u128,
    pub veto: u128,
    pub abstain: u128,
}

/// A register with the whole weight on one kind.
pub open spec fn register_of(vote: Vote, weight: u128) -> VoteRegister {
    VoteRegister {
        yes: if vote == Vote::Yes { weight } else { 0 },
        no: if vote == Vote::No { weight } else { 0 },
        veto: if vote == Vote::Veto { weight } else { 0 },
        abstain: if vote == Vote::Abstain { weight } else { 0 },
    }
}

pub fn new_register(vote: Vote, weight: u128) -> (r: VoteRegister)
    ensures
        r == register_of(vote, weight),
{
    match vote {
        Vote::Yes => VoteRegister { yes: weight, no: 0, veto: 0, abstain: 0 },
        Vote::No => VoteRegister { yes: 0, no: weight, veto: 0, abstain: 0 },
        Vote::Veto => VoteRegister { yes: 0, no: 0, veto: weight, abstain: 0 },
        Vote::Abstain => VoteRegister { yes: 0, no: 0, veto: 0, abstain: weight },
    }
}

/// Who may see something of the asset.
#[derive(Clone, Copy, Debug, PartialEq, Eq, Structural)]
pub enum AccessLevel {
    ApproveToken,
    All,
    RevokeToken,
    NoAccess,
}

/// When an approval ends.
#[derive(Clone, Copy, Debug, PartialEq, Eq, Structural)]
pub enum Expiration {
    Never,
    AtHeight(u64),
    AtTime(u64),
}

/// The messages that holders may direct at the asset while it is in the
/// vault; metadata travels encoded.
#[derive(Clone, Debug, PartialEq, Eq)]
pub enum AllowedNftMsg {
    SetMetadata { public_metadata: Option<String>, private_metadata: Option<String> },
    Reveal,
    MakeOwnershipPrivate,
    SetGlobalApproval {
        view_owner: Option<AccessLevel>,
        view_private_metadata: Option<AccessLevel>,
        expires: Option<Expiration>,
    },
    SetWhitelistedApproval {
        address: String,
        view_owner: Option<AccessLevel>,
        view_private_metadata: Option<AccessLevel>,
        expires: Option<Expiration>,
    },
}

/// A message to the asset's contract.
#[derive(Clone, Debug, PartialEq, Eq)]
pub enum S721HandleMsg {
    SetMetadata { token_id: String, public_metadata: Option<String>, private_metadata: Option<String> },
    Reveal { token_id: String },
    MakeOwnershipPrivate,
    SetGlobalApproval {
        token_id: Option<String>,
        view_owner: Option<AccessLevel>,
        view_private_metadata: Option<AccessLevel>,
        expires: Option<Expiration>,
    },
    SetWhitelistedApproval {
        address: String,
        token_id: Option<String>,
        view_owner: Option<AccessLevel>,
        view_private_metadata: Option<AccessLevel>,
        transfer: Option<AccessLevel>,
        expires: Option<Expiration>,
    },
}

/// The asset contract's message for an allowed message on the asset
/// `token_id`: approvals are limited to that asset, and a whitelisted
/// approval never grants transfer.
pub open spec fn nft_message_for(msg: AllowedNftMsg, token_id: String) -> S721HandleMsg {
    match msg {
        AllowedNftMsg::SetMetadata { public_metadata, private_metadata } => S721HandleMsg::SetMetadata {
            token_id,
            public_metadata,
            private_metadata,
        },
        AllowedNftMsg::Reveal => S721HandleMsg::Reveal { token_id },
        AllowedNftMsg::MakeOwnershipPrivate => S721HandleMsg::MakeOwnershipPrivate,
        AllowedNftMsg::SetGlobalApproval { view_owner, view_private_metadata, expires } => S721HandleMsg::SetGlobalApproval {
            token_id: Some(token_id),
            view_owner,
            view_private_metadata,
            expires,
        },
        AllowedNftMsg::SetWhitelistedApproval { address, view_owner, view_private_metadata, expires } => S721HandleMsg::SetWhitelistedApproval {
            address,
            token_id: Some(token_id),
            view_owner,
            view_private_metadata,
            transfer: None,
            expires,
        },
    }
}

fn copy_text(o: &Option<String>) -> (r: Option<String>)
    ensures
        r == *o,
{
    match o {
        Some(t) => Some(t.clone()),
        None => None,
    }
}

/// The asset contract's message for an allowed message.
pub fn try_send_msg_to_nft(msg: &AllowedNftMsg, token_id: &String) -> (r: S721HandleMsg)
    ensures
        r == nft_message_for(*msg, *token_id),
{
    match msg {
        AllowedNftMsg::SetMetadata { public_metadata, private_metadata } => S721HandleMsg::SetMetadata {
            token_id: token_id.clone(),
            public_metadata: copy_text(public_metadata),
            private_metadata: copy_text(private_metadata),
        },
        AllowedNftMsg::Reveal => S721HandleMsg::Reveal { token_id: token_id.clone() },
        AllowedNftMsg::MakeOwnershipPrivate => S721HandleMsg::MakeOwnershipPrivate,
        AllowedNftMsg::SetGlobalApproval { view_owner, view_private_metadata, expires } => S721HandleMsg::SetGlobalApproval {
            token_id: Some(token_id.clone()),
            view_owner: *view_owner,
            view_private_metadata: *view_private_metadata,
            expires: *expires,
        },
        AllowedNftMsg::SetWhitelistedApproval { address, view_owner, view_private_metadata, expires } => S721HandleMsg::SetWhitelistedApproval {
            address: address.clone(),
            token_id: Some(token_id.clone()),
            view_owner: *view_owner,
            view_private_metadata: *view_private_metadata,
            transfer: None,
            expires: *expires,
        },
    }
}

/// What a proposal asks for.
#[derive(Clone, Debug, PartialEq, Eq)]
pub enum Proposal {
    /// Send an allowed message to the asset's contract.
    MsgToNft { msg: AllowedNftMsg },
    /// Replace the vault's configuration.
    ChangeConfig { config: FtokenConf },
}

/// A proposal as the vault keeps it.
#[derive(Clone, Debug, PartialEq, Eq)]
pub struct PropInfo {
    pub prop_id: u32,
    pub proposer: String,
    pub proposal: Proposal,
    pub stake: u128,
    pub stake_withdrawn: bool,
    pub outcome: Option<VoteResult>,
    pub end_height: u64,
}

/// The auction's state: whether it runs, until when, and the settings it
/// started with.
#[derive(Clone, Debug, PartialEq, Eq)]
pub struct AuctionInfo {
    pub is_active: bool,
    pub end_height: u64,
    pub auc_config_snapshot: AucConf,
}

impl AuctionInfo {
    /// An auction that has not started.
    pub fn init() -> (r: AuctionInfo)
        ensures
            !r.is_active,
            r.end_height == 0,
    {
        AuctionInfo { is_active: false, end_height: 0, auc_config_snapshot: AucConf::empty() }
    }
}

/// One bid in the bid log.
#[derive(Clone, Debug, PartialEq, Eq)]
pub struct BidInfo {
    pub bidder: String,
    pub amount: u128,
    pub winning_bid: bool,
    pub retrieved_bid: bool,
}

impl BidInfo {
    pub fn duplicate(&self) -> (r: BidInfo)
        ensures
            r == *self,
    {
        BidInfo {
            bidder: self.bidder.clone(),
            amount: self.amount,
            winning_bid: self.winning_bid,
            retrieved_bid: self.retrieved_bid,
        }
    }

    pub fn new(bidder: String, amount: u128) -> (r: BidInfo)
        ensures
            r.bidder == bidder,
            r.amount == amount,
            !r.winning_bid,
            !r.retrieved_bid,
    {
        BidInfo { bidder, amount, winning_bid: false, retrieved_bid: false }
    }
}

/// A message to another contract, for the caller to send.
#[derive(Clone, Debug, PartialEq, Eq)]
pub enum Outbound {
    /// Ask an asset contract to call this contract back when it sends an asset.
    RegisterReceiveNft { nft_contr: ContractInfo, code_hash: String },
    /// Create a fractional-token instance.
    InstantiateFtoken { code_id: u64, code_hash: String, init: FtokenContrInit },
    /// Move an asset to `recipient`, with an optional payload for its receiver.
    SendNft {
        nft_contr: ContractInfo,
        recipient: String,
        token_id: String,
        payload: Option<UndrNftInfo>,
    },
    /// Move fungible tokens from `owner` to `recipient`.
    TransferFrom { token: ContractInfo, owner: String, recipient: String, amount: u128 },
    /// Move fungible tokens from this contract to `recipient`.
    Transfer { token: ContractInfo, recipient: String, amount: u128 },
    /// A message for the asset's contract.
    NftMessage { nft_contr: ContractInfo, msg: S721HandleMsg },
    /// Tell the fractionalizer that a new instance exists.
    ReceiveFtokenCallback { fractionalizer: ContractInfo, instance: FtokenInstance },
    /// Set the key with which the vault views the asset on its contract.
    SetViewingKey { nft_contr: ContractInfo, key: String },
}

/// What the fractionalizer hands a new fractional-token instance.
#[derive(Clone, Debug, PartialEq, Eq)]
pub struct FtokenContrInit {
    pub ftkn_idx: u32,
    pub depositor: String,
    pub fract_hash: String,
    pub nft_info: UndrNftInfo,
    pub init_resv_price: u128,
    pub ftkn_conf: FtokenConf,
    pub name: String,
    pub symbol: String,
    pub decimals: u8,
    pub supply: u128,
    pub label: String,
}

} // verus!
