//! Message-level helpers of the fractional token: optional settings, the
//! contract's status levels, query kinds and response padding.
use vstd::prelude::*;

verus! {

/// Responses are padded to a multiple of this many bytes.
pub const RESPONSE_BLOCK_SIZE: usize = 256;

/// Optional settings of a new fractional token; each is off unless set.
#[derive(Clone, Copy, Debug, Default)]
pub struct InitConfig {
    pub public_total_supply: Option<bool>,
    pub enable_deposit: Option<bool>,
    pub enable_redeem: Option<bool>,
    pub enable_mint: Option<bool>,
    pub enable_burn: Option<bool>,
}

pub open spec fn set_and_true(o: Option<bool>) -> bool {
    o == Some(true)
}

fn flag(o: Option<bool>) -> (r: bool)
    ensures
        r == set_and_true(o),
{
    match o {
        Some(b) => b,
        None => false,
    }
}

impl InitConfig {
    pub fn public_total_supply(&self) -> (r: bool)
        ensures
            r == set_and_true(self.public_total_supply),
    {
        flag(self.public_total_supply)
    }

    pub fn deposit_enabled(&self) -> (r: bool)
        ensures
            r == set_and_true(self.enable_deposit),
    {
        flag(self.enable_deposit)
    }

    pub fn redeem_enabled(&self) -> (r: bool)
        ensures
            r == set_and_true(self.enable_redeem),
    {
        flag(self.enable_redeem)
    }

    pub fn mint_enabled(&self) -> (r: bool)
        ensures
            r == set_and_true(self.enable_mint),
    {
        flag(self.enable_mint)
    }

    pub fn burn_enabled(&self) -> (r: bool)
        ensures
            r == set_and_true(self.enable_burn),
    {
        flag(self.enable_burn)
    }
}

/// How far the contract runs.
#[derive(Clone, Copy, Debug, PartialEq, Eq, Structural)]
pub enum ContractStatusLevel {
    NormalRun,
    StopAllButRedeems,
    StopAll,
}

/// A status level's code.
pub open spec fn status_code(s: ContractStatusLevel) -> u8 {
    match s {
        ContractStatusLevel::NormalRun => 0,
        ContractStatusLevel::StopAllButRedeems => 1,
        ContractStatusLevel::StopAll => 2,
    }
}

pub fn status_level_to_u8(status_level: ContractStatusLevel) -> (r: u8)
    ensures
        r == status_code(status_level),
{
    match status_level {
        ContractStatusLevel::NormalRun => 0,
        ContractStatusLevel::StopAllButRedeems => 1,
        ContractStatusLevel::StopAll => 2,
    }
}

/// A code that names no status level.
#[derive(Clone, Copy, Debug, PartialEq, Eq, Structural)]
pub struct InvalidStatusLevel {
    pub code: u8,
}

/// The status level with the given code.
pub fn u8_to_status_level(status_level: u8) -> (r: Result<ContractStatusLevel, InvalidStatusLevel>)
    ensures
        r.is_ok() == (status_level <= 2),
        r.is_ok() ==> status_code(r.get_Ok_0()) == status_level,
        r.is_err() ==> r == Err::<ContractStatusLevel, InvalidStatusLevel>(
            InvalidStatusLevel { code: status_level },
        ),
{
    match status_level {
        0 => Ok(ContractStatusLevel::NormalRun),
        1 => Ok(ContractStatusLevel::StopAllButRedeems),
        2 => Ok(ContractStatusLevel::StopAll),
        _ => Err(InvalidStatusLevel { code: status_level }),
    }
}

/// The number of spaces that bring `len` to a multiple of `block_size`.
pub open spec fn pad_len(block_size: nat, len: nat) -> nat {
    if len % block_size == 0 {
        0
    } else {
        (block_size - len % block_size) as nat
    }
}

/// Pads a message with spaces at the end up to a multiple of `block_size`.
pub fn space_pad(block_size: usize, message: &mut Vec<u8>) -> (r: &mut Vec<u8>)
    requires
        block_size > 0,
        old(message)@.len() + block_size <= usize::MAX,
    ensures
        r@.len() == old(message)@.len() + pad_len(block_size as nat, old(message)@.len()),
        r@.take(old(message)@.len() as int) == old(message)@,
        forall|i: int| old(message)@.len() <= i < r@.len() ==> #[trigger] r@[i] == 32u8,
        *final(message) == *final(r),
{
    let len = message.len();
    let surplus = len % block_size;
    if surplus == 0 {
        proof {
            assert(message@.take(len as int) =~= message@);
        }
        return message;
    }
    let missing = block_size - surplus;
    let ghost m0 = message@;
    let mut k: usize = 0;
    while k < missing
        invariant
            k <= missing,
            missing == block_size - surplus,
            surplus == len % block_size,
            len == m0.len(),
            len + block_size <= usize::MAX,
            message@.len() == len + k,
            message@.take(len as int) == m0,
            forall|i: int| len <= i < message@.len() ==> #[trigger] message@[i] == 32u8,
        decreases missing - k,
    {
        let ghost before = message@;
        message.push(32u8);
        proof {
            assert(message@.take(len as int) =~= before.take(len as int));
        }
        k = k + 1;
    }
    message
}

/// Public queries on the vault.
#[derive(Clone, Copy, Debug, PartialEq, Eq, Structural)]
pub enum FtokenQuery {
    FtokenInfo,
    FtokenConfig,
    AuctionConfig,
    ProposalConfig,
    ReservationPrice,
    ProposalList,
    BidList { page: u32, page_size: u32 },
}

/// Queries on the vault that need the caller's identity.
#[derive(Clone, Copy, Debug, PartialEq, Eq, Structural)]
pub enum FtokenAuthQuery {
    NftPrivateMetadata,
    NftDossier,
    StakedTokens,
    ReservationPriceVote,
    ProposalVotes { prop_id: u32 },
    Bid,
}

/// What a signed query permit may grant.
#[derive(Clone, Copy, Debug, PartialEq, Eq, Structural)]
pub enum Snip1155Permissions {
    Allowance,
    Balance,
    History,
    Owner,
    NftPrivateMetadata,
    NftDossier,
    StakedTokens,
    ReservationPriceVote,
    ProposalVotes,
    Bid,
}

/// Whether a request succeeded.
#[derive(Clone, Copy, Debug, PartialEq, Eq, Structural)]
pub enum ResponseStatus {
    Success,
    Failure,
}

/// A new viewing key.
#[derive(Clone, Debug, PartialEq, Eq)]
pub struct CreateViewingKeyResponse {
    pub key: String,
}

/// Name and units of a fractional token.
#[derive(Clone, Debug, PartialEq, Eq)]
pub struct FtokenConfig {
    pub index: u32,
    pub name: String,
    pub symbol: String,
    pub decimals: u8,
}

} // verus!
