//! Creating a vault: the fractionalizer registers with the asset's contract,
//! asks for a new fractional-token instance, and moves the asset into it only
//! once the instance has confirmed itself.
use crate::types::{
    ContractInfo, FtokenConf, FtokenContrInit, FtokenInstance, Outbound, UndrNftInfo,
};
use crate::vault::{Vault, VaultError};
use crate::holders::balance_of;
use crate::resv::PRECISION;
use vstd::prelude::*;

verus! {

/// Why the fractionalizer refused a request.
#[derive(Clone, Copy, Debug, PartialEq, Eq, Structural)]
pub enum SagaError {
    /// The confirmation does not come from the instance being created.
    Unauthorized,
    /// No more instance indices are left.
    TooManyInstances,
}

/// The stored code of the fractional-token contract.
#[derive(Clone, Debug, PartialEq, Eq)]
pub struct UploadedFtkn {
    pub code_id: u64,
    pub code_hash: String,
}

/// What a depositor asks for when fractionalizing an asset.
#[derive(Clone, Debug, PartialEq, Eq)]
pub struct FtokenInit {
    pub name: String,
    pub symbol: String,
    /// Supply in the smallest unit.
    pub supply: u128,
    pub decimals: u8,
    /// Label of the new instance.
    pub contract_label: String,
    /// Starting reservation price.
    pub init_resv_price: u128,
    pub ftkn_conf: FtokenConf,
}

/// The fractionalizer's state.
#[derive(Debug)]
pub struct Fractionalizer {
    /// Asset contracts it has registered with.
    pub known_snip_721: Vec<String>,
    /// The index the next instance gets.
    pub next_idx: u32,
    /// The depositor whose instance is being created.
    pub pending: Option<String>,
    /// Confirmed instances, in order of confirmation.
    pub instances: Vec<FtokenInstance>,
    pub uploaded_ftoken: UploadedFtkn,
    /// This contract's own code hash, for callbacks.
    pub code_hash: String,
}

/// Whether an address is in a list.
pub open spec fn listed(s: Seq<String>, a: Seq<char>) -> bool {
    exists|i: int| 0 <= i < s.len() && #[trigger] s[i]@ == a
}

impl Fractionalizer {
    /// A fractionalizer with no instance yet.
    pub fn new(uploaded_ftoken: UploadedFtkn, code_hash: String) -> (r: Fractionalizer)
        ensures
            r.known_snip_721@.len() == 0,
            r.next_idx == 0,
            r.pending.is_none(),
            r.instances@.len() == 0,
            r.uploaded_ftoken == uploaded_ftoken,
            r.code_hash == code_hash,
    {
        Fractionalizer {
            known_snip_721: Vec::new(),
            next_idx: 0,
            pending: None,
            instances: Vec::new(),
            uploaded_ftoken,
            code_hash,
        }
    }

    /// Adds an asset contract to the known list unless it is there.
    fn remember_contract(&mut self, a: &String)
        ensures
            listed(old(self).known_snip_721@, a@) ==> final(self).known_snip_721@ == old(self).known_snip_721@,
            !listed(old(self).known_snip_721@, a@) ==> final(self).known_snip_721@ == old(self).known_snip_721@.push(*a),
            final(self).next_idx == old(self).next_idx,
            final(self).pending == old(self).pending,
            final(self).instances == old(self).instances,
            final(self).uploaded_ftoken == old(self).uploaded_ftoken,
            final(self).code_hash == old(self).code_hash,
    {
        let mut i: usize = 0;
        while i < self.known_snip_721.len()
            invariant
                i <= self.known_snip_721@.len(),
                forall|j: int| 0 <= j < i ==> self.known_snip_721@[j]@ != a@,
            decreases self.known_snip_721@.len() - i,
        {
            if self.known_snip_721[i] == *a {
                proof {
                    assert(listed(self.known_snip_721@, a@));
                }
                return;
            }
            i = i + 1;
        }
        self.known_snip_721.push(a.clone());
    }

    /// Starts creating a vault for `depositor`'s asset: registers with the
    /// asset's contract, takes the next instance index, records the
    /// depositor as the one expected to confirm, and asks for the instance.
    /// A confirmation still outstanding is replaced.
    pub fn try_fractionalize(&mut self, depositor: &String, nft_info: UndrNftInfo, ftkn_init: FtokenInit)
        -> (r: Result<(Outbound, Outbound), SagaError>)
        ensures
            r.is_err() == (old(self).next_idx == u32::MAX),
            r.is_err() ==> r == Err::<(Outbound, Outbound), SagaError>(SagaError::TooManyInstances)
                && *final(self) == *old(self),
            r.is_ok() ==> {
                &&& final(self).next_idx == old(self).next_idx + 1
                &&& final(self).pending == Some(*depositor)
                &&& final(self).instances == old(self).instances
                &&& listed(old(self).known_snip_721@, nft_info.nft_contr.address@) ==> final(self).known_snip_721@
                    == old(self).known_snip_721@
                &&& !listed(old(self).known_snip_721@, nft_info.nft_contr.address@) ==> final(self).known_snip_721@
                    == old(self).known_snip_721@.push(nft_info.nft_contr.address)
                &&& r.get_Ok_0().0 == Outbound::RegisterReceiveNft {
                    nft_contr: nft_info.nft_contr,
                    code_hash: old(self).code_hash,
                }
                &&& r.get_Ok_0().1 == Outbound::InstantiateFtoken {
                    code_id: old(self).uploaded_ftoken.code_id,
                    code_hash: old(self).uploaded_ftoken.code_hash,
                    init: FtokenContrInit {
                        ftkn_idx: old(self).next_idx,
                        depositor: *depositor,
                        fract_hash: old(self).code_hash,
                        nft_info,
                        init_resv_price: ftkn_init.init_resv_price,
                        ftkn_conf: ftkn_init.ftkn_conf,
                        name: ftkn_init.name,
                        symbol: ftkn_init.symbol,
                        decimals: ftkn_init.decimals,
                        supply: ftkn_init.supply,
                        label: ftkn_init.contract_label,
                    },
                }
            },
            final(self).uploaded_ftoken == old(self).uploaded_ftoken,
            final(self).code_hash == old(self).code_hash,
    {
        if self.next_idx == u32::MAX {
            return Err(SagaError::TooManyInstances);
        }
        self.remember_contract(&nft_info.nft_contr.address);
        let register = Outbound::RegisterReceiveNft {
            nft_contr: nft_info.nft_contr.duplicate(),
            code_hash: self.code_hash.clone(),
        };
        let idx = self.next_idx;
        self.next_idx = idx + 1;
        self.pending = Some(depositor.clone());
        let init = FtokenContrInit {
            ftkn_idx: idx,
            depositor: depositor.clone(),
            fract_hash: self.code_hash.clone(),
            nft_info,
            init_resv_price: ftkn_init.init_resv_price,
            ftkn_conf: ftkn_init.ftkn_conf,
            name: ftkn_init.name,
            symbol: ftkn_init.symbol,
            decimals: ftkn_init.decimals,
            supply: ftkn_init.supply,
            label: ftkn_init.contract_label,
        };
        let instantiate = Outbound::InstantiateFtoken {
            code_id: self.uploaded_ftoken.code_id,
            code_hash: self.uploaded_ftoken.code_hash.clone(),
            init,
        };
        Ok((register, instantiate))
    }

    /// Accepts a new instance's confirmation where it names the depositor
    /// being waited for: clears the wait, records the instance, and only now
    /// asks the asset's contract to move the asset into the instance.
    pub fn try_receive_ftoken_callback(&mut self, instance: FtokenInstance) -> (r: Result<Outbound, SagaError>)
        ensures
            r.is_err() == !(old(self).pending.is_some() && old(self).pending.unwrap()@ == instance.depositor@),
            r.is_err() ==> r == Err::<Outbound, SagaError>(SagaError::Unauthorized) && *final(self) == *old(self),
            r.is_ok() ==> {
                &&& final(self).pending.is_none()
                &&& final(self).instances@ == old(self).instances@.push(instance)
                &&& r.get_Ok_0() == Outbound::SendNft {
                    nft_contr: instance.init_nft_info.nft_contr,
                    recipient: instance.ftoken_contr.address,
                    token_id: instance.init_nft_info.token_id,
                    payload: Some(instance.init_nft_info),
                }
            },
            final(self).known_snip_721 == old(self).known_snip_721,
            final(self).next_idx == old(self).next_idx,
            final(self).uploaded_ftoken == old(self).uploaded_ftoken,
            final(self).code_hash == old(self).code_hash,
    {
        let expected = match &self.pending {
            Some(p) => *p == instance.depositor,
            None => false,
        };
        if !expected {
            return Err(SagaError::Unauthorized);
        }
        self.pending = None;
        let msg = Outbound::SendNft {
            nft_contr: instance.init_nft_info.nft_contr.duplicate(),
            recipient: instance.ftoken_contr.address.clone(),
            token_id: instance.init_nft_info.token_id.clone(),
            payload: Some(instance.init_nft_info.duplicate()),
        };
        self.instances.push(instance);
        Ok(msg)
    }
}

/// The record a new instance makes of itself from what the fractionalizer
/// handed it and its own contract details.
pub fn register_receive(init: &FtokenContrInit, own_contract: &ContractInfo) -> (r: FtokenInstance)
    ensures
        r == (FtokenInstance {
            ftkn_idx: init.ftkn_idx,
            depositor: init.depositor,
            ftoken_contr: *own_contract,
            init_nft_info: init.nft_info,
            name: init.name,
            symbol: init.symbol,
            decimals: init.decimals,
        }),
{
    FtokenInstance {
        ftkn_idx: init.ftkn_idx,
        depositor: init.depositor.clone(),
        ftoken_contr: own_contract.duplicate(),
        init_nft_info: init.nft_info.duplicate(),
        name: init.name.clone(),
        symbol: init.symbol.clone(),
        decimals: init.decimals,
    }
}

/// Sets up a new vault from what the fractionalizer handed it: the
/// depositor holds the whole supply, the asset is expected but not yet
/// held. Returned with it are the confirmation for the fractionalizer and
/// the message that sets the vault's viewing key on the asset's contract.
pub fn add_ftoken_init(
    init: FtokenContrInit,
    own_contract: &ContractInfo,
    fractionalizer: &String,
    viewing_key: String,
) -> (r: Result<(Vault, Outbound, Outbound), VaultError>)
    ensures
        r.is_err() == (init.supply == 0 || !init.ftkn_conf.valid()),
        init.supply == 0 ==> r == Err::<(Vault, Outbound, Outbound), VaultError>(VaultError::ZeroSupply),
        init.supply > 0 && !init.ftkn_conf.valid() ==> r == Err::<(Vault, Outbound, Outbound), VaultError>(
            VaultError::InvalidConfig,
        ),
        r.is_ok() ==> {
            let v = r.get_Ok_0().0;
            let inst = FtokenInstance {
                ftkn_idx: init.ftkn_idx,
                depositor: init.depositor,
                ftoken_contr: *own_contract,
                init_nft_info: init.nft_info,
                name: init.name,
                symbol: init.symbol,
                decimals: init.decimals,
            };
            &&& v.wf()
            &&& v.info.instance == inst
            &&& v.info.vault_active
            &&& v.config == init.ftkn_conf
            &&& v.total_supply == init.supply
            &&& balance_of(v.holders@, init.depositor@) == init.supply
            &&& v.agg_resv.stake_v() == 0
            &&& v.agg_resv.price_v() == init.init_resv_price * PRECISION
            &&& !v.auction.is_active
            &&& v.bids@.len() == 0
            &&& v.props@.len() == 0
            &&& v.nft_viewing_key == viewing_key
            &&& r.get_Ok_0().1 == Outbound::ReceiveFtokenCallback {
                fractionalizer: ContractInfo { code_hash: init.fract_hash, address: *fractionalizer },
                instance: inst,
            }
            &&& r.get_Ok_0().2 == Outbound::SetViewingKey { nft_contr: init.nft_info.nft_contr, key: viewing_key }
        },
{
    if init.supply == 0 {
        return Err(VaultError::ZeroSupply);
    }
    if !init.ftkn_conf.is_valid() {
        return Err(VaultError::InvalidConfig);
    }
    let instance = register_receive(&init, own_contract);
    let callback = Outbound::ReceiveFtokenCallback {
        fractionalizer: ContractInfo { code_hash: init.fract_hash.clone(), address: fractionalizer.clone() },
        instance: instance.duplicate(),
    };
    let set_key = Outbound::SetViewingKey {
        nft_contr: init.nft_info.nft_contr.duplicate(),
        key: viewing_key.clone(),
    };
    let vault = Vault::new(instance, init.ftkn_conf, init.supply, init.init_resv_price, viewing_key);
    Ok((vault, callback, set_key))
}

} // verus!
