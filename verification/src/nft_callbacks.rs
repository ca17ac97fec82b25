//! How a listing comes about: a registry tells the marketplace that the
//! owner of a token has approved it.

use crate::context::CallContext;
use crate::errors::ContractError;
use crate::market::{
    lemma_listed_wf, Contract, MarketView, SaleKey, SaleView, StructSale,
    STORAGE_PER_SALE,
};
use crate::names::{Key, Name};
use vstd::prelude::*;

verus! {

/// What the owner sends along with the approval: the price.
pub struct SaleArgs {
    pub sale_conditions: u128,
}

impl MarketView {
    /// Why the notice of an approval makes no listing, if it makes none.
    /// The notice comes from a registry on behalf of the signer of the
    /// transaction, who is the owner that it names; the owner has prepaid
    /// for one listing more; the message holds a price; the token is not
    /// listed yet.
    pub open spec fn on_approve_error(
        self,
        ctx: &CallContext,
        token_id: Name,
        owner: Name,
        msg: Option<SaleArgs>,
    ) -> Option<ContractError> {
        let signer = ctx.signer_account_id@;
        if ctx.predecessor_account_id@ == signer {
            Some(ContractError::Unauthorized)
        } else if owner != signer {
            Some(ContractError::Unauthorized)
        } else if (self.supply_by_owner(signer) + 1) * STORAGE_PER_SALE as nat > self.balance_of(
            signer,
        ) {
            Some(ContractError::InsufficientStoragePrepay)
        } else if msg is None {
            Some(ContractError::InvalidPayload)
        } else if self.sales.contains_key((ctx.predecessor_account_id@, token_id)) {
            Some(ContractError::AlreadyExists)
        } else {
            None
        }
    }
}

impl Contract {
    /// Lists token `token_id` of the registry that calls, for `owner_id`
    /// at the price in `msg`, which is what the owner's message held, if
    /// it held a price.
    pub fn nft_on_approve(
        &mut self,
        ctx: &CallContext,
        token_id: String,
        owner_id: String,
        approval_id: u64,
        msg: Option<SaleArgs>,
    ) -> (r: Result<(), ContractError>)
        requires
            old(self).wf(),
        ensures
            final(self).wf(),
            match r {
                Ok(_) => {
                    &&& old(self)@.on_approve_error(ctx, token_id@, owner_id@, msg) is None
                    &&& final(self)@ == old(self)@.listed(
                        SaleView {
                            owner_id: owner_id@,
                            approval_id,
                            nft_contract_id: ctx.predecessor_account_id@,
                            token_id: token_id@,
                            sale_conditions: msg->0.sale_conditions,
                        },
                    )
                    &&& final(self).owner_id == old(self).owner_id
                },
                Err(e) => {
                    &&& old(self)@.on_approve_error(ctx, token_id@, owner_id@, msg) == Some(e)
                    &&& *final(self) == *old(self)
                },
            },
    {
        let nft_contract_id = &ctx.predecessor_account_id;
        let signer_id = &ctx.signer_account_id;
        if nft_contract_id.same(signer_id) {
            return Err(ContractError::Unauthorized);
        }
        if !owner_id.same(signer_id) {
            return Err(ContractError::Unauthorized);
        }
        let owner_paid_storage: u128 = self.balance(signer_id);
        let supply: usize = self.by_owner_id.count(signer_id);
        let covered = match (supply as u128 + 1).checked_mul(STORAGE_PER_SALE) {
            Some(required) => owner_paid_storage >= required,
            None => false,
        };
        if !covered {
            return Err(ContractError::InsufficientStoragePrepay);
        }
        let sale_conditions: u128 = match msg {
            Some(args) => args.sale_conditions,
            None => {
                return Err(ContractError::InvalidPayload);
            },
        };
        let key = SaleKey {
            nft_contract_id: nft_contract_id.duplicate(),
            token_id: token_id.duplicate(),
        };
        if self.sales.contains_key(&key) {
            assert(self@.sales.contains_key(key@));
            return Err(ContractError::AlreadyExists);
        }
        let sale = StructSale {
            owner_id: owner_id.duplicate(),
            approval_id,
            nft_contract_id: nft_contract_id.duplicate(),
            token_id: token_id.duplicate(),
            sale_conditions,
        };
        let ghost before = self@;
        proof {
            assert(!before.sales.contains_key(key@));
            lemma_listed_wf(before, sale@);
        }
        self.by_owner_id.add(&owner_id, key.duplicate());
        self.by_nft_contract_id.add(nft_contract_id, token_id);
        self.sales.insert(key, sale);
        assert(self@.sales =~= before.listed(sale@).sales);
        Ok(())
    }
}

} // verus!
