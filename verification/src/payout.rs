//! Royalties on the registry: what a sale of a token pays to whom, and the
//! transfer that a sale makes.

use crate::context::{CallContext, Payment};
use crate::errors::ContractError;
use crate::events::EventLog;
use crate::names::{Key, Name};
use crate::nft_core::{
    authorized, authorized_id, nft_transfer_error, transfer_log, transfer_report,
};
use crate::registry::{Contract, RegistryState, RegistryView};
use crate::rent::{approvals_refund, assert_one_yocto, refund_approved_account_ids};
use crate::royalty::{royalty_split, split_error, split_payouts, Payout};
use vstd::prelude::*;

verus! {

/// What the transfer of a sale hands back: the split of the price, the
/// payment that gives the previous owner back what the cleared approvals
/// cost to keep, and the report.
pub struct PayoutTransfer {
    pub payout: Payout,
    pub refund: Payment,
    pub log: EventLog,
}

impl RegistryView {
    /// Why the split of a sale of token `token_id` fails, if it fails.
    pub open spec fn payout_error(self, token_id: Name, max_len_payout: u32) -> Option<
        ContractError,
    > {
        if !self.tokens.contains_key(token_id) {
            Some(ContractError::NoSuchToken)
        } else {
            split_error(
                self.tokens[token_id].royalty,
                self.tokens[token_id].owner_id,
                max_len_payout,
            )
        }
    }

    /// The split of `balance` for a sale of token `token_id`.
    pub open spec fn payout(self, token_id: Name, balance: u128) -> Seq<(Name, u128)> {
        split_payouts(
            self.tokens[token_id].royalty,
            self.tokens[token_id].owner_id,
            balance as nat,
        )
    }

    /// Why the transfer of a sale fails, if it fails: as a plain transfer,
    /// or as the split.
    pub open spec fn transfer_payout_error(
        self,
        ctx: &CallContext,
        receiver: Name,
        token_id: Name,
        approval_id: Option<u64>,
        max_len_payout: u32,
    ) -> Option<ContractError> {
        match nft_transfer_error(self, ctx, receiver, token_id, approval_id) {
            Some(e) => Some(e),
            None => self.payout_error(token_id, max_len_payout),
        }
    }
}

/// The royalties of the registry.
pub trait RoyaltyNonFungibleTokenCore: RegistryState {
    /// The split of `balance` between the owner of token `token_id` and
    /// the recipients of its royalties.
    fn nft_payout(&self, token_id: String, balance: u128, max_len_payout: u32) -> (r: Result<
        Payout,
        ContractError,
    >)
        requires
            self.valid(),
        ensures
            match r {
                Ok(p) => self.registry().payout_error(token_id@, max_len_payout) is None && p.wf()
                    && p@ == self.registry().payout(token_id@, balance),
                Err(e) => self.registry().payout_error(token_id@, max_len_payout) == Some(e),
            },
    ;

    /// Transfers token `token_id` to `receiver_id` as `nft_transfer` does,
    /// and hands back the split of `balance` between the previous owner
    /// and the recipients of the token's royalties.
    fn nft_transfer_payout(
        &mut self,
        ctx: &CallContext,
        receiver_id: String,
        token_id: String,
        approval_id: Option<u64>,
        memo: String,
        balance: u128,
        max_len_payout: u32,
    ) -> (r: Result<PayoutTransfer, ContractError>)
        requires
            old(self).valid(),
        ensures
            final(self).valid(),
            match r {
                Ok(out) => {
                    let v = old(self).registry();
                    let before = v.tokens[token_id@];
                    &&& v.transfer_payout_error(
                        ctx,
                        receiver_id@,
                        token_id@,
                        approval_id,
                        max_len_payout,
                    ) is None
                    &&& final(self).registry() == v.transferred(token_id@, receiver_id@)
                    &&& out.payout.wf()
                    &&& out.payout@ == v.payout(token_id@, balance)
                    &&& out.refund@ == (
                        before.owner_id,
                        approvals_refund(before.approved_account_ids),
                    )
                    &&& out.log.reports_transfer(
                        transfer_report(
                            authorized(ctx.predecessor_account_id@, before.owner_id),
                            before.owner_id,
                            receiver_id@,
                            token_id@,
                            Some(memo@),
                        ),
                    )
                },
                Err(e) => {
                    &&& old(self).registry().transfer_payout_error(
                        ctx,
                        receiver_id@,
                        token_id@,
                        approval_id,
                        max_len_payout,
                    ) == Some(e)
                    &&& *final(self) == *old(self)
                },
            },
    ;
}

impl RoyaltyNonFungibleTokenCore for Contract {
    fn nft_payout(&self, token_id: String, balance: u128, max_len_payout: u32) -> (r: Result<
        Payout,
        ContractError,
    >) {
        match self.token(&token_id) {
            None => Err(ContractError::NoSuchToken),
            Some(token) => royalty_split(&token.owner_id, &token.royalty, balance, max_len_payout),
        }
    }

    fn nft_transfer_payout(
        &mut self,
        ctx: &CallContext,
        receiver_id: String,
        token_id: String,
        approval_id: Option<u64>,
        memo: String,
        balance: u128,
        max_len_payout: u32,
    ) -> (r: Result<PayoutTransfer, ContractError>)
        ensures
            r is Ok ==> final(self).owner_id == old(self).owner_id && final(self).metadata == old(
                self,
            ).metadata,
    {
        match assert_one_yocto(ctx) {
            Err(e) => {
                return Err(e);
            },
            Ok(_) => {},
        }
        let sender_id = &ctx.predecessor_account_id;
        match self.internal_check_transfer(sender_id, &receiver_id, &token_id, approval_id) {
            Err(e) => {
                return Err(e);
            },
            Ok(_) => {},
        }
        let payout = match self.nft_payout(token_id.duplicate(), balance, max_len_payout) {
            Err(e) => {
                return Err(e);
            },
            Ok(p) => p,
        };
        match self.internal_transfer(sender_id, &receiver_id, &token_id, approval_id) {
            Err(e) => Err(e),
            Ok(previous) => {
                let refund = refund_approved_account_ids(
                    &previous.owner_id,
                    &previous.approved_account_ids,
                );
                let log = transfer_log(
                    authorized_id(sender_id, &previous.owner_id),
                    &previous.owner_id,
                    &receiver_id,
                    &token_id,
                    Some(memo),
                );
                Ok(PayoutTransfer { payout, refund, log })
            },
        }
    }
}

} // verus!
