//! Approvals: the owner of a token names delegates that may transfer it,
//! and takes the approval back.

use crate::context::{payment_view, CallContext, Payment};
use crate::errors::ContractError;
use crate::metadata::{Token, TokenView};
use crate::names::{
    entries_map, entries_with, entries_without, key_seq, lemma_entries_with,
    lemma_entries_without, Key, Name, Table,
};
use crate::registry::{Contract, RegistryState, RegistryView};
use crate::rent::{
    approval_bytes, approvals_refund, assert_one_yocto, bytes_for_approved_account_id, capped,
    deposit_refund,
    refund_approved_account_ids, refund_deposit, storage_cost, STORAGE_PRICE_PER_BYTE,
};
use vstd::prelude::*;

verus! {

/// The execution budget that an approval keeps for itself when it sends a
/// notice.
pub const GAS_FOR_NFT_APPROVE: u64 = 10_000_000_000_000;

/// The message that tells a delegate about its approval.
pub struct ApprovalNotice {
    /// The account to tell: the delegate.
    pub receiver_id: String,
    pub token_id: String,
    pub owner_id: String,
    pub approval_id: u64,
    pub msg: String,
    /// The execution budget of the message.
    pub gas: u64,
}

/// The value of the notice of an approval.
pub struct ApprovalNoticeView {
    pub receiver_id: Name,
    pub token_id: Name,
    pub owner_id: Name,
    pub approval_id: u64,
    pub msg: Name,
    pub gas: u64,
}

impl View for ApprovalNotice {
    type V = ApprovalNoticeView;

    open spec fn view(&self) -> ApprovalNoticeView {
        ApprovalNoticeView {
            receiver_id: self.receiver_id@,
            token_id: self.token_id@,
            owner_id: self.owner_id@,
            approval_id: self.approval_id,
            msg: self.msg@,
            gas: self.gas,
        }
    }
}

/// The value of a notice that may be absent.
pub open spec fn notice_view(n: Option<ApprovalNotice>) -> Option<ApprovalNoticeView> {
    match n {
        Some(n) => Some(n@),
        None => None,
    }
}

/// What an approval hands back: the part of the payment that is given
/// back, and the notice for the delegate where the owner asked for one.
pub struct ApprovalOutcome {
    pub refund: Option<Payment>,
    pub notice: Option<ApprovalNotice>,
}

impl TokenView {
    /// The token with its approvals replaced.
    pub open spec fn with_approvals(self, approved: Seq<(Name, u64)>) -> TokenView {
        TokenView { approved_account_ids: approved, ..self }
    }

    /// The token after `account` was approved: it holds the id that was
    /// next, and the next id is one more.
    pub open spec fn approving(self, account: Name) -> TokenView {
        TokenView {
            approved_account_ids: entries_with(
                self.approved_account_ids,
                account,
                self.next_approval_id,
            ),
            next_approval_id: (self.next_approval_id + 1) as u64,
            ..self
        }
    }

    /// The bytes that approving `account` adds: those of one approval where
    /// the account holds none yet.
    pub open spec fn approval_growth(self, account: Name) -> nat {
        if key_seq(self.approved_account_ids).contains(account) {
            0
        } else {
            approval_bytes(account)
        }
    }
}

impl RegistryView {
    /// The registry with token `token_id` replaced.
    pub open spec fn with_token(self, token_id: Name, token: TokenView) -> RegistryView {
        RegistryView { tokens: self.tokens.insert(token_id, token), ..self }
    }

    /// Why `ctx` may not approve `account` on token `token_id`, if it may
    /// not.
    pub open spec fn approve_error(
        self,
        ctx: &CallContext,
        token_id: Name,
        account: Name,
        notify: bool,
    ) -> Option<ContractError> {
        if ctx.attached_deposit < 1 {
            Some(ContractError::InsufficientPayment)
        } else if !self.tokens.contains_key(token_id) {
            Some(ContractError::NoSuchToken)
        } else if ctx.predecessor_account_id@ != self.tokens[token_id].owner_id {
            Some(ContractError::NotOwner)
        } else if self.tokens[token_id].next_approval_id == u64::MAX {
            Some(ContractError::ApprovalIdsExhausted)
        } else if storage_cost(self.tokens[token_id].approval_growth(account))
            > ctx.attached_deposit {
            Some(ContractError::InsufficientPayment)
        } else if notify && ctx.prepaid_gas < GAS_FOR_NFT_APPROVE {
            Some(ContractError::InsufficientGas)
        } else {
            None
        }
    }

    /// Why `ctx` may not take back approvals on token `token_id`, if it
    /// may not.
    pub open spec fn revoke_error(self, ctx: &CallContext, token_id: Name) -> Option<
        ContractError,
    > {
        if ctx.attached_deposit != 1 {
            Some(ContractError::OneYoctoRequired)
        } else if !self.tokens.contains_key(token_id) {
            Some(ContractError::NoSuchToken)
        } else if ctx.predecessor_account_id@ != self.tokens[token_id].owner_id {
            Some(ContractError::NotOwner)
        } else {
            None
        }
    }

    /// Whether `account` is approved on token `token_id`, and under
    /// `approval_id` where one is given.
    pub open spec fn is_approved(self, token_id: Name, account: Name, approval_id: Option<u64>)
        -> bool {
        let approved = entries_map(self.tokens[token_id].approved_account_ids);
        approved.contains_key(account) && (approval_id is Some ==> approved[account]
            == approval_id->0)
    }
}

/// What the owner gets back when the approval of `account` is taken back.
pub open spec fn revoke_refund(owner: Name, approved: Seq<(Name, u64)>, account: Name) -> Option<
    (Name, u128),
> {
    if key_seq(approved).contains(account) {
        Some((owner, capped(storage_cost(approval_bytes(account)))))
    } else {
        None
    }
}

/// What the owner gets back when all approvals are taken back.
pub open spec fn revoke_all_refund(owner: Name, approved: Seq<(Name, u64)>) -> Option<
    (Name, u128),
> {
    if approved.len() > 0 {
        Some((owner, approvals_refund(approved)))
    } else {
        None
    }
}

/// Replacing a token by one of the same owner keeps the registry well
/// formed.
pub proof fn lemma_with_token_wf(v: RegistryView, token_id: Name, token: TokenView)
    requires
        v.wf(),
        v.tokens.contains_key(token_id),
        token.wf(),
        token.owner_id == v.tokens[token_id].owner_id,
    ensures
        v.with_token(token_id, token).wf(),
{
    let w = v.with_token(token_id, token);
    assert forall|o: Name, t: Name|
        crate::names::index_has(w.tokens_per_owner, o, t) <==> (w.tokens.contains_key(t)
            && w.tokens[t].owner_id == o) by {
        assert(crate::names::index_has(v.tokens_per_owner, o, t) <==> (v.tokens.contains_key(t)
            && v.tokens[t].owner_id == o));
    }
    assert forall|t: Name| #[trigger] w.tokens.contains_key(t) implies w.tokens[t].wf() by {
        if t != token_id {
            assert(v.tokens.contains_key(t));
        }
    }
    assert forall|t: Name| w.metadata.contains_key(t) <==> w.tokens.contains_key(t) by {
        assert(v.metadata.contains_key(t) <==> v.tokens.contains_key(t));
    }
}

/// The approvals of the registry.
pub trait ApprovalNonFungibleTokenCore: RegistryState {
    /// Approves `account_id` to transfer token `token_id`. Only the owner
    /// may do so. The approval gets the next id of the token. The payment
    /// attached covers the storage of a new approval; the rest is given
    /// back. With a `msg` the delegate is told.
    fn nft_approve(
        &mut self,
        ctx: &CallContext,
        token_id: String,
        account_id: String,
        msg: Option<String>,
    ) -> (r: Result<ApprovalOutcome, ContractError>)
        requires
            old(self).valid(),
        ensures
            final(self).valid(),
            match r {
                Ok(out) => {
                    let v = old(self).registry();
                    let before = v.tokens[token_id@];
                    &&& v.approve_error(ctx, token_id@, account_id@, msg is Some) is None
                    &&& final(self).registry() == v.with_token(
                        token_id@,
                        before.approving(account_id@),
                    )
                    &&& payment_view(out.refund) == deposit_refund(
                        ctx.predecessor_account_id@,
                        before.approval_growth(account_id@),
                        ctx.attached_deposit,
                    )
                    &&& notice_view(out.notice) == (match msg {
                        Some(m) => Some(
                            ApprovalNoticeView {
                                receiver_id: account_id@,
                                token_id: token_id@,
                                owner_id: before.owner_id,
                                approval_id: before.next_approval_id,
                                msg: m@,
                                gas: (ctx.prepaid_gas - GAS_FOR_NFT_APPROVE) as u64,
                            },
                        ),
                        None => None,
                    })
                },
                Err(e) => {
                    &&& old(self).registry().approve_error(
                        ctx,
                        token_id@,
                        account_id@,
                        msg is Some,
                    ) == Some(e)
                    &&& *final(self) == *old(self)
                },
            },
    ;

    /// Whether `approved_account_id` is approved on token `token_id`, and
    /// under `approval_id` where one is given.
    fn nft_is_approved(
        &self,
        token_id: String,
        approved_account_id: String,
        approval_id: Option<u64>,
    ) -> (r: Result<bool, ContractError>)
        requires
            self.valid(),
        ensures
            match r {
                Ok(b) => self.registry().tokens.contains_key(token_id@) && b
                    == self.registry().is_approved(
                    token_id@,
                    approved_account_id@,
                    approval_id,
                ),
                Err(e) => !self.registry().tokens.contains_key(token_id@) && e
                    == ContractError::NoSuchToken,
            },
    ;

    /// Takes back the approval of `account_id` on token `token_id`. Only
    /// the owner may do so, with one unit of payment attached. What the
    /// approval cost to keep is given back.
    fn nft_revoke(&mut self, ctx: &CallContext, token_id: String, account_id: String) -> (r:
        Result<Option<Payment>, ContractError>)
        requires
            old(self).valid(),
        ensures
            final(self).valid(),
            match r {
                Ok(refund) => {
                    let v = old(self).registry();
                    let before = v.tokens[token_id@];
                    &&& v.revoke_error(ctx, token_id@) is None
                    &&& final(self).registry() == v.with_token(
                        token_id@,
                        before.with_approvals(
                            entries_without(before.approved_account_ids, account_id@),
                        ),
                    )
                    &&& payment_view(refund) == revoke_refund(
                        before.owner_id,
                        before.approved_account_ids,
                        account_id@,
                    )
                },
                Err(e) => {
                    &&& old(self).registry().revoke_error(ctx, token_id@) == Some(e)
                    &&& *final(self) == *old(self)
                },
            },
    ;

    /// Takes back all approvals on token `token_id`. Only the owner may do
    /// so, with one unit of payment attached. What the approvals cost to
    /// keep is given back.
    fn nft_revoke_all(&mut self, ctx: &CallContext, token_id: String) -> (r: Result<
        Option<Payment>,
        ContractError,
    >)
        requires
            old(self).valid(),
        ensures
            final(self).valid(),
            match r {
                Ok(refund) => {
                    let v = old(self).registry();
                    let before = v.tokens[token_id@];
                    &&& v.revoke_error(ctx, token_id@) is None
                    &&& final(self).registry() == v.with_token(
                        token_id@,
                        before.with_approvals(Seq::empty()),
                    )
                    &&& payment_view(refund) == revoke_all_refund(
                        before.owner_id,
                        before.approved_account_ids,
                    )
                },
                Err(e) => {
                    &&& old(self).registry().revoke_error(ctx, token_id@) == Some(e)
                    &&& *final(self) == *old(self)
                },
            },
    ;
}

impl Contract {
    /// Puts `token` in the place of the token of id `token_id`, which has
    /// the same owner.
    pub(crate) fn internal_replace_token(&mut self, token_id: &String, token: Token)
        requires
            old(self).wf(),
            old(self)@.tokens.contains_key(token_id@),
            token.wf(),
            token.owner_id@ == old(self)@.tokens[token_id@].owner_id,
        ensures
            final(self).wf(),
            final(self)@ == old(self)@.with_token(token_id@, token@),
            final(self).owner_id == old(self).owner_id,
            final(self).metadata == old(self).metadata,
    {
        let ghost before = self@;
        let ghost table = self.tokens_by_id@;
        proof {
            lemma_with_token_wf(before, token_id@, token@);
        }
        self.tokens_by_id.insert(token_id.duplicate(), token);
        proof {
            assert(self@.tokens =~= before.with_token(token_id@, token@).tokens);
            assert(self@.metadata =~= before.metadata);
            assert forall|t: Name| #[trigger]
                self.tokens_by_id@.contains_key(t) implies self.tokens_by_id@[t].wf() by {
                if t != token_id@ {
                    assert(table.contains_key(t));
                }
            }
        }
    }
}

impl ApprovalNonFungibleTokenCore for Contract {
    fn nft_approve(
        &mut self,
        ctx: &CallContext,
        token_id: String,
        account_id: String,
        msg: Option<String>,
    ) -> (r: Result<ApprovalOutcome, ContractError>)
        ensures
            r is Ok ==> final(self).owner_id == old(self).owner_id && final(self).metadata == old(
                self,
            ).metadata,
    {
        if ctx.attached_deposit < 1 {
            return Err(ContractError::InsufficientPayment);
        }
        let mut token = match self.token(&token_id) {
            None => {
                return Err(ContractError::NoSuchToken);
            },
            Some(token) => token.duplicate(),
        };
        if !ctx.predecessor_account_id.same(&token.owner_id) {
            return Err(ContractError::NotOwner);
        }
        let approval_id: u64 = token.next_approval_id;
        if approval_id == u64::MAX {
            return Err(ContractError::ApprovalIdsExhausted);
        }
        let storage_used: u128 = if token.approved_account_ids.contains_key(&account_id) {
            0
        } else {
            bytes_for_approved_account_id(&account_id)
        };
        let refund = match refund_deposit(ctx, storage_used) {
            Err(e) => {
                return Err(e);
            },
            Ok(refund) => refund,
        };
        let notice = match msg {
            None => None,
            Some(m) => {
                if ctx.prepaid_gas < GAS_FOR_NFT_APPROVE {
                    return Err(ContractError::InsufficientGas);
                }
                Some(
                    ApprovalNotice {
                        receiver_id: account_id.duplicate(),
                        token_id: token_id.duplicate(),
                        owner_id: token.owner_id.duplicate(),
                        approval_id,
                        msg: m,
                        gas: ctx.prepaid_gas - GAS_FOR_NFT_APPROVE,
                    },
                )
            },
        };
        proof {
            lemma_entries_with(token.approved_account_ids.entries(), account_id@, approval_id);
        }
        token.approved_account_ids.insert(account_id, approval_id);
        token.next_approval_id = approval_id + 1;
        self.internal_replace_token(&token_id, token);
        Ok(ApprovalOutcome { refund, notice })
    }

    fn nft_is_approved(
        &self,
        token_id: String,
        approved_account_id: String,
        approval_id: Option<u64>,
    ) -> (r: Result<bool, ContractError>) {
        match self.token(&token_id) {
            None => Err(ContractError::NoSuchToken),
            Some(token) => {
                match token.approved_account_ids.get(&approved_account_id) {
                    None => Ok(false),
                    Some(actual) => {
                        match approval_id {
                            Some(wanted) => Ok(*actual == wanted),
                            None => Ok(true),
                        }
                    },
                }
            },
        }
    }

    fn nft_revoke(&mut self, ctx: &CallContext, token_id: String, account_id: String) -> (r:
        Result<Option<Payment>, ContractError>)
        ensures
            r is Ok ==> final(self).owner_id == old(self).owner_id && final(self).metadata == old(
                self,
            ).metadata,
    {
        match assert_one_yocto(ctx) {
            Err(e) => {
                return Err(e);
            },
            Ok(_) => {},
        }
        let mut token = match self.token(&token_id) {
            None => {
                return Err(ContractError::NoSuchToken);
            },
            Some(token) => token.duplicate(),
        };
        if !ctx.predecessor_account_id.same(&token.owner_id) {
            return Err(ContractError::NotOwner);
        }
        proof {
            lemma_entries_without(token.approved_account_ids.entries(), account_id@);
        }
        let refund = match token.approved_account_ids.remove(&account_id) {
            None => None,
            Some(_) => {
                let bytes: u128 = bytes_for_approved_account_id(&account_id);
                let amount: u128 = match bytes.checked_mul(STORAGE_PRICE_PER_BYTE) {
                    Some(cost) => cost,
                    None => u128::MAX,
                };
                Some(Payment { receiver_id: ctx.predecessor_account_id.duplicate(), amount })
            },
        };
        self.internal_replace_token(&token_id, token);
        Ok(refund)
    }

    fn nft_revoke_all(&mut self, ctx: &CallContext, token_id: String) -> (r: Result<
        Option<Payment>,
        ContractError,
    >)
        ensures
            r is Ok ==> final(self).owner_id == old(self).owner_id && final(self).metadata == old(
                self,
            ).metadata,
    {
        match assert_one_yocto(ctx) {
            Err(e) => {
                return Err(e);
            },
            Ok(_) => {},
        }
        let mut token = match self.token(&token_id) {
            None => {
                return Err(ContractError::NoSuchToken);
            },
            Some(token) => token.duplicate(),
        };
        if !ctx.predecessor_account_id.same(&token.owner_id) {
            return Err(ContractError::NotOwner);
        }
        let refund = if token.approved_account_ids.len() > 0 {
            Some(
                refund_approved_account_ids(
                    &ctx.predecessor_account_id,
                    &token.approved_account_ids,
                ),
            )
        } else {
            None
        };
        token.approved_account_ids = Table::new();
        self.internal_replace_token(&token_id, token);
        Ok(refund)
    }
}

} // verus!
