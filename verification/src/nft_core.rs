//! Transfers: the plain one, the one that notifies the receiver and can be
//! taken back, and the step that settles the latter once the receiver has
//! answered.

use crate::context::{CallContext, Payment, PromiseOutcome};
use crate::errors::ContractError;
use crate::events::{EventLog, NftTransferLog, NftTransferLogView};
use crate::json::{decode_bool, json_bool};
use crate::metadata::{json_token, JsonToken, JsonTokenView};
use crate::names::{duplicate_optional, optional_name, Key, Name, Table};
use crate::registry::{Contract, RegistryState, RegistryView};
use crate::rent::{approvals_refund, assert_one_yocto, refund_approved_account_ids};
use vstd::prelude::*;

verus! {

/// The execution budget of the step that settles a notified transfer.
pub const GAS_FOR_RESOLVE_TRANSFER: u64 = 10_000_000_000_000;

/// The execution budget that a notified transfer keeps for itself and for
/// the step that settles it.
pub const GAS_FOR_NFT_TRANSFER_CALL: u64 = 15_000_000_000_000;

/// The least execution budget that a notified transfer has to come with.
pub const MIN_GAS_FOR_NFT_TRANSFER_CALL: u64 = 100_000_000_000_000;

/// What a transfer hands back: the payment that gives the previous owner
/// back what the cleared approvals cost to keep, and the report.
pub struct TransferOutcome {
    pub refund: Payment,
    pub log: EventLog,
}

/// The message that tells the receiver of a transfer about it.
pub struct TransferNotice {
    /// The account to tell.
    pub receiver_id: String,
    pub sender_id: String,
    pub previous_owner_id: String,
    pub token_id: String,
    pub msg: String,
    /// The execution budget of the message.
    pub gas: u64,
}

/// The value of a notice.
pub struct TransferNoticeView {
    pub receiver_id: Name,
    pub sender_id: Name,
    pub previous_owner_id: Name,
    pub token_id: Name,
    pub msg: Name,
    pub gas: u64,
}

impl View for TransferNotice {
    type V = TransferNoticeView;

    open spec fn view(&self) -> TransferNoticeView {
        TransferNoticeView {
            receiver_id: self.receiver_id@,
            sender_id: self.sender_id@,
            previous_owner_id: self.previous_owner_id@,
            token_id: self.token_id@,
            msg: self.msg@,
            gas: self.gas,
        }
    }
}

/// What the settling step is told about the transfer that it settles. It is
/// written down when the transfer is made and handed to the step as it is.
pub struct ResolveContext {
    /// The delegate that made the transfer, if the owner did not.
    pub authorized_id: Option<String>,
    /// The owner before the transfer.
    pub owner_id: String,
    pub receiver_id: String,
    pub token_id: String,
    /// The approvals before the transfer.
    pub approved_account_ids: Table<String, u64>,
    pub memo: Option<String>,
}

/// The value of what the settling step is told.
pub struct ResolveContextView {
    pub authorized_id: Option<Name>,
    pub owner_id: Name,
    pub receiver_id: Name,
    pub token_id: Name,
    pub approved_account_ids: Seq<(Name, u64)>,
    pub memo: Option<Name>,
}

impl View for ResolveContext {
    type V = ResolveContextView;

    open spec fn view(&self) -> ResolveContextView {
        ResolveContextView {
            authorized_id: optional_name(self.authorized_id),
            owner_id: self.owner_id@,
            receiver_id: self.receiver_id@,
            token_id: self.token_id@,
            approved_account_ids: self.approved_account_ids.entries(),
            memo: optional_name(self.memo),
        }
    }
}

/// A transfer that waits for the receiver's answer: the notice to send,
/// what to hand to the settling step once the answer is there, that step's
/// execution budget, and the report of the transfer.
pub struct PendingTransfer {
    pub notice: TransferNotice,
    pub resolve: ResolveContext,
    pub resolve_gas: u64,
    pub log: EventLog,
}

/// What the settling step hands back: whether the transfer stands, the
/// payment that gives back what approvals cost to keep, and the report of
/// the return where the token went back.
pub struct ResolveOutcome {
    pub kept: bool,
    pub refund: Payment,
    pub log: Option<EventLog>,
}

/// The delegate that acted, if the sender is not the owner.
pub open spec fn authorized(sender: Name, owner: Name) -> Option<Name> {
    if sender != owner {
        Some(sender)
    } else {
        None
    }
}

/// The report of the transfer of one token.
pub open spec fn transfer_report(
    authorized_id: Option<Name>,
    old_owner: Name,
    new_owner: Name,
    token_id: Name,
    memo: Option<Name>,
) -> NftTransferLogView {
    NftTransferLogView {
        authorized_id,
        old_owner_id: old_owner,
        new_owner_id: new_owner,
        token_ids: seq![token_id],
        memo,
    }
}

/// Why a plain transfer fails, if it fails: it comes with a payment other
/// than one unit, or the sender may not make it.
pub open spec fn nft_transfer_error(
    v: RegistryView,
    ctx: &CallContext,
    receiver: Name,
    token_id: Name,
    approval_id: Option<u64>,
) -> Option<ContractError> {
    if ctx.attached_deposit != 1 {
        Some(ContractError::OneYoctoRequired)
    } else {
        v.transfer_error(ctx.predecessor_account_id@, receiver, token_id, approval_id)
    }
}

/// Why a notified transfer fails, if it fails: as a plain one, or for want
/// of the execution budget that the notice and the settling step take.
pub open spec fn nft_transfer_call_error(
    v: RegistryView,
    ctx: &CallContext,
    receiver: Name,
    token_id: Name,
    approval_id: Option<u64>,
) -> Option<ContractError> {
    if ctx.attached_deposit != 1 {
        Some(ContractError::OneYoctoRequired)
    } else if ctx.prepaid_gas < MIN_GAS_FOR_NFT_TRANSFER_CALL {
        Some(ContractError::InsufficientGas)
    } else {
        v.transfer_error(ctx.predecessor_account_id@, receiver, token_id, approval_id)
    }
}

/// What the receiver of a notified transfer answered: whether it wants the
/// token to go back. Nothing where the notice failed or the answer is no
/// truth value.
pub open spec fn verdict_of(outcome: PromiseOutcome) -> Option<bool> {
    match outcome {
        PromiseOutcome::Failed => None,
        PromiseOutcome::Successful(bytes) => json_bool(bytes@),
    }
}

impl RegistryView {
    /// Whether the settling step gives the token back: the receiver did not
    /// answer that it keeps it, and it still owns it.
    pub open spec fn returns_token(self, context: ResolveContextView, verdict: Option<bool>)
        -> bool {
        &&& verdict != Some(false)
        &&& self.tokens.contains_key(context.token_id)
        &&& self.tokens[context.token_id].owner_id == context.receiver_id
    }

    /// The registry after the settling step: where the token goes back, the
    /// owner and the approvals are those from before the transfer; else
    /// nothing changes.
    pub open spec fn resolved(self, context: ResolveContextView, verdict: Option<bool>)
        -> RegistryView {
        if self.returns_token(context, verdict) {
            self.with_owner(context.token_id, context.owner_id, context.approved_account_ids)
        } else {
            self
        }
    }

    /// The payment of the settling step: where the token goes back, the
    /// receiver gets back what its own approvals cost; else the previous
    /// owner gets back what the approvals from before the transfer cost.
    pub open spec fn resolve_refund(self, context: ResolveContextView, verdict: Option<bool>) -> (
        Name,
        u128,
    ) {
        if self.returns_token(context, verdict) {
            (
                context.receiver_id,
                approvals_refund(self.tokens[context.token_id].approved_account_ids),
            )
        } else {
            (context.owner_id, approvals_refund(context.approved_account_ids))
        }
    }

    /// How the registry shows token `token_id`, if it has it.
    pub open spec fn shown(self, token_id: Name) -> Option<JsonTokenView> {
        if self.tokens.contains_key(token_id) {
            Some(json_token(token_id, self.tokens[token_id], self.metadata[token_id]))
        } else {
            None
        }
    }
}

/// The value of a shown token that may be absent.
pub open spec fn shown_view(t: Option<JsonToken>) -> Option<JsonTokenView> {
    match t {
        Some(t) => Some(t@),
        None => None,
    }
}

/// The report of a transfer.
pub fn transfer_log(
    authorized_id: Option<String>,
    old_owner_id: &String,
    new_owner_id: &String,
    token_id: &String,
    memo: Option<String>,
) -> (e: EventLog)
    ensures
        e.reports_transfer(
            transfer_report(
                optional_name(authorized_id),
                old_owner_id@,
                new_owner_id@,
                token_id@,
                optional_name(memo),
            ),
        ),
{
    let mut token_ids: Vec<String> = Vec::new();
    token_ids.push(token_id.duplicate());
    let log = NftTransferLog {
        authorized_id,
        old_owner_id: old_owner_id.duplicate(),
        new_owner_id: new_owner_id.duplicate(),
        token_ids,
        memo,
    };
    assert(log@.token_ids =~= seq![token_id@]);
    EventLog::nft_transfer(log)
}

/// The delegate that acted, if `sender_id` is not `owner_id`.
pub fn authorized_id(sender_id: &String, owner_id: &String) -> (r: Option<String>)
    ensures
        optional_name(r) == authorized(sender_id@, owner_id@),
{
    if sender_id.same(owner_id) {
        None
    } else {
        Some(sender_id.duplicate())
    }
}

/// The transfers of the registry.
pub trait CoreNonFungibleToken: RegistryState {
    /// The token of id `token_id` with its description.
    fn nft_token(&self, token_id: String) -> (r: Option<JsonToken>)
        requires
            self.valid(),
        ensures
            shown_view(r) == self.registry().shown(token_id@),
    ;

    /// Transfers token `token_id` to `receiver_id`. The caller is the owner
    /// or a delegate of the owner, and attaches one unit of payment. The
    /// transfer clears the approvals on the token.
    fn nft_transfer(
        &mut self,
        ctx: &CallContext,
        receiver_id: String,
        token_id: String,
        approval_id: Option<u64>,
        memo: Option<String>,
    ) -> (r: Result<TransferOutcome, ContractError>)
        requires
            old(self).valid(),
        ensures
            final(self).valid(),
            match r {
                Ok(out) => {
                    let before = old(self).registry().tokens[token_id@];
                    &&& nft_transfer_error(
                        old(self).registry(),
                        ctx,
                        receiver_id@,
                        token_id@,
                        approval_id,
                    ) is None
                    &&& final(self).registry() == old(self).registry().transferred(
                        token_id@,
                        receiver_id@,
                    )
                    &&& out.refund@ == (
                        before.owner_id,
                        approvals_refund(before.approved_account_ids),
                    )
                    &&& out.log.reports_transfer(
                        transfer_report(
                            authorized(ctx.predecessor_account_id@, before.owner_id),
                            before.owner_id,
                            receiver_id@,
                            token_id@,
                            optional_name(memo),
                        ),
                    )
                },
                Err(e) => {
                    &&& nft_transfer_error(
                        old(self).registry(),
                        ctx,
                        receiver_id@,
                        token_id@,
                        approval_id,
                    ) == Some(e)
                    &&& *final(self) == *old(self)
                },
            },
    ;

    /// Transfers token `token_id` to `receiver_id` as `nft_transfer` does,
    /// and hands back the notice for the receiver and what the settling
    /// step needs to take the transfer back.
    fn nft_transfer_call(
        &mut self,
        ctx: &CallContext,
        receiver_id: String,
        token_id: String,
        approval_id: Option<u64>,
        memo: Option<String>,
        msg: String,
    ) -> (r: Result<PendingTransfer, ContractError>)
        requires
            old(self).valid(),
        ensures
            final(self).valid(),
            match r {
                Ok(out) => {
                    let before = old(self).registry().tokens[token_id@];
                    let delegate = authorized(ctx.predecessor_account_id@, before.owner_id);
                    &&& nft_transfer_call_error(
                        old(self).registry(),
                        ctx,
                        receiver_id@,
                        token_id@,
                        approval_id,
                    ) is None
                    &&& final(self).registry() == old(self).registry().transferred(
                        token_id@,
                        receiver_id@,
                    )
                    &&& out.notice@ == (TransferNoticeView {
                        receiver_id: receiver_id@,
                        sender_id: ctx.predecessor_account_id@,
                        previous_owner_id: before.owner_id,
                        token_id: token_id@,
                        msg: msg@,
                        gas: (ctx.prepaid_gas - GAS_FOR_NFT_TRANSFER_CALL) as u64,
                    })
                    &&& out.resolve@ == (ResolveContextView {
                        authorized_id: delegate,
                        owner_id: before.owner_id,
                        receiver_id: receiver_id@,
                        token_id: token_id@,
                        approved_account_ids: before.approved_account_ids,
                        memo: optional_name(memo),
                    })
                    &&& out.resolve.approved_account_ids.wf()
                    &&& out.resolve_gas == GAS_FOR_RESOLVE_TRANSFER
                    &&& out.log.reports_transfer(
                        transfer_report(
                            delegate,
                            before.owner_id,
                            receiver_id@,
                            token_id@,
                            optional_name(memo),
                        ),
                    )
                },
                Err(e) => {
                    &&& nft_transfer_call_error(
                        old(self).registry(),
                        ctx,
                        receiver_id@,
                        token_id@,
                        approval_id,
                    ) == Some(e)
                    &&& *final(self) == *old(self)
                },
            },
    ;
}

impl CoreNonFungibleToken for Contract {
    fn nft_token(&self, token_id: String) -> (r: Option<JsonToken>)
        ensures
            r is Some ==> r->0.approved_account_ids.wf() && r->0.royalty.wf(),
    {
        match self.token(&token_id) {
            None => None,
            Some(token) => {
                assert(self@.metadata.contains_key(token_id@));
                assert(self.token_metadata_by_id@.contains_key(token_id@));
                let metadata = self.token_metadata_by_id.get(&token_id).unwrap().duplicate();
                Some(
                    JsonToken {
                        owner_id: token.owner_id.duplicate(),
                        metadata,
                        approved_account_ids: token.approved_account_ids.duplicate(),
                        royalty: token.royalty.duplicate(),
                        token_id,
                    },
                )
            },
        }
    }

    fn nft_transfer(
        &mut self,
        ctx: &CallContext,
        receiver_id: String,
        token_id: String,
        approval_id: Option<u64>,
        memo: Option<String>,
    ) -> (r: Result<TransferOutcome, ContractError>)
        ensures
            r is Ok ==> final(self).owner_id == old(self).owner_id && final(self).metadata == old(
                self,
            ).metadata,
    {
        match assert_one_yocto(ctx) {
            Err(e) => {
                return Err(e);
            },
            Ok(_) => {},
        }
        let sender_id = &ctx.predecessor_account_id;
        match self.internal_transfer(sender_id, &receiver_id, &token_id, approval_id) {
            Err(e) => Err(e),
            Ok(previous) => {
                let refund = refund_approved_account_ids(
                    &previous.owner_id,
                    &previous.approved_account_ids,
                );
                let log = transfer_log(
                    authorized_id(sender_id, &previous.owner_id),
                    &previous.owner_id,
                    &receiver_id,
                    &token_id,
                    memo,
                );
                Ok(TransferOutcome { refund, log })
            },
        }
    }

    fn nft_transfer_call(
        &mut self,
        ctx: &CallContext,
        receiver_id: String,
        token_id: String,
        approval_id: Option<u64>,
        memo: Option<String>,
        msg: String,
    ) -> (r: Result<PendingTransfer, ContractError>)
        ensures
            r is Ok ==> final(self).owner_id == old(self).owner_id && final(self).metadata == old(
                self,
            ).metadata,
    {
        match assert_one_yocto(ctx) {
            Err(e) => {
                return Err(e);
            },
            Ok(_) => {},
        }
        if ctx.prepaid_gas < MIN_GAS_FOR_NFT_TRANSFER_CALL {
            return Err(ContractError::InsufficientGas);
        }
        let sender_id = &ctx.predecessor_account_id;
        match self.internal_transfer(sender_id, &receiver_id, &token_id, approval_id) {
            Err(e) => Err(e),
            Ok(previous) => {
                let log = transfer_log(
                    authorized_id(sender_id, &previous.owner_id),
                    &previous.owner_id,
                    &receiver_id,
                    &token_id,
                    duplicate_optional(&memo),
                );
                let notice = TransferNotice {
                    receiver_id: receiver_id.duplicate(),
                    sender_id: sender_id.duplicate(),
                    previous_owner_id: previous.owner_id.duplicate(),
                    token_id: token_id.duplicate(),
                    msg,
                    gas: ctx.prepaid_gas - GAS_FOR_NFT_TRANSFER_CALL,
                };
                let resolve = ResolveContext {
                    authorized_id: authorized_id(sender_id, &previous.owner_id),
                    owner_id: previous.owner_id,
                    receiver_id,
                    token_id,
                    approved_account_ids: previous.approved_account_ids,
                    memo,
                };
                Ok(
                    PendingTransfer {
                        notice,
                        resolve,
                        resolve_gas: GAS_FOR_RESOLVE_TRANSFER,
                        log,
                    },
                )
            },
        }
    }
}

impl Contract {
    /// Settles a notified transfer on the receiver's answer `verdict`:
    /// whether it wants the token to go back, or nothing where the notice
    /// failed or the answer could not be read. Only the registry itself may
    /// call this. The token goes back unless the receiver answered that it
    /// keeps it, and only while the receiver still owns it.
    pub fn resolve_transfer_with(
        &mut self,
        ctx: &CallContext,
        context: ResolveContext,
        verdict: Option<bool>,
    ) -> (r: Result<ResolveOutcome, ContractError>)
        requires
            old(self).wf(),
            context.approved_account_ids.wf(),
        ensures
            final(self).wf(),
            match r {
                Ok(out) => {
                    &&& ctx.is_self_call()
                    &&& final(self)@ == old(self)@.resolved(context@, verdict)
                    &&& out.kept == !old(self)@.returns_token(context@, verdict)
                    &&& out.refund@ == old(self)@.resolve_refund(context@, verdict)
                    &&& match out.log {
                        Some(log) => !out.kept && log.reports_transfer(
                            transfer_report(
                                context@.authorized_id,
                                context@.receiver_id,
                                context@.owner_id,
                                context@.token_id,
                                context@.memo,
                            ),
                        ),
                        None => out.kept,
                    }
                    &&& final(self).owner_id == old(self).owner_id
                    &&& final(self).metadata == old(self).metadata
                },
                Err(e) => {
                    &&& !ctx.is_self_call()
                    &&& e == ContractError::Unauthorized
                    &&& *final(self) == *old(self)
                },
            },
    {
        if !ctx.from_self() {
            return Err(ContractError::Unauthorized);
        }
        let wants_back = match verdict {
            Some(false) => false,
            _ => true,
        };
        let held = match self.token(&context.token_id) {
            Some(token) => token.owner_id.same(&context.receiver_id),
            None => false,
        };
        if !(wants_back && held) {
            let refund = refund_approved_account_ids(
                &context.owner_id,
                &context.approved_account_ids,
            );
            return Ok(ResolveOutcome { kept: true, refund, log: None });
        }
        let ResolveContext {
            authorized_id,
            owner_id,
            receiver_id,
            token_id,
            approved_account_ids,
            memo,
        } = context;
        let previous = self.internal_change_owner(&token_id, &owner_id, approved_account_ids);
        let refund = refund_approved_account_ids(&receiver_id, &previous.approved_account_ids);
        let log = transfer_log(authorized_id, &receiver_id, &owner_id, &token_id, memo);
        Ok(ResolveOutcome { kept: false, refund, log: Some(log) })
    }

    /// Settles a notified transfer on what came back from the notice: see
    /// `resolve_transfer_with`, which this calls with the answer read from
    /// `outcome`.
    pub fn nft_resolve_transfer(
        &mut self,
        ctx: &CallContext,
        context: ResolveContext,
        outcome: PromiseOutcome,
    ) -> (r: Result<ResolveOutcome, ContractError>)
        requires
            old(self).wf(),
            context.approved_account_ids.wf(),
        ensures
            final(self).wf(),
            match r {
                Ok(out) => {
                    let verdict = verdict_of(outcome);
                    &&& ctx.is_self_call()
                    &&& final(self)@ == old(self)@.resolved(context@, verdict)
                    &&& out.kept == !old(self)@.returns_token(context@, verdict)
                    &&& out.refund@ == old(self)@.resolve_refund(context@, verdict)
                    &&& match out.log {
                        Some(log) => !out.kept && log.reports_transfer(
                            transfer_report(
                                context@.authorized_id,
                                context@.receiver_id,
                                context@.owner_id,
                                context@.token_id,
                                context@.memo,
                            ),
                        ),
                        None => out.kept,
                    }
                    &&& final(self).owner_id == old(self).owner_id
                    &&& final(self).metadata == old(self).metadata
                },
                Err(e) => {
                    &&& !ctx.is_self_call()
                    &&& e == ContractError::Unauthorized
                    &&& *final(self) == *old(self)
                },
            },
    {
        let verdict = match &outcome {
            PromiseOutcome::Failed => None,
            PromiseOutcome::Successful(bytes) => decode_bool(bytes),
        };
        self.resolve_transfer_with(ctx, context, verdict)
    }
}

} // verus!
