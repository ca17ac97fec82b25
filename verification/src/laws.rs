//! What holds of the registry and of the marketplace whatever is called in
//! whatever order.

use crate::errors::ContractError;
use crate::market::MarketView;
use crate::names::{entries_map, index_has, key_seq, lemma_entries_with, Name};
use crate::nft_core::ResolveContextView;
use crate::registry::{lemma_with_owner_wf, RegistryView};
use crate::royalty::total_paid;
use crate::sale::settlement;
use vstd::prelude::*;

verus! {

/// In a well-formed registry the owner of a token is listed among the
/// owners, the token is among that account's tokens, and it is among the
/// tokens of no other account.
pub proof fn lemma_token_listed_under_owner_only(v: RegistryView, token_id: Name)
    requires
        v.wf(),
        v.tokens.contains_key(token_id),
    ensures
        v.tokens_per_owner.contains_key(v.tokens[token_id].owner_id),
        v.tokens_per_owner[v.tokens[token_id].owner_id].contains(token_id),
        forall|o: Name|
            o != v.tokens[token_id].owner_id && #[trigger] v.tokens_per_owner.contains_key(o)
                ==> !v.tokens_per_owner[o].contains(token_id),
{
    let owner = v.tokens[token_id].owner_id;
    assert(index_has(v.tokens_per_owner, owner, token_id));
    assert forall|o: Name|
        o != owner && #[trigger] v.tokens_per_owner.contains_key(o)
            implies !v.tokens_per_owner[o].contains(token_id) by {
        assert(!index_has(v.tokens_per_owner, o, token_id));
    }
}

/// A sender other than the owner who names an approval id that it does not
/// hold on the token is refused as unauthorized, whoever the receiver is.
pub proof fn lemma_stale_approval_refused(
    v: RegistryView,
    sender: Name,
    receiver: Name,
    token_id: Name,
    approval_id: u64,
)
    requires
        v.tokens.contains_key(token_id),
        sender != v.tokens[token_id].owner_id,
        !entries_map(v.tokens[token_id].approved_account_ids).contains_key(sender) || entries_map(
            v.tokens[token_id].approved_account_ids,
        )[sender] != approval_id,
    ensures
        v.transfer_error(sender, receiver, token_id, Some(approval_id)) == Some(
            ContractError::Unauthorized,
        ),
{
}

/// A transfer leaves no delegate on the token, so every sender other than
/// the new owner is refused afterwards, whatever approval id it names.
pub proof fn lemma_transfer_ends_approvals(
    v: RegistryView,
    token_id: Name,
    to: Name,
    sender: Name,
    receiver: Name,
    approval_id: Option<u64>,
)
    requires
        v.tokens.contains_key(token_id),
        sender != to,
    ensures
        v.transferred(token_id, to).transfer_error(sender, receiver, token_id, approval_id)
            == Some(ContractError::Unauthorized),
{
    let w = v.transferred(token_id, to);
    assert(key_seq(w.tokens[token_id].approved_account_ids) =~= Seq::<Name>::empty());
    assert(!key_seq(w.tokens[token_id].approved_account_ids).contains(sender));
}

/// An approval gets the id that was next on the token, and the next id is
/// one more afterwards; neither a transfer nor taking approvals back
/// lowers it, so no id is handed out twice.
pub proof fn lemma_approval_ids_rise(
    v: RegistryView,
    token_id: Name,
    account: Name,
    to: Name,
    approved: Seq<(Name, u64)>,
)
    requires
        v.wf(),
        v.tokens.contains_key(token_id),
        v.tokens[token_id].next_approval_id < u64::MAX,
    ensures
        ({
            let token = v.tokens[token_id];
            let after = token.approving(account);
            &&& entries_map(after.approved_account_ids).contains_key(account)
            &&& entries_map(after.approved_account_ids)[account] == token.next_approval_id
            &&& after.next_approval_id == token.next_approval_id + 1
            &&& token.with_approvals(approved).next_approval_id == token.next_approval_id
            &&& v.with_owner(token_id, to, approved).tokens[token_id].next_approval_id
                == token.next_approval_id
        }),
{
    let token = v.tokens[token_id];
    lemma_entries_with(token.approved_account_ids, account, token.next_approval_id);
}

/// The owner of the token after the settling step: the owner from before
/// the transfer where the token goes back, and else the owner that the
/// step found.
pub proof fn lemma_resolved_owner(
    v: RegistryView,
    context: ResolveContextView,
    verdict: Option<bool>,
)
    requires
        v.tokens.contains_key(context.token_id),
    ensures
        v.resolved(context, verdict).tokens.contains_key(context.token_id),
        v.resolved(context, verdict).tokens[context.token_id].owner_id == (if v.returns_token(
            context,
            verdict,
        ) {
            context.owner_id
        } else {
            v.tokens[context.token_id].owner_id
        }),
{
}

/// Where the notice of a transfer fails, or the receiver asks for the
/// token to go back, and nothing happened to the token in between, the
/// settling step restores the tokens of the registry as they were before
/// the transfer: owner, approvals and all; and each account has the tokens
/// that it had.
pub proof fn lemma_failed_notice_restores_owner(
    v: RegistryView,
    token_id: Name,
    receiver: Name,
    authorized_id: Option<Name>,
    memo: Option<Name>,
    verdict: Option<bool>,
)
    requires
        v.wf(),
        v.tokens.contains_key(token_id),
        verdict != Some(false),
    ensures
        ({
            let before = v.tokens[token_id];
            let context = ResolveContextView {
                authorized_id,
                owner_id: before.owner_id,
                receiver_id: receiver,
                token_id,
                approved_account_ids: before.approved_account_ids,
                memo,
            };
            let after = v.transferred(token_id, receiver).resolved(context, verdict);
            &&& after.wf()
            &&& after.tokens == v.tokens
            &&& after.metadata == v.metadata
            &&& forall|o: Name, t: Name|
                index_has(after.tokens_per_owner, o, t) <==> index_has(v.tokens_per_owner, o, t)
        }),
{
    let before = v.tokens[token_id];
    let context = ResolveContextView {
        authorized_id,
        owner_id: before.owner_id,
        receiver_id: receiver,
        token_id,
        approved_account_ids: before.approved_account_ids,
        memo,
    };
    let sent = v.transferred(token_id, receiver);
    assert(key_seq(Seq::<(Name, u64)>::empty()) =~= Seq::<Name>::empty());
    lemma_with_owner_wf(v, token_id, receiver, Seq::empty());
    assert(sent.returns_token(context, verdict));
    lemma_with_owner_wf(sent, token_id, before.owner_id, before.approved_account_ids);
    let after = sent.resolved(context, verdict);
    assert(after.tokens =~= v.tokens);
    assert forall|o: Name, t: Name|
        index_has(after.tokens_per_owner, o, t) <==> index_has(v.tokens_per_owner, o, t) by {
        assert(index_has(after.tokens_per_owner, o, t) <==> (after.tokens.contains_key(t)
            && after.tokens[t].owner_id == o));
        assert(index_has(v.tokens_per_owner, o, t) <==> (v.tokens.contains_key(t)
            && v.tokens[t].owner_id == o));
    }
}

/// Where the token is no longer the receiver's when the settling step
/// runs, the step changes nothing, whatever the notice came to: a later
/// owner keeps the token.
pub proof fn lemma_later_owner_keeps_token(
    v: RegistryView,
    context: ResolveContextView,
    verdict: Option<bool>,
)
    requires
        v.tokens.contains_key(context.token_id) ==> v.tokens[context.token_id].owner_id
            != context.receiver_id,
    ensures
        v.resolved(context, verdict) == v,
{
}

/// After a transfer to `receiver` and a second one to `third`, another
/// account, the settling step of the first leaves the token with `third`.
pub proof fn lemma_second_transfer_survives(
    v: RegistryView,
    token_id: Name,
    receiver: Name,
    third: Name,
    context: ResolveContextView,
    verdict: Option<bool>,
)
    requires
        v.tokens.contains_key(token_id),
        context.token_id == token_id,
        context.receiver_id == receiver,
        third != receiver,
    ensures
        ({
            let later = v.transferred(token_id, receiver).transferred(token_id, third);
            later.resolved(context, verdict) == later && later.tokens[token_id].owner_id == third
        }),
{
}

/// In a well-formed marketplace a listing is among the listings of its
/// owner and of no other account, and its token is among the listed tokens
/// of its registry.
pub proof fn lemma_listing_indexed(v: MarketView, key: (Name, Name))
    requires
        v.wf(),
        v.sales.contains_key(key),
    ensures
        index_has(v.by_owner_id, v.sales[key].owner_id, key),
        forall|o: Name| o != v.sales[key].owner_id ==> !index_has(v.by_owner_id, o, key),
        index_has(v.by_nft_contract_id, key.0, key.1),
{
}

/// In a well-formed marketplace what is among the listings of an account
/// or among the listed tokens of a registry is listed.
pub proof fn lemma_indexed_is_listed(v: MarketView, owner: Name, key: (Name, Name))
    requires
        v.wf(),
        index_has(v.by_owner_id, owner, key) || index_has(v.by_nft_contract_id, key.0, key.1),
    ensures
        v.sales.contains_key(key),
{
}

/// In a well-formed marketplace each account has prepaid the storage of
/// its listings.
pub proof fn lemma_storage_prepaid(v: MarketView, account: Name)
    requires
        v.wf(),
    ensures
        v.storage_in_use(account) <= v.balance_of(account),
{
    if !v.by_owner_id.contains_key(account) {
        assert(v.storage_in_use(account) == 0);
    }
}

/// A split whose sum is more than one unit off the price is not paid out:
/// the buyer gets the price back, and nobody else gets anything.
pub proof fn lemma_faulty_split_refunds(buyer: Name, price: u128, payout: Seq<(Name, u128)>)
    requires
        total_paid(payout) > price + 1 || total_paid(payout) < price - 1,
    ensures
        settlement(buyer, price, Some(payout)) == seq![(buyer, price)],
{
}

/// A split of one to ten recipients whose sum is the price or one unit off
/// is paid out as it is, entry by entry.
pub proof fn lemma_sound_split_paid_out(buyer: Name, price: u128, payout: Seq<(Name, u128)>)
    requires
        0 < payout.len() <= 10,
        price - 1 <= total_paid(payout) <= price + 1,
    ensures
        settlement(buyer, price, Some(payout)) == payout,
{
}

/// Without a split the buyer gets the price back.
pub proof fn lemma_no_split_refunds(buyer: Name, price: u128)
    ensures
        settlement(buyer, price, None) == seq![(buyer, price)],
{
}

} // verus!
