//! Minting: a new token enters the registry.

use crate::context::{payment_view, CallContext, Payment};
use crate::errors::ContractError;
use crate::metadata::{
    metadata_len, mint_len, optional_len, royalty_len, Token, TokenMetadata,
    TokenMetadataView, TokenView,
};
use crate::names::{
    index_has, index_with, key_seq, lemma_index_with, Key, Name, Table,
};
use crate::registry::{Contract, RegistryView};
use crate::rent::{deposit_refund, name_bytes, refund_deposit, storage_cost};
use crate::royalty::{royalty_below_whole, total_bps};
use vstd::prelude::*;

verus! {

/// The most recipients that a royalty table may name.
pub const MAX_ROYALTY_RECIPIENTS: usize = 6;

/// The entries of a royalty table that may be absent.
pub open spec fn royalty_of(royalties: Option<Table<String, u32>>) -> Seq<(Name, u32)> {
    match royalties {
        Some(t) => t.entries(),
        None => Seq::empty(),
    }
}

impl RegistryView {
    /// Why `ctx` may not mint the token, if it may not: the royalty table
    /// is too long or gives away too much, the id is taken, or the payment
    /// attached does not cover the storage of the token.
    pub open spec fn mint_error(
        self,
        ctx: &CallContext,
        token_id: Name,
        owner: Name,
        metadata: TokenMetadataView,
        royalty: Seq<(Name, u32)>,
    ) -> Option<ContractError> {
        if royalty.len() > MAX_ROYALTY_RECIPIENTS {
            Some(ContractError::TooManyRoyaltyRecipients)
        } else if total_bps(royalty) >= 10_000 {
            Some(ContractError::RoyaltyTooLarge)
        } else if self.tokens.contains_key(token_id) {
            Some(ContractError::AlreadyExists)
        } else if storage_cost(mint_len(token_id, owner, metadata, royalty))
            > ctx.attached_deposit {
            Some(ContractError::InsufficientPayment)
        } else {
            None
        }
    }

    /// The registry with the new token `token_id`: `owner` has it, nobody
    /// is approved on it, and its first approval will get the id 0.
    pub open spec fn minted(
        self,
        token_id: Name,
        owner: Name,
        metadata: TokenMetadataView,
        royalty: Seq<(Name, u32)>,
    ) -> RegistryView {
        RegistryView {
            tokens: self.tokens.insert(
                token_id,
                TokenView {
                    owner_id: owner,
                    approved_account_ids: Seq::empty(),
                    next_approval_id: 0,
                    royalty,
                },
            ),
            tokens_per_owner: index_with(self.tokens_per_owner, owner, token_id),
            metadata: self.metadata.insert(token_id, metadata),
        }
    }
}

/// A new token keeps the registry well formed.
pub proof fn lemma_minted_wf(
    v: RegistryView,
    token_id: Name,
    owner: Name,
    metadata: TokenMetadataView,
    royalty: Seq<(Name, u32)>,
)
    requires
        v.wf(),
        !v.tokens.contains_key(token_id),
        key_seq(royalty).no_duplicates(),
        total_bps(royalty) < 10_000,
    ensures
        v.minted(token_id, owner, metadata, royalty).wf(),
{
    let w = v.minted(token_id, owner, metadata, royalty);
    lemma_index_with(v.tokens_per_owner, owner, token_id);
    assert(key_seq(Seq::<(Name, u64)>::empty()) =~= Seq::<Name>::empty());
    assert forall|o: Name, t: Name|
        index_has(w.tokens_per_owner, o, t) <==> (w.tokens.contains_key(t) && w.tokens[t].owner_id
            == o) by {
        assert(index_has(w.tokens_per_owner, o, t) <==> (index_has(v.tokens_per_owner, o, t) || (o
            == owner && t == token_id)));
        assert(index_has(v.tokens_per_owner, o, t) <==> (v.tokens.contains_key(t)
            && v.tokens[t].owner_id == o));
    }
    assert forall|t: Name| #[trigger] w.tokens.contains_key(t) implies w.tokens[t].wf() by {
        if t != token_id {
            assert(v.tokens.contains_key(t));
        }
    }
    assert forall|t: Name| w.metadata.contains_key(t) <==> w.tokens.contains_key(t) by {
        assert(v.metadata.contains_key(t) <==> v.tokens.contains_key(t));
    }
}

/// The bytes that a royalty table of at most six entries takes up.
pub fn royalty_bytes(royalty: &Table<String, u32>) -> (b: u128)
    requires
        royalty.wf(),
        royalty.entries().len() <= MAX_ROYALTY_RECIPIENTS,
    ensures
        b == royalty_len(royalty.entries()),
        b <= 6 * 0x1_0000_0000_0000_0008,
{
    let ghost entries = royalty.entries();
    let n: usize = royalty.len();
    let mut b: u128 = 0;
    let mut i: usize = 0;
    assert(entries.take(0) =~= Seq::empty());
    while i < n
        invariant
            royalty.wf(),
            entries == royalty.entries(),
            n == entries.len(),
            n <= MAX_ROYALTY_RECIPIENTS,
            i <= n,
            b == royalty_len(entries.take(i as int)),
            b <= i * 0x1_0000_0000_0000_0008,
        decreases n - i,
    {
        let len: u128 = name_bytes(royalty.key_at(i));
        proof {
            assert(entries.take(i + 1).drop_last() =~= entries.take(i as int));
            assert(entries.take(i + 1).last() == entries[i as int]);
        }
        b = b + len + 8;
        i += 1;
    }
    assert(entries.take(n as int) =~= entries);
    b
}

/// The bytes that an optional name takes up.
pub fn optional_bytes(o: &Option<String>) -> (b: u128)
    ensures
        b == optional_len(crate::names::optional_name(*o)),
        b <= 0x1_0000_0000_0000_0005,
{
    match o {
        Some(s) => 5 + name_bytes(s),
        None => 1,
    }
}

/// The bytes that a token's description takes up.
pub fn metadata_bytes(metadata: &TokenMetadata) -> (b: u128)
    ensures
        b == metadata_len(metadata@),
        b <= 5 * 0x1_0000_0000_0000_0009,
{
    let copies: u128 = if metadata.copies.is_some() {
        9
    } else {
        1
    };
    optional_bytes(&metadata.title) + optional_bytes(&metadata.description) + optional_bytes(
        &metadata.media,
    ) + optional_bytes(&metadata.extra) + copies
}

impl Contract {
    /// Mints token `token_id` for `receiver_id`. The payment attached
    /// covers the storage of the token; the rest is given back to the
    /// caller.
    pub fn nft_mint(
        &mut self,
        ctx: &CallContext,
        token_id: String,
        metadata: TokenMetadata,
        receiver_id: String,
        perpetual_royalties: Option<Table<String, u32>>,
    ) -> (r: Result<Option<Payment>, ContractError>)
        requires
            old(self).wf(),
            perpetual_royalties is Some ==> perpetual_royalties->0.wf(),
        ensures
            final(self).wf(),
            match r {
                Ok(refund) => {
                    &&& old(self)@.mint_error(
                        ctx,
                        token_id@,
                        receiver_id@,
                        metadata@,
                        royalty_of(perpetual_royalties),
                    ) is None
                    &&& final(self)@ == old(self)@.minted(
                        token_id@,
                        receiver_id@,
                        metadata@,
                        royalty_of(perpetual_royalties),
                    )
                    &&& payment_view(refund) == deposit_refund(
                        ctx.predecessor_account_id@,
                        mint_len(
                            token_id@,
                            receiver_id@,
                            metadata@,
                            royalty_of(perpetual_royalties),
                        ),
                        ctx.attached_deposit,
                    )
                    &&& final(self).owner_id == old(self).owner_id
                    &&& final(self).metadata == old(self).metadata
                },
                Err(e) => {
                    &&& old(self)@.mint_error(
                        ctx,
                        token_id@,
                        receiver_id@,
                        metadata@,
                        royalty_of(perpetual_royalties),
                    ) == Some(e)
                    &&& *final(self) == *old(self)
                },
            },
    {
        let royalty: Table<String, u32> = match perpetual_royalties {
            Some(t) => t,
            None => Table::new(),
        };
        if royalty.len() > MAX_ROYALTY_RECIPIENTS {
            return Err(ContractError::TooManyRoyaltyRecipients);
        }
        if !royalty_below_whole(&royalty) {
            return Err(ContractError::RoyaltyTooLarge);
        }
        if self.token(&token_id).is_some() {
            return Err(ContractError::AlreadyExists);
        }
        let storage_used: u128 = 3 * name_bytes(&token_id) + 2 * name_bytes(&receiver_id)
            + metadata_bytes(&metadata) + royalty_bytes(&royalty) + 40;
        let refund = match refund_deposit(ctx, storage_used) {
            Err(e) => {
                return Err(e);
            },
            Ok(refund) => refund,
        };
        let ghost before = self@;
        let ghost table = self.tokens_by_id@;
        let ghost after = before.minted(token_id@, receiver_id@, metadata@, royalty.entries());
        proof {
            lemma_minted_wf(before, token_id@, receiver_id@, metadata@, royalty.entries());
        }
        let token = Token {
            owner_id: receiver_id.duplicate(),
            approved_account_ids: Table::new(),
            next_approval_id: 0,
            royalty,
        };
        assert(key_seq(token@.approved_account_ids) =~= Seq::<Name>::empty());
        self.tokens_by_id.insert(token_id.duplicate(), token);
        self.token_metadata_by_id.insert(token_id.duplicate(), metadata);
        self.internal_add_token_to_owner(&receiver_id, &token_id);
        proof {
            assert(self@.tokens =~= after.tokens);
            assert(self@.metadata =~= after.metadata);
            assert forall|t: Name| #[trigger]
                self.tokens_by_id@.contains_key(t) implies self.tokens_by_id@[t].wf() by {
                if t != token_id@ {
                    assert(table.contains_key(t));
                }
            }
        }
        Ok(refund)
    }
}

} // verus!
