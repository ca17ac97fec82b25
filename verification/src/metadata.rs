//! The records of the registry: a token, what describes it, and what
//! describes the registry itself.

use crate::names::{duplicate_optional, key_seq, optional_name, Key, Name, Table};
use crate::rent::name_len;
use crate::royalty::{royalty_below_whole, total_bps};
use vstd::prelude::*;

verus! {

/// The version of the metadata schema.
pub const NFT_METADATA_SPEC: &'static str = "1.0.0";

/// The name of the token standard.
pub const NFT_STANDARD_NAME: &'static str = "nep171";

/// What describes the registry.
pub struct NFTContractMetadata {
    pub spec: String,
    pub name: String,
    pub symbol: String,
    pub icon: Option<String>,
    pub base_uri: Option<String>,
    pub reference: Option<String>,
    pub reference_hash: Option<String>,
}

/// What describes one token.
pub struct TokenMetadata {
    pub title: Option<String>,
    pub description: Option<String>,
    pub media: Option<String>,
    pub copies: Option<u64>,
    pub extra: Option<String>,
}

/// The value of a token's description.
pub struct TokenMetadataView {
    pub title: Option<Name>,
    pub description: Option<Name>,
    pub media: Option<Name>,
    pub copies: Option<u64>,
    pub extra: Option<Name>,
}

impl View for TokenMetadata {
    type V = TokenMetadataView;

    open spec fn view(&self) -> TokenMetadataView {
        TokenMetadataView {
            title: optional_name(self.title),
            description: optional_name(self.description),
            media: optional_name(self.media),
            copies: self.copies,
            extra: optional_name(self.extra),
        }
    }
}

impl TokenMetadata {
    /// A second description with the same value.
    pub fn duplicate(&self) -> (m: TokenMetadata)
        ensures
            m@ == self@,
    {
        TokenMetadata {
            title: duplicate_optional(&self.title),
            description: duplicate_optional(&self.description),
            media: duplicate_optional(&self.media),
            copies: self.copies,
            extra: duplicate_optional(&self.extra),
        }
    }
}

/// A token: its owner, the delegates that may transfer it with the id of
/// each one's approval, the id that the next approval gets, and the basis
/// points of each sale that go to the recipients of royalties.
pub struct Token {
    pub owner_id: String,
    pub approved_account_ids: Table<String, u64>,
    pub next_approval_id: u64,
    pub royalty: Table<String, u32>,
}

/// The value of a token.
pub struct TokenView {
    pub owner_id: Name,
    pub approved_account_ids: Seq<(Name, u64)>,
    pub next_approval_id: u64,
    pub royalty: Seq<(Name, u32)>,
}

impl TokenView {
    /// No delegate and no recipient occurs twice, and the royalties stay
    /// below the whole of a price.
    pub open spec fn wf(self) -> bool {
        &&& key_seq(self.approved_account_ids).no_duplicates()
        &&& key_seq(self.royalty).no_duplicates()
        &&& total_bps(self.royalty) < 10_000
    }
}

impl View for Token {
    type V = TokenView;

    open spec fn view(&self) -> TokenView {
        TokenView {
            owner_id: self.owner_id@,
            approved_account_ids: self.approved_account_ids.entries(),
            next_approval_id: self.next_approval_id,
            royalty: self.royalty.entries(),
        }
    }
}

impl Token {
    pub open spec fn wf(&self) -> bool {
        &&& self.approved_account_ids.wf()
        &&& self.royalty.wf()
        &&& self@.wf()
    }

    /// Whether the token is well formed.
    pub fn is_valid(&self) -> (b: bool)
        ensures
            b == self.wf(),
    {
        self.approved_account_ids.is_valid() && self.royalty.is_valid() && royalty_below_whole(
            &self.royalty,
        )
    }

    /// A second token with the same value.
    pub fn duplicate(&self) -> (t: Token)
        requires
            self.wf(),
        ensures
            t.wf(),
            t@ == self@,
    {
        Token {
            owner_id: self.owner_id.duplicate(),
            approved_account_ids: self.approved_account_ids.duplicate(),
            next_approval_id: self.next_approval_id,
            royalty: self.royalty.duplicate(),
        }
    }
}

/// A token as the registry shows it: the token with its id and description.
pub struct JsonToken {
    pub token_id: String,
    pub owner_id: String,
    pub metadata: TokenMetadata,
    pub approved_account_ids: Table<String, u64>,
    pub royalty: Table<String, u32>,
}

/// The value of a token as the registry shows it.
pub struct JsonTokenView {
    pub token_id: Name,
    pub owner_id: Name,
    pub metadata: TokenMetadataView,
    pub approved_account_ids: Seq<(Name, u64)>,
    pub royalty: Seq<(Name, u32)>,
}

impl View for JsonToken {
    type V = JsonTokenView;

    open spec fn view(&self) -> JsonTokenView {
        JsonTokenView {
            token_id: self.token_id@,
            owner_id: self.owner_id@,
            metadata: self.metadata@,
            approved_account_ids: self.approved_account_ids.entries(),
            royalty: self.royalty.entries(),
        }
    }
}

/// How the registry shows the token `token` of id `token_id`, described
/// by `metadata`.
pub open spec fn json_token(token_id: Name, token: TokenView, metadata: TokenMetadataView)
    -> JsonTokenView {
    JsonTokenView {
        token_id,
        owner_id: token.owner_id,
        metadata,
        approved_account_ids: token.approved_account_ids,
        royalty: token.royalty,
    }
}

/// The bytes that an optional name takes up.
pub open spec fn optional_len(o: Option<Name>) -> nat {
    match o {
        Some(s) => 5 + name_len(s),
        None => 1,
    }
}

/// The bytes that a token's description takes up.
pub open spec fn metadata_len(m: TokenMetadataView) -> nat {
    optional_len(m.title) + optional_len(m.description) + optional_len(m.media) + optional_len(
        m.extra,
    ) + (if m.copies is Some {
        9nat
    } else {
        1nat
    })
}

/// The bytes that a royalty table takes up.
pub open spec fn royalty_len(royalty: Seq<(Name, u32)>) -> nat
    decreases royalty.len(),
{
    if royalty.len() == 0 {
        0
    } else {
        royalty_len(royalty.drop_last()) + name_len(royalty.last().0) + 8
    }
}

/// The bytes that a new token takes up: its record, its description, and
/// its entry among its owner's tokens.
pub open spec fn mint_len(
    token_id: Name,
    owner_id: Name,
    metadata: TokenMetadataView,
    royalty: Seq<(Name, u32)>,
) -> nat {
    3 * name_len(token_id) + 2 * name_len(owner_id) + metadata_len(metadata) + royalty_len(royalty)
        + 40
}

} // verus!
