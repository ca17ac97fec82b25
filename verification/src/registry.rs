//! The registry of tokens: who owns each token, which tokens each owner
//! has, and the change of owner that every kind of transfer performs.

use crate::errors::ContractError;
use crate::metadata::{
    NFTContractMetadata, Token, TokenMetadata, TokenMetadataView, TokenView,
};
use crate::names::{
    entries_map, index_has, index_wf, index_with, index_without, key_seq, lemma_entry_lookup,
    lemma_index_with, lemma_index_without, lemma_key_has_entry, Index, Key, Name, Table,
};
use vstd::prelude::*;

verus! {

/// The registry.
pub struct Contract {
    /// The account that the registry belongs to.
    pub owner_id: String,
    /// For each owner the ids of its tokens.
    pub tokens_per_owner: Index<String>,
    /// The tokens by id.
    pub tokens_by_id: Table<String, Token>,
    /// The description of each token, by id.
    pub token_metadata_by_id: Table<String, TokenMetadata>,
    /// The description of the registry.
    pub metadata: NFTContractMetadata,
}

/// The value of the registry.
pub struct RegistryView {
    pub tokens: Map<Name, TokenView>,
    pub tokens_per_owner: Map<Name, Seq<Name>>,
    pub metadata: Map<Name, TokenMetadataView>,
}

/// The values of a table of tokens.
pub open spec fn tokens_view(m: Map<Name, Token>) -> Map<Name, TokenView> {
    m.map_values(|t: Token| t@)
}

/// The values of a table of descriptions.
pub open spec fn metadata_view(m: Map<Name, TokenMetadata>) -> Map<Name, TokenMetadataView> {
    m.map_values(|t: TokenMetadata| t@)
}

impl RegistryView {
    /// A token is among the tokens of an account exactly if that account
    /// owns it; no account is listed without tokens; every token is
    /// described.
    pub open spec fn wf(self) -> bool {
        &&& index_wf(self.tokens_per_owner)
        &&& forall|t: Name| #[trigger] self.tokens.contains_key(t) ==> self.tokens[t].wf()
        &&& forall|o: Name, t: Name|
            index_has(self.tokens_per_owner, o, t) <==> (self.tokens.contains_key(t)
                && self.tokens[t].owner_id == o)
        &&& forall|t: Name| self.metadata.contains_key(t) <==> self.tokens.contains_key(t)
    }

    /// The registry after token `token_id` went to `to`, with `approved` as
    /// its approvals.
    pub open spec fn with_owner(self, token_id: Name, to: Name, approved: Seq<(Name, u64)>)
        -> RegistryView {
        let token = self.tokens[token_id];
        RegistryView {
            tokens: self.tokens.insert(
                token_id,
                TokenView { owner_id: to, approved_account_ids: approved, ..token },
            ),
            tokens_per_owner: index_with(
                index_without(self.tokens_per_owner, token.owner_id, token_id),
                to,
                token_id,
            ),
            metadata: self.metadata,
        }
    }

    /// The registry after a transfer of token `token_id` to `to`: the new
    /// owner has it, and no approval is left on it.
    pub open spec fn transferred(self, token_id: Name, to: Name) -> RegistryView {
        self.with_owner(token_id, to, Seq::empty())
    }

    /// Why `sender` may not transfer token `token_id` to `receiver`, if it
    /// may not. A sender that is not the owner has to be a delegate, and
    /// where it names an approval id, that has to be the one that it holds.
    pub open spec fn transfer_error(
        self,
        sender: Name,
        receiver: Name,
        token_id: Name,
        approval_id: Option<u64>,
    ) -> Option<ContractError> {
        if !self.tokens.contains_key(token_id) {
            Some(ContractError::NoSuchToken)
        } else {
            let token = self.tokens[token_id];
            let approved = entries_map(token.approved_account_ids);
            if sender != token.owner_id && !approved.contains_key(sender) {
                Some(ContractError::Unauthorized)
            } else if sender != token.owner_id && approval_id is Some && approved[sender]
                != approval_id->0 {
                Some(ContractError::Unauthorized)
            } else if token.owner_id == receiver {
                Some(ContractError::NotOwnerAndDifferentOwner)
            } else {
                None
            }
        }
    }
}

/// A change of owner keeps the registry well formed.
pub proof fn lemma_with_owner_wf(
    v: RegistryView,
    token_id: Name,
    to: Name,
    approved: Seq<(Name, u64)>,
)
    requires
        v.wf(),
        v.tokens.contains_key(token_id),
        key_seq(approved).no_duplicates(),
    ensures
        v.with_owner(token_id, to, approved).wf(),
{
    let token = v.tokens[token_id];
    let mid = index_without(v.tokens_per_owner, token.owner_id, token_id);
    lemma_index_without(v.tokens_per_owner, token.owner_id, token_id);
    lemma_index_with(mid, to, token_id);
    let w = v.with_owner(token_id, to, approved);
    assert forall|o: Name, t: Name|
        index_has(w.tokens_per_owner, o, t) <==> (w.tokens.contains_key(t) && w.tokens[t].owner_id
            == o) by {
        assert(index_has(w.tokens_per_owner, o, t) <==> (index_has(mid, o, t) || (o == to && t
            == token_id)));
        assert(index_has(mid, o, t) <==> (index_has(v.tokens_per_owner, o, t) && !(o
            == token.owner_id && t == token_id)));
        assert(index_has(v.tokens_per_owner, o, t) <==> (v.tokens.contains_key(t)
            && v.tokens[t].owner_id == o));
    }
    assert forall|t: Name| #[trigger] w.tokens.contains_key(t) implies w.tokens[t].wf() by {
        if t != token_id {
            assert(v.tokens.contains_key(t));
        }
    }
}

impl View for Contract {
    type V = RegistryView;

    open spec fn view(&self) -> RegistryView {
        RegistryView {
            tokens: tokens_view(self.tokens_by_id@),
            tokens_per_owner: self.tokens_per_owner@,
            metadata: metadata_view(self.token_metadata_by_id@),
        }
    }
}

/// A state that stands for a registry.
pub trait RegistryState: Sized {
    /// The registry's value.
    spec fn registry(&self) -> RegistryView;

    /// The state is well formed, and so is the registry's value.
    spec fn valid(&self) -> bool;
}

impl RegistryState for Contract {
    open spec fn registry(&self) -> RegistryView {
        self@
    }

    open spec fn valid(&self) -> bool {
        self.wf()
    }
}

impl Contract {
    /// The tables are well formed, and so is each token and the registry's
    /// value.
    pub open spec fn wf(&self) -> bool {
        &&& self.tokens_per_owner.wf()
        &&& self.tokens_by_id.wf()
        &&& self.token_metadata_by_id.wf()
        &&& forall|t: Name| #[trigger]
            self.tokens_by_id@.contains_key(t) ==> self.tokens_by_id@[t].wf()
        &&& self@.wf()
    }

    /// Whether every token is well formed.
    fn tokens_valid(&self) -> (b: bool)
        requires
            self.tokens_by_id.wf(),
        ensures
            b == (forall|t: Name| #[trigger]
                self.tokens_by_id@.contains_key(t) ==> self.tokens_by_id@[t].wf()),
    {
        let ghost entries = self.tokens_by_id.entries();
        let n: usize = self.tokens_by_id.len();
        let mut i: usize = 0;
        while i < n
            invariant
                self.tokens_by_id.wf(),
                entries == self.tokens_by_id.entries(),
                n == entries.len(),
                i <= n,
                forall|j: int| 0 <= j < i ==> (#[trigger] entries[j]).1.wf(),
            decreases n - i,
        {
            if !self.tokens_by_id.value_at(i).is_valid() {
                proof {
                    lemma_entry_lookup(entries, i as int);
                    assert(self.tokens_by_id@.contains_key(entries[i as int].0));
                    assert(self.tokens_by_id@[entries[i as int].0] == entries[i as int].1);
                }
                return false;
            }
            i += 1;
        }
        proof {
            assert forall|t: Name| #[trigger]
                self.tokens_by_id@.contains_key(t) implies self.tokens_by_id@[t].wf() by {
                lemma_key_has_entry(entries, t);
                assert(entries[key_seq(entries).index_of(t)].1.wf());
            }
        }
        true
    }

    /// Whether each token is among the tokens of its owner.
    fn tokens_listed(&self) -> (b: bool)
        requires
            self.tokens_by_id.wf(),
            self.tokens_per_owner.wf(),
        ensures
            b == (forall|t: Name| #[trigger]
                self@.tokens.contains_key(t) ==> index_has(
                    self@.tokens_per_owner,
                    self@.tokens[t].owner_id,
                    t,
                )),
    {
        let ghost entries = self.tokens_by_id.entries();
        let ghost index = self@.tokens_per_owner;
        let n: usize = self.tokens_by_id.len();
        let mut i: usize = 0;
        while i < n
            invariant
                self.tokens_by_id.wf(),
                self.tokens_per_owner.wf(),
                entries == self.tokens_by_id.entries(),
                index == self@.tokens_per_owner,
                n == entries.len(),
                i <= n,
                forall|j: int|
                    0 <= j < i ==> index_has(index, (#[trigger] entries[j]).1.owner_id@, entries[j].0),
            decreases n - i,
        {
            let token_id = self.tokens_by_id.key_at(i);
            let token = self.tokens_by_id.value_at(i);
            let listed = match self.tokens_per_owner.get(&token.owner_id) {
                Some(members) => members.contains(token_id),
                None => false,
            };
            if !listed {
                proof {
                    lemma_entry_lookup(entries, i as int);
                    assert(self@.tokens.contains_key(token_id@));
                    assert(self@.tokens[token_id@] == token@);
                }
                return false;
            }
            i += 1;
        }
        proof {
            assert forall|t: Name| #[trigger] self@.tokens.contains_key(t) implies index_has(
                index,
                self@.tokens[t].owner_id,
                t,
            ) by {
                assert(self.tokens_by_id@.contains_key(t));
                lemma_key_has_entry(entries, t);
                let j = key_seq(entries).index_of(t);
                assert(index_has(index, entries[j].1.owner_id@, entries[j].0));
            }
        }
        true
    }

    /// Whether what is among the tokens of an account is a token, and that
    /// account owns it.
    fn owners_own(&self) -> (b: bool)
        requires
            self.tokens_by_id.wf(),
            self.tokens_per_owner.wf(),
        ensures
            b == (forall|o: Name, t: Name|
                index_has(self@.tokens_per_owner, o, t) ==> self@.tokens.contains_key(t)
                    && self@.tokens[t].owner_id == o),
    {
        let ghost index = self@.tokens_per_owner;
        let ghost tokens = self@.tokens;
        let ghost owners = self.tokens_per_owner.owners();
        let n: usize = self.tokens_per_owner.len();
        let mut i: usize = 0;
        while i < n
            invariant
                self.tokens_by_id.wf(),
                self.tokens_per_owner.wf(),
                index == self@.tokens_per_owner,
                tokens == self@.tokens,
                owners == self.tokens_per_owner.owners(),
                n == owners.len(),
                i <= n,
                forall|a: int, t: Name|
                    0 <= a < i && #[trigger] index_has(index, owners[a], t) ==> tokens.contains_key(
                        t,
                    ) && tokens[t].owner_id == owners[a],
            decreases n - i,
        {
            let owner = self.tokens_per_owner.owner_at(i);
            let members = self.tokens_per_owner.members_at(i);
            let m: usize = members.len();
            let mut j: usize = 0;
            while j < m
                invariant
                    self.tokens_by_id.wf(),
                    self.tokens_per_owner.wf(),
                    index == self@.tokens_per_owner,
                    tokens == self@.tokens,
                    owners == self.tokens_per_owner.owners(),
                    i < owners.len(),
                    owner@ == owners[i as int],
                    index.contains_key(owner@),
                    members@ == index[owner@],
                    m == members@.len(),
                    j <= m,
                    forall|c: int|
                        0 <= c < j ==> tokens.contains_key(#[trigger] members@[c])
                            && tokens[members@[c]].owner_id == owner@,
                decreases m - j,
            {
                let token_id = members.get(j);
                let owned = match self.tokens_by_id.get(token_id) {
                    Some(token) => token.owner_id.same(owner),
                    None => false,
                };
                if !owned {
                    proof {
                        assert(index_has(index, owner@, token_id@));
                        if self.tokens_by_id@.contains_key(token_id@) {
                            assert(tokens.contains_key(token_id@));
                        }
                    }
                    return false;
                }
                proof {
                    assert(tokens.contains_key(token_id@));
                }
                j += 1;
            }
            proof {
                assert forall|t: Name| #[trigger]
                    index_has(index, owners[i as int], t) implies tokens.contains_key(t)
                    && tokens[t].owner_id == owners[i as int] by {
                    let c = choose|c: int| 0 <= c < members@.len() && members@[c] == t;
                    assert(tokens.contains_key(members@[c]));
                }
            }
            i += 1;
        }
        proof {
            assert forall|o: Name, t: Name| index_has(index, o, t) implies tokens.contains_key(t)
                && tokens[t].owner_id == o by {
                assert(owners.contains(o));
                let a = choose|a: int| 0 <= a < owners.len() && owners[a] == o;
                assert(index_has(index, owners[a], t));
            }
        }
        true
    }

    /// Whether the tokens are the ones that are described.
    fn tokens_described(&self) -> (b: bool)
        requires
            self.tokens_by_id.wf(),
            self.token_metadata_by_id.wf(),
        ensures
            b == (forall|t: Name| self@.metadata.contains_key(t) <==> self@.tokens.contains_key(t)),
    {
        let ghost tokens = self.tokens_by_id.entries();
        let ghost described = self.token_metadata_by_id.entries();
        let n: usize = self.tokens_by_id.len();
        let mut i: usize = 0;
        while i < n
            invariant
                self.tokens_by_id.wf(),
                self.token_metadata_by_id.wf(),
                tokens == self.tokens_by_id.entries(),
                n == tokens.len(),
                i <= n,
                forall|j: int|
                    0 <= j < i ==> self.token_metadata_by_id@.contains_key((#[trigger] tokens[j]).0),
            decreases n - i,
        {
            if !self.token_metadata_by_id.contains_key(self.tokens_by_id.key_at(i)) {
                proof {
                    lemma_entry_lookup(tokens, i as int);
                    assert(self@.tokens.contains_key(tokens[i as int].0));
                    assert(!self@.metadata.contains_key(tokens[i as int].0));
                }
                return false;
            }
            i += 1;
        }
        let m: usize = self.token_metadata_by_id.len();
        let mut k: usize = 0;
        while k < m
            invariant
                self.tokens_by_id.wf(),
                self.token_metadata_by_id.wf(),
                described == self.token_metadata_by_id.entries(),
                m == described.len(),
                k <= m,
                forall|j: int|
                    0 <= j < k ==> self.tokens_by_id@.contains_key((#[trigger] described[j]).0),
            decreases m - k,
        {
            if !self.tokens_by_id.contains_key(self.token_metadata_by_id.key_at(k)) {
                proof {
                    lemma_entry_lookup(described, k as int);
                    assert(self@.metadata.contains_key(described[k as int].0));
                    assert(!self@.tokens.contains_key(described[k as int].0));
                }
                return false;
            }
            k += 1;
        }
        proof {
            assert forall|t: Name| self@.metadata.contains_key(t) <==> self@.tokens.contains_key(
                t,
            ) by {
                if self@.tokens.contains_key(t) {
                    assert(self.tokens_by_id@.contains_key(t));
                    lemma_key_has_entry(tokens, t);
                    let j = key_seq(tokens).index_of(t);
                    assert(self.token_metadata_by_id@.contains_key(tokens[j].0));
                    assert(self@.metadata.contains_key(t));
                }
                if self@.metadata.contains_key(t) {
                    assert(self.token_metadata_by_id@.contains_key(t));
                    lemma_key_has_entry(described, t);
                    let j = key_seq(described).index_of(t);
                    assert(self.tokens_by_id@.contains_key(described[j].0));
                    assert(self@.tokens.contains_key(t));
                }
            }
        }
        true
    }

    /// Whether the registry is well formed.
    pub fn is_valid(&self) -> (b: bool)
        ensures
            b == self.wf(),
    {
        if !(self.tokens_per_owner.is_valid() && self.tokens_by_id.is_valid()
            && self.token_metadata_by_id.is_valid()) {
            return false;
        }
        let valid = self.tokens_valid();
        let listed = self.tokens_listed();
        let owned = self.owners_own();
        let described = self.tokens_described();
        proof {
            if valid {
                assert forall|t: Name| #[trigger]
                    self@.tokens.contains_key(t) implies self@.tokens[t].wf() by {
                    assert(self.tokens_by_id@.contains_key(t));
                }
            }
            if self@.wf() {
                assert forall|t: Name| #[trigger]
                    self@.tokens.contains_key(t) implies index_has(
                    self@.tokens_per_owner,
                    self@.tokens[t].owner_id,
                    t,
                ) by {}
            }
        }
        valid && listed && owned && described
    }

    /// An empty registry that belongs to `owner_id`.
    pub fn new(owner_id: String, metadata: NFTContractMetadata) -> (c: Contract)
        ensures
            c.wf(),
            c.owner_id == owner_id,
            c.metadata == metadata,
            c@.tokens == Map::<Name, TokenView>::empty(),
            c@.tokens_per_owner == Map::<Name, Seq<Name>>::empty(),
            c@.metadata == Map::<Name, TokenMetadataView>::empty(),
    {
        let c = Contract {
            owner_id,
            tokens_per_owner: Index::new(),
            tokens_by_id: Table::new(),
            token_metadata_by_id: Table::new(),
            metadata,
        };
        assert(c@.tokens =~= Map::<Name, TokenView>::empty());
        assert(c@.metadata =~= Map::<Name, TokenMetadataView>::empty());
        c
    }

    /// An empty registry with the default description.
    pub fn new_default_meta(owner_id: String) -> (c: Contract)
        ensures
            c.wf(),
            c.owner_id == owner_id,
            c.metadata.spec@ == "nft-1.0.0"@,
            c.metadata.name@ == "NFT Tutorial Contract"@,
            c.metadata.symbol@ == "GOTEAM"@,
            c.metadata.icon is None,
            c.metadata.base_uri is None,
            c.metadata.reference is None,
            c.metadata.reference_hash is None,
            c@.tokens == Map::<Name, TokenView>::empty(),
            c@.tokens_per_owner == Map::<Name, Seq<Name>>::empty(),
            c@.metadata == Map::<Name, TokenMetadataView>::empty(),
    {
        Contract::new(
            owner_id,
            NFTContractMetadata {
                spec: "nft-1.0.0".to_owned(),
                name: "NFT Tutorial Contract".to_owned(),
                symbol: "GOTEAM".to_owned(),
                icon: None,
                base_uri: None,
                reference: None,
                reference_hash: None,
            },
        )
    }

    /// Lists token `token_id` among the tokens of `account_id`.
    pub(crate) fn internal_add_token_to_owner(&mut self, account_id: &String, token_id: &String)
        requires
            old(self).tokens_per_owner.wf(),
        ensures
            final(self).tokens_per_owner.wf(),
            final(self).tokens_per_owner@ == index_with(
                old(self).tokens_per_owner@,
                account_id@,
                token_id@,
            ),
            final(self).owner_id == old(self).owner_id,
            final(self).tokens_by_id == old(self).tokens_by_id,
            final(self).token_metadata_by_id == old(self).token_metadata_by_id,
            final(self).metadata == old(self).metadata,
    {
        self.tokens_per_owner.add(account_id, token_id.duplicate());
    }

    /// Takes token `token_id` from the tokens of `account_id`; an account
    /// left without tokens is no longer listed.
    pub(crate) fn internal_remove_token_from_owner(
        &mut self,
        account_id: &String,
        token_id: &String,
    )
        requires
            old(self).tokens_per_owner.wf(),
        ensures
            final(self).tokens_per_owner.wf(),
            final(self).tokens_per_owner@ == index_without(
                old(self).tokens_per_owner@,
                account_id@,
                token_id@,
            ),
            final(self).owner_id == old(self).owner_id,
            final(self).tokens_by_id == old(self).tokens_by_id,
            final(self).token_metadata_by_id == old(self).token_metadata_by_id,
            final(self).metadata == old(self).metadata,
    {
        self.tokens_per_owner.remove(account_id, token_id);
    }

    /// Gives token `token_id` to `to` with `approved` as its approvals, and
    /// returns the token as it was.
    pub(crate) fn internal_change_owner(
        &mut self,
        token_id: &String,
        to: &String,
        approved: Table<String, u64>,
    ) -> (previous: Token)
        requires
            old(self).wf(),
            old(self)@.tokens.contains_key(token_id@),
            approved.wf(),
        ensures
            final(self).wf(),
            final(self)@ == old(self)@.with_owner(token_id@, to@, approved.entries()),
            previous.wf(),
            previous@ == old(self)@.tokens[token_id@],
            final(self).owner_id == old(self).owner_id,
            final(self).metadata == old(self).metadata,
    {
        let ghost before = self@;
        let ghost table = self.tokens_by_id@;
        proof {
            lemma_with_owner_wf(before, token_id@, to@, approved.entries());
            assert(table.contains_key(token_id@));
        }
        let previous = self.tokens_by_id.remove(token_id).unwrap();
        self.internal_remove_token_from_owner(&previous.owner_id, token_id);
        self.internal_add_token_to_owner(to, token_id);
        let token = Token {
            owner_id: to.duplicate(),
            approved_account_ids: approved,
            next_approval_id: previous.next_approval_id,
            royalty: previous.royalty.duplicate(),
        };
        self.tokens_by_id.insert(token_id.duplicate(), token);
        proof {
            assert(self@.tokens =~= before.with_owner(token_id@, to@, approved.entries()).tokens);
            assert(self@.metadata =~= before.metadata);
            assert forall|t: Name| #[trigger]
                self.tokens_by_id@.contains_key(t) implies self.tokens_by_id@[t].wf() by {
                if t != token_id@ {
                    assert(table.contains_key(t));
                } else {
                    assert(self@.tokens.contains_key(t));
                }
            }
        }
        previous
    }

    /// Whether `sender_id`, the owner of token `token_id` or a delegate of
    /// its owner, may transfer it to `receiver_id`.
    pub(crate) fn internal_check_transfer(
        &self,
        sender_id: &String,
        receiver_id: &String,
        token_id: &String,
        approval_id: Option<u64>,
    ) -> (r: Result<(), ContractError>)
        requires
            self.wf(),
        ensures
            match r {
                Ok(_) => self@.transfer_error(sender_id@, receiver_id@, token_id@, approval_id)
                    is None,
                Err(e) => self@.transfer_error(sender_id@, receiver_id@, token_id@, approval_id)
                    == Some(e),
            },
    {
        match self.tokens_by_id.get(token_id) {
            None => Err(ContractError::NoSuchToken),
            Some(token) => {
                assert(self@.tokens.contains_key(token_id@));
                assert(token@ == self@.tokens[token_id@]);
                if !sender_id.same(&token.owner_id) {
                    match token.approved_account_ids.get(sender_id) {
                        None => {
                            return Err(ContractError::Unauthorized);
                        },
                        Some(actual) => {
                            match approval_id {
                                Some(enforced) => {
                                    if *actual != enforced {
                                        return Err(ContractError::Unauthorized);
                                    }
                                },
                                None => {},
                            }
                        },
                    }
                }
                if token.owner_id.same(receiver_id) {
                    Err(ContractError::NotOwnerAndDifferentOwner)
                } else {
                    Ok(())
                }
            },
        }
    }

    /// Transfers token `token_id` from `sender_id`, its owner or a delegate
    /// of its owner, to `receiver_id`, and returns the token as it was.
    pub(crate) fn internal_transfer(
        &mut self,
        sender_id: &String,
        receiver_id: &String,
        token_id: &String,
        approval_id: Option<u64>,
    ) -> (r: Result<Token, ContractError>)
        requires
            old(self).wf(),
        ensures
            final(self).wf(),
            match r {
                Ok(previous) => {
                    &&& old(self)@.transfer_error(sender_id@, receiver_id@, token_id@, approval_id)
                        is None
                    &&& previous.wf()
                    &&& previous@ == old(self)@.tokens[token_id@]
                    &&& final(self)@ == old(self)@.transferred(token_id@, receiver_id@)
                    &&& final(self).owner_id == old(self).owner_id
                    &&& final(self).metadata == old(self).metadata
                },
                Err(e) => {
                    &&& old(self)@.transfer_error(sender_id@, receiver_id@, token_id@, approval_id)
                        == Some(e)
                    &&& *final(self) == *old(self)
                },
            },
    {
        match self.internal_check_transfer(sender_id, receiver_id, token_id, approval_id) {
            Err(e) => Err(e),
            Ok(_) => Ok(self.internal_change_owner(token_id, receiver_id, Table::new())),
        }
    }

    /// The token of id `token_id`.
    pub fn token(&self, token_id: &String) -> (r: Option<&Token>)
        requires
            self.wf(),
        ensures
            match r {
                Some(t) => self@.tokens.contains_key(token_id@) && t@ == self@.tokens[token_id@]
                    && t.wf(),
                None => !self@.tokens.contains_key(token_id@),
            },
    {
        let r = self.tokens_by_id.get(token_id);
        proof {
            if self.tokens_by_id@.contains_key(token_id@) {
                assert(self@.tokens.contains_key(token_id@));
            }
        }
        r
    }
}

} // verus!
