//! The tokens of an owner, page by page.

use crate::metadata::{json_token, JsonToken, JsonTokenView};
use crate::names::{index_has, Key, Name};
use crate::nft_core::CoreNonFungibleToken;
use crate::paging::{page, page_bounds};
use crate::registry::{Contract, RegistryView};
use vstd::prelude::*;

verus! {

/// The values of a list of shown tokens.
pub open spec fn shown_tokens(v: Seq<JsonToken>) -> Seq<JsonTokenView> {
    Seq::new(v.len(), |i: int| v[i]@)
}

impl RegistryView {
    /// The ids of the tokens of `account`, in the order in which it got
    /// them.
    pub open spec fn tokens_of(self, account: Name) -> Seq<Name> {
        if self.tokens_per_owner.contains_key(account) {
            self.tokens_per_owner[account]
        } else {
            Seq::empty()
        }
    }

    /// The page of the tokens of `account`, as the registry shows them.
    pub open spec fn tokens_page(self, account: Name, from_index: Option<u128>, limit: Option<u64>)
        -> Seq<JsonTokenView> {
        page(self.tokens_of(account), from_index, limit).map_values(
            |id: Name| json_token(id, self.tokens[id], self.metadata[id]),
        )
    }
}

impl Contract {
    /// The tokens of `account_id`, from position `from_index` on and at
    /// most `limit` of them; none where no limit is given.
    pub fn nft_tokens_for_owner(
        &self,
        account_id: String,
        from_index: Option<u128>,
        limit: Option<u64>,
    ) -> (r: Vec<JsonToken>)
        requires
            self.wf(),
        ensures
            shown_tokens(r@) == self@.tokens_page(account_id@, from_index, limit),
    {
        let mut out: Vec<JsonToken> = Vec::new();
        let tokens = match self.tokens_per_owner.get(&account_id) {
            Some(tokens) => tokens,
            None => {
                assert(shown_tokens(out@) =~= self@.tokens_page(account_id@, from_index, limit));
                return out;
            },
        };
        let ghost ids = self@.tokens_of(account_id@);
        let (start, end) = page_bounds(tokens.len(), from_index, limit);
        let mut i: usize = start;
        while i < end
            invariant
                self.wf(),
                ids == self@.tokens_of(account_id@),
                self@.tokens_per_owner.contains_key(account_id@),
                tokens@ == ids,
                start <= i <= end <= ids.len(),
                out@.len() == i - start,
                forall|j: int|
                    0 <= j < out@.len() ==> (#[trigger] out@[j])@ == json_token(
                        ids[start + j],
                        self@.tokens[ids[start + j]],
                        self@.metadata[ids[start + j]],
                    ),
            decreases end - i,
        {
            let id = tokens.get(i);
            assert(index_has(self@.tokens_per_owner, account_id@, id@));
            assert(self@.tokens.contains_key(id@));
            match self.nft_token(id.duplicate()) {
                Some(token) => {
                    out.push(token);
                },
                None => {},
            }
            i += 1;
        }
        assert(shown_tokens(out@) =~= self@.tokens_page(account_id@, from_index, limit));
        out
    }
}

} // verus!
