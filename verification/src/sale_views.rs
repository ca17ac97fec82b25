//! What the marketplace shows: how many listings there are, and the
//! listings of an account or of a registry, page by page.

use crate::market::{sale_view, Contract, MarketView, SaleKey, SaleView, StructSale};
use crate::names::{index_count, index_has, lemma_entries_count, Key, Name};
use crate::paging::{page, page_bounds};
use vstd::prelude::*;

verus! {

/// The values of a list of listings.
pub open spec fn sales_seq(v: Seq<StructSale>) -> Seq<SaleView> {
    Seq::new(v.len(), |i: int| v[i]@)
}

impl MarketView {
    /// The listings that `account` made, in the order in which it made
    /// them.
    pub open spec fn keys_by_owner(self, account: Name) -> Seq<(Name, Name)> {
        if self.by_owner_id.contains_key(account) {
            self.by_owner_id[account]
        } else {
            Seq::empty()
        }
    }

    /// The listed tokens of the registry `nft_contract_id`, in the order
    /// in which they were listed.
    pub open spec fn tokens_by_contract(self, nft_contract_id: Name) -> Seq<Name> {
        if self.by_nft_contract_id.contains_key(nft_contract_id) {
            self.by_nft_contract_id[nft_contract_id]
        } else {
            Seq::empty()
        }
    }

    /// The page of the listings of `account`.
    pub open spec fn page_by_owner(self, account: Name, from_index: Option<u128>, limit: Option<u64>)
        -> Seq<SaleView> {
        page(self.keys_by_owner(account), from_index, limit).map_values(
            |k: (Name, Name)| self.sales[k],
        )
    }

    /// The page of the listings of the registry `nft_contract_id`.
    pub open spec fn page_by_contract(
        self,
        nft_contract_id: Name,
        from_index: Option<u128>,
        limit: Option<u64>,
    ) -> Seq<SaleView> {
        page(self.tokens_by_contract(nft_contract_id), from_index, limit).map_values(
            |t: Name| self.sales[(nft_contract_id, t)],
        )
    }

    /// The listing of token `token_id` of the registry `nft_contract_id`.
    pub open spec fn sale_of(self, nft_contract_id: Name, token_id: Name) -> Option<SaleView> {
        if self.sales.contains_key((nft_contract_id, token_id)) {
            Some(self.sales[(nft_contract_id, token_id)])
        } else {
            None
        }
    }
}

impl Contract {
    /// How many listings there are.
    pub fn get_supply_sales(&self) -> (n: u64)
        requires
            self.wf(),
        ensures
            self@.sales.dom().finite(),
            n == self@.sales.dom().len(),
    {
        proof {
            lemma_entries_count(self.sales.entries());
            assert(self@.sales.dom() =~= self.sales@.dom());
        }
        self.sales.len() as u64
    }

    /// How many listings `account_id` has.
    pub fn get_supply_by_owner_id(&self, account_id: String) -> (n: u64)
        requires
            self.wf(),
        ensures
            n == self@.supply_by_owner(account_id@),
    {
        self.by_owner_id.count(&account_id) as u64
    }

    /// The listings of `account_id`, from position `from_index` on and at
    /// most `limit` of them; none where no limit is given.
    pub fn get_sales_by_owner_id(
        &self,
        account_id: String,
        from_index: Option<u128>,
        limit: Option<u64>,
    ) -> (r: Vec<StructSale>)
        requires
            self.wf(),
        ensures
            sales_seq(r@) == self@.page_by_owner(account_id@, from_index, limit),
    {
        let mut out: Vec<StructSale> = Vec::new();
        let keys = match self.by_owner_id.get(&account_id) {
            Some(keys) => keys,
            None => {
                assert(sales_seq(out@) =~= self@.page_by_owner(account_id@, from_index, limit));
                return out;
            },
        };
        let ghost ks = self@.keys_by_owner(account_id@);
        let (start, end) = page_bounds(keys.len(), from_index, limit);
        let mut i: usize = start;
        while i < end
            invariant
                self.wf(),
                ks == self@.keys_by_owner(account_id@),
                self@.by_owner_id.contains_key(account_id@),
                keys@ == ks,
                start <= i <= end <= ks.len(),
                out@.len() == i - start,
                forall|j: int|
                    0 <= j < out@.len() ==> (#[trigger] out@[j])@ == self@.sales[ks[start + j]],
            decreases end - i,
        {
            let key = keys.get(i);
            assert(index_has(self@.by_owner_id, account_id@, key@));
            assert(self@.sales.contains_key(key@));
            assert(self.sales@.contains_key(key@));
            let sale = self.sales.get(key).unwrap().duplicate();
            out.push(sale);
            i += 1;
        }
        assert(sales_seq(out@) =~= self@.page_by_owner(account_id@, from_index, limit));
        out
    }

    /// How many tokens of the registry `nft_contract_id` are listed.
    pub fn get_supply_by_nft_contract_id(&self, nft_contract_id: String) -> (n: u64)
        requires
            self.wf(),
        ensures
            n == index_count(self@.by_nft_contract_id, nft_contract_id@),
    {
        self.by_nft_contract_id.count(&nft_contract_id) as u64
    }

    /// The listings of the registry `nft_contract_id`, from position
    /// `from_index` on and at most `limit` of them; none where no limit is
    /// given.
    pub fn get_sales_by_nft_contract_id(
        &self,
        nft_contract_id: String,
        from_index: Option<u128>,
        limit: Option<u64>,
    ) -> (r: Vec<StructSale>)
        requires
            self.wf(),
        ensures
            sales_seq(r@) == self@.page_by_contract(nft_contract_id@, from_index, limit),
    {
        let mut out: Vec<StructSale> = Vec::new();
        let tokens = match self.by_nft_contract_id.get(&nft_contract_id) {
            Some(tokens) => tokens,
            None => {
                assert(sales_seq(out@) =~= self@.page_by_contract(
                    nft_contract_id@,
                    from_index,
                    limit,
                ));
                return out;
            },
        };
        let ghost ts = self@.tokens_by_contract(nft_contract_id@);
        let (start, end) = page_bounds(tokens.len(), from_index, limit);
        let mut i: usize = start;
        while i < end
            invariant
                self.wf(),
                ts == self@.tokens_by_contract(nft_contract_id@),
                self@.by_nft_contract_id.contains_key(nft_contract_id@),
                tokens@ == ts,
                start <= i <= end <= ts.len(),
                out@.len() == i - start,
                forall|j: int|
                    0 <= j < out@.len() ==> (#[trigger] out@[j])@ == self@.sales[(
                        nft_contract_id@,
                        ts[start + j],
                    )],
            decreases end - i,
        {
            let token_id = tokens.get(i);
            let key = SaleKey {
                nft_contract_id: nft_contract_id.duplicate(),
                token_id: token_id.duplicate(),
            };
            assert(index_has(self@.by_nft_contract_id, nft_contract_id@, token_id@));
            assert(self@.sales.contains_key(key@));
            assert(self.sales@.contains_key(key@));
            let sale = self.sales.get(&key).unwrap().duplicate();
            out.push(sale);
            i += 1;
        }
        assert(sales_seq(out@) =~= self@.page_by_contract(nft_contract_id@, from_index, limit));
        out
    }

    /// The listing of token `token_id` of the registry `nft_contract_id`.
    pub fn get_sales(&self, nft_contract_id: String, token_id: String) -> (r: Option<StructSale>)
        requires
            self.wf(),
        ensures
            sale_view(r) == self@.sale_of(nft_contract_id@, token_id@),
    {
        let key = SaleKey { nft_contract_id, token_id };
        match self.sale(&key) {
            Some(s) => Some(s.duplicate()),
            None => None,
        }
    }
}

} // verus!
