//! The marketplace: the listings, who listed what, which tokens of each
//! registry are listed, and what each account has prepaid for the storage of
//! its listings.

use crate::context::{payment_view, CallContext, Payment};
use crate::errors::ContractError;
use crate::names::{
    index_count, index_has, index_wf, index_with, index_without, key_seq, lemma_entry_lookup,
    lemma_index_with, lemma_index_without, lemma_key_has_entry, Index, Key, Name, Table,
};
use crate::rent::assert_one_yocto;
use vstd::prelude::*;

verus! {

/// The execution budget of the step that settles a purchase.
pub const GAS_FOR_ROYALTIES: u64 = 115_000_000_000_000;

/// The execution budget of the transfer that a purchase asks for.
pub const GAS_FOR_NFT_TRANSFER: u64 = 15_000_000_000_000;

/// What an account prepays for the storage of one listing: the price of a
/// thousand bytes.
pub const STORAGE_PER_SALE: u128 = 10_000_000_000_000_000_000_000;

/// The most recipients that the marketplace pays for one sale.
pub const MAX_PAYOUT_RECIPIENTS: u32 = 10;

/// What names a listing: the registry and the id of the token.
pub struct SaleKey {
    pub nft_contract_id: String,
    pub token_id: String,
}

impl View for SaleKey {
    type V = (Name, Name);

    open spec fn view(&self) -> (Name, Name) {
        (self.nft_contract_id@, self.token_id@)
    }
}

impl Key for SaleKey {
    fn same(&self, other: &Self) -> (b: bool) {
        self.nft_contract_id.same(&other.nft_contract_id) && self.token_id.same(&other.token_id)
    }

    fn duplicate(&self) -> (k: Self) {
        SaleKey {
            nft_contract_id: self.nft_contract_id.duplicate(),
            token_id: self.token_id.duplicate(),
        }
    }
}

/// A listing: who offers which token of which registry at what price, and
/// the id of the approval that lets the marketplace transfer it.
pub struct StructSale {
    pub owner_id: String,
    pub approval_id: u64,
    pub nft_contract_id: String,
    pub token_id: String,
    pub sale_conditions: u128,
}

/// The value of a listing.
pub struct SaleView {
    pub owner_id: Name,
    pub approval_id: u64,
    pub nft_contract_id: Name,
    pub token_id: Name,
    pub sale_conditions: u128,
}

impl View for StructSale {
    type V = SaleView;

    open spec fn view(&self) -> SaleView {
        SaleView {
            owner_id: self.owner_id@,
            approval_id: self.approval_id,
            nft_contract_id: self.nft_contract_id@,
            token_id: self.token_id@,
            sale_conditions: self.sale_conditions,
        }
    }
}

impl StructSale {
    /// A second listing with the same value.
    pub fn duplicate(&self) -> (s: StructSale)
        ensures
            s@ == self@,
    {
        StructSale {
            owner_id: self.owner_id.duplicate(),
            approval_id: self.approval_id,
            nft_contract_id: self.nft_contract_id.duplicate(),
            token_id: self.token_id.duplicate(),
            sale_conditions: self.sale_conditions,
        }
    }
}

/// The value of a listing that may be absent.
pub open spec fn sale_view(s: Option<StructSale>) -> Option<SaleView> {
    match s {
        Some(s) => Some(s@),
        None => None,
    }
}

/// The marketplace.
pub struct Contract {
    /// The account that the marketplace belongs to.
    pub owner_id: String,
    /// The listings.
    pub sales: Table<SaleKey, StructSale>,
    /// For each account the listings that it made.
    pub by_owner_id: Index<SaleKey>,
    /// For each registry the ids of its tokens that are listed.
    pub by_nft_contract_id: Index<String>,
    /// What each account has prepaid for storage.
    pub storage_deposits: Table<String, u128>,
}

/// The value of the marketplace.
pub struct MarketView {
    pub sales: Map<(Name, Name), SaleView>,
    pub by_owner_id: Map<Name, Seq<(Name, Name)>>,
    pub by_nft_contract_id: Map<Name, Seq<Name>>,
    pub storage_deposits: Map<Name, u128>,
}

/// The values of a table of listings.
pub open spec fn sales_view(m: Map<(Name, Name), StructSale>) -> Map<(Name, Name), SaleView> {
    m.map_values(|s: StructSale| s@)
}

impl MarketView {
    /// What `account` has prepaid.
    pub open spec fn balance_of(self, account: Name) -> u128 {
        if self.storage_deposits.contains_key(account) {
            self.storage_deposits[account]
        } else {
            0
        }
    }

    /// How many listings `account` has.
    pub open spec fn supply_by_owner(self, account: Name) -> nat {
        index_count(self.by_owner_id, account)
    }

    /// What the storage of the listings of `account` costs.
    pub open spec fn storage_in_use(self, account: Name) -> nat {
        self.supply_by_owner(account) * STORAGE_PER_SALE as nat
    }

    /// A listing is found under the registry and the token that it names;
    /// it is among the listings of an account exactly if that account made
    /// it; a token is among the listed tokens of a registry exactly if it
    /// is listed; no account and no registry is kept without listings; and
    /// each account has prepaid the storage of its listings.
    pub open spec fn wf(self) -> bool {
        &&& index_wf(self.by_owner_id)
        &&& index_wf(self.by_nft_contract_id)
        &&& forall|k: (Name, Name)| #[trigger]
            self.sales.contains_key(k) ==> self.sales[k].nft_contract_id == k.0
                && self.sales[k].token_id == k.1
        &&& forall|o: Name, k: (Name, Name)|
            index_has(self.by_owner_id, o, k) <==> (self.sales.contains_key(k)
                && self.sales[k].owner_id == o)
        &&& forall|c: Name, t: Name|
            index_has(self.by_nft_contract_id, c, t) <==> self.sales.contains_key((c, t))
        &&& forall|o: Name| #[trigger]
            self.by_owner_id.contains_key(o) ==> self.storage_in_use(o) <= self.balance_of(o)
    }

    /// The marketplace with the new listing `sale`.
    pub open spec fn listed(self, sale: SaleView) -> MarketView {
        let key = (sale.nft_contract_id, sale.token_id);
        MarketView {
            sales: self.sales.insert(key, sale),
            by_owner_id: index_with(self.by_owner_id, sale.owner_id, key),
            by_nft_contract_id: index_with(
                self.by_nft_contract_id,
                sale.nft_contract_id,
                sale.token_id,
            ),
            storage_deposits: self.storage_deposits,
        }
    }

    /// The marketplace without the listing `key`.
    pub open spec fn unlisted(self, key: (Name, Name)) -> MarketView {
        MarketView {
            sales: self.sales.remove(key),
            by_owner_id: index_without(self.by_owner_id, self.sales[key].owner_id, key),
            by_nft_contract_id: index_without(self.by_nft_contract_id, key.0, key.1),
            storage_deposits: self.storage_deposits,
        }
    }

    /// The marketplace with the listing `key` at the price `price`.
    pub open spec fn repriced(self, key: (Name, Name), price: u128) -> MarketView {
        MarketView {
            sales: self.sales.insert(key, SaleView { sale_conditions: price, ..self.sales[key] }),
            ..self
        }
    }

    /// The marketplace with `balance` as what `account` has prepaid.
    pub open spec fn with_balance(self, account: Name, balance: u128) -> MarketView {
        MarketView { storage_deposits: self.storage_deposits.insert(account, balance), ..self }
    }

    /// The marketplace with nothing prepaid by `account`.
    pub open spec fn without_balance(self, account: Name) -> MarketView {
        MarketView { storage_deposits: self.storage_deposits.remove(account), ..self }
    }
}

/// A new listing keeps the marketplace well formed where its owner has
/// prepaid for one listing more.
pub proof fn lemma_listed_wf(v: MarketView, sale: SaleView)
    requires
        v.wf(),
        !v.sales.contains_key((sale.nft_contract_id, sale.token_id)),
        (v.supply_by_owner(sale.owner_id) + 1) * STORAGE_PER_SALE as nat <= v.balance_of(
            sale.owner_id,
        ),
    ensures
        v.listed(sale).wf(),
        v.listed(sale).supply_by_owner(sale.owner_id) == v.supply_by_owner(sale.owner_id) + 1,
{
    let key = (sale.nft_contract_id, sale.token_id);
    let w = v.listed(sale);
    lemma_index_with(v.by_owner_id, sale.owner_id, key);
    lemma_index_with(v.by_nft_contract_id, sale.nft_contract_id, sale.token_id);
    assert(!index_has(v.by_owner_id, sale.owner_id, key));
    assert forall|o: Name, k: (Name, Name)|
        index_has(w.by_owner_id, o, k) <==> (w.sales.contains_key(k) && w.sales[k].owner_id
            == o) by {
        assert(index_has(w.by_owner_id, o, k) <==> (index_has(v.by_owner_id, o, k) || (o
            == sale.owner_id && k == key)));
        assert(index_has(v.by_owner_id, o, k) <==> (v.sales.contains_key(k) && v.sales[k].owner_id
            == o));
    }
    assert forall|c: Name, t: Name|
        index_has(w.by_nft_contract_id, c, t) <==> w.sales.contains_key((c, t)) by {
        assert(index_has(w.by_nft_contract_id, c, t) <==> (index_has(v.by_nft_contract_id, c, t)
            || (c == sale.nft_contract_id && t == sale.token_id)));
        assert(index_has(v.by_nft_contract_id, c, t) <==> v.sales.contains_key((c, t)));
    }
    assert forall|k: (Name, Name)| #[trigger] w.sales.contains_key(k) implies w.sales[k].nft_contract_id
        == k.0 && w.sales[k].token_id == k.1 by {
        if k != key {
            assert(v.sales.contains_key(k));
        }
    }
    assert forall|o: Name| #[trigger] w.by_owner_id.contains_key(o) implies w.storage_in_use(o)
        <= w.balance_of(o) by {
        if o != sale.owner_id {
            assert(v.by_owner_id.contains_key(o));
        }
    }
}

/// Taking a listing away keeps the marketplace well formed.
pub proof fn lemma_unlisted_wf(v: MarketView, key: (Name, Name))
    requires
        v.wf(),
        v.sales.contains_key(key),
    ensures
        v.unlisted(key).wf(),
{
    let w = v.unlisted(key);
    let owner = v.sales[key].owner_id;
    lemma_index_without(v.by_owner_id, owner, key);
    lemma_index_without(v.by_nft_contract_id, key.0, key.1);
    assert forall|o: Name, k: (Name, Name)|
        index_has(w.by_owner_id, o, k) <==> (w.sales.contains_key(k) && w.sales[k].owner_id
            == o) by {
        assert(index_has(w.by_owner_id, o, k) <==> (index_has(v.by_owner_id, o, k) && !(o == owner
            && k == key)));
        assert(index_has(v.by_owner_id, o, k) <==> (v.sales.contains_key(k) && v.sales[k].owner_id
            == o));
    }
    assert forall|c: Name, t: Name|
        index_has(w.by_nft_contract_id, c, t) <==> w.sales.contains_key((c, t)) by {
        assert(index_has(w.by_nft_contract_id, c, t) <==> (index_has(v.by_nft_contract_id, c, t)
            && !(c == key.0 && t == key.1)));
        assert(index_has(v.by_nft_contract_id, c, t) <==> v.sales.contains_key((c, t)));
    }
    assert forall|k: (Name, Name)| #[trigger] w.sales.contains_key(k) implies w.sales[k].nft_contract_id
        == k.0 && w.sales[k].token_id == k.1 by {
        assert(v.sales.contains_key(k));
    }
    assert(index_has(v.by_owner_id, owner, key));
    assert forall|o: Name| #[trigger] w.by_owner_id.contains_key(o) implies w.storage_in_use(o)
        <= w.balance_of(o) by {
        assert(v.by_owner_id.contains_key(o));
        if o == owner {
            let before = v.by_owner_id[owner];
            assert(index_count(w.by_owner_id, owner) <= index_count(v.by_owner_id, owner));
            assert(w.by_owner_id[o].len() * STORAGE_PER_SALE as nat <= before.len()
                * STORAGE_PER_SALE as nat) by (nonlinear_arith)
                requires
                    w.by_owner_id[o].len() <= before.len(),
            ;
        }
    }
}

/// A new price keeps the marketplace well formed.
pub proof fn lemma_repriced_wf(v: MarketView, key: (Name, Name), price: u128)
    requires
        v.wf(),
        v.sales.contains_key(key),
    ensures
        v.repriced(key, price).wf(),
{
    let w = v.repriced(key, price);
    assert forall|o: Name, k: (Name, Name)|
        index_has(w.by_owner_id, o, k) <==> (w.sales.contains_key(k) && w.sales[k].owner_id
            == o) by {
        assert(index_has(v.by_owner_id, o, k) <==> (v.sales.contains_key(k) && v.sales[k].owner_id
            == o));
    }
    assert forall|c: Name, t: Name|
        index_has(w.by_nft_contract_id, c, t) <==> w.sales.contains_key((c, t)) by {
        assert(index_has(v.by_nft_contract_id, c, t) <==> v.sales.contains_key((c, t)));
    }
    assert forall|k: (Name, Name)| #[trigger] w.sales.contains_key(k) implies w.sales[k].nft_contract_id
        == k.0 && w.sales[k].token_id == k.1 by {
        if k != key {
            assert(v.sales.contains_key(k));
        }
    }
    assert forall|o: Name| #[trigger] w.by_owner_id.contains_key(o) implies w.storage_in_use(o)
        <= w.balance_of(o) by {
        assert(v.by_owner_id.contains_key(o));
    }
}

impl View for Contract {
    type V = MarketView;

    open spec fn view(&self) -> MarketView {
        MarketView {
            sales: sales_view(self.sales@),
            by_owner_id: self.by_owner_id@,
            by_nft_contract_id: self.by_nft_contract_id@,
            storage_deposits: self.storage_deposits@,
        }
    }
}

impl Contract {
    /// The tables are well formed, and so is the marketplace's value.
    pub open spec fn wf(&self) -> bool {
        &&& self.sales.wf()
        &&& self.by_owner_id.wf()
        &&& self.by_nft_contract_id.wf()
        &&& self.storage_deposits.wf()
        &&& self@.wf()
    }

    /// Whether each listing names its registry and its token as its key
    /// does, and is among the listings of its owner and among the listed
    /// tokens of its registry.
    fn sales_listed(&self) -> (b: bool)
        requires
            self.sales.wf(),
            self.by_owner_id.wf(),
            self.by_nft_contract_id.wf(),
        ensures
            b == (forall|k: (Name, Name)| #[trigger]
                self@.sales.contains_key(k) ==> self@.sales[k].nft_contract_id == k.0
                    && self@.sales[k].token_id == k.1 && index_has(
                    self@.by_owner_id,
                    self@.sales[k].owner_id,
                    k,
                ) && index_has(self@.by_nft_contract_id, k.0, k.1)),
    {
        let ghost entries = self.sales.entries();
        let ghost v = self@;
        let n: usize = self.sales.len();
        let mut i: usize = 0;
        while i < n
            invariant
                self.sales.wf(),
                self.by_owner_id.wf(),
                self.by_nft_contract_id.wf(),
                entries == self.sales.entries(),
                v == self@,
                n == entries.len(),
                i <= n,
                forall|j: int|
                    0 <= j < i ==> (#[trigger] entries[j]).1@.nft_contract_id == entries[j].0.0
                        && entries[j].1@.token_id == entries[j].0.1 && index_has(
                        v.by_owner_id,
                        entries[j].1@.owner_id,
                        entries[j].0,
                    ) && index_has(v.by_nft_contract_id, entries[j].0.0, entries[j].0.1),
            decreases n - i,
        {
            let key = self.sales.key_at(i);
            let sale = self.sales.value_at(i);
            let named = sale.nft_contract_id.same(&key.nft_contract_id) && sale.token_id.same(
                &key.token_id,
            );
            let by_owner = match self.by_owner_id.get(&sale.owner_id) {
                Some(keys) => keys.contains(key),
                None => false,
            };
            let by_contract = match self.by_nft_contract_id.get(&key.nft_contract_id) {
                Some(tokens) => tokens.contains(&key.token_id),
                None => false,
            };
            if !(named && by_owner && by_contract) {
                proof {
                    lemma_entry_lookup(entries, i as int);
                    assert(v.sales.contains_key(key@));
                    assert(v.sales[key@] == sale@);
                }
                return false;
            }
            i += 1;
        }
        proof {
            assert forall|k: (Name, Name)| #[trigger]
                v.sales.contains_key(k) implies v.sales[k].nft_contract_id == k.0
                && v.sales[k].token_id == k.1 && index_has(v.by_owner_id, v.sales[k].owner_id, k)
                && index_has(v.by_nft_contract_id, k.0, k.1) by {
                assert(self.sales@.contains_key(k));
                lemma_key_has_entry(entries, k);
                let j = key_seq(entries).index_of(k);
                assert(entries[j].1@.nft_contract_id == entries[j].0.0);
            }
        }
        true
    }

    /// Whether what is among the listings of an account is a listing that
    /// this account made.
    fn owners_listed(&self) -> (b: bool)
        requires
            self.sales.wf(),
            self.by_owner_id.wf(),
        ensures
            b == (forall|o: Name, k: (Name, Name)|
                index_has(self@.by_owner_id, o, k) ==> self@.sales.contains_key(k)
                    && self@.sales[k].owner_id == o),
    {
        let ghost index = self@.by_owner_id;
        let ghost sales = self@.sales;
        let ghost owners = self.by_owner_id.owners();
        let n: usize = self.by_owner_id.len();
        let mut i: usize = 0;
        while i < n
            invariant
                self.sales.wf(),
                self.by_owner_id.wf(),
                index == self@.by_owner_id,
                sales == self@.sales,
                owners == self.by_owner_id.owners(),
                n == owners.len(),
                i <= n,
                forall|a: int, k: (Name, Name)|
                    0 <= a < i && #[trigger] index_has(index, owners[a], k) ==> sales.contains_key(
                        k,
                    ) && sales[k].owner_id == owners[a],
            decreases n - i,
        {
            let owner = self.by_owner_id.owner_at(i);
            let members = self.by_owner_id.members_at(i);
            let m: usize = members.len();
            let mut j: usize = 0;
            while j < m
                invariant
                    self.sales.wf(),
                    self.by_owner_id.wf(),
                    index == self@.by_owner_id,
                    sales == self@.sales,
                    owners == self.by_owner_id.owners(),
                    i < owners.len(),
                    owner@ == owners[i as int],
                    index.contains_key(owner@),
                    members@ == index[owner@],
                    m == members@.len(),
                    j <= m,
                    forall|c: int|
                        0 <= c < j ==> sales.contains_key(#[trigger] members@[c])
                            && sales[members@[c]].owner_id == owner@,
                decreases m - j,
            {
                let key = members.get(j);
                let owned = match self.sales.get(key) {
                    Some(sale) => sale.owner_id.same(owner),
                    None => false,
                };
                if !owned {
                    proof {
                        assert(index_has(index, owner@, key@));
                        if self.sales@.contains_key(key@) {
                            assert(sales.contains_key(key@));
                        }
                    }
                    return false;
                }
                proof {
                    assert(sales.contains_key(key@));
                }
                j += 1;
            }
            proof {
                assert forall|k: (Name, Name)| #[trigger]
                    index_has(index, owners[i as int], k) implies sales.contains_key(k)
                    && sales[k].owner_id == owners[i as int] by {
                    let c = choose|c: int| 0 <= c < members@.len() && members@[c] == k;
                    assert(sales.contains_key(members@[c]));
                }
            }
            i += 1;
        }
        proof {
            assert forall|o: Name, k: (Name, Name)| index_has(index, o, k) implies sales.contains_key(
                k,
            ) && sales[k].owner_id == o by {
                assert(owners.contains(o));
                let a = choose|a: int| 0 <= a < owners.len() && owners[a] == o;
                assert(index_has(index, owners[a], k));
            }
        }
        true
    }

    /// Whether what is among the listed tokens of a registry is listed.
    fn contracts_listed(&self) -> (b: bool)
        requires
            self.sales.wf(),
            self.by_nft_contract_id.wf(),
        ensures
            b == (forall|c: Name, t: Name|
                index_has(self@.by_nft_contract_id, c, t) ==> self@.sales.contains_key((c, t))),
    {
        let ghost index = self@.by_nft_contract_id;
        let ghost sales = self@.sales;
        let ghost owners = self.by_nft_contract_id.owners();
        let n: usize = self.by_nft_contract_id.len();
        let mut i: usize = 0;
        while i < n
            invariant
                self.sales.wf(),
                self.by_nft_contract_id.wf(),
                index == self@.by_nft_contract_id,
                sales == self@.sales,
                owners == self.by_nft_contract_id.owners(),
                n == owners.len(),
                i <= n,
                forall|a: int, t: Name|
                    0 <= a < i && #[trigger] index_has(index, owners[a], t) ==> sales.contains_key(
                        (owners[a], t),
                    ),
            decreases n - i,
        {
            let contract = self.by_nft_contract_id.owner_at(i);
            let members = self.by_nft_contract_id.members_at(i);
            let m: usize = members.len();
            let mut j: usize = 0;
            while j < m
                invariant
                    self.sales.wf(),
                    self.by_nft_contract_id.wf(),
                    index == self@.by_nft_contract_id,
                    sales == self@.sales,
                    owners == self.by_nft_contract_id.owners(),
                    i < owners.len(),
                    contract@ == owners[i as int],
                    index.contains_key(contract@),
                    members@ == index[contract@],
                    m == members@.len(),
                    j <= m,
                    forall|c: int|
                        0 <= c < j ==> sales.contains_key((contract@, #[trigger] members@[c])),
                decreases m - j,
            {
                let token_id = members.get(j);
                let key = SaleKey {
                    nft_contract_id: contract.duplicate(),
                    token_id: token_id.duplicate(),
                };
                if !self.sales.contains_key(&key) {
                    proof {
                        assert(index_has(index, contract@, token_id@));
                        assert(!sales.contains_key((contract@, token_id@)));
                    }
                    return false;
                }
                proof {
                    assert(sales.contains_key(key@));
                }
                j += 1;
            }
            proof {
                assert forall|t: Name| #[trigger]
                    index_has(index, owners[i as int], t) implies sales.contains_key(
                    (owners[i as int], t),
                ) by {
                    let c = choose|c: int| 0 <= c < members@.len() && members@[c] == t;
                    assert(sales.contains_key((contract@, members@[c])));
                }
            }
            i += 1;
        }
        proof {
            assert forall|c: Name, t: Name| index_has(index, c, t) implies sales.contains_key(
                (c, t),
            ) by {
                assert(owners.contains(c));
                let a = choose|a: int| 0 <= a < owners.len() && owners[a] == c;
                assert(index_has(index, owners[a], t));
            }
        }
        true
    }

    /// Whether each account has prepaid the storage of its listings.
    fn storage_prepaid(&self) -> (b: bool)
        requires
            self.by_owner_id.wf(),
            self.storage_deposits.wf(),
        ensures
            b == (forall|o: Name| #[trigger]
                self@.by_owner_id.contains_key(o) ==> self@.storage_in_use(o) <= self@.balance_of(
                    o,
                )),
    {
        let ghost v = self@;
        let ghost owners = self.by_owner_id.owners();
        let n: usize = self.by_owner_id.len();
        let mut i: usize = 0;
        while i < n
            invariant
                self.by_owner_id.wf(),
                self.storage_deposits.wf(),
                v == self@,
                owners == self.by_owner_id.owners(),
                n == owners.len(),
                i <= n,
                forall|a: int|
                    0 <= a < i ==> v.storage_in_use(#[trigger] owners[a]) <= v.balance_of(owners[a]),
            decreases n - i,
        {
            let owner = self.by_owner_id.owner_at(i);
            let count: usize = self.by_owner_id.members_at(i).len();
            let balance: u128 = self.balance(owner);
            let covered = match (count as u128).checked_mul(STORAGE_PER_SALE) {
                Some(in_use) => in_use <= balance,
                None => false,
            };
            assert(v.storage_in_use(owner@) == count * STORAGE_PER_SALE);
            if !covered {
                return false;
            }
            i += 1;
        }
        proof {
            assert forall|o: Name| #[trigger] v.by_owner_id.contains_key(o) implies v.storage_in_use(
                o,
            ) <= v.balance_of(o) by {
                assert(owners.contains(o));
                let a = choose|a: int| 0 <= a < owners.len() && owners[a] == o;
                assert(v.storage_in_use(owners[a]) <= v.balance_of(owners[a]));
            }
        }
        true
    }

    /// Whether the marketplace is well formed.
    pub fn is_valid(&self) -> (b: bool)
        ensures
            b == self.wf(),
    {
        if !(self.sales.is_valid() && self.by_owner_id.is_valid()
            && self.by_nft_contract_id.is_valid() && self.storage_deposits.is_valid()) {
            return false;
        }
        let listed = self.sales_listed();
        let owners = self.owners_listed();
        let contracts = self.contracts_listed();
        let prepaid = self.storage_prepaid();
        proof {
            let v = self@;
            if v.wf() {
                assert forall|k: (Name, Name)| #[trigger]
                    v.sales.contains_key(k) implies v.sales[k].nft_contract_id == k.0
                    && v.sales[k].token_id == k.1 && index_has(
                    v.by_owner_id,
                    v.sales[k].owner_id,
                    k,
                ) && index_has(v.by_nft_contract_id, k.0, k.1) by {}
            }
            if listed && owners && contracts && prepaid {
                assert forall|c: Name, t: Name|
                    index_has(v.by_nft_contract_id, c, t) <==> v.sales.contains_key((c, t)) by {
                    if v.sales.contains_key((c, t)) {
                        assert(index_has(v.by_nft_contract_id, (c, t).0, (c, t).1));
                    }
                }
            }
        }
        listed && owners && contracts && prepaid
    }

    /// A marketplace without listings that belongs to `owner_id`.
    pub fn new(owner_id: String) -> (c: Contract)
        ensures
            c.wf(),
            c.owner_id == owner_id,
            c@.sales == Map::<(Name, Name), SaleView>::empty(),
            c@.by_owner_id == Map::<Name, Seq<(Name, Name)>>::empty(),
            c@.by_nft_contract_id == Map::<Name, Seq<Name>>::empty(),
            c@.storage_deposits == Map::<Name, u128>::empty(),
    {
        let c = Contract {
            owner_id,
            sales: Table::new(),
            by_owner_id: Index::new(),
            by_nft_contract_id: Index::new(),
            storage_deposits: Table::new(),
        };
        assert(c@.sales =~= Map::<(Name, Name), SaleView>::empty());
        c
    }
}


/// A balance that covers the listings of its account keeps the marketplace
/// well formed.
pub proof fn lemma_with_balance_wf(v: MarketView, account: Name, balance: u128)
    requires
        v.wf(),
        v.storage_in_use(account) <= balance,
    ensures
        v.with_balance(account, balance).wf(),
{
    let w = v.with_balance(account, balance);
    assert forall|o: Name| #[trigger] w.by_owner_id.contains_key(o) implies w.storage_in_use(o)
        <= w.balance_of(o) by {
        assert(v.by_owner_id.contains_key(o));
    }
}

/// An account without listings needs no balance.
pub proof fn lemma_without_balance_wf(v: MarketView, account: Name)
    requires
        v.wf(),
        v.supply_by_owner(account) == 0,
    ensures
        v.without_balance(account).wf(),
{
    let w = v.without_balance(account);
    assert forall|o: Name| #[trigger] w.by_owner_id.contains_key(o) implies w.storage_in_use(o)
        <= w.balance_of(o) by {
        assert(v.by_owner_id.contains_key(o));
    }
}

/// The account that a deposit is for: the one named, or the caller.
pub open spec fn deposit_account(ctx: &CallContext, account_id: Option<String>) -> Name {
    match account_id {
        Some(a) => a@,
        None => ctx.predecessor_account_id@,
    }
}

impl MarketView {
    /// Why a deposit fails, if it fails: it does not cover one listing, or
    /// the balance would leave the range of amounts.
    pub open spec fn deposit_error(self, ctx: &CallContext, account: Name) -> Option<
        ContractError,
    > {
        if ctx.attached_deposit < STORAGE_PER_SALE {
            Some(ContractError::InsufficientPayment)
        } else if self.balance_of(account) + ctx.attached_deposit > u128::MAX {
            Some(ContractError::BalanceOverflow)
        } else {
            None
        }
    }

    /// The marketplace after `account` took out what it has prepaid beyond
    /// the storage of its listings.
    pub open spec fn withdrawn(self, account: Name) -> MarketView {
        if self.storage_in_use(account) > 0 {
            self.with_balance(account, self.storage_in_use(account) as u128)
        } else {
            self.without_balance(account)
        }
    }

    /// What `account` gets when it takes out its excess.
    pub open spec fn excess(self, account: Name) -> Option<(Name, u128)> {
        if self.balance_of(account) - self.storage_in_use(account) > 0 {
            Some((account, (self.balance_of(account) - self.storage_in_use(account)) as u128))
        } else {
            None
        }
    }
}

impl Contract {
    /// Adds the payment attached to what `account_id`, or the caller where
    /// no account is named, has prepaid for storage. The payment covers at
    /// least one listing.
    pub fn storage_deposits(&mut self, ctx: &CallContext, account_id: Option<String>) -> (r:
        Result<(), ContractError>)
        requires
            old(self).wf(),
        ensures
            final(self).wf(),
            match r {
                Ok(_) => {
                    let account = deposit_account(ctx, account_id);
                    &&& old(self)@.deposit_error(ctx, account) is None
                    &&& final(self)@ == old(self)@.with_balance(
                        account,
                        (old(self)@.balance_of(account) + ctx.attached_deposit) as u128,
                    )
                    &&& final(self).owner_id == old(self).owner_id
                },
                Err(e) => {
                    &&& old(self)@.deposit_error(ctx, deposit_account(ctx, account_id)) == Some(e)
                    &&& *final(self) == *old(self)
                },
            },
    {
        let storage_account_id = match account_id {
            Some(a) => a,
            None => ctx.predecessor_account_id.duplicate(),
        };
        if ctx.attached_deposit < STORAGE_PER_SALE {
            return Err(ContractError::InsufficientPayment);
        }
        let balance: u128 = self.balance(&storage_account_id);
        match balance.checked_add(ctx.attached_deposit) {
            None => Err(ContractError::BalanceOverflow),
            Some(sum) => {
                proof {
                    if self@.by_owner_id.contains_key(storage_account_id@) {
                    } else {
                        assert(self@.storage_in_use(storage_account_id@) == 0);
                    }
                    lemma_with_balance_wf(self@, storage_account_id@, sum);
                }
                self.storage_deposits.insert(storage_account_id, sum);
                Ok(())
            },
        }
    }

    /// Gives back to the caller what it has prepaid beyond the storage of
    /// its listings. The call comes with one unit of payment.
    pub fn storage_withdraw(&mut self, ctx: &CallContext) -> (r: Result<
        Option<Payment>,
        ContractError,
    >)
        requires
            old(self).wf(),
        ensures
            final(self).wf(),
            match r {
                Ok(p) => {
                    &&& ctx.attached_deposit == 1
                    &&& final(self)@ == old(self)@.withdrawn(ctx.predecessor_account_id@)
                    &&& payment_view(p) == old(self)@.excess(ctx.predecessor_account_id@)
                    &&& final(self).owner_id == old(self).owner_id
                },
                Err(e) => {
                    &&& ctx.attached_deposit != 1
                    &&& e == ContractError::OneYoctoRequired
                    &&& *final(self) == *old(self)
                },
            },
    {
        match assert_one_yocto(ctx) {
            Err(e) => {
                return Err(e);
            },
            Ok(_) => {},
        }
        let owner_id = &ctx.predecessor_account_id;
        let amount: u128 = self.balance(owner_id);
        let len: usize = self.by_owner_id.count(owner_id);
        proof {
            if self@.by_owner_id.contains_key(owner_id@) {
            } else {
                assert(self@.storage_in_use(owner_id@) == 0);
            }
            assert(self@.storage_in_use(owner_id@) == len * STORAGE_PER_SALE);
        }
        let diff: u128 = match (len as u128).checked_mul(STORAGE_PER_SALE) {
            Some(d) => d,
            None => {
                proof {
                    assert(false);
                }
                0
            },
        };
        let excess: u128 = amount - diff;
        if diff > 0 {
            proof {
                lemma_with_balance_wf(self@, owner_id@, diff);
            }
            self.storage_deposits.insert(owner_id.duplicate(), diff);
        } else {
            proof {
                assert(len == 0) by (nonlinear_arith)
                    requires
                        len * STORAGE_PER_SALE == 0,
                        STORAGE_PER_SALE > 0,
                ;
                lemma_without_balance_wf(self@, owner_id@);
            }
            self.storage_deposits.remove(owner_id);
        }
        if excess > 0 {
            Ok(Some(Payment { receiver_id: owner_id.duplicate(), amount: excess }))
        } else {
            Ok(None)
        }
    }

    /// What an account prepays for the storage of one listing.
    pub fn storage_minimum_balance(&self) -> (r: u128)
        ensures
            r == STORAGE_PER_SALE,
    {
        STORAGE_PER_SALE
    }

    /// What `account_id` has prepaid for storage.
    pub fn storage_balance_of(&self, account_id: String) -> (r: u128)
        requires
            self.wf(),
        ensures
            r == self@.balance_of(account_id@),
    {
        self.balance(&account_id)
    }

    /// What `account_id` has prepaid for storage.
    pub(crate) fn balance(&self, account_id: &String) -> (r: u128)
        requires
            self.storage_deposits.wf(),
        ensures
            r == self@.balance_of(account_id@),
    {
        match self.storage_deposits.get(account_id) {
            Some(b) => *b,
            None => 0,
        }
    }
}

} // verus!
