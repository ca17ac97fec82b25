//! The life of a listing after it was made: it is taken back, it gets a new
//! price, or it is bought; and the purchase, which asks the registry for
//! the transfer and pays out once the registry has answered.

use crate::context::{payments_view, CallContext, Payment};
use crate::errors::ContractError;
use crate::market::{
    lemma_repriced_wf, lemma_unlisted_wf, Contract, MarketView, SaleKey, SaleView,
    StructSale, GAS_FOR_NFT_TRANSFER, GAS_FOR_ROYALTIES, MAX_PAYOUT_RECIPIENTS,
};
use crate::names::{Key, Name, Table};
use crate::rent::assert_one_yocto;
use crate::royalty::{total_paid, Payout};
use vstd::prelude::*;

verus! {

/// What goes with the transfer that a purchase asks for.
pub const PURCHASE_MEMO: &'static str = "payout from market";

/// The request that a purchase sends to the registry, and what the step
/// that settles the purchase is to be called with once the registry has
/// answered.
pub struct PurchaseRequest {
    /// The registry to ask.
    pub nft_contract_id: String,
    /// The account that the token goes to: the buyer.
    pub receiver_id: String,
    pub token_id: String,
    /// The approval under which the marketplace transfers the token.
    pub approval_id: u64,
    pub memo: String,
    /// The amount to split.
    pub balance: u128,
    /// The most recipients that the split may name.
    pub max_len_payout: u32,
    /// The payment that goes with the request.
    pub deposit: u128,
    /// The execution budget of the request.
    pub gas: u64,
    /// The buyer, for the settling step.
    pub buyer_id: String,
    /// The amount that the buyer paid, for the settling step.
    pub price: u128,
    /// The execution budget of the settling step.
    pub resolve_gas: u64,
}

/// The value of a request.
pub struct PurchaseRequestView {
    pub nft_contract_id: Name,
    pub receiver_id: Name,
    pub token_id: Name,
    pub approval_id: u64,
    pub memo: Name,
    pub balance: u128,
    pub max_len_payout: u32,
    pub deposit: u128,
    pub gas: u64,
    pub buyer_id: Name,
    pub price: u128,
    pub resolve_gas: u64,
}

impl View for PurchaseRequest {
    type V = PurchaseRequestView;

    open spec fn view(&self) -> PurchaseRequestView {
        PurchaseRequestView {
            nft_contract_id: self.nft_contract_id@,
            receiver_id: self.receiver_id@,
            token_id: self.token_id@,
            approval_id: self.approval_id,
            memo: self.memo@,
            balance: self.balance,
            max_len_payout: self.max_len_payout,
            deposit: self.deposit,
            gas: self.gas,
            buyer_id: self.buyer_id@,
            price: self.price,
            resolve_gas: self.resolve_gas,
        }
    }
}

/// The request for the purchase of the listing `sale` by `buyer` for
/// `price`.
pub open spec fn purchase_request(sale: SaleView, buyer: Name, price: u128)
    -> PurchaseRequestView {
    PurchaseRequestView {
        nft_contract_id: sale.nft_contract_id,
        receiver_id: buyer,
        token_id: sale.token_id,
        approval_id: sale.approval_id,
        memo: PURCHASE_MEMO@,
        balance: price,
        max_len_payout: MAX_PAYOUT_RECIPIENTS,
        deposit: 1,
        gas: GAS_FOR_NFT_TRANSFER,
        buyer_id: buyer,
        price,
        resolve_gas: GAS_FOR_ROYALTIES,
    }
}

/// What the settling step hands back: the amount that the buyer paid, and
/// the payments to make.
pub struct Settlement {
    pub price: u128,
    pub payments: Vec<Payment>,
}

/// The marketplace pays a split out: it names one to ten recipients, and
/// its sum is the price, or one unit off.
pub open spec fn payout_accepted(payout: Seq<(Name, u128)>, price: u128) -> bool {
    &&& 0 < payout.len() <= MAX_PAYOUT_RECIPIENTS
    &&& price - 1 <= total_paid(payout) <= price + 1
}

/// The value of a split that may be absent.
pub open spec fn payout_view(payout: Option<Payout>) -> Option<Seq<(Name, u128)>> {
    match payout {
        Some(p) => Some(p@),
        None => None,
    }
}

/// The payments that settle a purchase: the split where there is one and
/// the marketplace pays it out; else the price, back to the buyer.
pub open spec fn settlement(buyer: Name, price: u128, payout: Option<Seq<(Name, u128)>>) -> Seq<
    (Name, u128),
> {
    match payout {
        Some(p) => if payout_accepted(p, price) {
            p
        } else {
            seq![(buyer, price)]
        },
        None => seq![(buyer, price)],
    }
}

impl MarketView {
    /// Why the owner's call on the listing `key` fails, if it fails.
    pub open spec fn owner_call_error(self, ctx: &CallContext, key: (Name, Name)) -> Option<
        ContractError,
    > {
        if ctx.attached_deposit != 1 {
            Some(ContractError::OneYoctoRequired)
        } else if !self.sales.contains_key(key) {
            Some(ContractError::NoSale)
        } else if ctx.predecessor_account_id@ != self.sales[key].owner_id {
            Some(ContractError::NotSaleOwner)
        } else {
            None
        }
    }

    /// Why an offer on the listing `key` fails, if it fails.
    pub open spec fn offer_error(self, ctx: &CallContext, key: (Name, Name)) -> Option<
        ContractError,
    > {
        if ctx.attached_deposit == 0 {
            Some(ContractError::DepositTooLow)
        } else if !self.sales.contains_key(key) {
            Some(ContractError::NoSale)
        } else if ctx.predecessor_account_id@ == self.sales[key].owner_id {
            Some(ContractError::SelfTrade)
        } else if ctx.attached_deposit < self.sales[key].sale_conditions {
            Some(ContractError::DepositTooLow)
        } else {
            None
        }
    }

    /// Why a purchase of the listing `key` fails, if it fails.
    pub open spec fn purchase_error(self, ctx: &CallContext, key: (Name, Name)) -> Option<
        ContractError,
    > {
        if !ctx.is_self_call() {
            Some(ContractError::Unauthorized)
        } else if !self.sales.contains_key(key) {
            Some(ContractError::NoSale)
        } else {
            None
        }
    }
}

/// The sum of the amounts of `payout` is `price` or one unit off.
pub fn sums_to(payout: &Table<String, u128>, price: u128) -> (b: bool)
    requires
        payout.wf(),
    ensures
        b == (price - 1 <= total_paid(payout.entries()) <= price + 1),
{
    let ghost entries = payout.entries();
    let n: usize = payout.len();
    let mut left: u128 = price;
    let mut over: bool = false;
    let mut i: usize = 0;
    assert(entries.take(0) =~= Seq::empty());
    while i < n
        invariant
            payout.wf(),
            entries == payout.entries(),
            n == entries.len(),
            i <= n,
            over ==> left == 0,
            total_paid(entries.take(i as int)) == price - left + (if over {
                1int
            } else {
                0int
            }),
        decreases n - i,
    {
        let amount: u128 = *payout.value_at(i);
        proof {
            assert(entries.take(i + 1).drop_last() =~= entries.take(i as int));
            assert(entries.take(i + 1).last() == entries[i as int]);
            lemma_total_paid_prefix(entries, i + 1);
        }
        if amount <= left {
            left = left - amount;
        } else if !over && amount - left == 1 {
            left = 0;
            over = true;
        } else {
            return false;
        }
        i += 1;
    }
    assert(entries.take(n as int) =~= entries);
    over || left <= 1
}

/// The sum of a prefix is at most the sum of the whole.
pub proof fn lemma_total_paid_prefix(payouts: Seq<(Name, u128)>, i: int)
    requires
        0 <= i <= payouts.len(),
    ensures
        total_paid(payouts.take(i)) <= total_paid(payouts),
    decreases payouts.len() - i,
{
    if i == payouts.len() {
        assert(payouts.take(i) =~= payouts);
    } else {
        lemma_total_paid_prefix(payouts, i + 1);
        assert(payouts.take(i + 1).drop_last() =~= payouts.take(i));
    }
}

/// The payments of a split, one for each recipient.
pub fn payments_of(payout: &Table<String, u128>) -> (r: Vec<Payment>)
    requires
        payout.wf(),
    ensures
        payments_view(r@) == payout.entries(),
{
    let mut out: Vec<Payment> = Vec::new();
    let n: usize = payout.len();
    let mut i: usize = 0;
    while i < n
        invariant
            payout.wf(),
            n == payout.entries().len(),
            i <= n,
            out@.len() == i,
            forall|j: int| 0 <= j < i ==> (#[trigger] out@[j])@ == payout.entries()[j],
        decreases n - i,
    {
        out.push(
            Payment { receiver_id: payout.key_at(i).duplicate(), amount: *payout.value_at(i) },
        );
        i += 1;
    }
    assert(payments_view(out@) =~= payout.entries());
    out
}

impl Contract {
    /// The listing of token `token_id` of the registry `nft_contract_id`.
    pub fn sale(&self, key: &SaleKey) -> (r: Option<&StructSale>)
        requires
            self.wf(),
        ensures
            match r {
                Some(s) => self@.sales.contains_key(key@) && s@ == self@.sales[key@],
                None => !self@.sales.contains_key(key@),
            },
    {
        let r = self.sales.get(key);
        proof {
            if self.sales@.contains_key(key@) {
                assert(self@.sales.contains_key(key@));
            }
        }
        r
    }

    /// Takes the listing of token `token_id` of the registry
    /// `nft_contract_id` away and returns it.
    pub(crate) fn internal_remove_sale(&mut self, nft_contract_id: String, token_id: String) -> (r:
        Result<StructSale, ContractError>)
        requires
            old(self).wf(),
        ensures
            final(self).wf(),
            match r {
                Ok(sale) => {
                    &&& old(self)@.sales.contains_key((nft_contract_id@, token_id@))
                    &&& sale@ == old(self)@.sales[(nft_contract_id@, token_id@)]
                    &&& final(self)@ == old(self)@.unlisted((nft_contract_id@, token_id@))
                    &&& final(self).owner_id == old(self).owner_id
                },
                Err(e) => {
                    &&& !old(self)@.sales.contains_key((nft_contract_id@, token_id@))
                    &&& e == ContractError::NoSale
                    &&& *final(self) == *old(self)
                },
            },
    {
        let key = SaleKey { nft_contract_id, token_id };
        if self.sale(&key).is_none() {
            return Err(ContractError::NoSale);
        }
        let ghost before = self@;
        proof {
            lemma_unlisted_wf(before, key@);
            assert(self.sales@.contains_key(key@));
        }
        let sale = self.sales.remove(&key).unwrap();
        self.by_owner_id.remove(&sale.owner_id, &key);
        self.by_nft_contract_id.remove(&key.nft_contract_id, &key.token_id);
        assert(self@.sales =~= before.unlisted(key@).sales);
        Ok(sale)
    }

    /// Takes a listing back. Only its owner may do so, with one unit of
    /// payment attached.
    pub fn remove_sale(&mut self, ctx: &CallContext, nft_contract_id: String, token_id: String)
        -> (r: Result<(), ContractError>)
        requires
            old(self).wf(),
        ensures
            final(self).wf(),
            match r {
                Ok(_) => {
                    &&& old(self)@.owner_call_error(ctx, (nft_contract_id@, token_id@)) is None
                    &&& final(self)@ == old(self)@.unlisted((nft_contract_id@, token_id@))
                    &&& final(self).owner_id == old(self).owner_id
                },
                Err(e) => {
                    &&& old(self)@.owner_call_error(ctx, (nft_contract_id@, token_id@)) == Some(e)
                    &&& *final(self) == *old(self)
                },
            },
    {
        match assert_one_yocto(ctx) {
            Err(e) => {
                return Err(e);
            },
            Ok(_) => {},
        }
        let key = SaleKey { nft_contract_id, token_id };
        match self.sale(&key) {
            None => {
                return Err(ContractError::NoSale);
            },
            Some(sale) => {
                if !ctx.predecessor_account_id.same(&sale.owner_id) {
                    return Err(ContractError::NotSaleOwner);
                }
            },
        }
        match self.internal_remove_sale(key.nft_contract_id, key.token_id) {
            Ok(_) => Ok(()),
            Err(e) => Err(e),
        }
    }

    /// Gives a listing a new price. Only its owner may do so, with one
    /// unit of payment attached.
    pub fn update_price(
        &mut self,
        ctx: &CallContext,
        nft_contract_id: String,
        token_id: String,
        price: u128,
    ) -> (r: Result<(), ContractError>)
        requires
            old(self).wf(),
        ensures
            final(self).wf(),
            match r {
                Ok(_) => {
                    &&& old(self)@.owner_call_error(ctx, (nft_contract_id@, token_id@)) is None
                    &&& final(self)@ == old(self)@.repriced((nft_contract_id@, token_id@), price)
                    &&& final(self).owner_id == old(self).owner_id
                },
                Err(e) => {
                    &&& old(self)@.owner_call_error(ctx, (nft_contract_id@, token_id@)) == Some(e)
                    &&& *final(self) == *old(self)
                },
            },
    {
        match assert_one_yocto(ctx) {
            Err(e) => {
                return Err(e);
            },
            Ok(_) => {},
        }
        let key = SaleKey { nft_contract_id, token_id };
        let mut sale = match self.sale(&key) {
            None => {
                return Err(ContractError::NoSale);
            },
            Some(sale) => {
                if !ctx.predecessor_account_id.same(&sale.owner_id) {
                    return Err(ContractError::NotSaleOwner);
                }
                sale.duplicate()
            },
        };
        sale.sale_conditions = price;
        let ghost before = self@;
        proof {
            lemma_repriced_wf(before, key@, price);
        }
        self.sales.insert(key, sale);
        assert(self@.sales =~= before.repriced(key@, price).sales);
        Ok(())
    }

    /// Buys a listing with the payment attached, which covers the price.
    /// The listing is taken away, and the whole payment is the amount that
    /// the registry is asked to split.
    pub fn offer(&mut self, ctx: &CallContext, nft_contract_id: String, token_id: String) -> (r:
        Result<PurchaseRequest, ContractError>)
        requires
            old(self).wf(),
        ensures
            final(self).wf(),
            match r {
                Ok(request) => {
                    let key = (nft_contract_id@, token_id@);
                    &&& old(self)@.offer_error(ctx, key) is None
                    &&& final(self)@ == old(self)@.unlisted(key)
                    &&& request@ == purchase_request(
                        old(self)@.sales[key],
                        ctx.predecessor_account_id@,
                        ctx.attached_deposit,
                    )
                    &&& final(self).owner_id == old(self).owner_id
                },
                Err(e) => {
                    &&& old(self)@.offer_error(ctx, (nft_contract_id@, token_id@)) == Some(e)
                    &&& *final(self) == *old(self)
                },
            },
    {
        let deposit: u128 = ctx.attached_deposit;
        if deposit == 0 {
            return Err(ContractError::DepositTooLow);
        }
        let key = SaleKey { nft_contract_id, token_id };
        match self.sale(&key) {
            None => {
                return Err(ContractError::NoSale);
            },
            Some(sale) => {
                if ctx.predecessor_account_id.same(&sale.owner_id) {
                    return Err(ContractError::SelfTrade);
                }
                if deposit < sale.sale_conditions {
                    return Err(ContractError::DepositTooLow);
                }
            },
        }
        self.internal_process_purchase(
            key.nft_contract_id,
            key.token_id,
            deposit,
            ctx.predecessor_account_id.duplicate(),
        )
    }

    /// Takes the listing away and makes the request for its purchase by
    /// `buyer_id` for `price`.
    pub(crate) fn internal_process_purchase(
        &mut self,
        nft_contract_id: String,
        token_id: String,
        price: u128,
        buyer_id: String,
    ) -> (r: Result<PurchaseRequest, ContractError>)
        requires
            old(self).wf(),
        ensures
            final(self).wf(),
            match r {
                Ok(request) => {
                    let key = (nft_contract_id@, token_id@);
                    &&& old(self)@.sales.contains_key(key)
                    &&& final(self)@ == old(self)@.unlisted(key)
                    &&& request@ == purchase_request(old(self)@.sales[key], buyer_id@, price)
                    &&& final(self).owner_id == old(self).owner_id
                },
                Err(e) => {
                    &&& !old(self)@.sales.contains_key((nft_contract_id@, token_id@))
                    &&& e == ContractError::NoSale
                    &&& *final(self) == *old(self)
                },
            },
    {
        match self.internal_remove_sale(nft_contract_id, token_id) {
            Err(e) => Err(e),
            Ok(sale) => Ok(
                PurchaseRequest {
                    nft_contract_id: sale.nft_contract_id,
                    receiver_id: buyer_id.duplicate(),
                    token_id: sale.token_id,
                    approval_id: sale.approval_id,
                    memo: PURCHASE_MEMO.to_owned(),
                    balance: price,
                    max_len_payout: MAX_PAYOUT_RECIPIENTS,
                    deposit: 1,
                    gas: GAS_FOR_NFT_TRANSFER,
                    buyer_id,
                    price,
                    resolve_gas: GAS_FOR_ROYALTIES,
                },
            ),
        }
    }

    /// The purchase of a listing by `buyer_id` for `price`, as a step that
    /// only the marketplace itself may call.
    pub fn process_purchase(
        &mut self,
        ctx: &CallContext,
        nft_contract_id: String,
        token_id: String,
        price: u128,
        buyer_id: String,
    ) -> (r: Result<PurchaseRequest, ContractError>)
        requires
            old(self).wf(),
        ensures
            final(self).wf(),
            match r {
                Ok(request) => {
                    let key = (nft_contract_id@, token_id@);
                    &&& old(self)@.purchase_error(ctx, key) is None
                    &&& final(self)@ == old(self)@.unlisted(key)
                    &&& request@ == purchase_request(old(self)@.sales[key], buyer_id@, price)
                    &&& final(self).owner_id == old(self).owner_id
                },
                Err(e) => {
                    &&& old(self)@.purchase_error(ctx, (nft_contract_id@, token_id@)) == Some(e)
                    &&& *final(self) == *old(self)
                },
            },
    {
        if !ctx.from_self() {
            return Err(ContractError::Unauthorized);
        }
        self.internal_process_purchase(nft_contract_id, token_id, price, buyer_id)
    }

    /// Settles a purchase on the registry's answer: `payout` is the split
    /// that it sent, or nothing where the request failed or the answer held
    /// no split. Only the marketplace itself may call this. The split is
    /// paid out where it names one to ten recipients and sums to `price` or
    /// one unit off; else the buyer gets `price` back.
    pub fn resolve_purchase(
        &mut self,
        ctx: &CallContext,
        buyer_id: String,
        price: u128,
        payout: Option<Payout>,
    ) -> (r: Result<Settlement, ContractError>)
        requires
            payout is Some ==> payout->0.wf(),
        ensures
            *final(self) == *old(self),
            match r {
                Ok(out) => {
                    &&& ctx.is_self_call()
                    &&& out.price == price
                    &&& payments_view(out.payments@) == settlement(
                        buyer_id@,
                        price,
                        payout_view(payout),
                    )
                },
                Err(e) => !ctx.is_self_call() && e == ContractError::Unauthorized,
            },
    {
        if !ctx.from_self() {
            return Err(ContractError::Unauthorized);
        }
        match &payout {
            Some(p) => {
                let n: usize = p.payout.len();
                if 0 < n && n <= 10 && sums_to(&p.payout, price) {
                    return Ok(Settlement { price, payments: payments_of(&p.payout) });
                }
            },
            None => {},
        }
        let mut payments: Vec<Payment> = Vec::new();
        payments.push(Payment { receiver_id: buyer_id, amount: price });
        assert(payments_view(payments@) =~= seq![(buyer_id@, price)]);
        Ok(Settlement { price, payments })
    }
}

} // verus!
