use nft_market::context::CallContext;
use nft_market::errors::ContractError;
use nft_market::market::{
    Contract, GAS_FOR_NFT_TRANSFER, GAS_FOR_ROYALTIES, STORAGE_PER_SALE,
};
use nft_market::names::Table;
use nft_market::nft_callbacks::SaleArgs;
use nft_market::rent::STORAGE_PRICE_PER_BYTE;
use nft_market::royalty::{royalty_split, royalty_to_payout, Payout};

fn s(text: &str) -> String {
    text.to_string()
}

fn call(predecessor: &str, deposit: u128) -> CallContext {
    CallContext {
        predecessor_account_id: s(predecessor),
        signer_account_id: s(predecessor),
        current_account_id: s("market"),
        attached_deposit: deposit,
        prepaid_gas: 300_000_000_000_000,
    }
}

fn from_registry(registry: &str, signer: &str) -> CallContext {
    CallContext {
        predecessor_account_id: s(registry),
        signer_account_id: s(signer),
        current_account_id: s("market"),
        attached_deposit: 0,
        prepaid_gas: 300_000_000_000_000,
    }
}

fn price(amount: u128) -> Option<SaleArgs> {
    Some(SaleArgs { sale_conditions: amount })
}

fn market_with_listings(owner: &str, registry: &str, tokens: &[&str]) -> Contract {
    let mut market = Contract::new(s("market"));
    for (i, token) in tokens.iter().enumerate() {
        market.storage_deposits(&call(owner, STORAGE_PER_SALE), None).unwrap();
        market
            .nft_on_approve(
                &from_registry(registry, owner),
                s(token),
                s(owner),
                i as u64,
                price(100 + i as u128),
            )
            .unwrap();
    }
    market
}

fn payout_of(entries: &[(&str, u128)]) -> Payout {
    let mut payout: Table<String, u128> = Table::new();
    for (name, amount) in entries {
        payout.insert(s(name), *amount);
    }
    Payout { payout }
}

fn paid(market: &mut Contract, price: u128, payout: Option<Payout>) -> Vec<(String, u128)> {
    let out = market.resolve_purchase(&call("market", 0), s("bob"), price, payout).unwrap();
    assert_eq!(out.price, price);
    out.payments.into_iter().map(|p| (p.receiver_id, p.amount)).collect()
}

#[test]
fn the_storage_of_a_listing_costs_a_thousand_bytes() {
    let market = Contract::new(s("market"));
    assert_eq!(market.storage_minimum_balance(), 1000 * STORAGE_PRICE_PER_BYTE);
    assert_eq!(STORAGE_PER_SALE, 1000 * STORAGE_PRICE_PER_BYTE);
    assert_eq!(market.owner_id, "market");
    assert_eq!(market.get_supply_sales(), 0);
}

#[test]
fn deposits_add_up() {
    let mut market = Contract::new(s("market"));
    assert_eq!(market.storage_balance_of(s("alice")), 0);
    market.storage_deposits(&call("alice", STORAGE_PER_SALE), None).unwrap();
    market.storage_deposits(&call("bob", STORAGE_PER_SALE + 7), Some(s("alice"))).unwrap();
    assert_eq!(market.storage_balance_of(s("alice")), 2 * STORAGE_PER_SALE + 7);
    assert_eq!(market.storage_balance_of(s("bob")), 0);
}

#[test]
fn a_deposit_below_one_listing_fails() {
    let mut market = Contract::new(s("market"));
    let r = market.storage_deposits(&call("alice", STORAGE_PER_SALE - 1), None);
    assert_eq!(r.err(), Some(ContractError::InsufficientPayment));
    assert_eq!(market.storage_balance_of(s("alice")), 0);
}

#[test]
fn a_deposit_beyond_the_range_fails() {
    let mut market = Contract::new(s("market"));
    market.storage_deposits(&call("alice", u128::MAX), None).unwrap();
    let r = market.storage_deposits(&call("alice", STORAGE_PER_SALE), None);
    assert_eq!(r.err(), Some(ContractError::BalanceOverflow));
    assert_eq!(market.storage_balance_of(s("alice")), u128::MAX);
}

#[test]
fn withdraw_leaves_what_the_listings_cost() {
    let mut market = market_with_listings("alice", "registry", &["1", "2"]);
    market.storage_deposits(&call("alice", STORAGE_PER_SALE + 5), None).unwrap();
    let r = market.storage_withdraw(&call("alice", 0));
    assert_eq!(r.err(), Some(ContractError::OneYoctoRequired));
    let payment = market.storage_withdraw(&call("alice", 1)).unwrap().unwrap();
    assert_eq!(payment.receiver_id, "alice");
    assert_eq!(payment.amount, STORAGE_PER_SALE + 5);
    assert_eq!(market.storage_balance_of(s("alice")), 2 * STORAGE_PER_SALE);
    assert!(market.storage_withdraw(&call("alice", 1)).unwrap().is_none());
    assert_eq!(market.storage_balance_of(s("alice")), 2 * STORAGE_PER_SALE);
}

#[test]
fn withdraw_without_listings_takes_everything() {
    let mut market = Contract::new(s("market"));
    market.storage_deposits(&call("alice", 3 * STORAGE_PER_SALE), None).unwrap();
    let payment = market.storage_withdraw(&call("alice", 1)).unwrap().unwrap();
    assert_eq!(payment.amount, 3 * STORAGE_PER_SALE);
    assert_eq!(market.storage_balance_of(s("alice")), 0);
    assert!(market.storage_withdraw(&call("carol", 1)).unwrap().is_none());
}

#[test]
fn an_approval_lists_the_token() {
    let market = market_with_listings("alice", "registry", &["1"]);
    let sale = market.get_sales(s("registry"), s("1")).unwrap();
    assert_eq!(sale.owner_id, "alice");
    assert_eq!(sale.approval_id, 0);
    assert_eq!(sale.nft_contract_id, "registry");
    assert_eq!(sale.token_id, "1");
    assert_eq!(sale.sale_conditions, 100);
    assert_eq!(market.get_supply_sales(), 1);
    assert_eq!(market.get_supply_by_owner_id(s("alice")), 1);
    assert_eq!(market.get_supply_by_nft_contract_id(s("registry")), 1);
    assert!(market.get_sales(s("registry"), s("2")).is_none());
    assert!(market.get_sales(s("registry.1"), s("")).is_none());
}

#[test]
fn a_listing_needs_a_registry_between_owner_and_marketplace() {
    let mut market = Contract::new(s("market"));
    market.storage_deposits(&call("alice", STORAGE_PER_SALE), None).unwrap();
    let r = market.nft_on_approve(&call("alice", 0), s("1"), s("alice"), 0, price(100));
    assert_eq!(r.err(), Some(ContractError::Unauthorized));
    let r = market.nft_on_approve(
        &from_registry("registry", "mallory"),
        s("1"),
        s("alice"),
        0,
        price(100),
    );
    assert_eq!(r.err(), Some(ContractError::Unauthorized));
    assert_eq!(market.get_supply_sales(), 0);
}

#[test]
fn a_listing_needs_prepaid_storage() {
    let mut market = Contract::new(s("market"));
    let r =
        market.nft_on_approve(&from_registry("registry", "alice"), s("1"), s("alice"), 0, price(5));
    assert_eq!(r.err(), Some(ContractError::InsufficientStoragePrepay));
    market.storage_deposits(&call("alice", 2 * STORAGE_PER_SALE - 1), None).unwrap();
    market
        .nft_on_approve(&from_registry("registry", "alice"), s("1"), s("alice"), 0, price(5))
        .unwrap();
    let r =
        market.nft_on_approve(&from_registry("registry", "alice"), s("2"), s("alice"), 1, price(5));
    assert_eq!(r.err(), Some(ContractError::InsufficientStoragePrepay));
    assert_eq!(market.get_supply_by_owner_id(s("alice")), 1);
}

#[test]
fn a_listing_needs_a_price() {
    let mut market = Contract::new(s("market"));
    market.storage_deposits(&call("alice", STORAGE_PER_SALE), None).unwrap();
    let r = market.nft_on_approve(&from_registry("registry", "alice"), s("1"), s("alice"), 0, None);
    assert_eq!(r.err(), Some(ContractError::InvalidPayload));
    assert_eq!(market.get_supply_sales(), 0);
}

#[test]
fn a_listed_token_is_not_listed_twice() {
    let mut market = market_with_listings("alice", "registry", &["1"]);
    market.storage_deposits(&call("alice", STORAGE_PER_SALE), None).unwrap();
    let r =
        market.nft_on_approve(&from_registry("registry", "alice"), s("1"), s("alice"), 4, price(7));
    assert_eq!(r.err(), Some(ContractError::AlreadyExists));
    assert_eq!(market.get_sales(s("registry"), s("1")).unwrap().sale_conditions, 100);
    assert!(market
        .nft_on_approve(&from_registry("other", "alice"), s("1"), s("alice"), 4, price(7))
        .is_ok());
    assert_eq!(market.get_supply_by_owner_id(s("alice")), 2);
}

#[test]
fn registry_and_token_name_a_listing_together() {
    let mut market = Contract::new(s("market"));
    market.storage_deposits(&call("alice", 2 * STORAGE_PER_SALE), None).unwrap();
    market
        .nft_on_approve(&from_registry("a.b", "alice"), s("c"), s("alice"), 0, price(1))
        .unwrap();
    market
        .nft_on_approve(&from_registry("a", "alice"), s("b.c"), s("alice"), 0, price(2))
        .unwrap();
    assert_eq!(market.get_sales(s("a.b"), s("c")).unwrap().sale_conditions, 1);
    assert_eq!(market.get_sales(s("a"), s("b.c")).unwrap().sale_conditions, 2);
    assert_eq!(market.get_supply_sales(), 2);
}

#[test]
fn the_owner_takes_a_listing_back() {
    let mut market = market_with_listings("alice", "registry", &["1", "2"]);
    let r = market.remove_sale(&call("bob", 1), s("registry"), s("1"));
    assert_eq!(r.err(), Some(ContractError::NotSaleOwner));
    let r = market.remove_sale(&call("alice", 0), s("registry"), s("1"));
    assert_eq!(r.err(), Some(ContractError::OneYoctoRequired));
    let r = market.remove_sale(&call("alice", 1), s("registry"), s("9"));
    assert_eq!(r.err(), Some(ContractError::NoSale));
    assert_eq!(market.get_supply_sales(), 2);
    market.remove_sale(&call("alice", 1), s("registry"), s("1")).unwrap();
    assert!(market.get_sales(s("registry"), s("1")).is_none());
    assert_eq!(market.get_supply_sales(), 1);
    assert_eq!(market.get_supply_by_owner_id(s("alice")), 1);
    assert_eq!(market.get_supply_by_nft_contract_id(s("registry")), 1);
    market.remove_sale(&call("alice", 1), s("registry"), s("2")).unwrap();
    assert_eq!(market.get_supply_by_owner_id(s("alice")), 0);
    assert_eq!(market.get_supply_by_nft_contract_id(s("registry")), 0);
    assert!(market.get_sales_by_owner_id(s("alice"), None, Some(10)).is_empty());
}

#[test]
fn a_new_price_changes_nothing_else() {
    let mut market = market_with_listings("alice", "registry", &["1"]);
    let r = market.update_price(&call("bob", 1), s("registry"), s("1"), 5);
    assert_eq!(r.err(), Some(ContractError::NotSaleOwner));
    let r = market.update_price(&call("alice", 1), s("registry"), s("7"), 5);
    assert_eq!(r.err(), Some(ContractError::NoSale));
    let r = market.update_price(&call("alice", 3), s("registry"), s("1"), 5);
    assert_eq!(r.err(), Some(ContractError::OneYoctoRequired));
    market.update_price(&call("alice", 1), s("registry"), s("1"), 250).unwrap();
    let sale = market.get_sales(s("registry"), s("1")).unwrap();
    assert_eq!(sale.sale_conditions, 250);
    assert_eq!(sale.owner_id, "alice");
    assert_eq!(sale.approval_id, 0);
    assert_eq!(market.get_supply_sales(), 1);
    assert_eq!(market.get_supply_by_owner_id(s("alice")), 1);
}

#[test]
fn an_offer_sends_the_whole_deposit_to_the_split() {
    let mut market = market_with_listings("alice", "registry", &["1"]);
    let request = market.offer(&call("bob", 130), s("registry"), s("1")).unwrap();
    assert_eq!(request.nft_contract_id, "registry");
    assert_eq!(request.receiver_id, "bob");
    assert_eq!(request.token_id, "1");
    assert_eq!(request.approval_id, 0);
    assert_eq!(request.memo, "payout from market");
    assert_eq!(request.balance, 130);
    assert_eq!(request.max_len_payout, 10);
    assert_eq!(request.deposit, 1);
    assert_eq!(request.gas, GAS_FOR_NFT_TRANSFER);
    assert_eq!(request.buyer_id, "bob");
    assert_eq!(request.price, 130);
    assert_eq!(request.resolve_gas, GAS_FOR_ROYALTIES);
    assert!(market.get_sales(s("registry"), s("1")).is_none());
    assert_eq!(market.get_supply_by_owner_id(s("alice")), 0);
    assert_eq!(market.storage_balance_of(s("alice")), STORAGE_PER_SALE);
}

#[test]
fn an_offer_fails_without_listing_on_ones_own_or_below_the_price() {
    let mut market = market_with_listings("alice", "registry", &["1"]);
    let r = market.offer(&call("bob", 100), s("registry"), s("2"));
    assert_eq!(r.err(), Some(ContractError::NoSale));
    let r = market.offer(&call("alice", 100), s("registry"), s("1"));
    assert_eq!(r.err(), Some(ContractError::SelfTrade));
    let r = market.offer(&call("bob", 99), s("registry"), s("1"));
    assert_eq!(r.err(), Some(ContractError::DepositTooLow));
    let r = market.offer(&call("bob", 0), s("registry"), s("1"));
    assert_eq!(r.err(), Some(ContractError::DepositTooLow));
    assert_eq!(market.get_supply_sales(), 1);
    assert!(market.offer(&call("bob", 100), s("registry"), s("1")).is_ok());
    let r = market.offer(&call("carol", 100), s("registry"), s("1"));
    assert_eq!(r.err(), Some(ContractError::NoSale));
}

#[test]
fn only_the_marketplace_runs_the_purchase_step() {
    let mut market = market_with_listings("alice", "registry", &["1"]);
    let r = market.process_purchase(&call("bob", 0), s("registry"), s("1"), 100, s("bob"));
    assert_eq!(r.err(), Some(ContractError::Unauthorized));
    assert_eq!(market.get_supply_sales(), 1);
    let r = market.process_purchase(&call("market", 0), s("registry"), s("3"), 100, s("bob"));
    assert_eq!(r.err(), Some(ContractError::NoSale));
    let request = market
        .process_purchase(&call("market", 0), s("registry"), s("1"), 100, s("bob"))
        .unwrap();
    assert_eq!(request.receiver_id, "bob");
    assert_eq!(request.balance, 100);
    assert_eq!(market.get_supply_sales(), 0);
}

#[test]
fn a_sound_split_is_paid_out() {
    let mut market = Contract::new(s("market"));
    let payout = payout_of(&[("artist", 10), ("alice", 90)]);
    assert_eq!(paid(&mut market, 100, Some(payout)), vec![(s("artist"), 10), (s("alice"), 90)]);
    let payout = payout_of(&[("artist", 33), ("a", 33), ("b", 33)]);
    assert_eq!(
        paid(&mut market, 100, Some(payout)),
        vec![(s("artist"), 33), (s("a"), 33), (s("b"), 33)]
    );
    let payout = payout_of(&[("artist", 11), ("alice", 90)]);
    assert_eq!(paid(&mut market, 100, Some(payout)), vec![(s("artist"), 11), (s("alice"), 90)]);
    let payout = payout_of(&[("alice", 0)]);
    assert_eq!(paid(&mut market, 0, Some(payout)), vec![(s("alice"), 0)]);
    let payout = payout_of(&[("alice", u128::MAX)]);
    assert_eq!(paid(&mut market, u128::MAX, Some(payout)), vec![(s("alice"), u128::MAX)]);
}

#[test]
fn a_faulty_split_refunds_the_buyer() {
    let mut market = Contract::new(s("market"));
    let refund = vec![(s("bob"), 100u128)];
    assert_eq!(paid(&mut market, 100, None), refund);
    assert_eq!(paid(&mut market, 100, Some(payout_of(&[]))), refund);
    assert_eq!(paid(&mut market, 100, Some(payout_of(&[("artist", 7), ("alice", 90)]))), refund);
    assert_eq!(paid(&mut market, 100, Some(payout_of(&[("artist", 12), ("alice", 90)]))), refund);
    assert_eq!(paid(&mut market, 100, Some(payout_of(&[("alice", 98)]))), refund);
    assert_eq!(paid(&mut market, 100, Some(payout_of(&[("alice", 102)]))), refund);
    let huge = payout_of(&[("a", u128::MAX), ("b", u128::MAX)]);
    assert_eq!(paid(&mut market, u128::MAX, Some(huge)), vec![(s("bob"), u128::MAX)]);
}

#[test]
fn a_split_just_beyond_the_range_counts_as_one_unit_off() {
    let mut market = Contract::new(s("market"));
    let payout = payout_of(&[("a", u128::MAX), ("b", 1)]);
    assert_eq!(
        paid(&mut market, u128::MAX, Some(payout)),
        vec![(s("a"), u128::MAX), (s("b"), 1)]
    );
}

#[test]
fn a_split_between_more_than_ten_refunds_the_buyer() {
    let mut market = Contract::new(s("market"));
    let names = ["a", "b", "c", "d", "e", "f", "g", "h", "i", "j", "k"];
    let eleven: Vec<(&str, u128)> = names.iter().map(|n| (*n, 10u128)).collect();
    assert_eq!(paid(&mut market, 110, Some(payout_of(&eleven))), vec![(s("bob"), 110)]);
    let ten: Vec<(&str, u128)> = names[..10].iter().map(|n| (*n, 10u128)).collect();
    assert_eq!(paid(&mut market, 100, Some(payout_of(&ten))).len(), 10);
}

#[test]
fn only_the_marketplace_settles_a_purchase() {
    let mut market = Contract::new(s("market"));
    let r = market.resolve_purchase(&call("bob", 0), s("bob"), 100, None);
    assert_eq!(r.err(), Some(ContractError::Unauthorized));
}

#[test]
fn listings_page_by_page() {
    let mut market = market_with_listings("alice", "registry", &["a", "b", "c"]);
    market.storage_deposits(&call("bob", STORAGE_PER_SALE), None).unwrap();
    market
        .nft_on_approve(&from_registry("other", "bob"), s("z"), s("bob"), 9, price(1))
        .unwrap();
    let by_owner = |from: Option<u128>, limit: Option<u64>| -> Vec<String> {
        market
            .get_sales_by_owner_id(s("alice"), from, limit)
            .into_iter()
            .map(|sale| sale.token_id)
            .collect()
    };
    assert_eq!(by_owner(None, None), Vec::<String>::new());
    assert_eq!(by_owner(None, Some(2)), vec![s("a"), s("b")]);
    assert_eq!(by_owner(Some(2), Some(2)), vec![s("c")]);
    assert_eq!(by_owner(Some(3), Some(2)), Vec::<String>::new());
    let by_registry = |from: Option<u128>, limit: Option<u64>| -> Vec<u128> {
        market
            .get_sales_by_nft_contract_id(s("registry"), from, limit)
            .into_iter()
            .map(|sale| sale.sale_conditions)
            .collect()
    };
    assert_eq!(by_registry(Some(1), Some(5)), vec![101, 102]);
    assert_eq!(by_registry(Some(1), None), Vec::<u128>::new());
    assert_eq!(market.get_sales_by_nft_contract_id(s("other"), None, Some(5)).len(), 1);
    assert!(market.get_sales_by_nft_contract_id(s("none"), None, Some(5)).is_empty());
    assert_eq!(market.get_supply_sales(), 4);
}

#[test]
fn a_share_is_rounded_down() {
    assert_eq!(royalty_to_payout(3_333, 100), 33);
    assert_eq!(royalty_to_payout(10_000, 7), 7);
    assert_eq!(royalty_to_payout(0, 7), 0);
    assert_eq!(royalty_to_payout(1, 9_999), 0);
    assert_eq!(royalty_to_payout(1, 10_000), 1);
    assert_eq!(royalty_to_payout(2_500, u128::MAX), u128::MAX / 4);
    assert_eq!(royalty_to_payout(10_000, u128::MAX), u128::MAX);
}

#[test]
fn a_split_with_one_other_recipient_loses_at_most_one_unit() {
    let mut royalty: Table<String, u32> = Table::new();
    royalty.insert(s("artist"), 3_333);
    for price in [1u128, 2, 3, 99, 100, 101, 9_999, 10_000, 10_001, u128::MAX] {
        let payout = royalty_split(&s("alice"), &royalty, price, 10).unwrap().payout;
        let sum = payout.get(&s("artist")).unwrap() + payout.get(&s("alice")).unwrap();
        assert!(sum == price || sum == price - 1);
    }
}

#[test]
fn a_split_with_three_other_recipients_can_lose_three_units() {
    let mut royalty: Table<String, u32> = Table::new();
    royalty.insert(s("a"), 3_333);
    royalty.insert(s("b"), 3_333);
    royalty.insert(s("c"), 3_333);
    let payout = royalty_split(&s("alice"), &royalty, 100, 10).unwrap().payout;
    assert_eq!(payout.get(&s("a")), Some(&33));
    assert_eq!(payout.get(&s("b")), Some(&33));
    assert_eq!(payout.get(&s("c")), Some(&33));
    assert_eq!(payout.get(&s("alice")), Some(&0));
    let payout = royalty_split(&s("alice"), &royalty, 3, 10).unwrap().payout;
    assert_eq!(payout.get(&s("a")), Some(&0));
    assert_eq!(payout.get(&s("b")), Some(&0));
    assert_eq!(payout.get(&s("c")), Some(&0));
    assert_eq!(payout.get(&s("alice")), Some(&0));
}

#[test]
fn a_split_of_more_than_the_whole_fails() {
    let mut royalty: Table<String, u32> = Table::new();
    royalty.insert(s("a"), 6_000);
    royalty.insert(s("alice"), 9_000);
    royalty.insert(s("b"), 4_000);
    let payout = royalty_split(&s("alice"), &royalty, 50, 10).unwrap().payout;
    assert_eq!(payout.get(&s("a")), Some(&30));
    assert_eq!(payout.get(&s("b")), Some(&20));
    assert_eq!(payout.get(&s("alice")), Some(&0));
    royalty.insert(s("c"), 1);
    let r = royalty_split(&s("alice"), &royalty, 50, 10);
    assert_eq!(r.err(), Some(ContractError::RoyaltyTooLarge));
    let r = royalty_split(&s("alice"), &royalty, 50, 3);
    assert_eq!(r.err(), Some(ContractError::TooManyRecipients));
}

#[test]
fn a_marketplace_stays_valid() {
    let mut market = market_with_listings("alice", "registry", &["1", "2", "3"]);
    assert!(market.is_valid());
    market.update_price(&call("alice", 1), s("registry"), s("2"), 5).unwrap();
    assert!(market.is_valid());
    market.remove_sale(&call("alice", 1), s("registry"), s("1")).unwrap();
    assert!(market.is_valid());
    market.offer(&call("bob", 500), s("registry"), s("3")).unwrap();
    assert!(market.is_valid());
    market.storage_withdraw(&call("alice", 1)).unwrap();
    assert!(market.is_valid());
    assert_eq!(market.storage_balance_of(s("alice")), STORAGE_PER_SALE);
    market.offer(&call("bob", 500), s("registry"), s("2")).unwrap();
    market.storage_withdraw(&call("alice", 1)).unwrap();
    assert!(market.is_valid());
    assert_eq!(market.storage_balance_of(s("alice")), 0);
}

#[test]
fn a_damaged_marketplace_is_not_valid() {
    let mut market = market_with_listings("alice", "registry", &["1"]);
    market.storage_deposits.remove(&s("alice"));
    assert!(!market.is_valid());

    let mut market = market_with_listings("alice", "registry", &["1"]);
    market.by_nft_contract_id.remove(&s("registry"), &s("1"));
    assert!(!market.is_valid());

    let mut market = market_with_listings("alice", "registry", &["1"]);
    market.by_nft_contract_id.add(&s("registry"), s("2"));
    assert!(!market.is_valid());

    let mut market = market_with_listings("alice", "registry", &["1"]);
    market.by_owner_id.add(
        &s("bob"),
        nft_market::market::SaleKey { nft_contract_id: s("registry"), token_id: s("1") },
    );
    assert!(!market.is_valid());

    let mut market = market_with_listings("alice", "registry", &["1"]);
    let key = nft_market::market::SaleKey { nft_contract_id: s("registry"), token_id: s("1") };
    let mut sale = market.sales.remove(&key).unwrap();
    sale.token_id = s("2");
    market.sales.insert(key, sale);
    assert!(!market.is_valid());
}
