use nft_market::context::CallContext;
use nft_market::errors::ContractError;
use nft_market::names::{Index, Key, NameSet, Table};
use nft_market::paging::page_bounds;
use nft_market::rent::{
    assert_one_yocto, bytes_for_approved_account_id, name_bytes, refund_approved_account_ids,
    refund_deposit, STORAGE_PRICE_PER_BYTE,
};

fn s(text: &str) -> String {
    text.to_string()
}

fn call(deposit: u128) -> CallContext {
    CallContext {
        predecessor_account_id: s("alice"),
        signer_account_id: s("alice"),
        current_account_id: s("registry"),
        attached_deposit: deposit,
        prepaid_gas: 0,
    }
}

fn names(set: &NameSet) -> Vec<String> {
    (0..set.len()).map(|i| set.get(i).clone()).collect()
}

fn keys(table: &Table<String, u64>) -> Vec<(String, u64)> {
    (0..table.len()).map(|i| (table.key_at(i).clone(), *table.value_at(i))).collect()
}

#[test]
fn a_set_keeps_the_order_of_insertion() {
    let mut set = NameSet::new();
    assert!(set.is_empty());
    assert!(set.insert(s("b")));
    assert!(set.insert(s("a")));
    assert!(set.insert(s("c")));
    assert!(!set.insert(s("a")));
    assert_eq!(names(&set), vec![s("b"), s("a"), s("c")]);
    assert_eq!(set.position(&s("a")), Some(1));
    assert_eq!(set.position(&s("z")), None);
    assert!(set.contains(&s("c")));
    assert!(set.remove(&s("b")));
    assert!(!set.remove(&s("b")));
    assert_eq!(names(&set), vec![s("a"), s("c")]);
    assert_eq!(names(&set.duplicate()), vec![s("a"), s("c")]);
}

#[test]
fn a_table_replaces_in_place_and_appends() {
    let mut table: Table<String, u64> = Table::new();
    assert_eq!(table.insert(s("x"), 1), None);
    assert_eq!(table.insert(s("y"), 2), None);
    assert_eq!(table.insert(s("z"), 3), None);
    assert_eq!(table.insert(s("x"), 9), Some(1));
    assert_eq!(keys(&table), vec![(s("x"), 9), (s("y"), 2), (s("z"), 3)]);
    assert_eq!(table.get(&s("y")), Some(&2));
    assert_eq!(table.get(&s("q")), None);
    assert!(table.contains_key(&s("z")));
    assert_eq!(table.position(&s("z")), Some(2));
    assert_eq!(table.remove(&s("y")), Some(2));
    assert_eq!(table.remove(&s("y")), None);
    assert_eq!(keys(&table), vec![(s("x"), 9), (s("z"), 3)]);
    assert_eq!(keys(&table.duplicate()), vec![(s("x"), 9), (s("z"), 3)]);
}

#[test]
fn an_index_drops_owners_without_members() {
    let mut index: Index<String> = Index::new();
    index.add(&s("alice"), s("1"));
    index.add(&s("alice"), s("2"));
    index.add(&s("alice"), s("1"));
    index.add(&s("bob"), s("3"));
    assert_eq!(index.count(&s("alice")), 2);
    assert_eq!(index.count(&s("bob")), 1);
    assert_eq!(index.count(&s("carol")), 0);
    assert_eq!(index.len(), 2);
    index.remove(&s("alice"), &s("7"));
    index.remove(&s("carol"), &s("1"));
    assert_eq!(index.count(&s("alice")), 2);
    index.remove(&s("bob"), &s("3"));
    assert!(index.get(&s("bob")).is_none());
    assert_eq!(index.len(), 1);
    assert_eq!(index.owner_at(0), "alice");
    assert_eq!(names(index.members_at(0)), vec![s("1"), s("2")]);
    index.remove(&s("alice"), &s("1"));
    assert_eq!(names(index.get(&s("alice")).unwrap()), vec![s("2")]);
}

#[test]
fn names_are_compared_by_value() {
    assert!(s("alice").same(&s("alice")));
    assert!(!s("alice").same(&s("alicE")));
    assert_eq!(s("alice").duplicate(), "alice");
}

#[test]
fn a_page_starts_at_the_index_and_ends_at_the_limit() {
    assert_eq!(page_bounds(5, None, None), (0, 0));
    assert_eq!(page_bounds(5, Some(2), None), (2, 2));
    assert_eq!(page_bounds(5, None, Some(3)), (0, 3));
    assert_eq!(page_bounds(5, Some(2), Some(3)), (2, 5));
    assert_eq!(page_bounds(5, Some(2), Some(2)), (2, 4));
    assert_eq!(page_bounds(5, Some(4), Some(9)), (4, 5));
    assert_eq!(page_bounds(5, Some(5), Some(9)), (5, 5));
    assert_eq!(page_bounds(5, Some(6), Some(9)), (5, 5));
    assert_eq!(page_bounds(5, Some(1 << 64), Some(9)), (5, 5));
    assert_eq!(page_bounds(0, None, Some(u64::MAX)), (0, 0));
}

#[test]
fn names_are_counted_in_bytes() {
    assert_eq!(name_bytes(&s("")), 0);
    assert_eq!(name_bytes(&s("alice")), 5);
    assert_eq!(name_bytes(&s("zoë")), 4);
    assert_eq!(bytes_for_approved_account_id(&s("alice")), 17);
}

#[test]
fn one_unit_is_one_unit() {
    assert_eq!(assert_one_yocto(&call(1)), Ok(()));
    assert_eq!(assert_one_yocto(&call(0)), Err(ContractError::OneYoctoRequired));
    assert_eq!(assert_one_yocto(&call(2)), Err(ContractError::OneYoctoRequired));
}

#[test]
fn a_deposit_pays_for_the_bytes_and_the_rest_goes_back() {
    let cost = 10 * STORAGE_PRICE_PER_BYTE;
    assert_eq!(refund_deposit(&call(cost - 1), 10).err(), Some(ContractError::InsufficientPayment));
    assert!(refund_deposit(&call(cost), 10).unwrap().is_none());
    assert!(refund_deposit(&call(cost + 1), 10).unwrap().is_none());
    let refund = refund_deposit(&call(cost + 2), 10).unwrap().unwrap();
    assert_eq!(refund.receiver_id, "alice");
    assert_eq!(refund.amount, 2);
    let refund = refund_deposit(&call(5), 0).unwrap().unwrap();
    assert_eq!(refund.amount, 5);
    assert_eq!(
        refund_deposit(&call(u128::MAX), u128::MAX).err(),
        Some(ContractError::InsufficientPayment)
    );
}

#[test]
fn approvals_are_refunded_by_their_bytes() {
    let mut approved: Table<String, u64> = Table::new();
    let none = refund_approved_account_ids(&s("alice"), &approved);
    assert_eq!(none.receiver_id, "alice");
    assert_eq!(none.amount, 0);
    approved.insert(s("bob"), 0);
    approved.insert(s("market"), 1);
    let refund = refund_approved_account_ids(&s("alice"), &approved);
    assert_eq!(refund.amount, (15 + 18) * STORAGE_PRICE_PER_BYTE);
}

#[test]
fn collections_built_by_their_operations_are_valid() {
    let mut set = NameSet::new();
    assert!(set.is_valid());
    set.insert(s("a"));
    set.insert(s("a"));
    set.insert(s("b"));
    assert!(set.is_valid());
    let mut table: Table<String, u64> = Table::new();
    table.insert(s("a"), 1);
    table.insert(s("a"), 2);
    table.remove(&s("b"));
    assert!(table.is_valid());
    let mut index: Index<String> = Index::new();
    assert!(index.is_valid());
    index.add(&s("o"), s("1"));
    index.remove(&s("o"), &s("1"));
    index.add(&s("p"), s("2"));
    assert!(index.is_valid());
}
