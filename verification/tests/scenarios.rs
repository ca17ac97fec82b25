use nft_market::approval::ApprovalNonFungibleTokenCore;
use nft_market::context::CallContext;
use nft_market::errors::ContractError;
use nft_market::market::{Contract as Market, STORAGE_PER_SALE};
use nft_market::metadata::TokenMetadata;
use nft_market::names::Table;
use nft_market::nft_callbacks::SaleArgs;
use nft_market::nft_core::CoreNonFungibleToken;
use nft_market::payout::RoyaltyNonFungibleTokenCore;
use nft_market::registry::Contract as Registry;
use nft_market::royalty::Payout;
use nft_market::sale::PurchaseRequest;

const ONE_NEAR: u128 = 1_000_000_000_000_000_000_000_000;
const GAS: u64 = 300_000_000_000_000;

fn s(text: &str) -> String {
    text.to_string()
}

fn call(predecessor: &str, signer: &str, current: &str, deposit: u128) -> CallContext {
    CallContext {
        predecessor_account_id: s(predecessor),
        signer_account_id: s(signer),
        current_account_id: s(current),
        attached_deposit: deposit,
        prepaid_gas: GAS,
    }
}

fn no_metadata() -> TokenMetadata {
    TokenMetadata { title: None, description: None, media: None, copies: None, extra: None }
}

// Alice mints token "1", prepays the storage of a listing and approves the
// marketplace with a price of 100; the registry's notice makes the listing.
fn listed() -> (Registry, Market) {
    let mut registry = Registry::new_default_meta(s("registry"));
    let mut market = Market::new(s("marketplace"));
    registry
        .nft_mint(
            &call("alice", "alice", "registry", ONE_NEAR),
            s("1"),
            no_metadata(),
            s("alice"),
            None,
        )
        .unwrap();
    market
        .storage_deposits(&call("alice", "alice", "marketplace", STORAGE_PER_SALE), None)
        .unwrap();
    let approval = registry
        .nft_approve(
            &call("alice", "alice", "registry", ONE_NEAR),
            s("1"),
            s("marketplace"),
            Some(s("{\"sale_conditions\":\"100\"}")),
        )
        .unwrap();
    let notice = approval.notice.unwrap();
    assert_eq!(notice.receiver_id, "marketplace");
    market
        .nft_on_approve(
            &call("registry", "alice", "marketplace", 0),
            notice.token_id,
            notice.owner_id,
            notice.approval_id,
            Some(SaleArgs { sale_conditions: 100 }),
        )
        .unwrap();
    (registry, market)
}

fn ask_registry(registry: &mut Registry, request: PurchaseRequest) -> Option<Payout> {
    registry
        .nft_transfer_payout(
            &call("marketplace", "bob", &request.nft_contract_id, request.deposit),
            request.receiver_id,
            request.token_id,
            Some(request.approval_id),
            request.memo,
            request.balance,
            request.max_len_payout,
        )
        .ok()
        .map(|out| out.payout)
}

#[test]
fn a_purchase_moves_the_token_and_pays_the_owner() {
    let (mut registry, mut market) = listed();
    let sale = market.get_sales(s("registry"), s("1")).unwrap();
    assert_eq!(sale.owner_id, "alice");
    assert_eq!(sale.sale_conditions, 100);

    let request =
        market.offer(&call("bob", "bob", "marketplace", 100), s("registry"), s("1")).unwrap();
    assert!(market.get_sales(s("registry"), s("1")).is_none());
    assert_eq!(market.get_supply_sales(), 0);
    let buyer = request.buyer_id.clone();
    let price = request.price;

    let payout = ask_registry(&mut registry, request);
    assert_eq!(registry.nft_token(s("1")).unwrap().owner_id, "bob");

    let settled = market
        .resolve_purchase(&call("marketplace", "bob", "marketplace", 0), buyer, price, payout)
        .unwrap();
    assert_eq!(settled.price, 100);
    assert_eq!(settled.payments.len(), 1);
    assert_eq!(settled.payments[0].receiver_id, "alice");
    assert_eq!(settled.payments[0].amount, 100);
}

#[test]
fn a_split_that_sums_to_97_of_100_refunds_the_buyer() {
    let (_registry, mut market) = listed();
    let request =
        market.offer(&call("bob", "bob", "marketplace", 100), s("registry"), s("1")).unwrap();
    let mut faulty: Table<String, u128> = Table::new();
    faulty.insert(s("alice"), 90);
    faulty.insert(s("artist"), 7);
    let settled = market
        .resolve_purchase(
            &call("marketplace", "bob", "marketplace", 0),
            request.buyer_id,
            request.price,
            Some(Payout { payout: faulty }),
        )
        .unwrap();
    assert_eq!(settled.price, 100);
    assert_eq!(settled.payments.len(), 1);
    assert_eq!(settled.payments[0].receiver_id, "bob");
    assert_eq!(settled.payments[0].amount, 100);
}

#[test]
fn a_delegate_from_before_a_transfer_is_unauthorized() {
    let mut registry = Registry::new_default_meta(s("registry"));
    registry
        .nft_mint(
            &call("alice", "alice", "registry", ONE_NEAR),
            s("1"),
            no_metadata(),
            s("alice"),
            None,
        )
        .unwrap();
    registry
        .nft_approve(&call("alice", "alice", "registry", ONE_NEAR), s("1"), s("zero"), None)
        .unwrap();
    let approval = registry
        .nft_approve(
            &call("alice", "alice", "registry", ONE_NEAR),
            s("1"),
            s("delegate"),
            Some(s("note")),
        )
        .unwrap();
    assert_eq!(approval.notice.unwrap().approval_id, 1);
    registry
        .nft_transfer(&call("alice", "alice", "registry", 1), s("carol"), s("1"), None, None)
        .unwrap();
    let r = registry.nft_transfer(
        &call("delegate", "delegate", "registry", 1),
        s("delegate"),
        s("1"),
        Some(1),
        None,
    );
    assert_eq!(r.err(), Some(ContractError::Unauthorized));
    assert_eq!(registry.nft_token(s("1")).unwrap().owner_id, "carol");
}

#[test]
fn a_failed_transfer_at_the_registry_refunds_the_buyer() {
    let (mut registry, mut market) = listed();
    registry
        .nft_revoke(&call("alice", "alice", "registry", 1), s("1"), s("marketplace"))
        .unwrap();
    let request =
        market.offer(&call("bob", "bob", "marketplace", 120), s("registry"), s("1")).unwrap();
    let buyer = request.buyer_id.clone();
    let price = request.price;
    let payout = ask_registry(&mut registry, request);
    assert!(payout.is_none());
    assert_eq!(registry.nft_token(s("1")).unwrap().owner_id, "alice");
    let settled = market
        .resolve_purchase(&call("marketplace", "bob", "marketplace", 0), buyer, price, payout)
        .unwrap();
    assert_eq!(settled.payments.len(), 1);
    assert_eq!(settled.payments[0].receiver_id, "bob");
    assert_eq!(settled.payments[0].amount, 120);
}
