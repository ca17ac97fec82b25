use nft_market::approval::{ApprovalNonFungibleTokenCore, GAS_FOR_NFT_APPROVE};
use nft_market::context::{CallContext, PromiseOutcome};
use nft_market::errors::{ContractError, ErrorKind};
use nft_market::events::EventLogVariant;
use nft_market::metadata::TokenMetadata;
use nft_market::names::Table;
use nft_market::nft_core::{
    CoreNonFungibleToken, ResolveContext, GAS_FOR_NFT_TRANSFER_CALL, GAS_FOR_RESOLVE_TRANSFER,
    MIN_GAS_FOR_NFT_TRANSFER_CALL,
};
use nft_market::payout::RoyaltyNonFungibleTokenCore;
use nft_market::registry::Contract;
use nft_market::rent::STORAGE_PRICE_PER_BYTE;

const ONE_NEAR: u128 = 1_000_000_000_000_000_000_000_000;
const PLENTY_OF_GAS: u64 = 300_000_000_000_000;

fn s(text: &str) -> String {
    text.to_string()
}

fn call(predecessor: &str, deposit: u128) -> CallContext {
    CallContext {
        predecessor_account_id: s(predecessor),
        signer_account_id: s(predecessor),
        current_account_id: s("registry"),
        attached_deposit: deposit,
        prepaid_gas: PLENTY_OF_GAS,
    }
}

fn no_metadata() -> TokenMetadata {
    TokenMetadata { title: None, description: None, media: None, copies: None, extra: None }
}

fn registry_with_token() -> Contract {
    let mut registry = Contract::new_default_meta(s("registry"));
    let refund = registry
        .nft_mint(&call("alice", ONE_NEAR), s("1"), no_metadata(), s("alice"), None)
        .unwrap();
    assert!(refund.is_some());
    registry
}

fn owner_of(registry: &Contract, token_id: &str) -> String {
    registry.nft_token(s(token_id)).unwrap().owner_id
}

fn tokens_of(registry: &Contract, account: &str) -> Vec<String> {
    registry
        .nft_tokens_for_owner(s(account), None, Some(100))
        .into_iter()
        .map(|t| t.token_id)
        .collect()
}

#[test]
fn default_description_of_the_registry() {
    let registry = Contract::new_default_meta(s("registry"));
    assert_eq!(registry.owner_id, "registry");
    assert_eq!(registry.metadata.spec, "nft-1.0.0");
    assert_eq!(registry.metadata.name, "NFT Tutorial Contract");
    assert_eq!(registry.metadata.symbol, "GOTEAM");
    assert!(registry.metadata.icon.is_none());
    assert!(registry.nft_token(s("1")).is_none());
}

#[test]
fn mint_charges_storage_and_refunds_the_rest() {
    let mut registry = Contract::new_default_meta(s("registry"));
    let refund = registry
        .nft_mint(&call("alice", ONE_NEAR), s("1"), no_metadata(), s("alice"), None)
        .unwrap()
        .unwrap();
    // 3 * 1 + 2 * 5 + 5 + 0 + 40 bytes
    assert_eq!(refund.receiver_id, "alice");
    assert_eq!(refund.amount, ONE_NEAR - 58 * STORAGE_PRICE_PER_BYTE);
    let token = registry.nft_token(s("1")).unwrap();
    assert_eq!(token.token_id, "1");
    assert_eq!(token.owner_id, "alice");
    assert_eq!(token.approved_account_ids.len(), 0);
    assert_eq!(token.royalty.len(), 0);
    assert_eq!(tokens_of(&registry, "alice"), vec![s("1")]);
}

#[test]
fn mint_counts_the_description_and_the_royalties() {
    let mut registry = Contract::new_default_meta(s("registry"));
    let metadata = TokenMetadata {
        title: Some(s("Sunset")),
        description: None,
        media: Some(s("ipfs://x")),
        copies: Some(3),
        extra: None,
    };
    let mut royalty: Table<String, u32> = Table::new();
    royalty.insert(s("artist"), 500);
    // 3 * 2 + 2 * 3 + (5 + 6) + 1 + (5 + 8) + 1 + 9 + (6 + 8) + 40 bytes
    let bytes: u128 = 6 + 6 + 11 + 1 + 13 + 1 + 9 + 14 + 40;
    let exact = bytes * STORAGE_PRICE_PER_BYTE;
    let refund = registry
        .nft_mint(&call("bob", exact), s("t7"), metadata, s("bob"), Some(royalty))
        .unwrap();
    assert!(refund.is_none());
    let token = registry.nft_token(s("t7")).unwrap();
    assert_eq!(token.metadata.title, Some(s("Sunset")));
    assert_eq!(token.metadata.copies, Some(3));
    assert_eq!(token.royalty.get(&s("artist")), Some(&500));
}

#[test]
fn mint_below_the_storage_cost_fails() {
    let mut registry = Contract::new_default_meta(s("registry"));
    let short = 58 * STORAGE_PRICE_PER_BYTE - 1;
    let r = registry.nft_mint(&call("alice", short), s("1"), no_metadata(), s("alice"), None);
    assert_eq!(r.err(), Some(ContractError::InsufficientPayment));
    assert!(registry.nft_token(s("1")).is_none());
    assert!(tokens_of(&registry, "alice").is_empty());
}

#[test]
fn mint_of_a_taken_id_fails() {
    let mut registry = registry_with_token();
    let r = registry.nft_mint(&call("bob", ONE_NEAR), s("1"), no_metadata(), s("bob"), None);
    assert_eq!(r.err(), Some(ContractError::AlreadyExists));
    assert_eq!(owner_of(&registry, "1"), "alice");
    assert!(tokens_of(&registry, "bob").is_empty());
}

#[test]
fn mint_with_seven_royalty_recipients_fails() {
    let mut registry = Contract::new_default_meta(s("registry"));
    let mut royalty: Table<String, u32> = Table::new();
    for name in ["a", "b", "c", "d", "e", "f", "g"] {
        royalty.insert(s(name), 10);
    }
    let r = registry.nft_mint(
        &call("alice", ONE_NEAR),
        s("1"),
        no_metadata(),
        s("alice"),
        Some(royalty),
    );
    assert_eq!(r.err(), Some(ContractError::TooManyRoyaltyRecipients));
}

#[test]
fn mint_with_six_royalty_recipients_passes() {
    let mut registry = Contract::new_default_meta(s("registry"));
    let mut royalty: Table<String, u32> = Table::new();
    for name in ["a", "b", "c", "d", "e", "f"] {
        royalty.insert(s(name), 10);
    }
    let r = registry.nft_mint(
        &call("alice", ONE_NEAR),
        s("1"),
        no_metadata(),
        s("alice"),
        Some(royalty),
    );
    assert!(r.is_ok());
}

#[test]
fn mint_with_royalties_of_the_whole_price_fails() {
    let mut registry = Contract::new_default_meta(s("registry"));
    let mut royalty: Table<String, u32> = Table::new();
    royalty.insert(s("a"), 6_000);
    royalty.insert(s("b"), 4_000);
    let r = registry.nft_mint(
        &call("alice", ONE_NEAR),
        s("1"),
        no_metadata(),
        s("alice"),
        Some(royalty),
    );
    assert_eq!(r.err(), Some(ContractError::RoyaltyTooLarge));
}

#[test]
fn approve_hands_out_rising_ids() {
    let mut registry = registry_with_token();
    let first = registry
        .nft_approve(&call("alice", ONE_NEAR), s("1"), s("marketplace"), Some(s("hello")))
        .unwrap();
    let notice = first.notice.unwrap();
    assert_eq!(notice.receiver_id, "marketplace");
    assert_eq!(notice.token_id, "1");
    assert_eq!(notice.owner_id, "alice");
    assert_eq!(notice.approval_id, 0);
    assert_eq!(notice.msg, "hello");
    assert_eq!(notice.gas, PLENTY_OF_GAS - GAS_FOR_NFT_APPROVE);
    // 11 + 4 + 8 bytes
    assert_eq!(first.refund.unwrap().amount, ONE_NEAR - 23 * STORAGE_PRICE_PER_BYTE);
    let second =
        registry.nft_approve(&call("alice", ONE_NEAR), s("1"), s("dave"), None).unwrap();
    assert!(second.notice.is_none());
    let token = registry.nft_token(s("1")).unwrap();
    assert_eq!(token.approved_account_ids.get(&s("marketplace")), Some(&0));
    assert_eq!(token.approved_account_ids.get(&s("dave")), Some(&1));
}

#[test]
fn approving_again_costs_nothing_and_takes_a_new_id() {
    let mut registry = registry_with_token();
    registry.nft_approve(&call("alice", ONE_NEAR), s("1"), s("dave"), None).unwrap();
    let again = registry.nft_approve(&call("alice", 500), s("1"), s("dave"), None).unwrap();
    assert_eq!(again.refund.unwrap().amount, 500);
    let token = registry.nft_token(s("1")).unwrap();
    assert_eq!(token.approved_account_ids.len(), 1);
    assert_eq!(token.approved_account_ids.get(&s("dave")), Some(&1));
    assert_eq!(registry.nft_is_approved(s("1"), s("dave"), Some(0)), Ok(false));
    assert_eq!(registry.nft_is_approved(s("1"), s("dave"), Some(1)), Ok(true));
}

#[test]
fn approve_fails_for_others_than_the_owner() {
    let mut registry = registry_with_token();
    let r = registry.nft_approve(&call("bob", ONE_NEAR), s("1"), s("bob"), None);
    assert_eq!(r.err(), Some(ContractError::NotOwner));
    let r = registry.nft_approve(&call("alice", ONE_NEAR), s("2"), s("bob"), None);
    assert_eq!(r.err(), Some(ContractError::NoSuchToken));
    let r = registry.nft_approve(&call("alice", 0), s("1"), s("bob"), None);
    assert_eq!(r.err(), Some(ContractError::InsufficientPayment));
    let r = registry.nft_approve(&call("alice", 1), s("1"), s("bob"), None);
    assert_eq!(r.err(), Some(ContractError::InsufficientPayment));
    assert_eq!(registry.nft_is_approved(s("1"), s("bob"), None), Ok(false));
}

#[test]
fn approve_with_a_notice_needs_gas() {
    let mut registry = registry_with_token();
    let mut ctx = call("alice", ONE_NEAR);
    ctx.prepaid_gas = GAS_FOR_NFT_APPROVE - 1;
    let r = registry.nft_approve(&ctx, s("1"), s("bob"), Some(s("x")));
    assert_eq!(r.err(), Some(ContractError::InsufficientGas));
    assert!(registry.nft_approve(&ctx, s("1"), s("bob"), None).is_ok());
}

#[test]
fn is_approved_on_a_missing_token_fails() {
    let registry = registry_with_token();
    assert_eq!(
        registry.nft_is_approved(s("9"), s("bob"), None),
        Err(ContractError::NoSuchToken)
    );
}

#[test]
fn revoke_returns_the_storage_of_the_approval() {
    let mut registry = registry_with_token();
    registry.nft_approve(&call("alice", ONE_NEAR), s("1"), s("bob"), None).unwrap();
    registry.nft_approve(&call("alice", ONE_NEAR), s("1"), s("carol"), None).unwrap();
    let refund = registry.nft_revoke(&call("alice", 1), s("1"), s("bob")).unwrap().unwrap();
    assert_eq!(refund.receiver_id, "alice");
    assert_eq!(refund.amount, 15 * STORAGE_PRICE_PER_BYTE);
    assert_eq!(registry.nft_is_approved(s("1"), s("bob"), None), Ok(false));
    assert_eq!(registry.nft_is_approved(s("1"), s("carol"), Some(1)), Ok(true));
    let nothing = registry.nft_revoke(&call("alice", 1), s("1"), s("bob")).unwrap();
    assert!(nothing.is_none());
}

#[test]
fn revoke_needs_one_unit_and_the_owner() {
    let mut registry = registry_with_token();
    registry.nft_approve(&call("alice", ONE_NEAR), s("1"), s("bob"), None).unwrap();
    let r = registry.nft_revoke(&call("alice", 2), s("1"), s("bob"));
    assert_eq!(r.err(), Some(ContractError::OneYoctoRequired));
    let r = registry.nft_revoke(&call("bob", 1), s("1"), s("bob"));
    assert_eq!(r.err(), Some(ContractError::NotOwner));
    let r = registry.nft_revoke_all(&call("bob", 1), s("1"));
    assert_eq!(r.err(), Some(ContractError::NotOwner));
    let r = registry.nft_revoke_all(&call("alice", 1), s("5"));
    assert_eq!(r.err(), Some(ContractError::NoSuchToken));
    assert_eq!(registry.nft_is_approved(s("1"), s("bob"), Some(0)), Ok(true));
}

#[test]
fn revoke_all_clears_the_approvals_and_keeps_the_counter() {
    let mut registry = registry_with_token();
    registry.nft_approve(&call("alice", ONE_NEAR), s("1"), s("bob"), None).unwrap();
    registry.nft_approve(&call("alice", ONE_NEAR), s("1"), s("carol"), None).unwrap();
    let refund = registry.nft_revoke_all(&call("alice", 1), s("1")).unwrap().unwrap();
    assert_eq!(refund.receiver_id, "alice");
    assert_eq!(refund.amount, (15 + 17) * STORAGE_PRICE_PER_BYTE);
    assert_eq!(registry.nft_token(s("1")).unwrap().approved_account_ids.len(), 0);
    assert!(registry.nft_revoke_all(&call("alice", 1), s("1")).unwrap().is_none());
    let next = registry.nft_approve(&call("alice", ONE_NEAR), s("1"), s("bob"), Some(s("m")));
    assert_eq!(next.unwrap().notice.unwrap().approval_id, 2);
}

#[test]
fn transfer_by_the_owner() {
    let mut registry = registry_with_token();
    registry.nft_approve(&call("alice", ONE_NEAR), s("1"), s("dave"), None).unwrap();
    let out = registry
        .nft_transfer(&call("alice", 1), s("bob"), s("1"), None, Some(s("gift")))
        .unwrap();
    assert_eq!(out.refund.receiver_id, "alice");
    assert_eq!(out.refund.amount, 16 * STORAGE_PRICE_PER_BYTE);
    assert_eq!(out.log.standard, "nep171");
    assert_eq!(out.log.version, "1.0.0");
    match out.log.event {
        EventLogVariant::NftTransfer(logs) => {
            assert_eq!(logs.len(), 1);
            assert_eq!(logs[0].authorized_id, None);
            assert_eq!(logs[0].old_owner_id, "alice");
            assert_eq!(logs[0].new_owner_id, "bob");
            assert_eq!(logs[0].token_ids, vec![s("1")]);
            assert_eq!(logs[0].memo, Some(s("gift")));
        }
        _ => panic!("a transfer reports a transfer"),
    }
    assert_eq!(owner_of(&registry, "1"), "bob");
    assert!(tokens_of(&registry, "alice").is_empty());
    assert_eq!(tokens_of(&registry, "bob"), vec![s("1")]);
    assert_eq!(registry.nft_token(s("1")).unwrap().approved_account_ids.len(), 0);
}

#[test]
fn transfer_by_a_delegate_names_the_delegate() {
    let mut registry = registry_with_token();
    registry.nft_approve(&call("alice", ONE_NEAR), s("1"), s("dave"), None).unwrap();
    let out = registry.nft_transfer(&call("dave", 1), s("bob"), s("1"), Some(0), None).unwrap();
    match out.log.event {
        EventLogVariant::NftTransfer(logs) => {
            assert_eq!(logs[0].authorized_id, Some(s("dave")));
            assert_eq!(logs[0].old_owner_id, "alice");
        }
        _ => panic!("a transfer reports a transfer"),
    }
    assert_eq!(out.refund.receiver_id, "alice");
    assert_eq!(owner_of(&registry, "1"), "bob");
}

#[test]
fn transfer_with_a_stale_approval_id_fails() {
    let mut registry = registry_with_token();
    registry.nft_approve(&call("alice", ONE_NEAR), s("1"), s("dave"), None).unwrap();
    registry.nft_approve(&call("alice", ONE_NEAR), s("1"), s("dave"), None).unwrap();
    let r = registry.nft_transfer(&call("dave", 1), s("bob"), s("1"), Some(0), None);
    let e = r.err().unwrap();
    assert_eq!(e, ContractError::Unauthorized);
    assert_eq!(e.kind(), ErrorKind::Unauthorized);
    assert_eq!(owner_of(&registry, "1"), "alice");
    assert_eq!(tokens_of(&registry, "alice"), vec![s("1")]);
    assert!(tokens_of(&registry, "bob").is_empty());
    assert_eq!(registry.nft_is_approved(s("1"), s("dave"), Some(1)), Ok(true));
    assert!(registry.nft_transfer(&call("dave", 1), s("bob"), s("1"), Some(1), None).is_ok());
}

#[test]
fn transfer_fails_for_strangers_and_for_the_owner_as_receiver() {
    let mut registry = registry_with_token();
    let r = registry.nft_transfer(&call("mallory", 1), s("mallory"), s("1"), None, None);
    assert_eq!(r.err(), Some(ContractError::Unauthorized));
    let r = registry.nft_transfer(&call("alice", 1), s("alice"), s("1"), None, None);
    let e = r.err().unwrap();
    assert_eq!(e, ContractError::NotOwnerAndDifferentOwner);
    assert_eq!(e.kind(), ErrorKind::InvalidArgument);
    let r = registry.nft_transfer(&call("alice", 1), s("bob"), s("2"), None, None);
    assert_eq!(r.err().unwrap().kind(), ErrorKind::NotFound);
    let r = registry.nft_transfer(&call("alice", 0), s("bob"), s("1"), None, None);
    assert_eq!(r.err(), Some(ContractError::OneYoctoRequired));
    assert_eq!(owner_of(&registry, "1"), "alice");
}

#[test]
fn the_old_delegate_is_refused_after_a_transfer() {
    let mut registry = registry_with_token();
    registry.nft_approve(&call("alice", ONE_NEAR), s("1"), s("dave"), None).unwrap();
    registry.nft_approve(&call("alice", ONE_NEAR), s("1"), s("erin"), None).unwrap();
    assert_eq!(registry.nft_is_approved(s("1"), s("erin"), Some(1)), Ok(true));
    registry.nft_transfer(&call("alice", 1), s("carol"), s("1"), None, None).unwrap();
    let r = registry.nft_transfer(&call("erin", 1), s("erin"), s("1"), Some(1), None);
    assert_eq!(r.err(), Some(ContractError::Unauthorized));
    assert_eq!(owner_of(&registry, "1"), "carol");
    assert_eq!(tokens_of(&registry, "carol"), vec![s("1")]);
}

fn notified_transfer(registry: &mut Contract) -> ResolveContext {
    registry.nft_approve(&call("alice", ONE_NEAR), s("1"), s("dave"), None).unwrap();
    let pending = registry
        .nft_transfer_call(&call("alice", 1), s("bob"), s("1"), None, Some(s("memo")), s("msg"))
        .unwrap();
    assert_eq!(pending.notice.receiver_id, "bob");
    assert_eq!(pending.notice.sender_id, "alice");
    assert_eq!(pending.notice.previous_owner_id, "alice");
    assert_eq!(pending.notice.token_id, "1");
    assert_eq!(pending.notice.msg, "msg");
    assert_eq!(pending.notice.gas, PLENTY_OF_GAS - GAS_FOR_NFT_TRANSFER_CALL);
    assert_eq!(pending.resolve_gas, GAS_FOR_RESOLVE_TRANSFER);
    assert_eq!(pending.resolve.authorized_id, None);
    assert_eq!(pending.resolve.owner_id, "alice");
    assert_eq!(pending.resolve.receiver_id, "bob");
    assert_eq!(pending.resolve.approved_account_ids.get(&s("dave")), Some(&0));
    assert_eq!(owner_of(registry, "1"), "bob");
    pending.resolve
}

fn from_registry() -> CallContext {
    call("registry", 0)
}

#[test]
fn notified_transfer_needs_gas() {
    let mut registry = registry_with_token();
    let mut ctx = call("alice", 1);
    ctx.prepaid_gas = MIN_GAS_FOR_NFT_TRANSFER_CALL - 1;
    let r = registry.nft_transfer_call(&ctx, s("bob"), s("1"), None, None, s("msg"));
    assert_eq!(r.err(), Some(ContractError::InsufficientGas));
    assert_eq!(owner_of(&registry, "1"), "alice");
    ctx.prepaid_gas = MIN_GAS_FOR_NFT_TRANSFER_CALL;
    assert!(registry.nft_transfer_call(&ctx, s("bob"), s("1"), None, None, s("msg")).is_ok());
}

#[test]
fn a_failed_notice_takes_the_transfer_back() {
    let mut registry = registry_with_token();
    let context = notified_transfer(&mut registry);
    let out =
        registry.nft_resolve_transfer(&from_registry(), context, PromiseOutcome::Failed).unwrap();
    assert!(!out.kept);
    assert_eq!(out.refund.receiver_id, "bob");
    assert_eq!(out.refund.amount, 0);
    match out.log.unwrap().event {
        EventLogVariant::NftTransfer(logs) => {
            assert_eq!(logs[0].old_owner_id, "bob");
            assert_eq!(logs[0].new_owner_id, "alice");
            assert_eq!(logs[0].memo, Some(s("memo")));
        }
        _ => panic!("a return reports a transfer"),
    }
    assert_eq!(owner_of(&registry, "1"), "alice");
    assert_eq!(tokens_of(&registry, "alice"), vec![s("1")]);
    assert!(tokens_of(&registry, "bob").is_empty());
    assert_eq!(registry.nft_is_approved(s("1"), s("dave"), Some(0)), Ok(true));
}

#[test]
fn the_receiver_keeps_the_token_on_false() {
    let mut registry = registry_with_token();
    let context = notified_transfer(&mut registry);
    let answer = PromiseOutcome::Successful(b" false\n".to_vec());
    let out = registry.nft_resolve_transfer(&from_registry(), context, answer).unwrap();
    assert!(out.kept);
    assert!(out.log.is_none());
    assert_eq!(out.refund.receiver_id, "alice");
    assert_eq!(out.refund.amount, 16 * STORAGE_PRICE_PER_BYTE);
    assert_eq!(owner_of(&registry, "1"), "bob");
    assert_eq!(registry.nft_is_approved(s("1"), s("dave"), None), Ok(false));
}

#[test]
fn the_receiver_returns_the_token_on_true() {
    let mut registry = registry_with_token();
    let context = notified_transfer(&mut registry);
    let answer = PromiseOutcome::Successful(b"true".to_vec());
    let out = registry.nft_resolve_transfer(&from_registry(), context, answer).unwrap();
    assert!(!out.kept);
    assert_eq!(owner_of(&registry, "1"), "alice");
}

#[test]
fn an_answer_that_is_no_truth_value_takes_the_transfer_back() {
    for answer in ["", "1", "\"false\"", "falsey", "false true", "null", "False"] {
        let mut registry = registry_with_token();
        let context = notified_transfer(&mut registry);
        let outcome = PromiseOutcome::Successful(answer.as_bytes().to_vec());
        let out = registry.nft_resolve_transfer(&from_registry(), context, outcome).unwrap();
        assert!(!out.kept);
        assert_eq!(owner_of(&registry, "1"), "alice");
    }
}

#[test]
fn a_later_owner_keeps_the_token_when_the_notice_fails() {
    let mut registry = registry_with_token();
    let context = notified_transfer(&mut registry);
    registry.nft_transfer(&call("bob", 1), s("carol"), s("1"), None, None).unwrap();
    let out =
        registry.nft_resolve_transfer(&from_registry(), context, PromiseOutcome::Failed).unwrap();
    assert!(out.kept);
    assert!(out.log.is_none());
    assert_eq!(out.refund.receiver_id, "alice");
    assert_eq!(out.refund.amount, 16 * STORAGE_PRICE_PER_BYTE);
    assert_eq!(owner_of(&registry, "1"), "carol");
    assert_eq!(tokens_of(&registry, "carol"), vec![s("1")]);
    assert!(tokens_of(&registry, "alice").is_empty());
    assert!(tokens_of(&registry, "bob").is_empty());
}

#[test]
fn the_return_pays_the_receiver_for_its_own_approvals() {
    let mut registry = registry_with_token();
    let context = notified_transfer(&mut registry);
    registry.nft_approve(&call("bob", ONE_NEAR), s("1"), s("zed"), None).unwrap();
    let out = registry.resolve_transfer_with(&from_registry(), context, Some(true)).unwrap();
    assert!(!out.kept);
    assert_eq!(out.refund.receiver_id, "bob");
    assert_eq!(out.refund.amount, 15 * STORAGE_PRICE_PER_BYTE);
    let token = registry.nft_token(s("1")).unwrap();
    assert_eq!(token.owner_id, "alice");
    assert_eq!(token.approved_account_ids.get(&s("dave")), Some(&0));
    assert_eq!(token.approved_account_ids.get(&s("zed")), None);
}

#[test]
fn only_the_registry_settles_a_transfer() {
    let mut registry = registry_with_token();
    let context = notified_transfer(&mut registry);
    let r = registry.nft_resolve_transfer(&call("bob", 0), context, PromiseOutcome::Failed);
    assert_eq!(r.err(), Some(ContractError::Unauthorized));
    assert_eq!(owner_of(&registry, "1"), "bob");
}

#[test]
fn payout_splits_by_basis_points() {
    let mut registry = Contract::new_default_meta(s("registry"));
    let mut royalty: Table<String, u32> = Table::new();
    royalty.insert(s("charity"), 1_000);
    royalty.insert(s("artist"), 500);
    registry
        .nft_mint(&call("alice", ONE_NEAR), s("1"), no_metadata(), s("alice"), Some(royalty))
        .unwrap();
    let payout = registry.nft_payout(s("1"), 100, 10).unwrap().payout;
    assert_eq!(payout.len(), 3);
    assert_eq!(payout.get(&s("charity")), Some(&10));
    assert_eq!(payout.get(&s("artist")), Some(&5));
    assert_eq!(payout.get(&s("alice")), Some(&85));
    let r = registry.nft_payout(s("1"), 100, 1);
    assert_eq!(r.err(), Some(ContractError::TooManyRecipients));
    let r = registry.nft_payout(s("2"), 100, 10);
    assert_eq!(r.err(), Some(ContractError::NoSuchToken));
}

#[test]
fn the_owner_among_the_recipients_is_paid_once() {
    let mut registry = Contract::new_default_meta(s("registry"));
    let mut royalty: Table<String, u32> = Table::new();
    royalty.insert(s("alice"), 2_000);
    royalty.insert(s("artist"), 500);
    registry
        .nft_mint(&call("alice", ONE_NEAR), s("1"), no_metadata(), s("alice"), Some(royalty))
        .unwrap();
    let payout = registry.nft_payout(s("1"), 1_000, 10).unwrap().payout;
    assert_eq!(payout.len(), 2);
    assert_eq!(payout.get(&s("artist")), Some(&50));
    assert_eq!(payout.get(&s("alice")), Some(&950));
}

#[test]
fn transfer_payout_moves_the_token_and_splits() {
    let mut registry = Contract::new_default_meta(s("registry"));
    let mut royalty: Table<String, u32> = Table::new();
    royalty.insert(s("artist"), 2_500);
    registry
        .nft_mint(&call("alice", ONE_NEAR), s("1"), no_metadata(), s("alice"), Some(royalty))
        .unwrap();
    registry.nft_approve(&call("alice", ONE_NEAR), s("1"), s("market"), None).unwrap();
    let out = registry
        .nft_transfer_payout(&call("market", 1), s("bob"), s("1"), Some(0), s("sale"), 1_001, 10)
        .unwrap();
    assert_eq!(out.payout.payout.get(&s("artist")), Some(&250));
    assert_eq!(out.payout.payout.get(&s("alice")), Some(&750));
    assert_eq!(out.refund.receiver_id, "alice");
    assert_eq!(out.refund.amount, 18 * STORAGE_PRICE_PER_BYTE);
    assert_eq!(owner_of(&registry, "1"), "bob");
    assert_eq!(registry.nft_token(s("1")).unwrap().royalty.get(&s("artist")), Some(&2_500));
}

#[test]
fn transfer_payout_to_too_few_recipients_changes_nothing() {
    let mut registry = Contract::new_default_meta(s("registry"));
    let mut royalty: Table<String, u32> = Table::new();
    royalty.insert(s("artist"), 2_500);
    royalty.insert(s("charity"), 100);
    registry
        .nft_mint(&call("alice", ONE_NEAR), s("1"), no_metadata(), s("alice"), Some(royalty))
        .unwrap();
    let r = registry.nft_transfer_payout(&call("alice", 1), s("bob"), s("1"), None, s("m"), 9, 1);
    assert_eq!(r.err(), Some(ContractError::TooManyRecipients));
    assert_eq!(owner_of(&registry, "1"), "alice");
    let r = registry.nft_transfer_payout(&call("eve", 1), s("bob"), s("1"), None, s("m"), 9, 1);
    assert_eq!(r.err(), Some(ContractError::Unauthorized));
}

#[test]
fn tokens_of_an_owner_page_by_page() {
    let mut registry = Contract::new_default_meta(s("registry"));
    for id in ["a", "b", "c", "d"] {
        registry
            .nft_mint(&call("alice", ONE_NEAR), s(id), no_metadata(), s("alice"), None)
            .unwrap();
    }
    let ids = |from: Option<u128>, limit: Option<u64>| -> Vec<String> {
        registry
            .nft_tokens_for_owner(s("alice"), from, limit)
            .into_iter()
            .map(|t| t.token_id)
            .collect()
    };
    assert_eq!(ids(None, None), Vec::<String>::new());
    assert_eq!(ids(Some(1), None), Vec::<String>::new());
    assert_eq!(ids(None, Some(2)), vec![s("a"), s("b")]);
    assert_eq!(ids(Some(1), Some(2)), vec![s("b"), s("c")]);
    assert_eq!(ids(Some(3), Some(5)), vec![s("d")]);
    assert_eq!(ids(Some(4), Some(5)), Vec::<String>::new());
    assert_eq!(ids(Some(u128::MAX), Some(u64::MAX)), Vec::<String>::new());
    assert_eq!(ids(None, Some(u64::MAX)).len(), 4);
    assert!(registry.nft_tokens_for_owner(s("bob"), None, Some(5)).is_empty());
}

#[test]
fn every_failure_has_its_class() {
    assert_eq!(ContractError::NoSale.kind(), ErrorKind::NotFound);
    assert_eq!(ContractError::NotSaleOwner.kind(), ErrorKind::Unauthorized);
    assert_eq!(ContractError::NotOwner.kind(), ErrorKind::Unauthorized);
    assert_eq!(ContractError::AlreadyExists.kind(), ErrorKind::AlreadyExists);
    assert_eq!(ContractError::InsufficientPayment.kind(), ErrorKind::InsufficientPayment);
    assert_eq!(ContractError::OneYoctoRequired.kind(), ErrorKind::InsufficientPayment);
    assert_eq!(ContractError::InsufficientGas.kind(), ErrorKind::InsufficientPayment);
    assert_eq!(ContractError::InsufficientStoragePrepay.kind(), ErrorKind::InsufficientPayment);
    assert_eq!(ContractError::DepositTooLow.kind(), ErrorKind::InsufficientPayment);
    assert_eq!(ContractError::TooManyRoyaltyRecipients.kind(), ErrorKind::InvalidArgument);
    assert_eq!(ContractError::TooManyRecipients.kind(), ErrorKind::InvalidArgument);
    assert_eq!(ContractError::RoyaltyTooLarge.kind(), ErrorKind::InvalidArgument);
    assert_eq!(ContractError::InvalidPayload.kind(), ErrorKind::InvalidArgument);
    assert_eq!(ContractError::SelfTrade.kind(), ErrorKind::InvalidArgument);
    assert_eq!(ContractError::BalanceOverflow.kind(), ErrorKind::InvalidArgument);
    assert_eq!(ContractError::ApprovalIdsExhausted.kind(), ErrorKind::InvalidArgument);
}

#[test]
fn a_registry_stays_valid() {
    let mut registry = Contract::new_default_meta(s("registry"));
    assert!(registry.is_valid());
    for id in ["a", "b", "c"] {
        registry
            .nft_mint(&call("alice", ONE_NEAR), s(id), no_metadata(), s("alice"), None)
            .unwrap();
        assert!(registry.is_valid());
    }
    registry.nft_approve(&call("alice", ONE_NEAR), s("a"), s("dave"), None).unwrap();
    assert!(registry.is_valid());
    registry.nft_transfer(&call("dave", 1), s("bob"), s("a"), Some(0), None).unwrap();
    assert!(registry.is_valid());
    let pending = registry
        .nft_transfer_call(&call("alice", 1), s("bob"), s("b"), None, None, s("m"))
        .unwrap();
    assert!(registry.is_valid());
    registry
        .nft_resolve_transfer(&from_registry(), pending.resolve, PromiseOutcome::Failed)
        .unwrap();
    assert!(registry.is_valid());
    assert_eq!(tokens_of(&registry, "alice"), vec![s("c"), s("b")]);
    assert_eq!(tokens_of(&registry, "bob"), vec![s("a")]);
}

#[test]
fn a_damaged_registry_is_not_valid() {
    let mut registry = registry_with_token();
    registry.tokens_per_owner.remove(&s("alice"), &s("1"));
    assert!(!registry.is_valid());

    let mut registry = registry_with_token();
    registry.tokens_per_owner.add(&s("bob"), s("1"));
    assert!(!registry.is_valid());

    let mut registry = registry_with_token();
    registry.tokens_per_owner.add(&s("alice"), s("2"));
    assert!(!registry.is_valid());

    let mut registry = registry_with_token();
    registry.token_metadata_by_id.remove(&s("1"));
    assert!(!registry.is_valid());

    let mut registry = registry_with_token();
    registry.token_metadata_by_id.insert(s("2"), no_metadata());
    assert!(!registry.is_valid());

    let mut registry = registry_with_token();
    let mut token = registry.tokens_by_id.remove(&s("1")).unwrap();
    token.royalty.insert(s("artist"), 10_000);
    registry.tokens_by_id.insert(s("1"), token);
    assert!(!registry.is_valid());
}

#[test]
fn a_token_without_approval_ids_left_takes_no_approval() {
    let mut registry = registry_with_token();
    let mut token = registry.tokens_by_id.remove(&s("1")).unwrap();
    token.next_approval_id = u64::MAX - 1;
    registry.tokens_by_id.insert(s("1"), token);
    assert!(registry.is_valid());
    let last = registry
        .nft_approve(&call("alice", ONE_NEAR), s("1"), s("bob"), Some(s("m")))
        .unwrap();
    assert_eq!(last.notice.unwrap().approval_id, u64::MAX - 1);
    let r = registry.nft_approve(&call("alice", ONE_NEAR), s("1"), s("carol"), None);
    assert_eq!(r.err(), Some(ContractError::ApprovalIdsExhausted));
    assert_eq!(registry.nft_is_approved(s("1"), s("carol"), None), Ok(false));
    assert_eq!(registry.nft_is_approved(s("1"), s("bob"), Some(u64::MAX - 1)), Ok(true));
}
