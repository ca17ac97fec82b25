//! Storage rent: what a record costs to keep, what a call has to attach for
//! the records it creates, and what is given back for those it removes.

use crate::context::{payment_view, CallContext, Payment};
use crate::errors::ContractError;
use crate::names::{Key, Name, Table};
use vstd::prelude::*;
use vstd::utf8::encode_utf8;

verus! {

/// The price of keeping one byte, in the smallest unit of payment.
pub const STORAGE_PRICE_PER_BYTE: u128 = 10_000_000_000_000_000_000;

/// The bytes that a name takes up, as a string's length counts them.
pub open spec fn name_len(name: Name) -> nat {
    (encode_utf8(name).len() as usize) as nat
}

/// The bytes that one approval takes up: the delegate's name, its length
/// and the approval id.
pub open spec fn approval_bytes(account: Name) -> nat {
    name_len(account) + 4 + 8
}

/// The bytes that a table of approvals takes up.
pub open spec fn approvals_bytes(approved: Seq<(Name, u64)>) -> nat
    decreases approved.len(),
{
    if approved.len() == 0 {
        0
    } else {
        approvals_bytes(approved.drop_last()) + approval_bytes(approved.last().0)
    }
}

/// What keeping `bytes` bytes costs.
pub open spec fn storage_cost(bytes: nat) -> nat {
    bytes * STORAGE_PRICE_PER_BYTE as nat
}

/// `n`, or the largest amount where `n` is beyond it.
pub open spec fn capped(n: nat) -> u128 {
    if n <= u128::MAX {
        n as u128
    } else {
        u128::MAX
    }
}

/// What is given back when `attached` was paid for `bytes` bytes; nothing
/// where that is one unit or less.
pub open spec fn deposit_refund(payer: Name, bytes: nat, attached: u128) -> Option<(Name, u128)> {
    if attached - storage_cost(bytes) > 1 {
        Some((payer, (attached - storage_cost(bytes)) as u128))
    } else {
        None
    }
}

/// The bytes that the name takes up.
pub fn name_bytes(name: &String) -> (n: u128)
    ensures
        n == name_len(name@),
{
    name.as_str().len() as u128
}

/// The bytes that an approval of `account_id` takes up.
pub fn bytes_for_approved_account_id(account_id: &String) -> (n: u128)
    ensures
        n == approval_bytes(account_id@),
{
    name_bytes(account_id) + 12
}

/// Succeeds on a call that comes with exactly one unit of payment.
pub fn assert_one_yocto(ctx: &CallContext) -> (r: Result<(), ContractError>)
    ensures
        r == (if ctx.attached_deposit == 1 {
            Ok::<(), ContractError>(())
        } else {
            Err(ContractError::OneYoctoRequired)
        }),
{
    if ctx.attached_deposit == 1 {
        Ok(())
    } else {
        Err(ContractError::OneYoctoRequired)
    }
}

/// Holds the payment attached against the cost of `storage_used` bytes:
/// fails where it does not cover the cost, and else gives back to the caller
/// what is left over.
pub fn refund_deposit(ctx: &CallContext, storage_used: u128) -> (r: Result<
    Option<Payment>,
    ContractError,
>)
    ensures
        match r {
            Ok(p) => storage_cost(storage_used as nat) <= ctx.attached_deposit && payment_view(p)
                == deposit_refund(
                ctx.predecessor_account_id@,
                storage_used as nat,
                ctx.attached_deposit,
            ),
            Err(e) => e == ContractError::InsufficientPayment && storage_cost(storage_used as nat)
                > ctx.attached_deposit,
        },
{
    match storage_used.checked_mul(STORAGE_PRICE_PER_BYTE) {
        Some(required_cost) => {
            if required_cost <= ctx.attached_deposit {
                let refund: u128 = ctx.attached_deposit - required_cost;
                if refund > 1 {
                    Ok(
                        Some(
                            Payment {
                                receiver_id: ctx.predecessor_account_id.duplicate(),
                                amount: refund,
                            },
                        ),
                    )
                } else {
                    Ok(None)
                }
            } else {
                Err(ContractError::InsufficientPayment)
            }
        },
        None => Err(ContractError::InsufficientPayment),
    }
}

/// What is given back for the storage that approvals took up.
pub open spec fn approvals_refund(approved: Seq<(Name, u64)>) -> u128 {
    capped(storage_cost(approvals_bytes(approved)))
}

/// The payment that gives back to `account_id` what the approvals in
/// `approved_account_ids` cost to keep.
pub fn refund_approved_account_ids(
    account_id: &String,
    approved_account_ids: &Table<String, u64>,
) -> (p: Payment)
    requires
        approved_account_ids.wf(),
    ensures
        p@ == (account_id@, approvals_refund(approved_account_ids.entries())),
{
    let ghost entries = approved_account_ids.entries();
    let n: usize = approved_account_ids.len();
    let mut released: u128 = 0;
    let mut i: usize = 0;
    assert(entries.take(0) =~= Seq::empty());
    while i < n
        invariant
            approved_account_ids.wf(),
            entries == approved_account_ids.entries(),
            n == entries.len(),
            i <= n,
            released == capped(approvals_bytes(entries.take(i as int))),
        decreases n - i,
    {
        let bytes: u128 = bytes_for_approved_account_id(approved_account_ids.key_at(i));
        proof {
            assert(entries.take(i + 1).drop_last() =~= entries.take(i as int));
            assert(entries.take(i + 1).last() == entries[i as int]);
        }
        released =
        match released.checked_add(bytes) {
            Some(sum) => sum,
            None => u128::MAX,
        };
        i += 1;
    }
    assert(entries.take(n as int) =~= entries);
    let amount: u128 = match released.checked_mul(STORAGE_PRICE_PER_BYTE) {
        Some(cost) => cost,
        None => u128::MAX,
    };
    proof {
        let exact = approvals_bytes(entries);
        if exact > u128::MAX {
            assert(exact * STORAGE_PRICE_PER_BYTE as nat > u128::MAX) by (nonlinear_arith)
                requires
                    exact > u128::MAX,
                    STORAGE_PRICE_PER_BYTE as nat == 10_000_000_000_000_000_000,
            ;
            assert(released * STORAGE_PRICE_PER_BYTE > u128::MAX) by (nonlinear_arith)
                requires
                    released == u128::MAX,
                    STORAGE_PRICE_PER_BYTE == 10_000_000_000_000_000_000,
            ;
        }
    }
    Payment { receiver_id: account_id.duplicate(), amount }
}

} // verus!
