//! What an entry point is told about the call that reached it, and what it
//! hands back for the host to carry out.

use crate::names::Name;
use vstd::prelude::*;

verus! {

/// The facts of one call: who made it, who signed the transaction it
/// belongs to, the account that runs the code, the payment and the
/// execution budget that came with it.
pub struct CallContext {
    pub predecessor_account_id: String,
    pub signer_account_id: String,
    pub current_account_id: String,
    pub attached_deposit: u128,
    pub prepaid_gas: u64,
}

impl CallContext {
    /// The call comes from the account that runs the code: it is the
    /// continuation of a message that the account sent itself.
    pub open spec fn is_self_call(&self) -> bool {
        self.predecessor_account_id@ == self.current_account_id@
    }

    pub fn from_self(&self) -> (b: bool)
        ensures
            b == self.is_self_call(),
    {
        self.predecessor_account_id == self.current_account_id
    }
}

/// An amount to send to an account.
pub struct Payment {
    pub receiver_id: String,
    pub amount: u128,
}

impl View for Payment {
    type V = (Name, u128);

    open spec fn view(&self) -> (Name, u128) {
        (self.receiver_id@, self.amount)
    }
}

/// The value of a payment that may be absent.
pub open spec fn payment_view(p: Option<Payment>) -> Option<(Name, u128)> {
    match p {
        Some(p) => Some(p@),
        None => None,
    }
}

/// The values of a list of payments, in order.
pub open spec fn payments_view(ps: Seq<Payment>) -> Seq<(Name, u128)> {
    Seq::new(ps.len(), |i: int| ps[i]@)
}

/// How a message sent to another account ended: it failed, or it returned
/// these bytes.
pub enum PromiseOutcome {
    Failed,
    Successful(Vec<u8>),
}

} // verus!
