//! The failures of an entry point, and the classes they fall into.

use vstd::prelude::*;

verus! {

/// Why a call was refused. A refused call leaves the state as it was.
#[derive(Debug, Clone, Copy, PartialEq, Eq, Structural)]
pub enum ContractError {
    /// The registry holds no token of that id.
    NoSuchToken,
    /// The marketplace holds no listing of that token.
    NoSale,
    /// The caller is not the token's owner.
    NotOwner,
    /// The caller is not the listing's owner.
    NotSaleOwner,
    /// The caller is neither the owner nor a delegate whose approval stands.
    Unauthorized,
    /// The token id or the listing is taken.
    AlreadyExists,
    /// The payment attached does not cover the storage that the call takes up.
    InsufficientPayment,
    /// The call asks for exactly one unit of payment and got another amount.
    OneYoctoRequired,
    /// The execution budget attached does not cover the messages to send.
    InsufficientGas,
    /// The owner's prepaid storage does not cover one more listing.
    InsufficientStoragePrepay,
    /// The deposit is zero or below the listed price.
    DepositTooLow,
    /// A balance would leave the range of amounts.
    BalanceOverflow,
    /// The receiver already owns the token.
    NotOwnerAndDifferentOwner,
    /// The royalty table names seven recipients or more.
    TooManyRoyaltyRecipients,
    /// The royalty table gives away the whole price or more.
    RoyaltyTooLarge,
    /// The royalty table names more recipients than the caller pays out to.
    TooManyRecipients,
    /// The token has handed out every approval id.
    ApprovalIdsExhausted,
    /// The message that came with an approval holds no price.
    InvalidPayload,
    /// The buyer owns the listing.
    SelfTrade,
}

/// The classes of failure.
#[derive(Debug, Clone, Copy, PartialEq, Eq, Structural)]
pub enum ErrorKind {
    NotFound,
    Unauthorized,
    AlreadyExists,
    InsufficientPayment,
    InvalidArgument,
}

impl ContractError {
    /// The class that the failure falls into.
    pub open spec fn spec_kind(self) -> ErrorKind {
        match self {
            ContractError::NoSuchToken | ContractError::NoSale => ErrorKind::NotFound,
            ContractError::NotOwner
            | ContractError::NotSaleOwner
            | ContractError::Unauthorized => ErrorKind::Unauthorized,
            ContractError::AlreadyExists => ErrorKind::AlreadyExists,
            ContractError::InsufficientPayment
            | ContractError::OneYoctoRequired
            | ContractError::InsufficientGas
            | ContractError::InsufficientStoragePrepay
            | ContractError::DepositTooLow => ErrorKind::InsufficientPayment,
            ContractError::BalanceOverflow
            | ContractError::NotOwnerAndDifferentOwner
            | ContractError::TooManyRoyaltyRecipients
            | ContractError::RoyaltyTooLarge
            | ContractError::TooManyRecipients
            | ContractError::ApprovalIdsExhausted
            | ContractError::InvalidPayload
            | ContractError::SelfTrade => ErrorKind::InvalidArgument,
        }
    }

    #[verifier::when_used_as_spec(spec_kind)]
    pub fn kind(self) -> (k: ErrorKind)
        ensures
            k == self.spec_kind(),
    {
        match self {
            ContractError::NoSuchToken | ContractError::NoSale => ErrorKind::NotFound,
            ContractError::NotOwner
            | ContractError::NotSaleOwner
            | ContractError::Unauthorized => ErrorKind::Unauthorized,
            ContractError::AlreadyExists => ErrorKind::AlreadyExists,
            ContractError::InsufficientPayment
            | ContractError::OneYoctoRequired
            | ContractError::InsufficientGas
            | ContractError::InsufficientStoragePrepay
            | ContractError::DepositTooLow => ErrorKind::InsufficientPayment,
            ContractError::BalanceOverflow
            | ContractError::NotOwnerAndDifferentOwner
            | ContractError::TooManyRoyaltyRecipients
            | ContractError::RoyaltyTooLarge
            | ContractError::TooManyRecipients
            | ContractError::ApprovalIdsExhausted
            | ContractError::InvalidPayload
            | ContractError::SelfTrade => ErrorKind::InvalidArgument,
        }
    }
}

} // verus!
