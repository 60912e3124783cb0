use vstd::prelude::*;

verus! {

/// The ways a ledger operation can fail.  Every failure is reported to the
/// immediate caller; no operation retries internally, and no failure leaves
/// a partial state change behind.
#[derive(Clone, Debug, PartialEq, Eq)]
pub enum LedgerError {
    /// A referenced account id does not exist.
    NotFound,
    /// The source account's balance in the requested currency is smaller
    /// than the requested amount.
    InsufficientFunds,
    /// A non-positive transfer amount, a negative initial account balance,
    /// or an amount the 64-bit balance range cannot take.
    InvalidAmount,
    /// An empty or whitespace-only currency identifier.
    InvalidCurrency,
}

impl LedgerError {
    /// The human-readable description of each error.
    pub open spec fn message_spec(&self) -> Seq<char> {
        match self {
            LedgerError::NotFound => "not found"@,
            LedgerError::InsufficientFunds => "insufficient funds"@,
            LedgerError::InvalidAmount => "invalid amount (must be > 0)"@,
            LedgerError::InvalidCurrency => "invalid currency"@,
        }
    }

    /// A short description of the error, for callers that display it.
    pub fn message(&self) -> (s: &'static str)
        ensures
            s@ == self.message_spec(),
    {
        match self {
            LedgerError::NotFound => "not found",
            LedgerError::InsufficientFunds => "insufficient funds",
            LedgerError::InvalidAmount => "invalid amount (must be > 0)",
            LedgerError::InvalidCurrency => "invalid currency",
        }
    }
}

} // verus!
