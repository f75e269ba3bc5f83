//! The error kinds of the engine. Every failure of a public operation is one
//! of these; each carries a short free-text detail.

use vstd::prelude::*;

verus! {

use vstd::string::StringExecFns;

/// One error kind per failure class: `Store` stands for any failure reported
/// by the backing store, the others are validation failures raised before
/// anything is written.
#[derive(Debug)]
pub enum WalletError {
    Store(String),
    InvalidAmount(String),
    LedgerNotFound(String),
    InvalidDate(String),
    DateRangeError(String),
    InvalidMonth(String),
    InvalidCap(String),
}

impl WalletError {
    /// A one-line description of the error, prefixed by its kind.
    pub fn describe(&self) -> (r: String)
        ensures
            match self {
                WalletError::Store(m) => r@ == "Database error: "@ + m@,
                WalletError::InvalidAmount(m) => r@ == "Invalid amount: "@ + m@,
                WalletError::LedgerNotFound(m) => r@ == "Ledger not found: "@ + m@,
                WalletError::InvalidDate(m) => r@ == "Invalid date format: "@ + m@,
                WalletError::DateRangeError(m) => r@ == "Date range error: "@ + m@,
                WalletError::InvalidMonth(m) => r@ == "Invalid month: "@ + m@,
                WalletError::InvalidCap(m) => r@ == "Invalid cap: "@ + m@,
            },
    {
        match self {
            WalletError::Store(m) => {
                let mut s = String::from_str("Database error: ");
                s.append(m.as_str());
                s
            },
            WalletError::InvalidAmount(m) => {
                let mut s = String::from_str("Invalid amount: ");
                s.append(m.as_str());
                s
            },
            WalletError::LedgerNotFound(m) => {
                let mut s = String::from_str("Ledger not found: ");
                s.append(m.as_str());
                s
            },
            WalletError::InvalidDate(m) => {
                let mut s = String::from_str("Invalid date format: ");
                s.append(m.as_str());
                s
            },
            WalletError::DateRangeError(m) => {
                let mut s = String::from_str("Date range error: ");
                s.append(m.as_str());
                s
            },
            WalletError::InvalidMonth(m) => {
                let mut s = String::from_str("Invalid month: ");
                s.append(m.as_str());
                s
            },
            WalletError::InvalidCap(m) => {
                let mut s = String::from_str("Invalid cap: ");
                s.append(m.as_str());
                s
            },
        }
    }
}

} // verus!
