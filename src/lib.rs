//! A collateralized-lending ledger: users post collateral measured in the
//! asset's smallest unit, borrow up to a loan-to-value ceiling against it,
//! and repay principal plus prorated interest.
//!
//! All amounts are integers: collateral in satoshis, fiat in cents, prices in
//! cents per whole coin, time in nanoseconds.

pub mod asset_proof;
mod identity;
pub mod laws;
pub mod ledger;
pub mod model;
pub mod pricing;
pub mod registry;
pub mod service;

pub use asset_proof::{BitcoinAddress, BitcoinBalance};
pub use identity::Identity;
pub use model::{Loan, LoanError, LoanRequest, LoanStatus, MarketData, UserProfile};
pub use service::LoanService;
