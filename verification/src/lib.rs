//! A collateralized-debt-position lending engine with an integrated
//! constant-product AMM used to close positions by selling collateral.
//!
//! The engine keeps, per collateral type, a ledger of positions (locked
//! collateral and outstanding debit units), delegate authorizations backed by
//! reserved deposits, risk parameters settable only by the privileged
//! authority, and a debit exchange rate written by external accrual. Every
//! entry point validates all its preconditions before touching any state, so
//! each call either applies in full or leaves the engine exactly as it was.

pub mod auth;
pub mod dex;
pub mod laws;
pub mod loans;
pub mod risk;
pub mod state;
pub mod table;
pub mod types;
