//! The treasury ledger: pooled capital that moves between a liquid balance
//! and investment positions that accrue yield, and out of which grants are
//! allocated.
//!
//! [`ledger::GrantTreasury`] is the ledger. Each of its operations is held
//! to what [`model::TreasuryModel`], the state as mathematics, makes of the
//! state; [`laws`] proves what holds of every state that the operations can
//! reach.

pub mod accrual;
pub mod laws;
pub mod ledger;
pub mod model;
pub mod ratio;
pub mod records;
pub mod status;
pub mod sums;
