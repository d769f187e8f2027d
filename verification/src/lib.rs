//! The contracts of a platform that issues proofs and funds grants, with
//! their rules verified.
//!
//! The core is the [`treasury`]: a ledger of pooled capital that is
//! deposited, invested, divested and granted, under arithmetic rules that
//! keep its balances consistent. Beside it stand the record keepers of the
//! platform: the proof [`registry`], the [`proof_verifier`], the
//! [`multi_signature`] contract, the [`zk_proofs`] contract, [`privacy`]
//! verification and custom [`templates`].
//!
//! Every contract here is plain state and plain values. Whoever runs one
//! keeps its state, tells it the time, and authenticates its callers.

pub mod bytes;
pub mod digest;
pub mod hashing;
pub mod identity;
pub mod keyed;
pub mod multi_signature;
pub mod privacy;
pub mod proof_verifier;
pub mod registry;
pub mod templates;
pub mod text;
pub mod treasury;
pub mod zk_proofs;

pub use identity::Identity;
pub use registry::{Proof, RegistryError, VerinodeContract};
pub use treasury::accrual::{checked_yield, APY_BPS, BPS_SCALE, SECONDS_PER_YEAR};
pub use treasury::ledger::GrantTreasury;
pub use treasury::records::{
    DataKey, GrantAllocation, InvestmentPosition, TreasuryConfig, TreasuryError, YieldRecord,
};
pub use treasury::status::AllocationStatus;
