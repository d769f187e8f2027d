//! The records the treasury keeps, each with its mathematical view.

use vstd::prelude::*;
use crate::treasury::accrual::{accrued_yield, APY_BPS};
use crate::identity::Identity;
use crate::treasury::status::AllocationStatus;

verus! {

/// Why a call on the treasury was rejected. A rejected call changes nothing.
#[derive(Clone, Copy, Debug, PartialEq, Eq, Structural)]
pub enum TreasuryError {
    /// `initialize` was called on a treasury that already has a configuration.
    AlreadyInitialized,
    /// The treasury has no configuration yet.
    NotInitialized,
    /// The caller is not the party the operation is reserved for.
    Unauthorized,
    /// An amount was zero or negative.
    InvalidAmount,
    /// The amount exceeds the available balance.
    InsufficientBalance,
    /// The investment would leave less than the minimum liquidity available.
    LiquidityBreach,
    /// Divesting every open position would still not cover the amount needed.
    LiquidityUnavailable,
    /// No investment position has the given index.
    InvalidIndex,
    /// No grant allocation has the given id.
    InvalidAllocationId,
    /// The allocation is not in the status the operation needs.
    InvalidState,
    /// The amount exceeds the principal of the position.
    ExceedsPrincipal,
}

/// The entries of the treasury's persisted state, each stored on its own.
#[derive(Clone, Copy, Debug, PartialEq, Eq, Structural)]
pub enum DataKey {
    TreasuryConfig,
    TotalBalance,
    InvestedBalance,
    AvailableBalance,
    InvestmentPositions,
    GrantAllocations,
    YieldHistory,
    LastYieldClaim,
    YieldClaimCounter,
}

/// The configuration fixed when the treasury is initialized.
#[derive(Debug, PartialEq, Eq)]
pub struct TreasuryConfig {
    /// The only party that may invest, divest, allocate grants and claim yield.
    pub admin: Identity,
    /// The pool that investments are placed in.
    pub liquidity_pool_address: Identity,
    /// The share of the total balance that must stay available after an
    /// investment, in basis points.
    pub min_liquidity_ratio: u32,
    /// A deposit that brings the available balance to this amount or more
    /// triggers an automatic investment.
    pub auto_invest_threshold: i128,
    /// The advised number of seconds between yield claims; not enforced.
    pub yield_claim_frequency: u64,
}

/// The mathematical view of a [`TreasuryConfig`].
pub struct ConfigModel {
    pub admin: Seq<char>,
    pub liquidity_pool_address: Seq<char>,
    pub min_liquidity_ratio: nat,
    pub auto_invest_threshold: int,
    pub yield_claim_frequency: nat,
}

impl View for TreasuryConfig {
    type V = ConfigModel;

    open spec fn view(&self) -> ConfigModel {
        ConfigModel {
            admin: self.admin@,
            liquidity_pool_address: self.liquidity_pool_address@,
            min_liquidity_ratio: self.min_liquidity_ratio as nat,
            auto_invest_threshold: self.auto_invest_threshold as int,
            yield_claim_frequency: self.yield_claim_frequency as nat,
        }
    }
}

impl Clone for TreasuryConfig {
    fn clone(&self) -> (r: Self)
        ensures
            r == *self,
    {
        TreasuryConfig {
            admin: self.admin.clone(),
            liquidity_pool_address: self.liquidity_pool_address.clone(),
            min_liquidity_ratio: self.min_liquidity_ratio,
            auto_invest_threshold: self.auto_invest_threshold,
            yield_claim_frequency: self.yield_claim_frequency,
        }
    }
}

/// An open investment: principal placed in a pool, accruing yield.
#[derive(Debug, PartialEq, Eq)]
pub struct InvestmentPosition {
    /// The principal still invested.
    pub amount: i128,
    /// The pool that holds the principal.
    pub pool_address: Identity,
    /// When the position was opened, in ledger seconds.
    pub invested_at: u64,
    /// When yield was last realized on the position, in ledger seconds.
    pub last_yield_claim: u64,
    /// The yield realized on the position so far.
    pub accumulated_yield: i128,
}

/// The mathematical view of an [`InvestmentPosition`].
pub struct PositionModel {
    pub amount: int,
    pub pool_address: Seq<char>,
    pub invested_at: nat,
    pub last_yield_claim: nat,
    pub accumulated_yield: int,
}

impl PositionModel {
    /// An open position has a positive principal and no negative yield.
    pub open spec fn valid(self) -> bool {
        self.amount > 0 && self.accumulated_yield >= 0
    }

    /// The yield accrued since yield was last realized, as of `now`.
    pub open spec fn pending_yield(self, now: nat) -> int {
        accrued_yield(self.amount, now - self.last_yield_claim)
    }

    /// The position after its pending yield is realized at `now`. Yield that
    /// still rounds to zero is left to accrue: the position is unchanged.
    pub open spec fn settled(self, now: nat) -> PositionModel {
        if self.pending_yield(now) > 0 {
            PositionModel {
                accumulated_yield: self.accumulated_yield + self.pending_yield(now),
                last_yield_claim: now,
                ..self
            }
        } else {
            self
        }
    }

    /// The position with `amount` of its principal taken out.
    pub open spec fn reduced(self, amount: int) -> PositionModel {
        PositionModel { amount: self.amount - amount, ..self }
    }

    /// The position that an investment of `amount` in `pool` opens at `now`.
    pub open spec fn opened(amount: int, pool: Seq<char>, now: nat) -> PositionModel {
        PositionModel {
            amount,
            pool_address: pool,
            invested_at: now,
            last_yield_claim: now,
            accumulated_yield: 0,
        }
    }

    /// The record of yield realized on this position at `now`.
    pub open spec fn yield_record(self, now: nat) -> YieldRecordModel {
        YieldRecordModel {
            amount: self.pending_yield(now),
            claimed_at: now,
            pool_address: self.pool_address,
            apy: APY_BPS as nat,
        }
    }
}

impl View for InvestmentPosition {
    type V = PositionModel;

    open spec fn view(&self) -> PositionModel {
        PositionModel {
            amount: self.amount as int,
            pool_address: self.pool_address@,
            invested_at: self.invested_at as nat,
            last_yield_claim: self.last_yield_claim as nat,
            accumulated_yield: self.accumulated_yield as int,
        }
    }
}

impl Clone for InvestmentPosition {
    fn clone(&self) -> (r: Self)
        ensures
            r == *self,
    {
        InvestmentPosition {
            amount: self.amount,
            pool_address: self.pool_address.clone(),
            invested_at: self.invested_at,
            last_yield_claim: self.last_yield_claim,
            accumulated_yield: self.accumulated_yield,
        }
    }
}

/// Funds set aside for a grantee.
#[derive(Debug, PartialEq, Eq)]
pub struct GrantAllocation {
    /// The party that may withdraw the grant.
    pub grantee: Identity,
    /// The amount set aside.
    pub amount: i128,
    /// When the grant was allocated, in ledger seconds.
    pub allocated_at: u64,
    /// Where the allocation stands.
    pub status: AllocationStatus,
}

/// The mathematical view of a [`GrantAllocation`].
pub struct AllocationModel {
    pub grantee: Seq<char>,
    pub amount: int,
    pub allocated_at: nat,
    pub status: AllocationStatus,
}

impl AllocationModel {
    /// The allocation that a grant of `amount` to `grantee` creates at `now`.
    pub open spec fn approved(grantee: Seq<char>, amount: int, now: nat) -> AllocationModel {
        AllocationModel { grantee, amount, allocated_at: now, status: AllocationStatus::Approved }
    }

    /// The allocation once its grantee has withdrawn it.
    pub open spec fn disbursed(self) -> AllocationModel {
        AllocationModel { status: AllocationStatus::Disbursed, ..self }
    }
}

impl View for GrantAllocation {
    type V = AllocationModel;

    open spec fn view(&self) -> AllocationModel {
        AllocationModel {
            grantee: self.grantee@,
            amount: self.amount as int,
            allocated_at: self.allocated_at as nat,
            status: self.status,
        }
    }
}

impl Clone for GrantAllocation {
    fn clone(&self) -> (r: Self)
        ensures
            r == *self,
    {
        GrantAllocation {
            grantee: self.grantee.clone(),
            amount: self.amount,
            allocated_at: self.allocated_at,
            status: self.status,
        }
    }
}

/// An entry of the yield history; never changed once written.
#[derive(Debug, PartialEq, Eq)]
pub struct YieldRecord {
    /// The yield realized.
    pub amount: i128,
    /// When it was claimed, in ledger seconds.
    pub claimed_at: u64,
    /// The pool that paid it.
    pub pool_address: Identity,
    /// The annual rate applied, in basis points.
    pub apy: u32,
}

/// The mathematical view of a [`YieldRecord`].
pub struct YieldRecordModel {
    pub amount: int,
    pub claimed_at: nat,
    pub pool_address: Seq<char>,
    pub apy: nat,
}

impl View for YieldRecord {
    type V = YieldRecordModel;

    open spec fn view(&self) -> YieldRecordModel {
        YieldRecordModel {
            amount: self.amount as int,
            claimed_at: self.claimed_at as nat,
            pool_address: self.pool_address@,
            apy: self.apy as nat,
        }
    }
}

impl Clone for YieldRecord {
    fn clone(&self) -> (r: Self)
        ensures
            r == *self,
    {
        YieldRecord {
            amount: self.amount,
            claimed_at: self.claimed_at,
            pool_address: self.pool_address.clone(),
            apy: self.apy,
        }
    }
}

/// The views of the positions in a vector, in order.
pub open spec fn position_models(positions: Seq<InvestmentPosition>) -> Seq<PositionModel> {
    positions.map_values(|p: InvestmentPosition| p@)
}

/// The views of the allocations in a vector, in order.
pub open spec fn allocation_models(allocations: Seq<GrantAllocation>) -> Seq<AllocationModel> {
    allocations.map_values(|a: GrantAllocation| a@)
}

/// The views of the yield records in a vector, in order.
pub open spec fn record_models(records: Seq<YieldRecord>) -> Seq<YieldRecordModel> {
    records.map_values(|r: YieldRecord| r@)
}

} // verus!
