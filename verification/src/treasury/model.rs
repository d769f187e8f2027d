//! The treasury as mathematics: its state, the rule that every reachable
//! state obeys, and what each operation makes of a state.

use vstd::prelude::*;
use crate::treasury::accrual::BPS_SCALE;
use crate::treasury::records::{
    AllocationModel, ConfigModel, DataKey, PositionModel, TreasuryError, YieldRecordModel,
};
use crate::treasury::status::AllocationStatus;
use crate::treasury::sums::sum;

verus! {

/// The principal of each position.
pub open spec fn principals(positions: Seq<PositionModel>) -> Seq<int> {
    positions.map_values(|p: PositionModel| p.amount)
}

/// The yield realized so far on each position.
pub open spec fn accumulated(positions: Seq<PositionModel>) -> Seq<int> {
    positions.map_values(|p: PositionModel| p.accumulated_yield)
}

/// The yield that each position has accrued and not yet realized, as of `now`.
pub open spec fn pendings(positions: Seq<PositionModel>, now: nat) -> Seq<int> {
    positions.map_values(|p: PositionModel| p.pending_yield(now))
}

/// The principal held in `positions`.
pub open spec fn total_principal(positions: Seq<PositionModel>) -> int {
    sum(principals(positions))
}

/// The yield realized so far on `positions`.
pub open spec fn total_accumulated(positions: Seq<PositionModel>) -> int {
    sum(accumulated(positions))
}

/// The yield that `positions` have accrued and not yet realized, as of `now`.
pub open spec fn total_pending(positions: Seq<PositionModel>, now: nat) -> int {
    sum(pendings(positions, now))
}

/// Every position after its pending yield is realized at `now`.
pub open spec fn settled_all(positions: Seq<PositionModel>, now: nat) -> Seq<PositionModel> {
    positions.map_values(|p: PositionModel| p.settled(now))
}

/// One record, in store order, for each position with yield to realize at `now`.
pub open spec fn claim_records(positions: Seq<PositionModel>, now: nat) -> Seq<YieldRecordModel>
    decreases positions.len(),
{
    if positions.len() == 0 {
        Seq::empty()
    } else if positions.last().pending_yield(now) > 0 {
        claim_records(positions.drop_last(), now).push(positions.last().yield_record(now))
    } else {
        claim_records(positions.drop_last(), now)
    }
}

/// The least balance that must stay available: `ratio_bps` basis points of
/// `total`, rounded down.
pub open spec fn min_liquidity(total: int, ratio_bps: nat) -> int {
    (total * ratio_bps) / (BPS_SCALE as int)
}

/// What a walk over positions to raise liquidity has done so far.
pub struct Drain {
    /// The positions left in the store, in order.
    pub positions: Seq<PositionModel>,
    /// The principal freed.
    pub raised: int,
    /// The yield realized on the positions that gave up principal.
    pub realized: int,
}

/// The walk that raises `needed` from `positions`, in store order.
///
/// While some of `needed` is still missing, the next position has its yield
/// realized and gives up as much principal as is missing, or all it has; a
/// position left without principal leaves the store. Positions reached after
/// `needed` is covered are not touched.
pub open spec fn drain(positions: Seq<PositionModel>, needed: int, now: nat) -> Drain
    decreases positions.len(),
{
    if positions.len() == 0 {
        Drain { positions: Seq::empty(), raised: 0, realized: 0 }
    } else {
        let before = drain(positions.drop_last(), needed, now);
        let p = positions.last();
        let missing = needed - before.raised;
        if missing <= 0 {
            Drain { positions: before.positions.push(p), ..before }
        } else if missing < p.amount {
            Drain {
                positions: before.positions.push(p.settled(now).reduced(missing)),
                raised: before.raised + missing,
                realized: before.realized + p.pending_yield(now),
            }
        } else {
            Drain {
                positions: before.positions,
                raised: before.raised + p.amount,
                realized: before.realized + p.pending_yield(now),
            }
        }
    }
}

/// The state of the treasury.
pub struct TreasuryModel {
    /// The configuration, once initialized.
    pub config: Option<ConfigModel>,
    /// All funds of the treasury: deposits and realized yield, less what
    /// was set aside for grants.
    pub total: int,
    /// The principal of the open positions.
    pub invested: int,
    /// The liquid funds.
    pub available: int,
    /// The open positions, oldest first.
    pub positions: Seq<PositionModel>,
    /// The grant allocations, by id.
    pub allocations: Seq<AllocationModel>,
    /// The yield claimed, oldest first.
    pub yield_history: Seq<YieldRecordModel>,
    /// When yield was last claimed.
    pub last_yield_claim: nat,
    /// How often yield was claimed.
    pub yield_claim_counter: nat,
}

impl TreasuryModel {
    /// The treasury before it is initialized.
    pub open spec fn empty() -> TreasuryModel {
        TreasuryModel {
            config: None,
            total: 0,
            invested: 0,
            available: 0,
            positions: Seq::empty(),
            allocations: Seq::empty(),
            yield_history: Seq::empty(),
            last_yield_claim: 0,
            yield_claim_counter: 0,
        }
    }

    /// The rule of the ledger. It holds of the empty treasury, and every
    /// operation carries it over.
    ///
    /// - Until initialized, the treasury is empty.
    /// - No balance is negative.
    /// - The invested balance is the principal of the open positions.
    /// - The total is what is invested and what is available.
    /// - Every position has principal left, and no negative yield.
    /// - Every allocation sets a positive amount aside.
    pub open spec fn inv(self) -> bool {
        &&& self.config is None ==> self == TreasuryModel::empty()
        &&& 0 <= self.available
        &&& 0 <= self.invested
        &&& self.invested == total_principal(self.positions)
        &&& self.total == self.invested + self.available
        &&& forall|i: int| 0 <= i < self.positions.len() ==> (#[trigger] self.positions[i]).valid()
        &&& forall|i: int|
            0 <= i < self.allocations.len() ==> (#[trigger] self.allocations[i]).amount > 0
    }

    /// Whether both states hold the same under `key`.
    pub open spec fn same_entry(self, other: TreasuryModel, key: DataKey) -> bool {
        match key {
            DataKey::TreasuryConfig => self.config == other.config,
            DataKey::TotalBalance => self.total == other.total,
            DataKey::InvestedBalance => self.invested == other.invested,
            DataKey::AvailableBalance => self.available == other.available,
            DataKey::InvestmentPositions => self.positions == other.positions,
            DataKey::GrantAllocations => self.allocations == other.allocations,
            DataKey::YieldHistory => self.yield_history == other.yield_history,
            DataKey::LastYieldClaim => self.last_yield_claim == other.last_yield_claim,
            DataKey::YieldClaimCounter => self.yield_claim_counter == other.yield_claim_counter,
        }
    }

    /// The ledger clock has not run past `now`: no position had yield
    /// realized later than that.
    pub open spec fn observes(self, now: nat) -> bool {
        forall|i: int|
            0 <= i < self.positions.len() ==> (#[trigger] self.positions[i]).last_yield_claim
                <= now
    }

    /// The pending yield of every position can be realized at `now`, with
    /// the total and the yield realized on the positions still within 128
    /// bits.
    pub open spec fn settleable(self, now: nat) -> bool {
        &&& self.observes(now)
        &&& self.total + total_pending(self.positions, now) <= i128::MAX
        &&& total_accumulated(self.positions) + total_pending(self.positions, now) <= i128::MAX
    }

    /// The pending yield of the position at `index` can be realized at
    /// `now`, with the total and the yield realized on the positions still
    /// within 128 bits.
    pub open spec fn settleable_at(self, index: int, now: nat) -> bool {
        &&& self.positions[index].last_yield_claim <= now
        &&& self.total + self.positions[index].pending_yield(now) <= i128::MAX
        &&& total_accumulated(self.positions) + self.positions[index].pending_yield(now)
            <= i128::MAX
    }

    /// The check made of a caller that must be the administrator.
    pub open spec fn admin_outcome(self, caller: Seq<char>) -> Result<(), TreasuryError> {
        if self.config is None {
            Err(TreasuryError::NotInitialized)
        } else if self.config->0.admin != caller {
            Err(TreasuryError::Unauthorized)
        } else {
            Ok(())
        }
    }

    /// Whether `initialize` is accepted.
    pub open spec fn initialize_outcome(self) -> Result<(), TreasuryError> {
        if self.config is Some {
            Err(TreasuryError::AlreadyInitialized)
        } else {
            Ok(())
        }
    }

    /// The state after an accepted `initialize`: every entry is reset.
    pub open spec fn after_initialize(self, config: ConfigModel) -> TreasuryModel {
        TreasuryModel { config: Some(config), ..TreasuryModel::empty() }
    }

    /// Whether a deposit of `amount` is accepted.
    pub open spec fn deposit_outcome(self, amount: int) -> Result<(), TreasuryError> {
        if amount <= 0 {
            Err(TreasuryError::InvalidAmount)
        } else if self.config is None {
            Err(TreasuryError::NotInitialized)
        } else {
            Ok(())
        }
    }

    /// The state with `amount` credited to the total and the available balance.
    pub open spec fn credited(self, amount: int) -> TreasuryModel {
        TreasuryModel { total: self.total + amount, available: self.available + amount, ..self }
    }

    /// Whether the available balance has reached the automatic investment threshold.
    pub open spec fn at_threshold(self) -> bool {
        self.config is Some && self.available >= self.config->0.auto_invest_threshold
    }

    /// The state after the automatic investment that follows a deposit by
    /// `depositor`: at the threshold, half the available balance is invested
    /// on the depositor's authority. Only the administrator may invest, so a
    /// deposit by anyone else invests nothing; nor does one whose investment
    /// would be rejected for any other reason.
    pub open spec fn after_auto_invest(self, depositor: Seq<char>, now: nat) -> TreasuryModel {
        let half = self.available / 2;
        if self.at_threshold() && self.invest_outcome(depositor, half) is Ok {
            self.after_invest(half, now)
        } else {
            self
        }
    }

    /// The state after an accepted deposit of `amount` by `depositor` at `now`.
    pub open spec fn after_deposit(self, depositor: Seq<char>, amount: int, now: nat)
        -> TreasuryModel {
        self.credited(amount).after_auto_invest(depositor, now)
    }

    /// Whether an investment of `amount` by `caller` is accepted.
    pub open spec fn invest_outcome(self, caller: Seq<char>, amount: int) -> Result<
        (),
        TreasuryError,
    > {
        if self.admin_outcome(caller) is Err {
            self.admin_outcome(caller)
        } else if amount <= 0 {
            Err(TreasuryError::InvalidAmount)
        } else if amount > self.available {
            Err(TreasuryError::InsufficientBalance)
        } else if self.available - amount < min_liquidity(
            self.total,
            self.config->0.min_liquidity_ratio,
        ) {
            Err(TreasuryError::LiquidityBreach)
        } else {
            Ok(())
        }
    }

    /// The state after an accepted investment of `amount` at `now`.
    pub open spec fn after_invest(self, amount: int, now: nat) -> TreasuryModel {
        TreasuryModel {
            positions: self.positions.push(
                PositionModel::opened(amount, self.config->0.liquidity_pool_address, now),
            ),
            invested: self.invested + amount,
            available: self.available - amount,
            ..self
        }
    }

    /// Whether taking `amount` out of the position at `index` is accepted.
    pub open spec fn divest_outcome(self, caller: Seq<char>, amount: int, index: int) -> Result<
        (),
        TreasuryError,
    > {
        if self.admin_outcome(caller) is Err {
            self.admin_outcome(caller)
        } else if amount <= 0 {
            Err(TreasuryError::InvalidAmount)
        } else if index >= self.positions.len() {
            Err(TreasuryError::InvalidIndex)
        } else if amount > self.positions[index].amount {
            Err(TreasuryError::ExceedsPrincipal)
        } else {
            Ok(())
        }
    }

    /// The state after `amount` is taken out of the position at `index` at
    /// `now`: the position's yield is realized, the principal and that yield
    /// become available, and the yield joins the total. A position left
    /// without principal leaves the store.
    pub open spec fn after_divest(self, amount: int, index: int, now: nat) -> TreasuryModel {
        let position = self.positions[index];
        let realized = position.pending_yield(now);
        TreasuryModel {
            positions: if amount == position.amount {
                self.positions.remove(index)
            } else {
                self.positions.update(index, position.settled(now).reduced(amount))
            },
            invested: self.invested - amount,
            available: self.available + amount + realized,
            total: self.total + realized,
            ..self
        }
    }

    /// The state after `needed` is raised by divesting positions at `now`.
    pub open spec fn after_raise(self, needed: int, now: nat) -> TreasuryModel {
        let walk = drain(self.positions, needed, now);
        TreasuryModel {
            positions: walk.positions,
            invested: self.invested - walk.raised,
            available: self.available + walk.raised + walk.realized,
            total: self.total + walk.realized,
            ..self
        }
    }

    /// Whether a grant of `amount` allocated by `caller` is accepted.
    pub open spec fn allocate_outcome(self, caller: Seq<char>, amount: int) -> Result<
        (),
        TreasuryError,
    > {
        if self.admin_outcome(caller) is Err {
            self.admin_outcome(caller)
        } else if amount <= 0 {
            Err(TreasuryError::InvalidAmount)
        } else if amount - self.available > self.invested {
            Err(TreasuryError::LiquidityUnavailable)
        } else {
            Ok(())
        }
    }

    /// The state after an accepted grant of `amount` to `grantee` at `now`:
    /// what the available balance lacks is raised first, then the amount
    /// leaves the available balance, and the total with it, and the
    /// allocation is recorded.
    pub open spec fn after_allocate(self, grantee: Seq<char>, amount: int, now: nat)
        -> TreasuryModel {
        let funded = if amount > self.available {
            self.after_raise(amount - self.available, now)
        } else {
            self
        };
        TreasuryModel {
            available: funded.available - amount,
            total: funded.total - amount,
            allocations: funded.allocations.push(AllocationModel::approved(grantee, amount, now)),
            ..funded
        }
    }

    /// Whether `grantee` may withdraw the allocation with the given id.
    pub open spec fn withdraw_outcome(self, grantee: Seq<char>, id: int) -> Result<
        (),
        TreasuryError,
    > {
        if id >= self.allocations.len() {
            Err(TreasuryError::InvalidAllocationId)
        } else if self.allocations[id].grantee != grantee {
            Err(TreasuryError::Unauthorized)
        } else if self.allocations[id].status != AllocationStatus::Approved {
            Err(TreasuryError::InvalidState)
        } else {
            Ok(())
        }
    }

    /// The state after an accepted withdrawal: the allocation is disbursed.
    /// The funds left the treasury when they were allocated.
    pub open spec fn after_withdraw(self, id: int) -> TreasuryModel {
        TreasuryModel {
            allocations: self.allocations.update(id, self.allocations[id].disbursed()),
            ..self
        }
    }

    /// The state after an accepted yield claim at `now`: every position has
    /// its pending yield realized and recorded, and the sum joins the
    /// available balance and the total.
    pub open spec fn after_claim(self, now: nat) -> TreasuryModel {
        let claimed = total_pending(self.positions, now);
        TreasuryModel {
            positions: settled_all(self.positions, now),
            yield_history: self.yield_history + claim_records(self.positions, now),
            available: self.available + claimed,
            total: self.total + claimed,
            last_yield_claim: now,
            yield_claim_counter: self.yield_claim_counter + 1,
            ..self
        }
    }
}

} // verus!
