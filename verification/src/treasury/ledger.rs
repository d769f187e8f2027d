//! The treasury ledger: the executable state and its operations, each held
//! to what the model makes of the state.

use vstd::prelude::*;
use crate::treasury::accrual::{checked_yield, APY_BPS, BPS_SCALE};
use crate::identity::Identity;
use crate::treasury::laws::{
    law_allocate_keeps_rule, law_balances_not_negative, law_claim_keeps_rule,
    law_deposit_keeps_rule, law_divest_keeps_rule, law_empty_is_well_formed,
    law_initialize_keeps_rule, law_invest_keeps_rule, law_raise_keeps_rule,
    law_withdraw_keeps_rule, lemma_drain, lemma_pending_nonnegative,
    lemma_positions_push, lemma_principal_bounds, lemma_settled, lemma_totals_of_nothing,
    positions_ready,
};
use crate::treasury::model::{
    accumulated, claim_records, drain, min_liquidity, pendings, principals, settled_all,
    total_accumulated, total_pending, total_principal, Drain, TreasuryModel,
};
use crate::treasury::ratio::checked_mul_div;
use crate::treasury::records::{
    allocation_models, position_models, record_models, ConfigModel, DataKey, GrantAllocation,
    InvestmentPosition, TreasuryConfig, TreasuryError, YieldRecord,
};
use crate::treasury::status::AllocationStatus;
use crate::treasury::sums::lemma_sum_prefix;

verus! {

/// The treasury: pooled capital, part of it liquid and part of it invested
/// in positions that accrue yield, out of which grants are allocated.
///
/// Every operation takes the identity of its caller as already verified, and
/// the ledger time `now` in seconds where it needs it. A rejected call
/// changes nothing.
pub struct GrantTreasury {
    config: Option<TreasuryConfig>,
    total_balance: i128,
    invested_balance: i128,
    available_balance: i128,
    positions: Vec<InvestmentPosition>,
    allocations: Vec<GrantAllocation>,
    yield_history: Vec<YieldRecord>,
    last_yield_claim: u64,
    yield_claim_counter: u64,
}

/// The state that the given entries make up.
pub open spec fn model_of(
    config: Option<TreasuryConfig>,
    total_balance: i128,
    invested_balance: i128,
    available_balance: i128,
    positions: Seq<InvestmentPosition>,
    allocations: Seq<GrantAllocation>,
    yield_history: Seq<YieldRecord>,
    last_yield_claim: u64,
    yield_claim_counter: u64,
) -> TreasuryModel {
    TreasuryModel {
        config: match config {
            Some(config) => Some(config@),
            None => None,
        },
        total: total_balance as int,
        invested: invested_balance as int,
        available: available_balance as int,
        positions: position_models(positions),
        allocations: allocation_models(allocations),
        yield_history: record_models(yield_history),
        last_yield_claim: last_yield_claim as nat,
        yield_claim_counter: yield_claim_counter as nat,
    }
}

impl View for GrantTreasury {
    type V = TreasuryModel;

    closed spec fn view(&self) -> TreasuryModel {
        model_of(
            self.config,
            self.total_balance,
            self.invested_balance,
            self.available_balance,
            self.positions@,
            self.allocations@,
            self.yield_history@,
            self.last_yield_claim,
            self.yield_claim_counter,
        )
    }
}

/// The principal and the accumulated yield of `positions`, summed, if every
/// position is valid and both sums fit in 128 bits; `None` otherwise.
fn sum_positions(positions: &Vec<InvestmentPosition>) -> (sums: Option<(i128, i128)>)
    ensures
        sums is Some <==> (forall|j: int|
            0 <= j < positions.len() ==> (#[trigger] position_models(positions@)[j]).valid())
            && total_principal(position_models(positions@)) <= i128::MAX && total_accumulated(
            position_models(positions@),
        ) <= i128::MAX,
        sums matches Some((principal, realized)) ==> principal == total_principal(
            position_models(positions@),
        ) && realized == total_accumulated(position_models(positions@)),
{
    let ghost all = position_models(positions@);
    let ghost acceptable = (forall|j: int| 0 <= j < all.len() ==> (#[trigger] all[j]).valid())
        && total_principal(all) <= i128::MAX && total_accumulated(all) <= i128::MAX;
    proof {
        lemma_totals_of_nothing(0);
        assert(all.take(0) =~= Seq::empty());
    }
    let mut principal: i128 = 0;
    let mut realized: i128 = 0;
    let mut i: usize = 0;
    while i < positions.len()
        invariant
            i <= positions.len(),
            all == position_models(positions@),
            acceptable == ((forall|j: int| 0 <= j < all.len() ==> (#[trigger] all[j]).valid())
                && total_principal(all) <= i128::MAX && total_accumulated(all) <= i128::MAX),
            forall|j: int| 0 <= j < i ==> (#[trigger] all[j]).valid(),
            principal == total_principal(all.take(i as int)),
            realized == total_accumulated(all.take(i as int)),
        decreases positions.len() - i,
    {
        let position = &positions[i];
        proof {
            assert(position@ == all[i as int]);
            assert(all.take(i + 1) =~= all.take(i as int).push(position@));
            lemma_positions_push(all.take(i as int), position@, 0);
            if acceptable {
                assert forall|j: int| 0 <= j < all.len() implies 0 <= #[trigger] principals(
                    all,
                )[j] by {
                    assert(all[j].valid());
                }
                assert forall|j: int| 0 <= j < all.len() implies 0 <= #[trigger] accumulated(
                    all,
                )[j] by {
                    assert(all[j].valid());
                }
                assert(principals(all.take(i + 1)) =~= principals(all).take(i + 1));
                assert(accumulated(all.take(i + 1)) =~= accumulated(all).take(i + 1));
                lemma_sum_prefix(principals(all), i + 1);
                lemma_sum_prefix(accumulated(all), i + 1);
            }
        }
        if position.amount <= 0 || position.accumulated_yield < 0 {
            return None;
        }
        principal = match principal.checked_add(position.amount) {
            Some(sum) => sum,
            None => {
                return None;
            },
        };
        realized = match realized.checked_add(position.accumulated_yield) {
            Some(sum) => sum,
            None => {
                return None;
            },
        };
        i = i + 1;
    }
    proof {
        assert(all.take(i as int) =~= all);
    }
    Some((principal, realized))
}

/// Whether every allocation sets a positive amount aside.
fn all_positive(allocations: &Vec<GrantAllocation>) -> (positive: bool)
    ensures
        positive == forall|j: int|
            0 <= j < allocations.len() ==> (#[trigger] allocation_models(allocations@)[j]).amount
                > 0,
{
    let mut i: usize = 0;
    while i < allocations.len()
        invariant
            i <= allocations.len(),
            forall|j: int| 0 <= j < i ==> (#[trigger] allocation_models(allocations@)[j]).amount > 0,
        decreases allocations.len() - i,
    {
        proof {
            assert(allocation_models(allocations@)[i as int] == allocations@[i as int]@);
        }
        if allocations[i].amount <= 0 {
            return false;
        }
        i = i + 1;
    }
    true
}

impl GrantTreasury {
    /// The treasury obeys the rule of the ledger, and the yield realized on
    /// its positions is within 128 bits.
    pub open spec fn wf(&self) -> bool {
        self@.inv() && total_accumulated(self@.positions) <= i128::MAX
    }

    /// A treasury that is not initialized yet: no configuration, no funds.
    pub fn new() -> (treasury: Self)
        ensures
            treasury@ == TreasuryModel::empty(),
            treasury.wf(),
    {
        let treasury = GrantTreasury {
            config: None,
            total_balance: 0,
            invested_balance: 0,
            available_balance: 0,
            positions: Vec::new(),
            allocations: Vec::new(),
            yield_history: Vec::new(),
            last_yield_claim: 0,
            yield_claim_counter: 0,
        };
        proof {
            assert(treasury@.positions =~= Seq::empty());
            assert(treasury@.allocations =~= Seq::empty());
            assert(treasury@.yield_history =~= Seq::empty());
            law_empty_is_well_formed();
            lemma_totals_of_nothing(0);
        }
        treasury
    }

    /// The treasury made up of the given entries, as they were read back
    /// from where they are kept, if together they obey the rule of the
    /// ledger, with the yield realized on the positions within 128 bits;
    /// `None` if they do not.
    pub fn restore(
        config: Option<TreasuryConfig>,
        total_balance: i128,
        invested_balance: i128,
        available_balance: i128,
        positions: Vec<InvestmentPosition>,
        allocations: Vec<GrantAllocation>,
        yield_history: Vec<YieldRecord>,
        last_yield_claim: u64,
        yield_claim_counter: u64,
    ) -> (res: Option<Self>)
        ensures
            res is Some <==> model_of(
                config,
                total_balance,
                invested_balance,
                available_balance,
                positions@,
                allocations@,
                yield_history@,
                last_yield_claim,
                yield_claim_counter,
            ).inv() && total_accumulated(position_models(positions@)) <= i128::MAX,
            res matches Some(treasury) ==> treasury.wf() && treasury@ == model_of(
                config,
                total_balance,
                invested_balance,
                available_balance,
                positions@,
                allocations@,
                yield_history@,
                last_yield_claim,
                yield_claim_counter,
            ),
    {
        let ghost model = model_of(
            config,
            total_balance,
            invested_balance,
            available_balance,
            positions@,
            allocations@,
            yield_history@,
            last_yield_claim,
            yield_claim_counter,
        );
        if config.is_none() {
            let blank = total_balance == 0 && invested_balance == 0 && available_balance == 0
                && positions.len() == 0 && allocations.len() == 0 && yield_history.len() == 0
                && last_yield_claim == 0 && yield_claim_counter == 0;
            if !blank {
                proof {
                    assert(model.positions.len() == positions.len());
                    assert(model.allocations.len() == allocations.len());
                    assert(model.yield_history.len() == yield_history.len());
                }
                return None;
            }
            proof {
                assert(model.positions =~= Seq::empty());
                assert(model.allocations =~= Seq::empty());
                assert(model.yield_history =~= Seq::empty());
                assert(model == TreasuryModel::empty());
                law_empty_is_well_formed();
                lemma_totals_of_nothing(0);
            }
        } else {
            if available_balance < 0 || invested_balance < 0 {
                return None;
            }
            let (principal, _) = match sum_positions(&positions) {
                Some(sums) => sums,
                None => {
                    return None;
                },
            };
            if principal != invested_balance || !all_positive(&allocations) {
                return None;
            }
            match invested_balance.checked_add(available_balance) {
                Some(sum) => {
                    if sum != total_balance {
                        return None;
                    }
                },
                None => {
                    return None;
                },
            }
        }
        Some(
            GrantTreasury {
                config,
                total_balance,
                invested_balance,
                available_balance,
                positions,
                allocations,
                yield_history,
                last_yield_claim,
                yield_claim_counter,
            },
        )
    }

    /// Sets the configuration of a treasury that has none, and resets every
    /// entry of its state.
    pub fn initialize(
        &mut self,
        admin: Identity,
        liquidity_pool_address: Identity,
        min_liquidity_ratio: u32,
        auto_invest_threshold: i128,
        yield_claim_frequency: u64,
    ) -> (res: Result<(), TreasuryError>)
        requires
            old(self).wf(),
        ensures
            final(self).wf(),
            res == old(self)@.initialize_outcome(),
            res is Ok ==> final(self)@ == old(self)@.after_initialize(
                ConfigModel {
                    admin: admin@,
                    liquidity_pool_address: liquidity_pool_address@,
                    min_liquidity_ratio: min_liquidity_ratio as nat,
                    auto_invest_threshold: auto_invest_threshold as int,
                    yield_claim_frequency: yield_claim_frequency as nat,
                },
            ),
            res is Err ==> final(self)@ == old(self)@,
    {
        if self.config.is_some() {
            return Err(TreasuryError::AlreadyInitialized);
        }
        let config = TreasuryConfig {
            admin,
            liquidity_pool_address,
            min_liquidity_ratio,
            auto_invest_threshold,
            yield_claim_frequency,
        };
        proof {
            law_initialize_keeps_rule(old(self)@, config@);
        }
        self.config = Some(config);
        self.total_balance = 0;
        self.invested_balance = 0;
        self.available_balance = 0;
        self.positions = Vec::new();
        self.allocations = Vec::new();
        self.yield_history = Vec::new();
        self.last_yield_claim = 0;
        self.yield_claim_counter = 0;
        proof {
            assert(self@.positions =~= Seq::empty());
            assert(self@.allocations =~= Seq::empty());
            assert(self@.yield_history =~= Seq::empty());
            lemma_totals_of_nothing(0);
        }
        Ok(())
    }

    /// The check made of every caller that must be the administrator:
    /// `NotInitialized` if the treasury has no configuration, else
    /// `Unauthorized` unless `caller` is the administrator.
    pub fn check_admin(&self, caller: &Identity) -> (res: Result<(), TreasuryError>)
        ensures
            res == self@.admin_outcome(caller@),
    {
        match &self.config {
            None => Err(TreasuryError::NotInitialized),
            Some(config) => {
                if config.admin.same_as(caller) {
                    Ok(())
                } else {
                    Err(TreasuryError::Unauthorized)
                }
            },
        }
    }

    /// Whether `remaining` is less than the minimum liquidity for `total`.
    fn below_min_liquidity(total: i128, ratio_bps: u32, remaining: i128) -> (below: bool)
        requires
            0 <= total,
        ensures
            below == (remaining < min_liquidity(total as int, ratio_bps as nat)),
    {
        match checked_mul_div(total, ratio_bps as u64, BPS_SCALE as i128) {
            None => true,
            Some(floor) => remaining < floor,
        }
    }

    /// Credits `amount` to the total and the available balance. If that
    /// brings the available balance to the automatic investment threshold,
    /// half of it is invested on the depositor's authority, as by
    /// `invest_idle_funds`; an investment that would be rejected, as it is
    /// for every depositor but the administrator, is skipped and fails nothing.
    ///
    /// `from` is the depositor, already authenticated; any party may deposit.
    /// Fails with `InvalidAmount` if `amount` is not positive, else with
    /// `NotInitialized` if the treasury has no configuration.
    pub fn deposit(&mut self, from: &Identity, amount: i128, now: u64) -> (res: Result<
        (),
        TreasuryError,
    >)
        requires
            old(self).wf(),
            old(self)@.deposit_outcome(amount as int) is Ok ==> old(self)@.total + amount
                <= i128::MAX,
        ensures
            final(self).wf(),
            res == old(self)@.deposit_outcome(amount as int),
            res is Ok ==> final(self)@ == old(self)@.after_deposit(
                from@,
                amount as int,
                now as nat,
            ),
            res is Err ==> final(self)@ == old(self)@,
            forall|key: DataKey|
                key != DataKey::TotalBalance && key != DataKey::AvailableBalance && key
                    != DataKey::InvestedBalance && key != DataKey::InvestmentPositions
                    ==> final(self)@.same_entry(old(self)@, key),
    {
        if amount <= 0 {
            return Err(TreasuryError::InvalidAmount);
        }
        if self.config.is_none() {
            return Err(TreasuryError::NotInitialized);
        }
        proof {
            law_deposit_keeps_rule(self@, from@, amount as int, now as nat);
            law_balances_not_negative(self@);
        }
        self.total_balance = self.total_balance + amount;
        self.available_balance = self.available_balance + amount;
        assert(self@ == old(self)@.credited(amount as int));
        self.auto_invest_idle_funds(from, now);
        Ok(())
    }

    /// Moves `amount` from the available balance into a new position.
    ///
    /// Fails with `NotInitialized` or `Unauthorized` unless `caller` is the
    /// administrator, else with `InvalidAmount` if `amount` is not positive,
    /// else with `InsufficientBalance` if it exceeds the available balance,
    /// else with `LiquidityBreach` if it would leave less than the minimum
    /// liquidity available.
    pub fn invest_idle_funds(&mut self, caller: &Identity, amount: i128, now: u64) -> (res:
        Result<(), TreasuryError>)
        requires
            old(self).wf(),
        ensures
            final(self).wf(),
            res == old(self)@.invest_outcome(caller@, amount as int),
            res is Ok ==> final(self)@ == old(self)@.after_invest(amount as int, now as nat),
            res is Ok ==> final(self)@.available >= min_liquidity(
                final(self)@.total,
                final(self)@.config->0.min_liquidity_ratio,
            ),
            res is Err ==> final(self)@ == old(self)@,
            forall|key: DataKey|
                key != DataKey::AvailableBalance && key != DataKey::InvestedBalance && key
                    != DataKey::InvestmentPositions ==> final(self)@.same_entry(old(self)@, key),
    {
        match self.check_admin(caller) {
            Err(e) => {
                return Err(e);
            },
            Ok(()) => {},
        }
        if amount <= 0 {
            return Err(TreasuryError::InvalidAmount);
        }
        if amount > self.available_balance {
            return Err(TreasuryError::InsufficientBalance);
        }
        proof {
            law_balances_not_negative(self@);
        }
        let remaining: i128 = self.available_balance - amount;
        let (ratio_bps, pool) = match &self.config {
            Some(config) => (config.min_liquidity_ratio, config.liquidity_pool_address.clone()),
            None => {
                return Err(TreasuryError::NotInitialized);
            },
        };
        if Self::below_min_liquidity(self.total_balance, ratio_bps, remaining) {
            return Err(TreasuryError::LiquidityBreach);
        }
        proof {
            law_invest_keeps_rule(self@, caller@, amount as int, now as nat);
        }
        let position = InvestmentPosition {
            amount,
            pool_address: pool,
            invested_at: now,
            last_yield_claim: now,
            accumulated_yield: 0,
        };
        self.positions.push(position);
        self.invested_balance = self.invested_balance + amount;
        self.available_balance = remaining;
        proof {
            assert(self@.positions =~= old(self)@.positions.push(position@));
        }
        Ok(())
    }

    /// Invests half the available balance on the authority of `depositor`,
    /// if the available balance has reached the threshold and the investment
    /// is acceptable; does nothing otherwise.
    fn auto_invest_idle_funds(&mut self, depositor: &Identity, now: u64)
        requires
            old(self).wf(),
            old(self)@.config is Some,
        ensures
            final(self).wf(),
            final(self)@ == old(self)@.after_auto_invest(depositor@, now as nat),
            forall|key: DataKey|
                key != DataKey::AvailableBalance && key != DataKey::InvestedBalance && key
                    != DataKey::InvestmentPositions ==> final(self)@.same_entry(old(self)@, key),
    {
        let threshold: i128 = match &self.config {
            Some(config) => config.auto_invest_threshold,
            None => {
                return ;
            },
        };
        if self.available_balance >= threshold {
            let half: i128 = self.available_balance / 2;
            let _ = self.invest_idle_funds(depositor, half, now);
        }
    }

    /// The yield that `position` has accrued since yield was last realized
    /// on it, as of `now`. Computes only: the position is not changed.
    pub fn calculate_yield(position: &InvestmentPosition, now: u64) -> (accrued: i128)
        requires
            position@.valid(),
            position.last_yield_claim <= now,
            position@.pending_yield(now as nat) <= i128::MAX,
        ensures
            accrued == position@.pending_yield(now as nat),
            0 <= accrued,
    {
        proof {
            lemma_settled(position@, now as nat);
        }
        let elapsed: u64 = now - position.last_yield_claim;
        checked_yield(position.amount, elapsed).unwrap()
    }

    /// Whether `divest_funds` would accept the call, and the error it would
    /// fail with if not.
    pub fn check_divest(&self, caller: &Identity, amount: i128, position_index: u32) -> (res:
        Result<(), TreasuryError>)
        ensures
            res == self@.divest_outcome(caller@, amount as int, position_index as int),
    {
        match self.check_admin(caller) {
            Err(e) => {
                return Err(e);
            },
            Ok(()) => {},
        }
        if amount <= 0 {
            return Err(TreasuryError::InvalidAmount);
        }
        let index: usize = position_index as usize;
        if index >= self.positions.len() {
            return Err(TreasuryError::InvalidIndex);
        }
        proof {
            assert(self@.positions[index as int] == self.positions@[index as int]@);
        }
        if amount > self.positions[index].amount {
            return Err(TreasuryError::ExceedsPrincipal);
        }
        Ok(())
    }

    /// Takes `amount` out of the position at `position_index`: realizes the
    /// position's yield, makes principal and yield available, and adds the
    /// yield to the total. A position left without principal leaves the
    /// store, and the positions after it move up by one.
    ///
    /// Fails with `NotInitialized` or `Unauthorized` unless `caller` is the
    /// administrator, else with `InvalidAmount` if `amount` is not positive,
    /// else with `InvalidIndex` if there is no such position, else with
    /// `ExceedsPrincipal` if `amount` exceeds its principal.
    pub fn divest_funds(
        &mut self,
        caller: &Identity,
        amount: i128,
        position_index: u32,
        now: u64,
    ) -> (res: Result<(), TreasuryError>)
        requires
            old(self).wf(),
            old(self)@.divest_outcome(caller@, amount as int, position_index as int) is Ok
                ==> old(self)@.settleable_at(position_index as int, now as nat),
        ensures
            final(self).wf(),
            res == old(self)@.divest_outcome(caller@, amount as int, position_index as int),
            res is Ok ==> final(self)@ == old(self)@.after_divest(
                amount as int,
                position_index as int,
                now as nat,
            ),
            res is Err ==> final(self)@ == old(self)@,
            forall|key: DataKey|
                key != DataKey::TotalBalance && key != DataKey::AvailableBalance && key
                    != DataKey::InvestedBalance && key != DataKey::InvestmentPositions
                    ==> final(self)@.same_entry(old(self)@, key),
    {
        match self.check_divest(caller, amount, position_index) {
            Err(e) => {
                return Err(e);
            },
            Ok(()) => {},
        }
        let index: usize = position_index as usize;
        let principal: i128 = self.positions[index].amount;
        proof {
            assert(self@.positions[index as int] == self.positions@[index as int]@);
            assert(self@.positions[index as int].valid());
            lemma_principal_bounds(self@.positions);
            law_balances_not_negative(self@);
            law_divest_keeps_rule(self@, caller@, amount as int, index as int, now as nat);
        }
        let realized: i128 = Self::calculate_yield(&self.positions[index], now);
        if amount == principal {
            let _ = self.positions.remove(index);
            proof {
                assert(self@.positions =~= old(self)@.positions.remove(index as int));
            }
        } else {
            let position = &self.positions[index];
            let kept = InvestmentPosition {
                amount: principal - amount,
                pool_address: position.pool_address.clone(),
                invested_at: position.invested_at,
                last_yield_claim: if realized > 0 {
                    now
                } else {
                    position.last_yield_claim
                },
                accumulated_yield: position.accumulated_yield + realized,
            };
            self.positions.set(index, kept);
            proof {
                assert(kept@ == old(self)@.positions[index as int].settled(now as nat).reduced(
                    amount as int,
                ));
                assert(self@.positions =~= old(self)@.positions.update(index as int, kept@));
            }
        }
        self.invested_balance = self.invested_balance - amount;
        self.available_balance = self.available_balance + amount + realized;
        self.total_balance = self.total_balance + realized;
        Ok(())
    }

    /// Raises `needed` by divesting positions in store order: each position
    /// reached while some of `needed` is still missing has its yield
    /// realized and gives up what is missing, or all its principal, and
    /// leaves the store if none is left. What was raised moves from the
    /// invested to the available balance; the yield realized joins the
    /// available balance and the total.
    ///
    /// Fails with `LiquidityUnavailable`, before it touches anything, if the
    /// open positions together hold less than `needed`.
    fn ensure_liquidity(&mut self, needed: i128, now: u64) -> (res: Result<(), TreasuryError>)
        requires
            old(self).wf(),
            old(self)@.config is Some,
            0 < needed,
            needed <= old(self)@.invested ==> old(self)@.settleable(now as nat),
        ensures
            final(self).wf(),
            res is Err <==> needed > old(self)@.invested,
            res is Err ==> res == Err::<(), TreasuryError>(TreasuryError::LiquidityUnavailable)
                && final(self)@ == old(self)@,
            res is Ok ==> final(self)@ == old(self)@.after_raise(needed as int, now as nat),
            res is Ok ==> final(self)@.available >= old(self)@.available + needed,
    {
        if needed > self.invested_balance {
            return Err(TreasuryError::LiquidityUnavailable);
        }
        let ghost before = self@.positions;
        proof {
            assert(positions_ready(before, now as nat));
            lemma_pending_nonnegative(before, now as nat);
            law_raise_keeps_rule(self@, needed as int, now as nat);
            law_balances_not_negative(self@);
            lemma_totals_of_nothing(now as nat);
            assert(before.take(0) =~= Seq::empty());
        }
        let mut kept: Vec<InvestmentPosition> = Vec::new();
        proof {
            assert(position_models(kept@) =~= Seq::empty());
        }
        let mut raised: i128 = 0;
        let mut realized: i128 = 0;
        let mut i: usize = 0;
        while i < self.positions.len()
            invariant
                i <= self.positions.len(),
                before == position_models(self.positions@),
                positions_ready(before, now as nat),
                0 <= needed,
                0 <= self@.total,
                total_accumulated(before) + total_pending(before, now as nat) <= i128::MAX,
                self@.total + total_pending(before, now as nat) <= i128::MAX,
                drain(before.take(i as int), needed as int, now as nat) == (Drain {
                    positions: position_models(kept@),
                    raised: raised as int,
                    realized: realized as int,
                }),
                0 <= raised <= needed,
                0 <= realized <= total_pending(before, now as nat),
            decreases self.positions.len() - i,
        {
            let position = &self.positions[i];
            let missing: i128 = needed - raised;
            proof {
                assert(before.take(i + 1).drop_last() =~= before.take(i as int));
                assert(before.take(i + 1).last() == position@);
                assert(position@ == before[i as int]);
                assert(positions_ready(before.take(i + 1), now as nat));
                lemma_drain(before.take(i + 1), needed as int, now as nat);
                lemma_pending_nonnegative(before, now as nat);
                lemma_principal_bounds(before);
                assert(pendings(before.take(i + 1), now as nat) =~= pendings(
                    before,
                    now as nat,
                ).take(i + 1));
                lemma_sum_prefix(pendings(before, now as nat), i + 1);
                lemma_settled(position@, now as nat);
                assert(pendings(before, now as nat)[i as int] == position@.pending_yield(
                    now as nat,
                ));
            }
            let ghost kept_before = position_models(kept@);
            if missing <= 0 {
                let untouched = position.clone();
                kept.push(untouched);
                proof {
                    assert(position_models(kept@) =~= kept_before.push(position@));
                }
            } else {
                let accrued: i128 = Self::calculate_yield(position, now);
                if missing < position.amount {
                    let reduced = InvestmentPosition {
                        amount: position.amount - missing,
                        pool_address: position.pool_address.clone(),
                        invested_at: position.invested_at,
                        last_yield_claim: if accrued > 0 {
                            now
                        } else {
                            position.last_yield_claim
                        },
                        accumulated_yield: position.accumulated_yield + accrued,
                    };
                    kept.push(reduced);
                    proof {
                        assert(reduced@ == position@.settled(now as nat).reduced(missing as int));
                        assert(position_models(kept@) =~= kept_before.push(reduced@));
                    }
                    raised = raised + missing;
                } else {
                    raised = raised + position.amount;
                }
                realized = realized + accrued;
            }
            i = i + 1;
        }
        proof {
            assert(before.take(i as int) =~= before);
        }
        self.positions = kept;
        self.invested_balance = self.invested_balance - raised;
        self.available_balance = self.available_balance + raised + realized;
        self.total_balance = self.total_balance + realized;
        Ok(())
    }

    /// Whether `allocate_grant` would accept the call, and the error it
    /// would fail with if not.
    pub fn check_allocate(&self, caller: &Identity, amount: i128) -> (res: Result<
        (),
        TreasuryError,
    >)
        requires
            self.wf(),
        ensures
            res == self@.allocate_outcome(caller@, amount as int),
    {
        match self.check_admin(caller) {
            Err(e) => {
                return Err(e);
            },
            Ok(()) => {},
        }
        if amount <= 0 {
            return Err(TreasuryError::InvalidAmount);
        }
        proof {
            law_balances_not_negative(self@);
        }
        if amount > self.available_balance && amount - self.available_balance
            > self.invested_balance {
            return Err(TreasuryError::LiquidityUnavailable);
        }
        Ok(())
    }

    /// Sets `amount` aside for `grantee`: raises what the available balance
    /// lacks by divesting positions, takes the amount out of the available
    /// balance and out of the total, and records the allocation as approved.
    ///
    /// Fails with `NotInitialized` or `Unauthorized` unless `caller` is the
    /// administrator, else with `InvalidAmount` if `amount` is not positive,
    /// else with `LiquidityUnavailable` if the available balance and the
    /// open positions together hold less than `amount`.
    pub fn allocate_grant(
        &mut self,
        caller: &Identity,
        grantee: Identity,
        amount: i128,
        now: u64,
    ) -> (res: Result<(), TreasuryError>)
        requires
            old(self).wf(),
            old(self)@.allocate_outcome(caller@, amount as int) is Ok && amount > old(
                self,
            )@.available ==> old(self)@.settleable(now as nat),
        ensures
            final(self).wf(),
            res == old(self)@.allocate_outcome(caller@, amount as int),
            res is Ok ==> final(self)@ == old(self)@.after_allocate(
                grantee@,
                amount as int,
                now as nat,
            ),
            res is Err ==> final(self)@ == old(self)@,
            forall|key: DataKey|
                key != DataKey::TotalBalance && key != DataKey::AvailableBalance && key
                    != DataKey::InvestedBalance && key != DataKey::InvestmentPositions && key
                    != DataKey::GrantAllocations ==> final(self)@.same_entry(old(self)@, key),
    {
        match self.check_allocate(caller, amount) {
            Err(e) => {
                return Err(e);
            },
            Ok(()) => {},
        }
        proof {
            law_balances_not_negative(self@);
            law_allocate_keeps_rule(self@, caller@, grantee@, amount as int, now as nat);
        }
        if amount > self.available_balance {
            let needed: i128 = amount - self.available_balance;
            match self.ensure_liquidity(needed, now) {
                Err(e) => {
                    return Err(e);
                },
                Ok(()) => {},
            }
        }
        let allocation = GrantAllocation {
            grantee,
            amount,
            allocated_at: now,
            status: AllocationStatus::Approved,
        };
        let ghost funded = self@;
        self.available_balance = self.available_balance - amount;
        self.total_balance = self.total_balance - amount;
        self.allocations.push(allocation);
        proof {
            assert(self@.allocations =~= funded.allocations.push(allocation@));
        }
        Ok(())
    }

    /// Disburses the allocation with the given id to its grantee, and
    /// returns it as disbursed. The funds left the available balance when
    /// they were allocated: no balance changes.
    ///
    /// `grantee` is the party that withdraws, already authenticated. Fails
    /// with `InvalidAllocationId` if there is no such allocation, else with
    /// `Unauthorized` if it is not `grantee`'s, else with `InvalidState`
    /// unless it is approved.
    pub fn withdraw_grant(&mut self, grantee: &Identity, allocation_id: u32) -> (res: Result<
        GrantAllocation,
        TreasuryError,
    >)
        requires
            old(self).wf(),
        ensures
            final(self).wf(),
            match res {
                Ok(disbursed) => old(self)@.withdraw_outcome(grantee@, allocation_id as int) is Ok
                    && disbursed@ == old(self)@.allocations[allocation_id as int].disbursed(),
                Err(e) => old(self)@.withdraw_outcome(grantee@, allocation_id as int) == Err::<
                    (),
                    TreasuryError,
                >(e),
            },
            res is Ok ==> final(self)@ == old(self)@.after_withdraw(allocation_id as int),
            res is Err ==> final(self)@ == old(self)@,
            forall|key: DataKey|
                key != DataKey::GrantAllocations ==> final(self)@.same_entry(old(self)@, key),
    {
        let id: usize = allocation_id as usize;
        if id >= self.allocations.len() {
            return Err(TreasuryError::InvalidAllocationId);
        }
        let allocation = &self.allocations[id];
        proof {
            assert(self@.allocations[id as int] == allocation@);
        }
        if !allocation.grantee.same_as(grantee) {
            return Err(TreasuryError::Unauthorized);
        }
        match allocation.status {
            AllocationStatus::Approved => {},
            _ => {
                return Err(TreasuryError::InvalidState);
            },
        }
        proof {
            law_withdraw_keeps_rule(self@, grantee@, id as int);
        }
        let disbursed = GrantAllocation {
            grantee: allocation.grantee.clone(),
            amount: allocation.amount,
            allocated_at: allocation.allocated_at,
            status: AllocationStatus::Disbursed,
        };
        let receipt = disbursed.clone();
        self.allocations.set(id, disbursed);
        proof {
            assert(self@.allocations =~= old(self)@.allocations.update(id as int, disbursed@));
        }
        Ok(receipt)
    }

    /// Realizes the pending yield of every position: each position with
    /// yield to realize has it added to its accumulated yield and is marked
    /// as settled at `now`, and a record of it joins the yield history; the
    /// sum joins the available balance and the total. The claim is counted
    /// and timed even when there was nothing to realize.
    ///
    /// Fails with `NotInitialized` or `Unauthorized` unless `caller` is the
    /// administrator.
    pub fn claim_yield(&mut self, caller: &Identity, now: u64) -> (res: Result<
        (),
        TreasuryError,
    >)
        requires
            old(self).wf(),
            old(self)@.admin_outcome(caller@) is Ok ==> old(self)@.settleable(now as nat) && old(
                self,
            )@.yield_claim_counter < u64::MAX,
        ensures
            final(self).wf(),
            res == old(self)@.admin_outcome(caller@),
            res is Ok ==> final(self)@ == old(self)@.after_claim(now as nat),
            res is Err ==> final(self)@ == old(self)@,
            forall|key: DataKey|
                key != DataKey::TotalBalance && key != DataKey::AvailableBalance && key
                    != DataKey::InvestmentPositions && key != DataKey::YieldHistory && key
                    != DataKey::LastYieldClaim && key != DataKey::YieldClaimCounter
                    ==> final(self)@.same_entry(old(self)@, key),
    {
        match self.check_admin(caller) {
            Err(e) => {
                return Err(e);
            },
            Ok(()) => {},
        }
        let ghost before = self@.positions;
        let ghost history = self@.yield_history;
        proof {
            assert(positions_ready(before, now as nat));
            law_claim_keeps_rule(self@, caller@, now as nat);
            law_balances_not_negative(self@);
            lemma_totals_of_nothing(now as nat);
            assert(before.take(0) =~= Seq::empty());
            assert(settled_all(before.take(0), now as nat) + before.skip(0) =~= before);
            assert(history + claim_records(before.take(0), now as nat) =~= history);
        }
        let mut claimed: i128 = 0;
        let mut i: usize = 0;
        while i < self.positions.len()
            invariant
                i <= self.positions.len(),
                self.positions.len() == before.len(),
                positions_ready(before, now as nat),
                0 <= self@.total,
                total_accumulated(before) + total_pending(before, now as nat) <= i128::MAX,
                self@.total + total_pending(before, now as nat) <= i128::MAX,
                position_models(self.positions@) == settled_all(before.take(i as int), now as nat)
                    + before.skip(i as int),
                record_models(self.yield_history@) == history + claim_records(
                    before.take(i as int),
                    now as nat,
                ),
                claimed == total_pending(before.take(i as int), now as nat),
                0 <= claimed <= total_pending(before, now as nat),
                self.config == old(self).config,
                self.total_balance == old(self).total_balance,
                self.invested_balance == old(self).invested_balance,
                self.available_balance == old(self).available_balance,
                self.allocations == old(self).allocations,
                self.last_yield_claim == old(self).last_yield_claim,
                self.yield_claim_counter == old(self).yield_claim_counter,
            decreases self.positions.len() - i,
        {
            let ghost positions_before = position_models(self.positions@);
            let ghost records_before = record_models(self.yield_history@);
            let position = &self.positions[i];
            proof {
                assert(position@ == positions_before[i as int]);
                assert(position@ == before[i as int]);
                assert(before.take(i + 1).drop_last() =~= before.take(i as int));
                assert(before.take(i + 1).last() == position@);
                lemma_pending_nonnegative(before, now as nat);
                lemma_principal_bounds(before);
                lemma_positions_push(before.take(i as int), position@, now as nat);
                assert(before.take(i + 1) =~= before.take(i as int).push(position@));
                assert(pendings(before.take(i + 1), now as nat) =~= pendings(
                    before,
                    now as nat,
                ).take(i + 1));
                lemma_sum_prefix(pendings(before, now as nat), i + 1);
                lemma_settled(position@, now as nat);
                assert(pendings(before, now as nat)[i as int] == position@.pending_yield(
                    now as nat,
                ));
            }
            let accrued: i128 = Self::calculate_yield(position, now);
            if accrued > 0 {
                let settled = InvestmentPosition {
                    amount: position.amount,
                    pool_address: position.pool_address.clone(),
                    invested_at: position.invested_at,
                    last_yield_claim: now,
                    accumulated_yield: position.accumulated_yield + accrued,
                };
                let record = YieldRecord {
                    amount: accrued,
                    claimed_at: now,
                    pool_address: position.pool_address.clone(),
                    apy: APY_BPS,
                };
                proof {
                    assert(settled@ == position@.settled(now as nat));
                    assert(record@ == position@.yield_record(now as nat));
                }
                self.positions.set(i, settled);
                self.yield_history.push(record);
                proof {
                    assert(record_models(self.yield_history@) =~= records_before.push(record@));
                }
            }
            claimed = claimed + accrued;
            proof {
                let target = settled_all(before.take(i + 1), now as nat) + before.skip(i + 1);
                let current = position_models(self.positions@);
                assert(current.len() == target.len());
                assert forall|j: int| 0 <= j < current.len() implies current[j] == target[j] by {
                    if j < i {
                        assert(current[j] == positions_before[j]);
                        assert(positions_before[j] == before.take(i as int)[j].settled(
                            now as nat,
                        ));
                    } else if j == i {
                        assert(target[j] == before[i as int].settled(now as nat));
                    } else {
                        assert(current[j] == positions_before[j]);
                        assert(positions_before[j] == before.skip(i as int)[j - i]);
                        assert(target[j] == before.skip(i + 1)[j - i - 1]);
                    }
                }
                assert(current =~= target);
            }
            i = i + 1;
        }
        proof {
            assert(before.take(i as int) =~= before);
            assert(settled_all(before, now as nat) + before.skip(i as int) =~= settled_all(
                before,
                now as nat,
            ));
        }
        self.available_balance = self.available_balance + claimed;
        self.total_balance = self.total_balance + claimed;
        self.last_yield_claim = now;
        self.yield_claim_counter = self.yield_claim_counter + 1;
        Ok(())
    }

    /// The total balance: all funds recognized as the treasury's.
    pub fn get_total_balance(&self) -> (balance: i128)
        ensures
            balance == self@.total,
    {
        self.total_balance
    }

    /// The available balance: the liquid funds.
    pub fn get_available_balance(&self) -> (balance: i128)
        ensures
            balance == self@.available,
    {
        self.available_balance
    }

    /// The invested balance: the principal of the open positions.
    pub fn get_invested_balance(&self) -> (balance: i128)
        ensures
            balance == self@.invested,
    {
        self.invested_balance
    }

    /// The open investment positions, oldest first.
    pub fn get_investment_positions(&self) -> (positions: Vec<InvestmentPosition>)
        ensures
            position_models(positions@) == self@.positions,
    {
        let positions = self.positions.clone();
        proof {
            assert(positions@ =~= self.positions@);
        }
        positions
    }

    /// The grant allocations, by id.
    pub fn get_grant_allocations(&self) -> (allocations: Vec<GrantAllocation>)
        ensures
            allocation_models(allocations@) == self@.allocations,
    {
        let allocations = self.allocations.clone();
        proof {
            assert(allocations@ =~= self.allocations@);
        }
        allocations
    }

    /// The yield history, oldest first.
    pub fn get_yield_history(&self) -> (history: Vec<YieldRecord>)
        ensures
            record_models(history@) == self@.yield_history,
    {
        let history = self.yield_history.clone();
        proof {
            assert(history@ =~= self.yield_history@);
        }
        history
    }

    /// The configuration, or `NotInitialized` if there is none yet.
    pub fn get_treasury_config(&self) -> (res: Result<TreasuryConfig, TreasuryError>)
        ensures
            match res {
                Ok(config) => self@.config == Some(config@),
                Err(e) => self@.config is None && e == TreasuryError::NotInitialized,
            },
    {
        match &self.config {
            Some(config) => Ok(config.clone()),
            None => Err(TreasuryError::NotInitialized),
        }
    }

    /// When yield was last claimed, in ledger seconds; zero before the first claim.
    pub fn get_last_yield_claim(&self) -> (at: u64)
        ensures
            at == self@.last_yield_claim,
    {
        self.last_yield_claim
    }

    /// How often yield was claimed.
    pub fn get_yield_claim_counter(&self) -> (count: u64)
        ensures
            count == self@.yield_claim_counter,
    {
        self.yield_claim_counter
    }

    /// The yield realized so far on the open positions.
    pub fn get_accumulated_yield(&self) -> (realized: i128)
        requires
            self.wf(),
        ensures
            realized == total_accumulated(self@.positions),
    {
        let ghost all = self@.positions;
        proof {
            lemma_totals_of_nothing(0);
            assert(all.take(0) =~= Seq::empty());
        }
        let mut realized: i128 = 0;
        let mut i: usize = 0;
        while i < self.positions.len()
            invariant
                i <= self.positions.len(),
                all == position_models(self.positions@),
                forall|j: int| 0 <= j < all.len() ==> (#[trigger] all[j]).valid(),
                total_accumulated(all) <= i128::MAX,
                realized == total_accumulated(all.take(i as int)),
            decreases self.positions.len() - i,
        {
            let position = &self.positions[i];
            proof {
                assert(position@ == all[i as int]);
                assert(all.take(i + 1) =~= all.take(i as int).push(position@));
                lemma_positions_push(all.take(i as int), position@, 0);
                assert(accumulated(all.take(i + 1)) =~= accumulated(all).take(i + 1));
                assert forall|j: int| 0 <= j < all.len() implies 0 <= #[trigger] accumulated(
                    all,
                )[j] by {
                    assert(all[j].valid());
                }
                lemma_sum_prefix(accumulated(all), i + 1);
            }
            realized = realized + position.accumulated_yield;
            i = i + 1;
        }
        proof {
            assert(all.take(i as int) =~= all);
        }
        realized
    }

    /// Whether the available balance has reached the automatic investment
    /// threshold, or `NotInitialized` if there is no configuration yet.
    pub fn should_auto_invest(&self) -> (res: Result<bool, TreasuryError>)
        ensures
            match res {
                Ok(due) => self@.config is Some && due == self@.at_threshold(),
                Err(e) => self@.config is None && e == TreasuryError::NotInitialized,
            },
    {
        match &self.config {
            Some(config) => Ok(self.available_balance >= config.auto_invest_threshold),
            None => Err(TreasuryError::NotInitialized),
        }
    }

    /// The yield that a claim at `now` would realize, if the state can be
    /// settled at `now`: if the ledger clock has not run past `now`, and the
    /// total and the yield realized on the positions, with that yield added,
    /// still fit in 128 bits. `None` otherwise.
    pub fn pending_yield(&self, now: u64) -> (pending: Option<i128>)
        requires
            self.wf(),
        ensures
            pending is Some <==> self@.settleable(now as nat),
            pending is Some ==> pending->0 == total_pending(self@.positions, now as nat),
    {
        let ghost all = self@.positions;
        proof {
            lemma_totals_of_nothing(now as nat);
            law_balances_not_negative(self@);
            assert(all.take(0) =~= Seq::empty());
        }
        let mut pending: i128 = 0;
        let mut i: usize = 0;
        while i < self.positions.len()
            invariant
                i <= self.positions.len(),
                all == position_models(self.positions@),
                all == self@.positions,
                0 <= self@.total,
                forall|j: int| 0 <= j < all.len() ==> (#[trigger] all[j]).valid(),
                positions_ready(all.take(i as int), now as nat),
                pending == total_pending(all.take(i as int), now as nat),
                0 <= pending,
            decreases self.positions.len() - i,
        {
            let position = &self.positions[i];
            proof {
                assert(position@ == all[i as int]);
                assert(all.take(i + 1) =~= all.take(i as int).push(position@));
                lemma_positions_push(all.take(i as int), position@, now as nat);
                assert(pendings(all.take(i + 1), now as nat) =~= pendings(all, now as nat).take(
                    i + 1,
                ));
                if self@.settleable(now as nat) {
                    assert(positions_ready(all, now as nat));
                    lemma_pending_nonnegative(all, now as nat);
                    lemma_sum_prefix(pendings(all, now as nat), i + 1);
                }
            }
            if position.last_yield_claim > now {
                return None;
            }
            proof {
                lemma_settled(position@, now as nat);
            }
            let accrued: i128 = match checked_yield(position.amount, now - position.last_yield_claim) {
                Some(accrued) => accrued,
                None => {
                    return None;
                },
            };
            pending = match pending.checked_add(accrued) {
                Some(sum) => sum,
                None => {
                    return None;
                },
            };
            proof {
                assert forall|j: int| 0 <= j < all.take(i + 1).len() implies (#[trigger] all.take(
                    i + 1,
                )[j]).valid() && all.take(i + 1)[j].last_yield_claim <= now by {
                    if j < i {
                        assert(all.take(i as int)[j] == all.take(i + 1)[j]);
                    }
                }
            }
            i = i + 1;
        }
        proof {
            assert(all.take(i as int) =~= all);
        }
        if self.total_balance.checked_add(pending).is_none() {
            return None;
        }
        if self.get_accumulated_yield().checked_add(pending).is_none() {
            return None;
        }
        Some(pending)
    }

    /// Whether the position at `position_index` exists and can have its
    /// pending yield realized at `now`: whether the ledger clock has not run
    /// past `now` for it, and the total and the yield realized on the
    /// positions, with that yield added, still fit in 128 bits.
    pub fn settles_at(&self, position_index: u32, now: u64) -> (ok: bool)
        requires
            self.wf(),
        ensures
            ok == (position_index < self@.positions.len() && self@.settleable_at(
                position_index as int,
                now as nat,
            )),
    {
        let index: usize = position_index as usize;
        if index >= self.positions.len() {
            return false;
        }
        let position = &self.positions[index];
        proof {
            assert(position@ == self@.positions[index as int]);
            assert(position@.valid());
        }
        if position.last_yield_claim > now {
            return false;
        }
        match checked_yield(position.amount, now - position.last_yield_claim) {
            Some(accrued) => self.total_balance.checked_add(accrued).is_some()
                && self.get_accumulated_yield().checked_add(accrued).is_some(),
            None => {
                proof {
                    law_balances_not_negative(self@);
                }
                false
            },
        }
    }

    /// The annual percentage yield, in basis points.
    pub fn get_apy() -> (apy: u32)
        ensures
            apy == APY_BPS,
    {
        APY_BPS
    }
}

} // verus!
