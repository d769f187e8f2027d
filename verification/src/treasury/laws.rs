//! What holds of the ledger in every reachable state, proved of the model.

use vstd::prelude::*;
use crate::treasury::accrual::{
    lemma_accrued_yield_nonnegative, lemma_accrued_yield_positive, UNIT_SECONDS_PER_YIELD,
};
use crate::treasury::model::{
    accumulated, claim_records, drain, min_liquidity, pendings, principals, settled_all,
    total_accumulated, total_pending, total_principal, TreasuryModel,
};
use crate::treasury::records::{AllocationModel, ConfigModel, PositionModel};
use crate::treasury::sums::{
    lemma_sum_bounds, lemma_sum_pointwise_add, lemma_sum_push, lemma_sum_remove,
    lemma_sum_update,
};

verus! {

/// Every position is valid and had its yield last realized no later than `now`.
pub open spec fn positions_ready(positions: Seq<PositionModel>, now: nat) -> bool {
    forall|i: int|
        0 <= i < positions.len() ==> (#[trigger] positions[i]).valid()
            && positions[i].last_yield_claim <= now
}

/// The totals of no positions are zero.
pub proof fn lemma_totals_of_nothing(now: nat)
    ensures
        total_principal(Seq::empty()) == 0,
        total_accumulated(Seq::empty()) == 0,
        total_pending(Seq::empty(), now) == 0,
{
    assert(principals(Seq::empty()) =~= Seq::<int>::empty());
    assert(accumulated(Seq::empty()) =~= Seq::<int>::empty());
    assert(pendings(Seq::empty(), now) =~= Seq::<int>::empty());
}

/// A position appended adds its share to each total.
pub proof fn lemma_positions_push(positions: Seq<PositionModel>, p: PositionModel, now: nat)
    ensures
        total_principal(positions.push(p)) == total_principal(positions) + p.amount,
        total_accumulated(positions.push(p)) == total_accumulated(positions)
            + p.accumulated_yield,
        total_pending(positions.push(p), now) == total_pending(positions, now) + p.pending_yield(
            now,
        ),
{
    assert(principals(positions.push(p)) =~= principals(positions).push(p.amount));
    assert(accumulated(positions.push(p)) =~= accumulated(positions).push(p.accumulated_yield));
    assert(pendings(positions.push(p), now) =~= pendings(positions, now).push(
        p.pending_yield(now),
    ));
    lemma_sum_push(principals(positions), p.amount);
    lemma_sum_push(accumulated(positions), p.accumulated_yield);
    lemma_sum_push(pendings(positions, now), p.pending_yield(now));
}

/// A position replaced changes each total by the difference.
pub proof fn lemma_positions_update(positions: Seq<PositionModel>, i: int, p: PositionModel)
    requires
        0 <= i < positions.len(),
    ensures
        total_principal(positions.update(i, p)) == total_principal(positions)
            - positions[i].amount + p.amount,
        total_accumulated(positions.update(i, p)) == total_accumulated(positions)
            - positions[i].accumulated_yield + p.accumulated_yield,
{
    assert(principals(positions.update(i, p)) =~= principals(positions).update(i, p.amount));
    assert(accumulated(positions.update(i, p)) =~= accumulated(positions).update(
        i,
        p.accumulated_yield,
    ));
    lemma_sum_update(principals(positions), i, p.amount);
    lemma_sum_update(accumulated(positions), i, p.accumulated_yield);
}

/// A position removed takes its share out of each total.
pub proof fn lemma_positions_remove(positions: Seq<PositionModel>, i: int)
    requires
        0 <= i < positions.len(),
    ensures
        total_principal(positions.remove(i)) == total_principal(positions) - positions[i].amount,
        total_accumulated(positions.remove(i)) == total_accumulated(positions)
            - positions[i].accumulated_yield,
{
    assert(principals(positions.remove(i)) =~= principals(positions).remove(i));
    assert(accumulated(positions.remove(i)) =~= accumulated(positions).remove(i));
    lemma_sum_remove(principals(positions), i);
    lemma_sum_remove(accumulated(positions), i);
}

/// Realizing yield on a valid position, with the clock not behind it, leaves
/// it valid with the same principal, and moves the pending yield to the
/// accumulated yield.
pub proof fn lemma_settled(p: PositionModel, now: nat)
    requires
        p.valid(),
        p.last_yield_claim <= now,
    ensures
        0 <= p.pending_yield(now),
        p.settled(now).valid(),
        p.settled(now).amount == p.amount,
        p.settled(now).pool_address == p.pool_address,
        p.settled(now).accumulated_yield == p.accumulated_yield + p.pending_yield(now),
        p.settled(now).last_yield_claim <= now,
{
    lemma_accrued_yield_nonnegative(p.amount, now - p.last_yield_claim);
}

/// The pending yield of positions that are ready is nowhere negative.
pub proof fn lemma_pending_nonnegative(positions: Seq<PositionModel>, now: nat)
    requires
        positions_ready(positions, now),
    ensures
        forall|i: int| 0 <= i < positions.len() ==> 0 <= #[trigger] pendings(positions, now)[i],
        forall|i: int|
            0 <= i < positions.len() ==> #[trigger] pendings(positions, now)[i] <= total_pending(
                positions,
                now,
            ),
        0 <= total_pending(positions, now),
{
    assert forall|i: int| 0 <= i < positions.len() implies 0 <= #[trigger] pendings(
        positions,
        now,
    )[i] by {
        lemma_settled(positions[i], now);
    }
    lemma_sum_bounds(pendings(positions, now));
}

/// The principal of valid positions is nowhere negative, and each is within the total.
pub proof fn lemma_principal_bounds(positions: Seq<PositionModel>)
    requires
        forall|i: int| 0 <= i < positions.len() ==> (#[trigger] positions[i]).valid(),
    ensures
        0 <= total_principal(positions),
        0 <= total_accumulated(positions),
        forall|i: int|
            0 <= i < positions.len() ==> (#[trigger] positions[i]).amount <= total_principal(
                positions,
            ),
        forall|i: int|
            0 <= i < positions.len() ==> (#[trigger] positions[i]).accumulated_yield
                <= total_accumulated(positions),
        positions.len() > 0 ==> 0 < total_principal(positions),
{
    assert forall|i: int| 0 <= i < positions.len() implies 0 <= #[trigger] principals(
        positions,
    )[i] by {
        assert(positions[i].valid());
    }
    assert forall|i: int| 0 <= i < positions.len() implies 0 <= #[trigger] accumulated(
        positions,
    )[i] by {
        assert(positions[i].valid());
    }
    lemma_sum_bounds(principals(positions));
    lemma_sum_bounds(accumulated(positions));
    assert forall|i: int| 0 <= i < positions.len() implies (#[trigger] positions[i]).amount
        <= total_principal(positions) by {
        assert(principals(positions)[i] == positions[i].amount);
    }
    assert forall|i: int| 0 <= i < positions.len() implies (#[trigger] positions[i])
        .accumulated_yield <= total_accumulated(positions) by {
        assert(accumulated(positions)[i] == positions[i].accumulated_yield);
    }
    if positions.len() > 0 {
        assert(positions[0].valid());
    }
}

/// What the walk that raises liquidity achieves.
///
/// It frees what is needed, or all the principal there is if that is less;
/// the principal left is the principal it started with less what it freed;
/// the yield it realizes is part of the pending yield, and accounts for all
/// growth of the accumulated yield; the positions left are valid.
pub proof fn lemma_drain(positions: Seq<PositionModel>, needed: int, now: nat)
    requires
        positions_ready(positions, now),
        0 <= needed,
    ensures
        0 <= total_principal(positions),
        drain(positions, needed, now).raised == if needed <= total_principal(positions) {
            needed
        } else {
            total_principal(positions)
        },
        total_principal(drain(positions, needed, now).positions) == total_principal(positions)
            - drain(positions, needed, now).raised,
        0 <= drain(positions, needed, now).realized <= total_pending(positions, now),
        total_accumulated(drain(positions, needed, now).positions) <= total_accumulated(positions)
            + drain(positions, needed, now).realized,
        positions_ready(drain(positions, needed, now).positions, now),
    decreases positions.len(),
{
    if positions.len() == 0 {
        lemma_totals_of_nothing(now);
        assert(positions =~= Seq::empty());
    } else {
        let init = positions.drop_last();
        let p = positions.last();
        assert(positions =~= init.push(p));
        assert(positions_ready(init, now)) by {
            assert forall|i: int| 0 <= i < init.len() implies (#[trigger] init[i]).valid()
                && init[i].last_yield_claim <= now by {
                assert(init[i] == positions[i]);
            }
        }
        lemma_drain(init, needed, now);
        lemma_positions_push(init, p, now);
        lemma_settled(p, now);
        let before = drain(init, needed, now);
        let missing = needed - before.raised;
        let after = drain(positions, needed, now);
        if missing <= 0 {
            lemma_positions_push(before.positions, p, now);
        } else if missing < p.amount {
            let kept = p.settled(now).reduced(missing);
            lemma_positions_push(before.positions, kept, now);
            assert(kept.valid() && kept.last_yield_claim <= now);
        } else {
        }
        assert(positions_ready(after.positions, now)) by {
            assert forall|i: int| 0 <= i < after.positions.len() implies (
            #[trigger] after.positions[i]).valid() && after.positions[i].last_yield_claim
                <= now by {
                if i < before.positions.len() {
                    assert(after.positions[i] == before.positions[i]);
                }
            }
        }
    }
}

/// Realizing the yield of every position keeps the principal, and moves the
/// pending yield to the accumulated yield.
pub proof fn lemma_settled_all(positions: Seq<PositionModel>, now: nat)
    requires
        positions_ready(positions, now),
    ensures
        settled_all(positions, now).len() == positions.len(),
        positions_ready(settled_all(positions, now), now),
        total_principal(settled_all(positions, now)) == total_principal(positions),
        total_accumulated(settled_all(positions, now)) == total_accumulated(positions)
            + total_pending(positions, now),
        0 <= total_pending(positions, now),
{
    let after = settled_all(positions, now);
    assert forall|i: int| 0 <= i < positions.len() implies (#[trigger] after[i]).valid()
        && after[i].last_yield_claim <= now && after[i].amount == positions[i].amount
        && after[i].accumulated_yield == positions[i].accumulated_yield
        + positions[i].pending_yield(now) by {
        lemma_settled(positions[i], now);
    }
    assert(principals(after) =~= principals(positions));
    lemma_sum_pointwise_add(accumulated(positions), pendings(positions, now), accumulated(after));
    lemma_pending_nonnegative(positions, now);
}

/// The empty treasury obeys the rule of the ledger.
pub proof fn law_empty_is_well_formed()
    ensures
        TreasuryModel::empty().inv(),
{
    lemma_totals_of_nothing(0);
}

/// An accepted `initialize` yields a state that obeys the rule of the ledger.
pub proof fn law_initialize_keeps_rule(s: TreasuryModel, config: ConfigModel)
    requires
        s.inv(),
    ensures
        s.after_initialize(config).inv(),
        forall|now: nat| s.after_initialize(config).observes(now),
{
    lemma_totals_of_nothing(0);
}

/// An accepted investment keeps the rule of the ledger, and leaves at least
/// the minimum liquidity available.
pub proof fn law_invest_keeps_rule(s: TreasuryModel, caller: Seq<char>, amount: int, now: nat)
    requires
        s.inv(),
        s.invest_outcome(caller, amount) is Ok,
    ensures
        s.after_invest(amount, now).inv(),
        s.after_invest(amount, now).available >= min_liquidity(
            s.after_invest(amount, now).total,
            s.config->0.min_liquidity_ratio,
        ),
        total_accumulated(s.after_invest(amount, now).positions) == total_accumulated(
            s.positions,
        ),
        s.observes(now) ==> s.after_invest(amount, now).observes(now),
{
    let opened = PositionModel::opened(amount, s.config->0.liquidity_pool_address, now);
    lemma_positions_push(s.positions, opened, now);
    let after = s.after_invest(amount, now);
    assert forall|i: int| 0 <= i < after.positions.len() implies (
    #[trigger] after.positions[i]).valid() by {
        if i < s.positions.len() {
            assert(after.positions[i] == s.positions[i]);
        }
    }
    if s.observes(now) {
        assert forall|i: int| 0 <= i < after.positions.len() implies (
        #[trigger] after.positions[i]).last_yield_claim <= now by {
            if i < s.positions.len() {
                assert(after.positions[i] == s.positions[i]);
            }
        }
    }
}

/// An accepted deposit keeps the rule of the ledger, whether or not it
/// triggers an automatic investment.
pub proof fn law_deposit_keeps_rule(
    s: TreasuryModel,
    depositor: Seq<char>,
    amount: int,
    now: nat,
)
    requires
        s.inv(),
        s.deposit_outcome(amount) is Ok,
    ensures
        s.after_deposit(depositor, amount, now).inv(),
        s.after_deposit(depositor, amount, now).total == s.total + amount,
        total_accumulated(s.after_deposit(depositor, amount, now).positions)
            == total_accumulated(s.positions),
        s.observes(now) ==> s.after_deposit(depositor, amount, now).observes(now),
{
    let credited = s.credited(amount);
    assert(credited.inv());
    let half = credited.available / 2;
    if credited.at_threshold() && credited.invest_outcome(depositor, half) is Ok {
        law_invest_keeps_rule(credited, depositor, half, now);
    }
}

/// An accepted divestment keeps the rule of the ledger.
pub proof fn law_divest_keeps_rule(
    s: TreasuryModel,
    caller: Seq<char>,
    amount: int,
    index: int,
    now: nat,
)
    requires
        s.inv(),
        0 <= index,
        s.divest_outcome(caller, amount, index) is Ok,
        s.positions[index].last_yield_claim <= now,
    ensures
        s.after_divest(amount, index, now).inv(),
        s.after_divest(amount, index, now).total == s.total + s.positions[index].pending_yield(
            now,
        ),
        0 <= s.positions[index].pending_yield(now),
        total_accumulated(s.after_divest(amount, index, now).positions) <= total_accumulated(
            s.positions,
        ) + s.positions[index].pending_yield(now),
        s.observes(now) ==> s.after_divest(amount, index, now).observes(now),
{
    let p = s.positions[index];
    let after = s.after_divest(amount, index, now);
    assert(p.valid());
    lemma_settled(p, now);
    lemma_principal_bounds(s.positions);
    if amount == p.amount {
        lemma_positions_remove(s.positions, index);
        assert forall|i: int| 0 <= i < after.positions.len() implies (
        #[trigger] after.positions[i]).valid() && (s.observes(now)
            ==> after.positions[i].last_yield_claim <= now) by {
            if i < index {
                assert(after.positions[i] == s.positions[i]);
            } else {
                assert(after.positions[i] == s.positions[i + 1]);
            }
        }
    } else {
        let kept = p.settled(now).reduced(amount);
        lemma_positions_update(s.positions, index, kept);
        assert forall|i: int| 0 <= i < after.positions.len() implies (
        #[trigger] after.positions[i]).valid() && (s.observes(now)
            ==> after.positions[i].last_yield_claim <= now) by {
            if i != index {
                assert(after.positions[i] == s.positions[i]);
            }
        }
    }
}

/// Raising liquidity that the open positions can cover keeps the rule of the
/// ledger, and makes exactly what was needed, and the yield realized on the
/// way, available.
pub proof fn law_raise_keeps_rule(s: TreasuryModel, needed: int, now: nat)
    requires
        s.inv(),
        s.config is Some,
        s.observes(now),
        0 <= needed <= s.invested,
    ensures
        s.after_raise(needed, now).inv(),
        s.after_raise(needed, now).invested == s.invested - needed,
        s.after_raise(needed, now).available >= s.available + needed,
        s.after_raise(needed, now).total - s.total == s.after_raise(needed, now).available
            - s.available - needed,
        s.after_raise(needed, now).total <= s.total + total_pending(s.positions, now),
        total_accumulated(s.after_raise(needed, now).positions) <= total_accumulated(s.positions)
            + total_pending(s.positions, now),
        s.after_raise(needed, now).observes(now),
{
    assert(positions_ready(s.positions, now));
    lemma_drain(s.positions, needed, now);
    let walk = drain(s.positions, needed, now);
    assert(positions_ready(walk.positions, now));
}

/// An accepted grant allocation keeps the rule of the ledger.
pub proof fn law_allocate_keeps_rule(
    s: TreasuryModel,
    caller: Seq<char>,
    grantee: Seq<char>,
    amount: int,
    now: nat,
)
    requires
        s.inv(),
        s.allocate_outcome(caller, amount) is Ok,
        amount > s.available ==> s.observes(now),
    ensures
        s.after_allocate(grantee, amount, now).inv(),
        amount <= s.available ==> s.after_allocate(grantee, amount, now).total == s.total
            - amount && s.after_allocate(grantee, amount, now).positions == s.positions,
        amount > s.available ==> total_accumulated(
            s.after_allocate(grantee, amount, now).positions,
        ) <= total_accumulated(s.positions) + total_pending(s.positions, now),
        s.observes(now) ==> s.after_allocate(grantee, amount, now).observes(now),
{
    let funded = if amount > s.available {
        s.after_raise(amount - s.available, now)
    } else {
        s
    };
    if amount > s.available {
        law_raise_keeps_rule(s, amount - s.available, now);
    }
    let granted = AllocationModel::approved(grantee, amount, now);
    let after = s.after_allocate(grantee, amount, now);
    if amount <= s.available {
        if s.observes(now) {
            assert(positions_ready(s.positions, now));
            lemma_pending_nonnegative(s.positions, now);
        }
    }
    assert forall|i: int| 0 <= i < after.allocations.len() implies (
    #[trigger] after.allocations[i]).amount > 0 by {
        if i < funded.allocations.len() {
            assert(after.allocations[i] == s.allocations[i]);
        }
    }
}

/// An accepted withdrawal keeps the rule of the ledger and moves no funds:
/// it takes the allocation one step along its lifecycle.
pub proof fn law_withdraw_keeps_rule(s: TreasuryModel, grantee: Seq<char>, id: int)
    requires
        s.inv(),
        0 <= id,
        s.withdraw_outcome(grantee, id) is Ok,
    ensures
        s.after_withdraw(id).inv(),
        s.after_withdraw(id).available == s.available,
        s.after_withdraw(id).total == s.total,
        s.after_withdraw(id).invested == s.invested,
        s.allocations[id].status.leads_to(s.after_withdraw(id).allocations[id].status),
        s.after_withdraw(id).allocations[id].status.is_terminal(),
{
    let after = s.after_withdraw(id);
    assert forall|i: int| 0 <= i < after.allocations.len() implies (
    #[trigger] after.allocations[i]).amount > 0 by {
        if i != id {
            assert(after.allocations[i] == s.allocations[i]);
        } else {
            assert(s.allocations[id].amount > 0);
        }
    }
}

/// An accepted yield claim keeps the rule of the ledger.
pub proof fn law_claim_keeps_rule(s: TreasuryModel, caller: Seq<char>, now: nat)
    requires
        s.inv(),
        s.admin_outcome(caller) is Ok,
        s.observes(now),
    ensures
        s.after_claim(now).inv(),
        s.after_claim(now).total == s.total + total_pending(s.positions, now),
        0 <= total_pending(s.positions, now),
        total_accumulated(s.after_claim(now).positions) == total_accumulated(s.positions)
            + total_pending(s.positions, now),
        s.after_claim(now).observes(now),
{
    assert(positions_ready(s.positions, now));
    lemma_settled_all(s.positions, now);
    let after = s.after_claim(now);
    assert(positions_ready(after.positions, now));
}

/// The ledger identity: in every state that obeys the rule of the ledger,
/// the total is what is invested and what is available.
pub proof fn law_ledger_identity(s: TreasuryModel)
    requires
        s.inv(),
    ensures
        s.total == s.invested + s.available,
{
}

/// In every state that obeys the rule of the ledger, every position in the
/// store has principal left: none is negative, and none is zero.
pub proof fn law_positions_hold_principal(s: TreasuryModel, index: int)
    requires
        s.inv(),
        0 <= index < s.positions.len(),
    ensures
        s.positions[index].amount > 0,
        s.positions[index].amount <= s.invested,
{
    assert(s.positions[index].valid());
    lemma_principal_bounds(s.positions);
}

/// In every state that obeys the rule of the ledger, no balance is negative.
pub proof fn law_balances_not_negative(s: TreasuryModel)
    requires
        s.inv(),
    ensures
        0 <= s.available,
        0 <= s.invested,
        0 <= s.total,
{
}

/// The yield of a position with principal, as of a time not before its yield
/// was last realized, is never negative; it is positive exactly when
/// principal times elapsed seconds has reached `UNIT_SECONDS_PER_YIELD`, and
/// zero below that, where the rounding takes it.
pub proof fn law_yield_sign(p: PositionModel, now: nat)
    requires
        p.valid(),
        p.last_yield_claim <= now,
    ensures
        0 <= p.pending_yield(now),
        0 < p.pending_yield(now) <==> p.amount * (now - p.last_yield_claim)
            >= UNIT_SECONDS_PER_YIELD,
        now == p.last_yield_claim ==> p.pending_yield(now) == 0,
{
    lemma_accrued_yield_nonnegative(p.amount, now - p.last_yield_claim);
    lemma_accrued_yield_positive(p.amount, now - p.last_yield_claim);
    if now == p.last_yield_claim {
        assert(p.amount * (now - p.last_yield_claim) == 0) by (nonlinear_arith)
            requires
                now - p.last_yield_claim == 0,
        ;
    }
}

/// A claim made when nothing has accrued changes no balance, no position,
/// and appends no record.
pub proof fn law_claim_without_yield(s: TreasuryModel, now: nat)
    requires
        s.inv(),
        s.observes(now),
        total_pending(s.positions, now) == 0,
    ensures
        s.after_claim(now).total == s.total,
        s.after_claim(now).available == s.available,
        s.after_claim(now).invested == s.invested,
        s.after_claim(now).positions == s.positions,
        s.after_claim(now).yield_history == s.yield_history,
{
    assert(positions_ready(s.positions, now));
    lemma_pending_nonnegative(s.positions, now);
    assert forall|i: int| 0 <= i < s.positions.len() implies (#[trigger] s.positions[i])
        .pending_yield(now) == 0 by {
        assert(pendings(s.positions, now)[i] == s.positions[i].pending_yield(now));
    }
    assert(settled_all(s.positions, now) =~= s.positions);
    lemma_no_records_without_yield(s.positions, now);
    assert(s.yield_history + Seq::empty() =~= s.yield_history);
}

/// Positions with nothing to realize give no records.
pub proof fn lemma_no_records_without_yield(positions: Seq<PositionModel>, now: nat)
    requires
        forall|i: int| 0 <= i < positions.len() ==> (#[trigger] positions[i]).pending_yield(now)
            <= 0,
    ensures
        claim_records(positions, now) == Seq::<crate::treasury::records::YieldRecordModel>::empty(),
    decreases positions.len(),
{
    if positions.len() > 0 {
        assert(positions.last() == positions[positions.len() - 1]);
        assert forall|i: int| 0 <= i < positions.drop_last().len() implies (
        #[trigger] positions.drop_last()[i]).pending_yield(now) <= 0 by {
            assert(positions.drop_last()[i] == positions[i]);
        }
        lemma_no_records_without_yield(positions.drop_last(), now);
    }
}

/// A call on the treasury.
pub enum Call {
    Initialize { config: ConfigModel },
    Deposit { from: Seq<char>, amount: int, now: nat },
    Invest { caller: Seq<char>, amount: int, now: nat },
    Divest { caller: Seq<char>, amount: int, index: nat, now: nat },
    Allocate { caller: Seq<char>, grantee: Seq<char>, amount: int, now: nat },
    Withdraw { grantee: Seq<char>, id: nat },
    Claim { caller: Seq<char>, now: nat },
}

/// Whether the call takes effect on the state: whether the treasury accepts
/// it, and the ledger clock is not behind the positions whose yield the
/// call realizes.
pub open spec fn takes_effect(s: TreasuryModel, call: Call) -> bool {
    match call {
        Call::Initialize { config } => s.initialize_outcome() is Ok,
        Call::Deposit { from, amount, now } => s.deposit_outcome(amount) is Ok,
        Call::Invest { caller, amount, now } => s.invest_outcome(caller, amount) is Ok,
        Call::Divest { caller, amount, index, now } => s.divest_outcome(
            caller,
            amount,
            index as int,
        ) is Ok && s.positions[index as int].last_yield_claim <= now,
        Call::Allocate { caller, grantee, amount, now } => s.allocate_outcome(caller, amount) is Ok
            && (amount > s.available ==> s.observes(now)),
        Call::Withdraw { grantee, id } => s.withdraw_outcome(grantee, id as int) is Ok,
        Call::Claim { caller, now } => s.admin_outcome(caller) is Ok && s.observes(now),
    }
}

/// The state after the call: what the call makes of it if it takes effect,
/// and the state as it was if not.
pub open spec fn after_call(s: TreasuryModel, call: Call) -> TreasuryModel {
    if !takes_effect(s, call) {
        s
    } else {
        match call {
            Call::Initialize { config } => s.after_initialize(config),
            Call::Deposit { from, amount, now } => s.after_deposit(from, amount, now),
            Call::Invest { caller, amount, now } => s.after_invest(amount, now),
            Call::Divest { caller, amount, index, now } => s.after_divest(
                amount,
                index as int,
                now,
            ),
            Call::Allocate { caller, grantee, amount, now } => s.after_allocate(
                grantee,
                amount,
                now,
            ),
            Call::Withdraw { grantee, id } => s.after_withdraw(id as int),
            Call::Claim { caller, now } => s.after_claim(now),
        }
    }
}

/// The state that the calls, made in order on the empty treasury, lead to.
pub open spec fn state_after(calls: Seq<Call>) -> TreasuryModel
    decreases calls.len(),
{
    if calls.len() == 0 {
        TreasuryModel::empty()
    } else {
        after_call(state_after(calls.drop_last()), calls.last())
    }
}

/// Every call keeps the rule of the ledger.
pub proof fn law_call_keeps_rule(s: TreasuryModel, call: Call)
    requires
        s.inv(),
    ensures
        after_call(s, call).inv(),
{
    if takes_effect(s, call) {
        match call {
            Call::Initialize { config } => {
                law_initialize_keeps_rule(s, config);
            },
            Call::Deposit { from, amount, now } => {
                law_deposit_keeps_rule(s, from, amount, now);
            },
            Call::Invest { caller, amount, now } => {
                law_invest_keeps_rule(s, caller, amount, now);
            },
            Call::Divest { caller, amount, index, now } => {
                law_divest_keeps_rule(s, caller, amount, index as int, now);
            },
            Call::Allocate { caller, grantee, amount, now } => {
                law_allocate_keeps_rule(s, caller, grantee, amount, now);
            },
            Call::Withdraw { grantee, id } => {
                law_withdraw_keeps_rule(s, grantee, id as int);
            },
            Call::Claim { caller, now } => {
                law_claim_keeps_rule(s, caller, now);
            },
        }
    }
}

/// Every state that calls can lead to obeys the rule of the ledger: its
/// total is what is invested and what is available; none of its balances
/// is negative; and every position in its store has principal left.
pub proof fn law_reachable_states_obey_the_rule(calls: Seq<Call>)
    ensures
        state_after(calls).inv(),
        state_after(calls).total == state_after(calls).invested + state_after(calls).available,
        0 <= state_after(calls).available,
        0 <= state_after(calls).invested,
        forall|i: int|
            0 <= i < state_after(calls).positions.len() ==> (#[trigger] state_after(
                calls,
            ).positions[i]).amount > 0,
    decreases calls.len(),
{
    if calls.len() == 0 {
        law_empty_is_well_formed();
    } else {
        law_reachable_states_obey_the_rule(calls.drop_last());
        law_call_keeps_rule(state_after(calls.drop_last()), calls.last());
    }
    let s = state_after(calls);
    assert forall|i: int| 0 <= i < s.positions.len() implies (#[trigger] s.positions[i]).amount
        > 0 by {
        assert(s.positions[i].valid());
    }
}

} // verus!
