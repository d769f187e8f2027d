use grant_treasury::treasury::accrual::{checked_yield, UNIT_SECONDS_PER_YIELD};
use grant_treasury::treasury::ratio::checked_mul_div;
use grant_treasury::{
    AllocationStatus, GrantAllocation, GrantTreasury, Identity, InvestmentPosition,
    TreasuryConfig, TreasuryError, YieldRecord,
};

const YEAR: u64 = 31_536_000;

fn admin() -> Identity {
    Identity::new("GADMIN")
}

fn pool() -> Identity {
    Identity::new("CPOOL")
}

fn depositor() -> Identity {
    Identity::new("GDEPOSITOR")
}

fn grantee() -> Identity {
    Identity::new("GGRANTEE")
}

fn open(ratio: u32, threshold: i128) -> GrantTreasury {
    let mut treasury = GrantTreasury::new();
    treasury
        .initialize(admin(), pool(), ratio, threshold, 86400)
        .unwrap();
    treasury
}

fn assert_ledger_balanced(treasury: &GrantTreasury) {
    let positions = treasury.get_investment_positions();
    let principal: i128 = positions.iter().map(|p| p.amount).sum();
    assert_eq!(treasury.get_invested_balance(), principal);
    assert_eq!(
        treasury.get_total_balance(),
        treasury.get_invested_balance() + treasury.get_available_balance()
    );
    assert!(treasury.get_available_balance() >= 0);
    assert!(treasury.get_invested_balance() >= 0);
    assert!(positions.iter().all(|p| p.amount > 0));
    assert!(treasury.get_grant_allocations().iter().all(|a| a.amount > 0));
}

#[test]
fn deposit_by_another_party_stays_liquid() {
    let mut treasury = open(2000, 1000);
    treasury.deposit(&depositor(), 3000, 0).unwrap();
    assert_eq!(treasury.get_total_balance(), 3000);
    assert_eq!(treasury.get_available_balance(), 3000);
    assert_eq!(treasury.get_invested_balance(), 0);
    assert_eq!(treasury.get_investment_positions().len(), 0);
    assert_ledger_balanced(&treasury);
}

#[test]
fn deposit_below_threshold_stays_liquid() {
    let mut treasury = open(2000, 5000);
    treasury.deposit(&admin(), 3000, 0).unwrap();
    assert_eq!(treasury.get_total_balance(), 3000);
    assert_eq!(treasury.get_available_balance(), 3000);
    assert_eq!(treasury.get_invested_balance(), 0);
    assert_eq!(treasury.should_auto_invest(), Ok(false));
}

#[test]
fn deposit_by_administrator_at_threshold_invests_half() {
    let mut treasury = open(2000, 1000);
    treasury.deposit(&admin(), 3001, 7).unwrap();
    assert_eq!(treasury.get_total_balance(), 3001);
    assert_eq!(treasury.get_invested_balance(), 1500);
    assert_eq!(treasury.get_available_balance(), 1501);
    let positions = treasury.get_investment_positions();
    assert_eq!(
        positions,
        vec![InvestmentPosition {
            amount: 1500,
            pool_address: pool(),
            invested_at: 7,
            last_yield_claim: 7,
            accumulated_yield: 0,
        }]
    );
    assert_ledger_balanced(&treasury);
}

#[test]
fn automatic_investment_that_would_breach_liquidity_is_skipped() {
    // 60% must stay available: investing half would leave 50%
    let mut treasury = open(6000, 1000);
    assert_eq!(treasury.deposit(&admin(), 2000, 0), Ok(()));
    assert_eq!(treasury.get_available_balance(), 2000);
    assert_eq!(treasury.get_invested_balance(), 0);
}

#[test]
fn automatic_investment_of_nothing_is_skipped() {
    // Half of one unit is nothing: the investment is not acceptable
    let mut treasury = open(0, 1);
    assert_eq!(treasury.deposit(&admin(), 1, 0), Ok(()));
    assert_eq!(treasury.get_available_balance(), 1);
    assert_eq!(treasury.get_investment_positions().len(), 0);
}

#[test]
fn invest_from_deposit() {
    let mut treasury = open(2000, 1000);
    treasury.deposit(&depositor(), 3000, 0).unwrap();
    treasury.invest_idle_funds(&admin(), 500, 10).unwrap();
    assert_eq!(treasury.get_available_balance(), 2500);
    assert_eq!(treasury.get_invested_balance(), 500);
    let positions = treasury.get_investment_positions();
    assert_eq!(positions.len(), 1);
    assert_eq!(positions[0].amount, 500);
    assert_eq!(positions[0].pool_address, pool());
    assert_eq!(positions[0].invested_at, 10);
    assert_eq!(positions[0].last_yield_claim, 10);
    assert_eq!(positions[0].accumulated_yield, 0);
    assert_ledger_balanced(&treasury);
}

#[test]
fn divest_part_of_a_position() {
    let mut treasury = open(2000, 1000);
    treasury.deposit(&depositor(), 3000, 0).unwrap();
    treasury.invest_idle_funds(&admin(), 500, 0).unwrap();
    treasury.divest_funds(&admin(), 200, 0, 0).unwrap();
    assert_eq!(treasury.get_invested_balance(), 300);
    assert_eq!(treasury.get_available_balance(), 2700);
    assert_eq!(treasury.get_total_balance(), 3000);
    assert_eq!(treasury.get_investment_positions()[0].amount, 300);
    assert_ledger_balanced(&treasury);
}

#[test]
fn divest_realizes_yield_into_available_and_total() {
    let mut treasury = open(0, i128::MAX);
    treasury.deposit(&depositor(), 1_000_000, 0).unwrap();
    treasury.invest_idle_funds(&admin(), 1_000_000, 0).unwrap();
    // A year at 5% on 1_000_000 is 50_000
    treasury.divest_funds(&admin(), 400_000, 0, YEAR).unwrap();
    assert_eq!(treasury.get_invested_balance(), 600_000);
    assert_eq!(treasury.get_available_balance(), 450_000);
    assert_eq!(treasury.get_total_balance(), 1_050_000);
    let positions = treasury.get_investment_positions();
    assert_eq!(positions[0].amount, 600_000);
    assert_eq!(positions[0].accumulated_yield, 50_000);
    assert_eq!(positions[0].last_yield_claim, YEAR);
    assert_eq!(positions[0].invested_at, 0);
    assert_eq!(treasury.get_accumulated_yield(), 50_000);
    // Divesting records no claim
    assert_eq!(treasury.get_yield_history().len(), 0);
    assert_ledger_balanced(&treasury);
}

#[test]
fn divest_all_removes_the_position_and_shifts_the_rest() {
    let mut treasury = open(0, i128::MAX);
    treasury.deposit(&depositor(), 1000, 0).unwrap();
    treasury.invest_idle_funds(&admin(), 100, 0).unwrap();
    treasury.invest_idle_funds(&admin(), 200, 0).unwrap();
    treasury.invest_idle_funds(&admin(), 300, 0).unwrap();
    treasury.divest_funds(&admin(), 200, 1, 0).unwrap();
    let positions = treasury.get_investment_positions();
    assert_eq!(positions.len(), 2);
    assert_eq!(positions[0].amount, 100);
    assert_eq!(positions[1].amount, 300);
    assert_eq!(treasury.get_invested_balance(), 400);
    assert_eq!(treasury.get_available_balance(), 600);
    assert_eq!(
        treasury.divest_funds(&admin(), 1, 2, 0),
        Err(TreasuryError::InvalidIndex)
    );
    assert_ledger_balanced(&treasury);
}

#[test]
fn investment_that_breaches_minimum_liquidity_is_rejected() {
    let mut treasury = open(5000, 1_000_000);
    treasury.deposit(&depositor(), 2000, 0).unwrap();
    assert_eq!(
        treasury.invest_idle_funds(&admin(), 1500, 0),
        Err(TreasuryError::LiquidityBreach)
    );
    assert_eq!(treasury.get_available_balance(), 2000);
    assert_eq!(treasury.get_invested_balance(), 0);
    assert_eq!(treasury.get_investment_positions().len(), 0);
    // Exactly at the minimum is accepted, one more is not
    assert_eq!(
        treasury.invest_idle_funds(&admin(), 1001, 0),
        Err(TreasuryError::LiquidityBreach)
    );
    assert_eq!(treasury.invest_idle_funds(&admin(), 1000, 0), Ok(()));
    assert_eq!(treasury.get_available_balance(), 1000);
}

#[test]
fn minimum_liquidity_is_rounded_down() {
    // 33.33% of 1000 is 333.3: 333 must stay
    let mut treasury = open(3333, i128::MAX);
    treasury.deposit(&depositor(), 1000, 0).unwrap();
    assert_eq!(
        treasury.invest_idle_funds(&admin(), 668, 0),
        Err(TreasuryError::LiquidityBreach)
    );
    assert_eq!(treasury.invest_idle_funds(&admin(), 667, 0), Ok(()));
    assert_eq!(treasury.get_available_balance(), 333);
}

#[test]
fn minimum_liquidity_of_a_huge_total_does_not_overflow() {
    let mut treasury = open(u32::MAX, i128::MAX);
    treasury.deposit(&depositor(), i128::MAX, 0).unwrap();
    assert_eq!(
        treasury.invest_idle_funds(&admin(), 1, 0),
        Err(TreasuryError::LiquidityBreach)
    );
    let mut treasury = open(9999, i128::MAX);
    treasury.deposit(&depositor(), i128::MAX, 0).unwrap();
    assert_eq!(
        treasury.invest_idle_funds(&admin(), i128::MAX / 10000 + 1, 0),
        Ok(())
    );
    assert_eq!(
        treasury.invest_idle_funds(&admin(), 1, 0),
        Err(TreasuryError::LiquidityBreach)
    );
}

#[test]
fn grant_is_reserved_at_allocation_and_only_marked_at_withdrawal() {
    let mut treasury = open(2000, i128::MAX);
    treasury.deposit(&depositor(), 3000, 0).unwrap();
    treasury.allocate_grant(&admin(), grantee(), 1000, 5).unwrap();
    assert_eq!(treasury.get_available_balance(), 2000);
    assert_eq!(treasury.get_total_balance(), 2000);
    assert_ledger_balanced(&treasury);
    assert_eq!(
        treasury.get_grant_allocations(),
        vec![GrantAllocation {
            grantee: grantee(),
            amount: 1000,
            allocated_at: 5,
            status: AllocationStatus::Approved,
        }]
    );
    let receipt = treasury.withdraw_grant(&grantee(), 0).unwrap();
    assert_eq!(
        receipt,
        GrantAllocation {
            grantee: grantee(),
            amount: 1000,
            allocated_at: 5,
            status: AllocationStatus::Disbursed,
        }
    );
    assert_eq!(treasury.get_available_balance(), 2000);
    assert_eq!(treasury.get_total_balance(), 2000);
    assert_eq!(treasury.get_grant_allocations(), vec![receipt]);
    assert_ledger_balanced(&treasury);
}

#[test]
fn claim_without_positions_changes_no_balance() {
    let mut treasury = open(2000, i128::MAX);
    treasury.deposit(&depositor(), 3000, 0).unwrap();
    assert_eq!(treasury.claim_yield(&admin(), 1_000_000), Ok(()));
    assert_eq!(treasury.get_total_balance(), 3000);
    assert_eq!(treasury.get_available_balance(), 3000);
    assert_eq!(treasury.get_invested_balance(), 0);
    assert_eq!(treasury.get_yield_history().len(), 0);
    assert_eq!(treasury.get_investment_positions().len(), 0);
}

#[test]
fn claim_realizes_and_records_yield() {
    let mut treasury = open(0, i128::MAX);
    treasury.deposit(&depositor(), 3_000_100, 0).unwrap();
    treasury.invest_idle_funds(&admin(), 1_000_000, 0).unwrap();
    treasury.invest_idle_funds(&admin(), 100, 0).unwrap();
    treasury.invest_idle_funds(&admin(), 2_000_000, YEAR / 2).unwrap();
    treasury.claim_yield(&admin(), YEAR).unwrap();
    // 50_000 on the first after a year, 5 on the second, and 50_000 on the
    // third after half a year
    let positions = treasury.get_investment_positions();
    assert_eq!(positions[0].accumulated_yield, 50_000);
    assert_eq!(positions[0].last_yield_claim, YEAR);
    assert_eq!(positions[1].accumulated_yield, 5);
    assert_eq!(positions[1].last_yield_claim, YEAR);
    assert_eq!(positions[2].accumulated_yield, 50_000);
    assert_eq!(positions[2].last_yield_claim, YEAR);
    assert_eq!(treasury.get_available_balance(), 100_005);
    assert_eq!(treasury.get_total_balance(), 3_100_105);
    assert_eq!(treasury.get_invested_balance(), 3_000_100);
    assert_eq!(treasury.get_accumulated_yield(), 100_005);
    assert_eq!(
        treasury.get_yield_history(),
        vec![
            YieldRecord { amount: 50_000, claimed_at: YEAR, pool_address: pool(), apy: 500 },
            YieldRecord { amount: 5, claimed_at: YEAR, pool_address: pool(), apy: 500 },
            YieldRecord { amount: 50_000, claimed_at: YEAR, pool_address: pool(), apy: 500 },
        ]
    );
    assert_eq!(treasury.get_last_yield_claim(), YEAR);
    assert_eq!(treasury.get_yield_claim_counter(), 1);
    assert_ledger_balanced(&treasury);

    // A second claim at the same time finds nothing more
    treasury.claim_yield(&admin(), YEAR).unwrap();
    assert_eq!(treasury.get_total_balance(), 3_100_105);
    assert_eq!(treasury.get_yield_history().len(), 3);
    assert_eq!(treasury.get_yield_claim_counter(), 2);
}

#[test]
fn yield_too_small_to_realize_keeps_accruing() {
    let mut treasury = open(0, i128::MAX);
    treasury.deposit(&depositor(), 1000, 0).unwrap();
    treasury.invest_idle_funds(&admin(), 1000, 0).unwrap();
    // 1000 units earn their first unit after 630_720 seconds
    treasury.claim_yield(&admin(), 630_719).unwrap();
    let positions = treasury.get_investment_positions();
    assert_eq!(positions[0].accumulated_yield, 0);
    assert_eq!(positions[0].last_yield_claim, 0);
    assert_eq!(treasury.get_yield_history().len(), 0);
    treasury.claim_yield(&admin(), 630_720).unwrap();
    let positions = treasury.get_investment_positions();
    assert_eq!(positions[0].accumulated_yield, 1);
    assert_eq!(positions[0].last_yield_claim, 630_720);
    assert_eq!(treasury.get_total_balance(), 1001);
    assert_eq!(treasury.get_available_balance(), 1);
    assert_ledger_balanced(&treasury);
}

#[test]
fn yield_formula() {
    assert_eq!(UNIT_SECONDS_PER_YIELD, 630_720_000);
    assert_eq!(checked_yield(1000, YEAR), Some(50));
    assert_eq!(checked_yield(1000, 0), Some(0));
    assert_eq!(checked_yield(0, YEAR), Some(0));
    assert_eq!(checked_yield(1, 1), Some(0));
    assert_eq!(checked_yield(1, 630_719_999), Some(0));
    assert_eq!(checked_yield(1, 630_720_000), Some(1));
    assert_eq!(checked_yield(630_720_000, 1), Some(1));
    assert_eq!(checked_yield(630_719_999, 1), Some(0));
    assert_eq!(checked_yield(1999, YEAR), Some(99));
    assert_eq!(checked_yield(1000, 86400), Some(0));
    assert_eq!(checked_yield(1_000_000, 86400), Some(136));
    // The product of principal, rate and time is beyond 128 bits, the yield is not
    assert_eq!(
        checked_yield(i128::MAX / 2, 630_720_000),
        Some(i128::MAX / 2)
    );
    assert_eq!(checked_yield(i128::MAX, 630_720_000), Some(i128::MAX));
    assert_eq!(checked_yield(i128::MAX, 630_720_001), None);
    assert_eq!(checked_yield(i128::MAX, u64::MAX), None);
}

#[test]
fn yield_grows_with_principal_and_time() {
    let mut last = 0;
    for elapsed in [0u64, 1, 1000, 86400, YEAR, 2 * YEAR, 10 * YEAR] {
        let accrued = checked_yield(12_345_678, elapsed).unwrap();
        assert!(accrued >= last);
        last = accrued;
    }
    let mut last = 0;
    for principal in [0i128, 1, 20, 21, 1000, 1_000_000, 1_000_000_000_000] {
        let accrued = checked_yield(principal, YEAR).unwrap();
        assert!(accrued >= last);
        last = accrued;
    }
}

#[test]
fn products_divided_without_overflow() {
    assert_eq!(checked_mul_div(7, 3, 2), Some(10));
    assert_eq!(checked_mul_div(0, u64::MAX, 1), Some(0));
    assert_eq!(checked_mul_div(i128::MAX, 10_000, 10_000), Some(i128::MAX));
    assert_eq!(checked_mul_div(i128::MAX, 10_001, 10_000), None);
    assert_eq!(
        checked_mul_div(i128::MAX, 1, 0x4000_0000_0000_0000),
        Some(i128::MAX >> 62)
    );
    assert_eq!(checked_mul_div(i128::MAX, u64::MAX, 1), None);
}

#[test]
fn grant_beyond_available_divests_in_store_order() {
    let mut treasury = open(0, i128::MAX);
    treasury.deposit(&depositor(), 1000, 0).unwrap();
    treasury.invest_idle_funds(&admin(), 300, 0).unwrap();
    treasury.invest_idle_funds(&admin(), 300, 0).unwrap();
    treasury.invest_idle_funds(&admin(), 300, 0).unwrap();
    // 100 available, 900 invested: a grant of 500 needs 400 raised
    treasury.allocate_grant(&admin(), grantee(), 500, 0).unwrap();
    let positions = treasury.get_investment_positions();
    assert_eq!(positions.len(), 2);
    assert_eq!(positions[0].amount, 200);
    assert_eq!(positions[1].amount, 300);
    assert_eq!(treasury.get_invested_balance(), 500);
    assert_eq!(treasury.get_available_balance(), 0);
    assert_eq!(treasury.get_total_balance(), 500);
    assert_ledger_balanced(&treasury);
}

#[test]
fn raising_liquidity_realizes_the_yield_of_what_it_touches() {
    let mut treasury = open(0, i128::MAX);
    treasury.deposit(&depositor(), 3_000_000, 0).unwrap();
    treasury.invest_idle_funds(&admin(), 1_000_000, 0).unwrap();
    treasury.invest_idle_funds(&admin(), 1_000_000, 0).unwrap();
    treasury.invest_idle_funds(&admin(), 1_000_000, 0).unwrap();
    // Nothing available: the grant of 1_500_000 takes the first position
    // whole and half of the second; each has earned 50_000 in a year
    treasury
        .allocate_grant(&admin(), grantee(), 1_500_000, YEAR)
        .unwrap();
    let positions = treasury.get_investment_positions();
    assert_eq!(positions.len(), 2);
    assert_eq!(positions[0].amount, 500_000);
    assert_eq!(positions[0].accumulated_yield, 50_000);
    assert_eq!(positions[0].last_yield_claim, YEAR);
    assert_eq!(positions[1].amount, 1_000_000);
    assert_eq!(positions[1].accumulated_yield, 0);
    assert_eq!(positions[1].last_yield_claim, 0);
    assert_eq!(treasury.get_invested_balance(), 1_500_000);
    assert_eq!(treasury.get_available_balance(), 100_000);
    assert_eq!(treasury.get_total_balance(), 1_600_000);
    assert_ledger_balanced(&treasury);
}

#[test]
fn grant_that_cannot_be_funded_changes_nothing() {
    let mut treasury = open(0, i128::MAX);
    treasury.deposit(&depositor(), 1000, 0).unwrap();
    treasury.invest_idle_funds(&admin(), 600, 0).unwrap();
    assert_eq!(
        treasury.allocate_grant(&admin(), grantee(), 1001, YEAR),
        Err(TreasuryError::LiquidityUnavailable)
    );
    assert_eq!(treasury.get_available_balance(), 400);
    assert_eq!(treasury.get_invested_balance(), 600);
    assert_eq!(treasury.get_total_balance(), 1000);
    assert_eq!(treasury.get_grant_allocations().len(), 0);
    let positions = treasury.get_investment_positions();
    assert_eq!(positions.len(), 1);
    assert_eq!(positions[0].amount, 600);
    assert_eq!(positions[0].accumulated_yield, 0);
    // All there is can be granted
    assert_eq!(treasury.allocate_grant(&admin(), grantee(), 1000, 0), Ok(()));
    assert_eq!(treasury.get_available_balance(), 0);
    assert_eq!(treasury.get_invested_balance(), 0);
    assert_eq!(treasury.get_total_balance(), 0);
    assert_eq!(treasury.get_investment_positions().len(), 0);
    assert_ledger_balanced(&treasury);
}

#[test]
fn every_error_has_its_input() {
    let mut treasury = GrantTreasury::new();
    assert_eq!(
        treasury.deposit(&depositor(), 1, 0),
        Err(TreasuryError::NotInitialized)
    );
    assert_eq!(
        treasury.deposit(&depositor(), 0, 0),
        Err(TreasuryError::InvalidAmount)
    );
    assert_eq!(
        treasury.invest_idle_funds(&admin(), 1, 0),
        Err(TreasuryError::NotInitialized)
    );
    assert_eq!(
        treasury.divest_funds(&admin(), 1, 0, 0),
        Err(TreasuryError::NotInitialized)
    );
    assert_eq!(
        treasury.allocate_grant(&admin(), grantee(), 1, 0),
        Err(TreasuryError::NotInitialized)
    );
    assert_eq!(
        treasury.claim_yield(&admin(), 0),
        Err(TreasuryError::NotInitialized)
    );
    assert_eq!(
        treasury.withdraw_grant(&grantee(), 0),
        Err(TreasuryError::InvalidAllocationId)
    );
    assert_eq!(
        treasury.get_treasury_config(),
        Err(TreasuryError::NotInitialized)
    );
    assert_eq!(
        treasury.should_auto_invest(),
        Err(TreasuryError::NotInitialized)
    );

    treasury
        .initialize(admin(), pool(), 2000, i128::MAX, 86400)
        .unwrap();
    assert_eq!(
        treasury.initialize(depositor(), pool(), 1, 1, 1),
        Err(TreasuryError::AlreadyInitialized)
    );
    assert_eq!(
        treasury.get_treasury_config(),
        Ok(TreasuryConfig {
            admin: admin(),
            liquidity_pool_address: pool(),
            min_liquidity_ratio: 2000,
            auto_invest_threshold: i128::MAX,
            yield_claim_frequency: 86400,
        })
    );
    treasury.deposit(&depositor(), 1000, 0).unwrap();

    assert_eq!(
        treasury.invest_idle_funds(&depositor(), 100, 0),
        Err(TreasuryError::Unauthorized)
    );
    assert_eq!(
        treasury.invest_idle_funds(&depositor(), 0, 0),
        Err(TreasuryError::Unauthorized)
    );
    assert_eq!(
        treasury.invest_idle_funds(&admin(), 0, 0),
        Err(TreasuryError::InvalidAmount)
    );
    assert_eq!(
        treasury.invest_idle_funds(&admin(), -5, 0),
        Err(TreasuryError::InvalidAmount)
    );
    assert_eq!(
        treasury.invest_idle_funds(&admin(), 1001, 0),
        Err(TreasuryError::InsufficientBalance)
    );
    assert_eq!(
        treasury.invest_idle_funds(&admin(), 801, 0),
        Err(TreasuryError::LiquidityBreach)
    );
    assert_eq!(treasury.invest_idle_funds(&admin(), 800, 0), Ok(()));

    assert_eq!(
        treasury.divest_funds(&depositor(), 1, 0, 0),
        Err(TreasuryError::Unauthorized)
    );
    assert_eq!(
        treasury.divest_funds(&admin(), 0, 0, 0),
        Err(TreasuryError::InvalidAmount)
    );
    assert_eq!(
        treasury.divest_funds(&admin(), 1, 1, 0),
        Err(TreasuryError::InvalidIndex)
    );
    assert_eq!(
        treasury.divest_funds(&admin(), 801, 0, 0),
        Err(TreasuryError::ExceedsPrincipal)
    );

    assert_eq!(
        treasury.allocate_grant(&depositor(), grantee(), 1, 0),
        Err(TreasuryError::Unauthorized)
    );
    assert_eq!(
        treasury.allocate_grant(&admin(), grantee(), 0, 0),
        Err(TreasuryError::InvalidAmount)
    );
    assert_eq!(
        treasury.allocate_grant(&admin(), grantee(), 1001, 0),
        Err(TreasuryError::LiquidityUnavailable)
    );
    assert_eq!(treasury.allocate_grant(&admin(), grantee(), 100, 0), Ok(()));

    assert_eq!(
        treasury.withdraw_grant(&grantee(), 1),
        Err(TreasuryError::InvalidAllocationId)
    );
    assert_eq!(
        treasury.withdraw_grant(&depositor(), 0),
        Err(TreasuryError::Unauthorized)
    );
    assert!(treasury.withdraw_grant(&grantee(), 0).is_ok());
    assert_eq!(
        treasury.withdraw_grant(&grantee(), 0),
        Err(TreasuryError::InvalidState)
    );

    assert_eq!(
        treasury.claim_yield(&depositor(), 0),
        Err(TreasuryError::Unauthorized)
    );
    assert_ledger_balanced(&treasury);
}

#[test]
fn rejected_calls_leave_no_trace() {
    let mut treasury = open(2000, i128::MAX);
    treasury.deposit(&depositor(), 1000, 0).unwrap();
    treasury.invest_idle_funds(&admin(), 500, 0).unwrap();
    treasury.allocate_grant(&admin(), grantee(), 100, 0).unwrap();
    let snapshot = |t: &GrantTreasury| {
        (
            t.get_treasury_config(),
            t.get_total_balance(),
            t.get_invested_balance(),
            t.get_available_balance(),
            t.get_investment_positions(),
            t.get_grant_allocations(),
            t.get_yield_history(),
            t.get_last_yield_claim(),
            t.get_yield_claim_counter(),
        )
    };
    let before = snapshot(&treasury);
    assert!(treasury.deposit(&depositor(), -1, YEAR).is_err());
    assert!(treasury.invest_idle_funds(&admin(), 400, YEAR).is_err());
    assert!(treasury.divest_funds(&admin(), 501, 0, YEAR).is_err());
    assert!(treasury
        .allocate_grant(&admin(), grantee(), 901, YEAR)
        .is_err());
    assert!(treasury.withdraw_grant(&admin(), 0).is_err());
    assert!(treasury.claim_yield(&grantee(), YEAR).is_err());
    assert!(treasury.initialize(admin(), pool(), 1, 1, 1).is_err());
    assert_eq!(snapshot(&treasury), before);
}

#[test]
fn getters_repeat_themselves() {
    let mut treasury = open(2000, 1000);
    treasury.deposit(&admin(), 5000, 3).unwrap();
    treasury.allocate_grant(&admin(), grantee(), 100, 4).unwrap();
    treasury.claim_yield(&admin(), 10 * YEAR).unwrap();
    assert_eq!(treasury.get_total_balance(), treasury.get_total_balance());
    assert_eq!(
        treasury.get_available_balance(),
        treasury.get_available_balance()
    );
    assert_eq!(
        treasury.get_invested_balance(),
        treasury.get_invested_balance()
    );
    assert_eq!(
        treasury.get_investment_positions(),
        treasury.get_investment_positions()
    );
    assert_eq!(
        treasury.get_grant_allocations(),
        treasury.get_grant_allocations()
    );
    assert_eq!(treasury.get_yield_history(), treasury.get_yield_history());
    assert_eq!(treasury.get_treasury_config(), treasury.get_treasury_config());
    assert_eq!(
        treasury.get_accumulated_yield(),
        treasury.get_accumulated_yield()
    );
    assert_eq!(treasury.should_auto_invest(), treasury.should_auto_invest());
    assert_eq!(GrantTreasury::get_apy(), GrantTreasury::get_apy());
    assert_eq!(treasury.get_yield_history().len(), 1);
}

#[test]
fn investment_leaves_the_minimum_available() {
    for ratio in [0u32, 1, 2000, 5000, 9999, 10_000] {
        for amount in [1i128, 10, 999, 5000, 9999, 10_000] {
            let mut treasury = open(ratio, i128::MAX);
            treasury.deposit(&depositor(), 10_000, 0).unwrap();
            if treasury.invest_idle_funds(&admin(), amount, 0).is_ok() {
                let floor = treasury.get_total_balance() * ratio as i128 / 10_000;
                assert!(treasury.get_available_balance() >= floor);
            } else {
                assert!(10_000 - amount < 10_000 * ratio as i128 / 10_000);
            }
            assert_ledger_balanced(&treasury);
        }
    }
}

#[test]
fn settling_is_refused_when_the_clock_ran_back_or_the_total_would_overflow() {
    let mut treasury = open(0, i128::MAX);
    treasury.deposit(&depositor(), 1_000_000, 0).unwrap();
    treasury.invest_idle_funds(&admin(), 1_000_000, 100).unwrap();
    assert_eq!(treasury.pending_yield(99), None);
    assert!(!treasury.settles_at(0, 99));
    assert_eq!(treasury.pending_yield(100), Some(0));
    assert!(treasury.settles_at(0, 100));
    assert!(!treasury.settles_at(1, 100));
    assert_eq!(treasury.pending_yield(100 + YEAR), Some(50_000));

    let mut treasury = open(0, i128::MAX);
    treasury.deposit(&depositor(), i128::MAX, 0).unwrap();
    treasury.invest_idle_funds(&admin(), i128::MAX, 0).unwrap();
    assert_eq!(treasury.pending_yield(630_719_999), None);
    assert!(!treasury.settles_at(0, 1));
    assert_eq!(treasury.pending_yield(0), Some(0));
}

#[test]
fn restore_accepts_what_the_getters_gave() {
    let mut treasury = open(2000, 1000);
    treasury.deposit(&admin(), 5_000_000, 3).unwrap();
    treasury.allocate_grant(&admin(), grantee(), 100, 4).unwrap();
    treasury.claim_yield(&admin(), YEAR).unwrap();
    let restored = GrantTreasury::restore(
        treasury.get_treasury_config().ok(),
        treasury.get_total_balance(),
        treasury.get_invested_balance(),
        treasury.get_available_balance(),
        treasury.get_investment_positions(),
        treasury.get_grant_allocations(),
        treasury.get_yield_history(),
        treasury.get_last_yield_claim(),
        treasury.get_yield_claim_counter(),
    )
    .unwrap();
    assert_eq!(restored.get_total_balance(), treasury.get_total_balance());
    assert_eq!(
        restored.get_investment_positions(),
        treasury.get_investment_positions()
    );
    assert_eq!(restored.get_yield_history(), treasury.get_yield_history());
    assert_eq!(restored.get_yield_claim_counter(), 1);

    let blank = GrantTreasury::restore(None, 0, 0, 0, vec![], vec![], vec![], 0, 0).unwrap();
    assert_eq!(blank.get_treasury_config(), Err(TreasuryError::NotInitialized));
}

#[test]
fn restore_rejects_what_breaks_the_rule() {
    let config = || {
        Some(TreasuryConfig {
            admin: admin(),
            liquidity_pool_address: pool(),
            min_liquidity_ratio: 2000,
            auto_invest_threshold: 1000,
            yield_claim_frequency: 86400,
        })
    };
    let position = |amount: i128, realized: i128| InvestmentPosition {
        amount,
        pool_address: pool(),
        invested_at: 0,
        last_yield_claim: 0,
        accumulated_yield: realized,
    };
    let allocation = |amount: i128| GrantAllocation {
        grantee: grantee(),
        amount,
        allocated_at: 0,
        status: AllocationStatus::Approved,
    };
    let accepted = |total: i128,
                    invested: i128,
                    available: i128,
                    positions: Vec<InvestmentPosition>,
                    allocations: Vec<GrantAllocation>| {
        GrantTreasury::restore(
            config(),
            total,
            invested,
            available,
            positions,
            allocations,
            vec![],
            0,
            0,
        )
        .is_some()
    };
    assert!(accepted(90, 60, 30, vec![position(60, 0)], vec![allocation(10)]));
    assert!(accepted(90, 60, 30, vec![position(20, 5), position(40, 1000)], vec![]));
    // Uninitialized, but not empty
    assert!(GrantTreasury::restore(None, 1, 0, 1, vec![], vec![], vec![], 0, 0).is_none());
    assert!(GrantTreasury::restore(None, 0, 0, 0, vec![], vec![], vec![], 0, 1).is_none());
    // The total is not what is invested and available
    assert!(!accepted(100, 60, 30, vec![position(60, 0)], vec![allocation(10)]));
    assert!(!accepted(89, 60, 30, vec![position(60, 0)], vec![]));
    // The invested balance is not the principal of the positions
    assert!(!accepted(90, 60, 30, vec![position(50, 0)], vec![allocation(10)]));
    assert!(!accepted(90, 60, 30, vec![], vec![]));
    // A position without principal
    assert!(!accepted(30, 0, 30, vec![position(0, 0)], vec![allocation(10)]));
    assert!(!accepted(90, 60, 30, vec![position(70, 0), position(-10, 0)], vec![]));
    // Negative balances
    assert!(!accepted(30, 60, -30, vec![position(60, 0)], vec![]));
    // An allocation of nothing
    assert!(!accepted(90, 60, 30, vec![position(60, 0)], vec![allocation(0)]));
    assert!(!accepted(90, 60, 30, vec![position(60, 0)], vec![allocation(5), allocation(-5)]));
    // Negative yield
    assert!(!accepted(90, 60, 30, vec![position(60, -1)], vec![allocation(10)]));
    // Sums beyond 128 bits
    assert!(!accepted(
        i128::MAX,
        i128::MAX,
        0,
        vec![position(i128::MAX, 0), position(1, 0)],
        vec![]
    ));
    assert!(!accepted(
        2,
        2,
        0,
        vec![position(1, i128::MAX), position(1, 1)],
        vec![]
    ));
    assert!(accepted(
        2,
        2,
        0,
        vec![position(1, i128::MAX - 1), position(1, 1)],
        vec![]
    ));
    assert!(!accepted(i128::MAX, i128::MAX, 1, vec![position(i128::MAX, 0)], vec![]));
}

#[test]
fn identities_are_compared_by_address() {
    let a = Identity::new("GABC");
    let b = Identity::new("GABC");
    let c = Identity::new("GABD");
    assert!(a.same_as(&b));
    assert!(!a.same_as(&c));
    assert_eq!(a.as_str(), "GABC");
    assert_eq!(a.clone(), b);
    assert!(!Identity::new("").same_as(&a));
}

#[test]
fn allocation_status_lifecycle() {
    let (pending, approved) = (AllocationStatus::Pending, AllocationStatus::Approved);
    let (disbursed, expired) = (AllocationStatus::Disbursed, AllocationStatus::Expired);
    assert!(!pending.terminal());
    assert!(!approved.terminal());
    assert!(disbursed.terminal());
    assert!(expired.terminal());
    let all = [pending, approved, disbursed, expired];
    for from in all {
        for to in all {
            let allowed = matches!(
                (from, to),
                (AllocationStatus::Pending, AllocationStatus::Approved)
                    | (AllocationStatus::Approved, AllocationStatus::Disbursed)
                    | (AllocationStatus::Approved, AllocationStatus::Expired)
            );
            assert_eq!(from.can_become(to), allowed);
        }
        // A terminal status leads nowhere
        assert_eq!(from.terminal(), all.iter().all(|to| !from.can_become(*to)));
    }
}
