use grant_treasury::{
    AllocationStatus, GrantTreasury, Identity, InvestmentPosition, TreasuryError,
};

fn parties() -> (Identity, Identity, Identity, Identity) {
    (
        Identity::new("GADMIN"),
        Identity::new("CPOOL"),
        Identity::new("GDEPOSITOR"),
        Identity::new("GGRANTEE"),
    )
}

fn treasury(admin: &Identity, pool: &Identity, ratio: u32, threshold: i128) -> GrantTreasury {
    let mut treasury = GrantTreasury::new();
    treasury
        .initialize(admin.clone(), pool.clone(), ratio, threshold, 86400)
        .unwrap();
    treasury
}

#[test]
#[allow(non_snake_case)]
fn grantTreasury_test_test_initialize() {
    let (admin, pool_address, _, _) = parties();
    let mut treasury = GrantTreasury::new();
    treasury
        .initialize(
            admin.clone(),
            pool_address.clone(),
            2000,
            1000i128,
            86400,
        )
        .unwrap();

    let config = treasury.get_treasury_config().unwrap();
    assert_eq!(config.admin, admin);
    assert_eq!(config.liquidity_pool_address, pool_address);
    assert_eq!(config.min_liquidity_ratio, 2000);
    assert_eq!(config.auto_invest_threshold, 1000i128);
    assert_eq!(config.yield_claim_frequency, 86400);

    assert_eq!(treasury.get_total_balance(), 0i128);
    assert_eq!(treasury.get_available_balance(), 0i128);
    assert_eq!(treasury.get_invested_balance(), 0i128);
}

#[test]
fn test_deposit() {
    let (admin, pool_address, depositor, _) = parties();
    let mut treasury = treasury(&admin, &pool_address, 2000, 1000i128);

    treasury.deposit(&depositor, 5000i128, 0).unwrap();

    assert_eq!(treasury.get_total_balance(), 5000i128);
    assert_eq!(treasury.get_available_balance(), 5000i128);
    assert_eq!(treasury.get_invested_balance(), 0i128);
}

#[test]
fn test_auto_invest_on_deposit() {
    let (admin, pool_address, _, _) = parties();
    let mut treasury = treasury(&admin, &pool_address, 2000, 1000i128);

    // A deposit at or above the threshold invests half, on the administrator's authority.
    treasury.deposit(&admin, 2000i128, 0).unwrap();

    assert_eq!(treasury.get_total_balance(), 2000i128);
    assert!(treasury.get_invested_balance() > 0i128);
    assert!(treasury.get_available_balance() > 0i128);
    assert_eq!(treasury.get_invested_balance(), 1000i128);
    assert_eq!(treasury.get_available_balance(), 1000i128);
}

#[test]
fn test_invest_idle_funds() {
    let (admin, pool_address, depositor, _) = parties();
    let mut treasury = treasury(&admin, &pool_address, 2000, 1000i128);

    treasury.deposit(&depositor, 3000i128, 0).unwrap();

    let initial_available = treasury.get_available_balance();
    let initial_invested = treasury.get_invested_balance();

    treasury.invest_idle_funds(&admin, 500i128, 0).unwrap();

    assert_eq!(treasury.get_available_balance(), initial_available - 500i128);
    assert_eq!(treasury.get_invested_balance(), initial_invested + 500i128);

    let positions = treasury.get_investment_positions();
    assert_eq!(positions.len(), 1);
    assert_eq!(positions.get(0).unwrap().amount, 500i128);
}

#[test]
fn test_divest_funds() {
    let (admin, pool_address, depositor, _) = parties();
    let mut treasury = treasury(&admin, &pool_address, 2000, 1000i128);

    treasury.deposit(&depositor, 3000i128, 0).unwrap();
    treasury.invest_idle_funds(&admin, 500i128, 0).unwrap();

    let initial_available = treasury.get_available_balance();
    let initial_invested = treasury.get_invested_balance();

    treasury.divest_funds(&admin, 200i128, 0, 0).unwrap();

    assert_eq!(treasury.get_available_balance(), initial_available + 200i128);
    assert_eq!(treasury.get_invested_balance(), initial_invested - 200i128);

    let positions = treasury.get_investment_positions();
    assert_eq!(positions.get(0).unwrap().amount, 300i128); // 500 - 200
}

#[test]
fn test_minimum_liquidity_constraint() {
    let (admin, pool_address, depositor, _) = parties();
    // High minimum liquidity (50%)
    let mut treasury = treasury(&admin, &pool_address, 5000, 1000i128);

    treasury.deposit(&depositor, 2000i128, 0).unwrap();

    // Investing 1500 would leave 500 available, under half the total
    let result = treasury.invest_idle_funds(&admin, 1500i128, 0);
    assert!(result.is_err());
    assert_eq!(result, Err(TreasuryError::LiquidityBreach));
}

#[test]
fn test_allocate_grant() {
    let (admin, pool_address, depositor, grantee) = parties();
    let mut treasury = treasury(&admin, &pool_address, 2000, 1000i128);

    treasury.deposit(&depositor, 3000i128, 0).unwrap();

    treasury
        .allocate_grant(&admin, grantee.clone(), 1000i128, 0)
        .unwrap();

    let allocations = treasury.get_grant_allocations();
    assert_eq!(allocations.len(), 1);

    let allocation = allocations.get(0).unwrap();
    assert_eq!(allocation.grantee, grantee);
    assert_eq!(allocation.amount, 1000i128);
    assert_eq!(allocation.status, AllocationStatus::Approved);

    assert_eq!(treasury.get_available_balance(), 2000i128);
}

#[test]
fn test_withdraw_grant() {
    let (admin, pool_address, depositor, grantee) = parties();
    let mut treasury = treasury(&admin, &pool_address, 2000, 1000i128);

    treasury.deposit(&depositor, 3000i128, 0).unwrap();
    treasury
        .allocate_grant(&admin, grantee.clone(), 1000i128, 0)
        .unwrap();

    let initial_available = treasury.get_available_balance();

    treasury.withdraw_grant(&grantee, 0).unwrap();

    // The grant left the available balance when it was allocated.
    assert_eq!(treasury.get_available_balance(), initial_available);

    let allocations = treasury.get_grant_allocations();
    assert_eq!(
        allocations.get(0).unwrap().status,
        AllocationStatus::Disbursed
    );
}

#[test]
fn test_ensure_liquidity_for_withdrawal() {
    let (admin, pool_address, depositor, grantee) = parties();
    let mut treasury = treasury(&admin, &pool_address, 2000, 1000i128);

    treasury.deposit(&depositor, 3000i128, 0).unwrap();
    treasury.invest_idle_funds(&admin, 1000i128, 0).unwrap();

    // Allocate more than the available balance: divests to cover it
    treasury
        .allocate_grant(&admin, grantee.clone(), 2500i128, 0)
        .unwrap();
    assert_eq!(treasury.get_available_balance(), 0i128);
    assert_eq!(treasury.get_invested_balance(), 500i128);

    treasury.withdraw_grant(&grantee, 0).unwrap();

    let allocations = treasury.get_grant_allocations();
    assert_eq!(
        allocations.get(0).unwrap().status,
        AllocationStatus::Disbursed
    );
}

#[test]
fn test_claim_yield() {
    let (admin, pool_address, depositor, _) = parties();
    let mut treasury = treasury(&admin, &pool_address, 2000, 1000i128);

    treasury.deposit(&depositor, 3000i128, 0).unwrap();
    treasury.invest_idle_funds(&admin, 1000i128, 0).unwrap();

    let initial_available = treasury.get_available_balance();

    // One day later: 1000 units have not earned a whole unit yet
    treasury.claim_yield(&admin, 86400).unwrap();

    assert_eq!(treasury.get_available_balance(), initial_available);

    let yield_history = treasury.get_yield_history();
    assert_eq!(yield_history.len(), 0);
    assert_eq!(treasury.get_yield_claim_counter(), 1);
    assert_eq!(treasury.get_last_yield_claim(), 86400);
}

#[test]
fn test_yield_calculation() {
    let (admin, pool_address, _, _) = parties();
    let treasury = treasury(&admin, &pool_address, 2000, 1000i128);

    let position = InvestmentPosition {
        amount: 1000i128,
        pool_address: pool_address.clone(),
        invested_at: 0,
        last_yield_claim: 0,
        accumulated_yield: 0i128,
    };

    // One year of investment
    let yield_amount = GrantTreasury::calculate_yield(&position, 365 * 24 * 60 * 60);

    // At 5% a year, 1000 units earn 50
    assert!(yield_amount >= 40i128 && yield_amount <= 60i128);
    assert_eq!(yield_amount, 50i128);
    assert_eq!(treasury.get_accumulated_yield(), 0i128);
}

#[test]
fn test_unauthorized_access() {
    let (admin, pool_address, _, _) = parties();
    let unauthorized = Identity::new("GINTRUDER");
    let mut treasury = treasury(&admin, &pool_address, 2000, 1000i128);

    let result = treasury.invest_idle_funds(&unauthorized, 100i128, 0);
    assert!(result.is_err());
    assert_eq!(result, Err(TreasuryError::Unauthorized));

    let result = treasury.allocate_grant(&unauthorized, admin.clone(), 100i128, 0);
    assert!(result.is_err());
    assert_eq!(result, Err(TreasuryError::Unauthorized));

    let result = treasury.claim_yield(&unauthorized, 0);
    assert!(result.is_err());
    assert_eq!(result, Err(TreasuryError::Unauthorized));
}

#[test]
#[allow(non_snake_case)]
fn grantTreasury_test_test_edge_cases() {
    let (admin, pool_address, depositor, _) = parties();
    let mut treasury = treasury(&admin, &pool_address, 2000, 1000i128);

    // Zero amount deposit
    let result = treasury.deposit(&depositor, 0i128, 0);
    assert!(result.is_err());
    assert_eq!(result, Err(TreasuryError::InvalidAmount));

    // Negative amount deposit
    let result = treasury.deposit(&depositor, -100i128, 0);
    assert!(result.is_err());
    assert_eq!(result, Err(TreasuryError::InvalidAmount));

    // Invalid position index for divestment
    treasury.deposit(&depositor, 1000i128, 0).unwrap();
    let result = treasury.divest_funds(&admin, 100i128, 0, 0);
    assert!(result.is_err());
    assert_eq!(result, Err(TreasuryError::InvalidIndex));
}

#[test]
fn test_view_functions() {
    let (admin, pool_address, depositor, _) = parties();
    let mut treasury = treasury(&admin, &pool_address, 2000, 1000i128);

    treasury.deposit(&depositor, 3000i128, 0).unwrap();
    treasury.invest_idle_funds(&admin, 500i128, 0).unwrap();

    assert_eq!(treasury.get_total_balance(), 3000i128);
    assert!(treasury.get_available_balance() > 0i128);
    assert_eq!(treasury.get_invested_balance(), 500i128);
    assert_eq!(GrantTreasury::get_apy(), 500); // 5% APY
    assert!(treasury.should_auto_invest().unwrap());

    let positions = treasury.get_investment_positions();
    assert_eq!(positions.len(), 1);

    let allocations = treasury.get_grant_allocations();
    assert_eq!(allocations.len(), 0);

    let yield_history = treasury.get_yield_history();
    assert_eq!(yield_history.len(), 0);
}

#[test]
fn test_multiple_investments() {
    let (admin, pool_address, depositor, _) = parties();
    let mut treasury = treasury(&admin, &pool_address, 2000, 1000i128);

    treasury.deposit(&depositor, 5000i128, 0).unwrap();

    treasury.invest_idle_funds(&admin, 1000i128, 0).unwrap();
    treasury.invest_idle_funds(&admin, 500i128, 0).unwrap();

    let positions = treasury.get_investment_positions();
    assert_eq!(positions.len(), 2);
    assert_eq!(positions.get(0).unwrap().amount, 1000i128);
    assert_eq!(positions.get(1).unwrap().amount, 500i128);
    assert_eq!(treasury.get_invested_balance(), 1500i128);
}

#[test]
fn test_complete_lifecycle() {
    let (admin, pool_address, _, grantee) = parties();
    let mut treasury = treasury(&admin, &pool_address, 2000, 1000i128);

    // 1. Deposit funds, on the administrator's authority
    treasury.deposit(&admin, 10000i128, 0).unwrap();
    assert_eq!(treasury.get_total_balance(), 10000i128);

    // 2. The automatic investment has taken place
    assert!(treasury.get_invested_balance() > 0i128);

    // 3. Allocate a grant
    treasury
        .allocate_grant(&admin, grantee.clone(), 2000i128, 0)
        .unwrap();

    // 4. Withdraw the grant
    treasury.withdraw_grant(&grantee, 0).unwrap();

    // 5. Claim yield a day later
    treasury.claim_yield(&admin, 86400).unwrap();

    // 6. Final state
    assert!(treasury.get_available_balance() > 0i128);
    assert!(treasury.get_accumulated_yield() >= 0i128);

    let allocations = treasury.get_grant_allocations();
    assert_eq!(
        allocations.get(0).unwrap().status,
        AllocationStatus::Disbursed
    );
}
