use money_market::comptroller::contract::AccountLiquidityResponse;
use money_market::comptroller::msg::ExecuteMsg as EngineMsg;
use money_market::comptroller::msg::HypotheticalDelta;
use money_market::decimal::Decimal;
use money_market::error::ContractError;
use money_market::market::contract::UserBalancesResponse;
use money_market::market::msg::{ExecuteMsg, InstantiateMsg};
use money_market::protocol::MoneyMarket;

fn deployment() -> MoneyMarket {
    let mut market = MoneyMarket::new();
    let admin = "admin".to_string();
    for (asset, denom, percent, price) in
        [("ATOM", "uatom", 50u64, 10u128), ("USDC", "uusdc", 80u64, 1u128)].iter()
    {
        let created = market.instantiate_pool(InstantiateMsg {
            asset_id: asset.to_string(),
            underlying_denom: denom.to_string(),
        });
        assert_eq!(created, Ok(()));
        assert_eq!(market.set_price(&asset.to_string(), Some(*price)), Ok(()));
        let registered = market.execute_comptroller(
            &admin,
            EngineMsg::RegisterMarket {
                asset_id: asset.to_string(),
                pool_address: format!("pool-{}", asset),
                collateral_factor: Decimal::percent(*percent),
            },
        );
        assert_eq!(registered, Ok(()));
    }
    market
}

fn with_alice_in_atom() -> MoneyMarket {
    let mut market = deployment();
    let alice = "alice".to_string();
    let atom = "ATOM".to_string();
    market.execute_pool(&atom, &alice, ExecuteMsg::Deposit { amount: 100 }).unwrap();
    market
        .execute_comptroller(&alice, EngineMsg::EnterMarket { asset_id: "ATOM".to_string() })
        .unwrap();
    market
}

fn liquidity_of(market: &MoneyMarket, user: &str) -> AccountLiquidityResponse {
    market.query_account_liquidity(&user.to_string(), &None).unwrap()
}

fn balances_in(market: &MoneyMarket, asset: &str, user: &str) -> (u128, u128) {
    let balances = market.query_balances(&asset.to_string(), &user.to_string()).unwrap();
    (balances.supplied_balance, balances.borrowed_balance)
}

#[test]
fn scenario_deposit_enter_and_compute_liquidity() {
    let market = with_alice_in_atom();
    let liquidity = liquidity_of(&market, "alice");
    assert_eq!(liquidity.collateral_value, 500);
    assert_eq!(liquidity.debt_value, 0);
    assert!(liquidity.solvent());
}

#[test]
fn scenario_borrow_of_400_passes() {
    let mut market = with_alice_in_atom();
    let alice = "alice".to_string();
    let response =
        market.execute_pool(&"USDC".to_string(), &alice, ExecuteMsg::Borrow { amount: 400 }).unwrap();
    assert_eq!(response.amount, 400);
    assert_eq!(response.transfers.len(), 1);
    assert_eq!(response.transfers[0].recipient, "alice");
    assert_eq!(response.transfers[0].denom, "uusdc");
    assert_eq!(response.transfers[0].amount, 400);
    assert_eq!(balances_in(&market, "USDC", "alice"), (0, 400));
    assert_eq!(balances_in(&market, "ATOM", "alice"), (100, 0));
    let after = liquidity_of(&market, "alice");
    assert_eq!((after.collateral_value, after.debt_value), (500, 400));
    assert!(after.solvent());
}

#[test]
fn scenario_borrow_of_600_fails_as_unsafe() {
    let mut market = with_alice_in_atom();
    let alice = "alice".to_string();
    assert_eq!(
        market.execute_pool(&"USDC".to_string(), &alice, ExecuteMsg::Borrow { amount: 600 }),
        Err(ContractError::BorrowUnsafe { collateral_value: 500, debt_value: 600 })
    );
    assert_eq!(balances_in(&market, "USDC", "alice"), (0, 0));
    assert_eq!(liquidity_of(&market, "alice").collateral_value, 500);
}

#[test]
fn borrow_up_to_the_collateral_value_and_no_further() {
    let mut market = with_alice_in_atom();
    let alice = "alice".to_string();
    let usdc = "USDC".to_string();
    assert_eq!(
        market.execute_pool(&usdc, &alice, ExecuteMsg::Borrow { amount: 501 }),
        Err(ContractError::BorrowUnsafe { collateral_value: 500, debt_value: 501 })
    );
    assert!(market.execute_pool(&usdc, &alice, ExecuteMsg::Borrow { amount: 500 }).is_ok());
    assert_eq!(
        market.execute_pool(&usdc, &alice, ExecuteMsg::Borrow { amount: 1 }),
        Err(ContractError::BorrowUnsafe { collateral_value: 500, debt_value: 501 })
    );
    assert_eq!(balances_in(&market, "USDC", "alice"), (0, 500));
}

#[test]
fn committed_borrow_leaves_the_account_solvent() {
    let mut market = with_alice_in_atom();
    let alice = "alice".to_string();
    market.execute_comptroller(&alice, EngineMsg::EnterMarket { asset_id: "USDC".to_string() }).unwrap();
    let projected = market
        .query_account_liquidity(
            &alice,
            &Some(HypotheticalDelta {
                asset_id: "USDC".to_string(),
                withdraw_amount: 0,
                borrow_amount: 300,
            }),
        )
        .unwrap();
    market.execute_pool(&"USDC".to_string(), &alice, ExecuteMsg::Borrow { amount: 300 }).unwrap();
    let after = liquidity_of(&market, "alice");
    assert_eq!(after, projected);
    assert_eq!(after.collateral_value, 500);
    assert_eq!(after.debt_value, 300);
    assert!(after.solvent());
    assert_eq!(after.health_factor.atomics(), 1_666_666_666_666_666_666u128);
}

#[test]
fn withdrawal_is_checked_against_the_debt() {
    let mut market = with_alice_in_atom();
    let alice = "alice".to_string();
    let atom = "ATOM".to_string();
    market.execute_comptroller(&alice, EngineMsg::EnterMarket { asset_id: "USDC".to_string() }).unwrap();
    market.execute_pool(&"USDC".to_string(), &alice, ExecuteMsg::Borrow { amount: 200 }).unwrap();
    assert_eq!(
        market.execute_pool(&atom, &alice, ExecuteMsg::Withdraw { amount: 61 }),
        Err(ContractError::WithdrawalUnsafe { collateral_value: 195, debt_value: 200 })
    );
    assert_eq!(balances_in(&market, "ATOM", "alice"), (100, 0));
    let response = market.execute_pool(&atom, &alice, ExecuteMsg::Withdraw { amount: 60 }).unwrap();
    assert_eq!(response.transfers.len(), 1);
    assert_eq!(response.transfers[0].amount, 60);
    assert_eq!(response.transfers[0].denom, "uatom");
    assert_eq!(balances_in(&market, "ATOM", "alice"), (40, 0));
    let after = liquidity_of(&market, "alice");
    assert_eq!((after.collateral_value, after.debt_value), (200, 200));
    assert!(after.solvent());
}

#[test]
fn deposit_then_withdraw_in_a_deployment_is_a_round_trip() {
    let mut market = with_alice_in_atom();
    let alice = "alice".to_string();
    let atom = "ATOM".to_string();
    let before = balances_in(&market, "ATOM", "alice");
    market.execute_pool(&atom, &alice, ExecuteMsg::Deposit { amount: 100 }).unwrap();
    let response = market.execute_pool(&atom, &alice, ExecuteMsg::Withdraw { amount: 100 }).unwrap();
    assert_eq!(balances_in(&market, "ATOM", "alice"), before);
    assert_eq!(response.transfers.len(), 1);
    assert_eq!(response.transfers[0].amount, 100);
}

#[test]
fn repay_in_a_deployment_is_clamped() {
    let mut market = with_alice_in_atom();
    let alice = "alice".to_string();
    let usdc = "USDC".to_string();
    market.execute_pool(&usdc, &alice, ExecuteMsg::Borrow { amount: 300 }).unwrap();
    let response = market.execute_pool(&usdc, &alice, ExecuteMsg::Repay { amount: 1000 }).unwrap();
    assert_eq!(response.amount, 300);
    assert_eq!(balances_in(&market, "USDC", "alice"), (0, 0));
}

#[test]
fn local_rejections_come_before_the_liquidity_query() {
    let mut market = with_alice_in_atom();
    let alice = "alice".to_string();
    let atom = "ATOM".to_string();
    assert_eq!(market.set_price(&atom, None), Ok(()));
    assert_eq!(
        market.execute_pool(&atom, &alice, ExecuteMsg::Withdraw { amount: 0 }),
        Err(ContractError::ZeroAmount)
    );
    assert_eq!(
        market.execute_pool(&atom, &alice, ExecuteMsg::Withdraw { amount: 101 }),
        Err(ContractError::InsufficientBalance { requested: 101, available: 100 })
    );
    assert_eq!(
        market.execute_pool(&atom, &alice, ExecuteMsg::Withdraw { amount: 1 }),
        Err(ContractError::PriceUnavailable)
    );
    assert_eq!(
        market.execute_pool(&atom, &alice, ExecuteMsg::Borrow { amount: 1 }),
        Err(ContractError::PriceUnavailable)
    );
    assert!(market.execute_pool(&atom, &alice, ExecuteMsg::Deposit { amount: 1 }).is_ok());
    assert_eq!(balances_in(&market, "ATOM", "alice"), (101, 0));
}

#[test]
fn operations_on_an_unlisted_asset_are_rejected() {
    let mut market = deployment();
    let alice = "alice".to_string();
    let osmo = "OSMO".to_string();
    assert_eq!(
        market.execute_pool(&osmo, &alice, ExecuteMsg::Deposit { amount: 1 }),
        Err(ContractError::PoolNotFound)
    );
    assert_eq!(market.set_price(&osmo, Some(3)), Err(ContractError::PoolNotFound));
    assert_eq!(market.query_balances(&osmo, &alice), Err(ContractError::PoolNotFound));
    assert_eq!(
        market.instantiate_pool(InstantiateMsg {
            asset_id: "ATOM".to_string(),
            underlying_denom: "other".to_string(),
        }),
        Err(ContractError::PoolAlreadyInitialized)
    );
    assert_eq!(
        market.query_balances(&"ATOM".to_string(), &alice),
        Ok(UserBalancesResponse { supplied_balance: 0, borrowed_balance: 0 })
    );
}

#[test]
fn borrow_from_a_pool_without_a_registered_market_is_rejected() {
    let mut market = with_alice_in_atom();
    let alice = "alice".to_string();
    market
        .instantiate_pool(InstantiateMsg {
            asset_id: "OSMO".to_string(),
            underlying_denom: "uosmo".to_string(),
        })
        .unwrap();
    market.set_price(&"OSMO".to_string(), Some(2)).unwrap();
    assert_eq!(
        market.execute_pool(&"OSMO".to_string(), &alice, ExecuteMsg::Borrow { amount: 1 }),
        Err(ContractError::MarketNotFound)
    );
    assert_eq!(market.query_market(&"OSMO".to_string()), Err(ContractError::MarketNotFound));
    assert_eq!(
        market.query_market(&"ATOM".to_string()).unwrap().collateral_factor,
        Decimal::percent(50)
    );
}

#[test]
fn exit_market_in_a_deployment_is_checked_against_the_debt() {
    let mut market = with_alice_in_atom();
    let alice = "alice".to_string();
    market.execute_comptroller(&alice, EngineMsg::EnterMarket { asset_id: "USDC".to_string() }).unwrap();
    market.execute_pool(&"USDC".to_string(), &alice, ExecuteMsg::Borrow { amount: 100 }).unwrap();
    assert_eq!(
        market.execute_comptroller(&alice, EngineMsg::ExitMarket { asset_id: "ATOM".to_string() }),
        Err(ContractError::ActiveCollateralInUse { collateral_value: 0, debt_value: 100 })
    );
    let kept = liquidity_of(&market, "alice");
    assert_eq!((kept.collateral_value, kept.debt_value), (500, 100));
    market.execute_pool(&"USDC".to_string(), &alice, ExecuteMsg::Repay { amount: 100 }).unwrap();
    assert_eq!(
        market.execute_comptroller(&alice, EngineMsg::ExitMarket { asset_id: "ATOM".to_string() }),
        Ok(())
    );
    let left = liquidity_of(&market, "alice");
    assert_eq!((left.collateral_value, left.debt_value), (0, 0));
}

#[test]
fn a_price_change_moves_the_liquidity() {
    let mut market = with_alice_in_atom();
    let alice = "alice".to_string();
    market.execute_comptroller(&alice, EngineMsg::EnterMarket { asset_id: "USDC".to_string() }).unwrap();
    market.execute_pool(&"USDC".to_string(), &alice, ExecuteMsg::Borrow { amount: 400 }).unwrap();
    market.set_price(&"ATOM".to_string(), Some(6)).unwrap();
    let fallen = liquidity_of(&market, "alice");
    assert_eq!((fallen.collateral_value, fallen.debt_value), (300, 400));
    assert!(!fallen.solvent());
    assert_eq!(fallen.health_factor.atomics(), 750_000_000_000_000_000u128);
    assert_eq!(
        market.execute_pool(&"ATOM".to_string(), &alice, ExecuteMsg::Withdraw { amount: 1 }),
        Err(ContractError::WithdrawalUnsafe { collateral_value: 297, debt_value: 400 })
    );
}

#[test]
fn a_step_of_one_user_leaves_the_liquidity_of_another_alone() {
    let mut market = with_alice_in_atom();
    let alice = "alice".to_string();
    let bob = "bob".to_string();
    let usdc = "USDC".to_string();
    market.execute_pool(&usdc, &bob, ExecuteMsg::Deposit { amount: 1_000 }).unwrap();
    market.execute_comptroller(&bob, EngineMsg::EnterMarket { asset_id: "USDC".to_string() }).unwrap();
    market.execute_pool(&usdc, &bob, ExecuteMsg::Borrow { amount: 300 }).unwrap();
    let before = liquidity_of(&market, "bob");
    assert_eq!((before.collateral_value, before.debt_value), (800, 300));
    market.execute_pool(&usdc, &alice, ExecuteMsg::Borrow { amount: 400 }).unwrap();
    market.execute_pool(&"ATOM".to_string(), &alice, ExecuteMsg::Deposit { amount: 5 }).unwrap();
    let _ = market.execute_pool(&usdc, &alice, ExecuteMsg::Borrow { amount: 4_000 });
    assert_eq!(liquidity_of(&market, "bob"), before);
    assert_eq!(balances_in(&market, "USDC", "bob"), (1_000, 300));
}

#[test]
fn withdrawal_is_checked_against_debt_in_a_market_that_was_not_entered() {
    let mut market = with_alice_in_atom();
    let alice = "alice".to_string();
    let atom = "ATOM".to_string();
    market.execute_pool(&"USDC".to_string(), &alice, ExecuteMsg::Borrow { amount: 400 }).unwrap();
    assert_eq!(
        market.execute_pool(&atom, &alice, ExecuteMsg::Withdraw { amount: 100 }),
        Err(ContractError::WithdrawalUnsafe { collateral_value: 0, debt_value: 400 })
    );
    assert_eq!(
        market.execute_pool(&atom, &alice, ExecuteMsg::Withdraw { amount: 21 }),
        Err(ContractError::WithdrawalUnsafe { collateral_value: 395, debt_value: 400 })
    );
    assert_eq!(balances_in(&market, "ATOM", "alice"), (100, 0));
    assert!(market.execute_pool(&atom, &alice, ExecuteMsg::Withdraw { amount: 20 }).is_ok());
    let after = liquidity_of(&market, "alice");
    assert_eq!((after.collateral_value, after.debt_value), (400, 400));
}

#[test]
fn exit_is_checked_against_debt_in_a_market_that_was_not_entered() {
    let mut market = with_alice_in_atom();
    let alice = "alice".to_string();
    market.execute_pool(&"USDC".to_string(), &alice, ExecuteMsg::Borrow { amount: 400 }).unwrap();
    assert_eq!(
        market.execute_comptroller(&alice, EngineMsg::ExitMarket { asset_id: "ATOM".to_string() }),
        Err(ContractError::ActiveCollateralInUse { collateral_value: 0, debt_value: 400 })
    );
    let kept = liquidity_of(&market, "alice");
    assert_eq!((kept.collateral_value, kept.debt_value), (500, 400));
}

#[test]
fn debt_in_one_market_limits_a_borrow_in_another() {
    let mut market = with_alice_in_atom();
    let alice = "alice".to_string();
    let admin = "admin".to_string();
    market
        .instantiate_pool(InstantiateMsg {
            asset_id: "DAI".to_string(),
            underlying_denom: "udai".to_string(),
        })
        .unwrap();
    market.set_price(&"DAI".to_string(), Some(1)).unwrap();
    market
        .execute_comptroller(
            &admin,
            EngineMsg::RegisterMarket {
                asset_id: "DAI".to_string(),
                pool_address: "pool-DAI".to_string(),
                collateral_factor: Decimal::percent(80),
            },
        )
        .unwrap();
    market.execute_pool(&"USDC".to_string(), &alice, ExecuteMsg::Borrow { amount: 500 }).unwrap();
    assert_eq!(
        market.execute_pool(&"DAI".to_string(), &alice, ExecuteMsg::Borrow { amount: 500 }),
        Err(ContractError::BorrowUnsafe { collateral_value: 500, debt_value: 1000 })
    );
    assert_eq!(
        market.execute_pool(&"DAI".to_string(), &alice, ExecuteMsg::Borrow { amount: 1 }),
        Err(ContractError::BorrowUnsafe { collateral_value: 500, debt_value: 501 })
    );
    assert_eq!(balances_in(&market, "DAI", "alice"), (0, 0));
}

#[test]
fn a_registered_market_without_a_pool_stops_the_computation() {
    let mut market = with_alice_in_atom();
    let alice = "alice".to_string();
    market
        .execute_comptroller(
            &"admin".to_string(),
            EngineMsg::RegisterMarket {
                asset_id: "OSMO".to_string(),
                pool_address: "pool-OSMO".to_string(),
                collateral_factor: Decimal::percent(10),
            },
        )
        .unwrap();
    assert_eq!(
        market.query_account_liquidity(&alice, &None),
        Err(ContractError::PoolNotFound)
    );
    assert_eq!(
        market.execute_pool(&"USDC".to_string(), &alice, ExecuteMsg::Borrow { amount: 1 }),
        Err(ContractError::PoolNotFound)
    );
    assert!(market
        .execute_pool(&"ATOM".to_string(), &alice, ExecuteMsg::Deposit { amount: 1 })
        .is_ok());
}
