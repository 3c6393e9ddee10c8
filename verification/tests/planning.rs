use universal_trigger::error::CoreError;
use universal_trigger::planner::{plan, DispatchPlan, GasCost, GasSchedule, OperationKind};

fn planned(kind: OperationKind, requested: u64, available: Option<u64>) -> DispatchPlan {
    plan(kind, requested, available).expect("a plan")
}

#[test]
fn plan_single_add() {
    let p = planned(OperationKind::AddLiquidity, 1, None);
    assert_eq!(p.gas_limit, 800_000);
    assert!(!p.is_batch);
    assert_eq!(p.unit_count, 1);
    assert_eq!(p.operation_kind, OperationKind::AddLiquidity);
    assert_eq!(planned(OperationKind::AddLiquidity, 1, Some(7)), p);
}

#[test]
fn plan_batch_add_hits_ceiling() {
    let p = planned(OperationKind::AddLiquidity, 20, None);
    assert_eq!(p.gas_limit, 8_000_000);
    assert!(p.is_batch);
    assert_eq!(p.unit_count, 20);
}

#[test]
fn plan_batch_add_under_ceiling() {
    let p = planned(OperationKind::AddLiquidity, 5, None);
    assert_eq!(p.gas_limit, 3_000_000);
    assert!(p.is_batch);
    assert_eq!(planned(OperationKind::AddLiquidity, 13, None).gas_limit, 7_800_000);
    assert_eq!(planned(OperationKind::AddLiquidity, 14, None).gas_limit, 8_000_000);
}

#[test]
fn plan_remove_by_count_clamps() {
    let p = planned(OperationKind::RemoveLiquidity, 10, Some(3));
    assert_eq!(p.unit_count, 3);
    assert_eq!(p.gas_limit, 900_000);
    assert!(p.is_batch);
}

#[test]
fn plan_remove_by_count_within_available() {
    let p = planned(OperationKind::RemoveLiquidity, 2, Some(5));
    assert_eq!(p.unit_count, 2);
    assert_eq!(p.gas_limit, 600_000);
}

#[test]
fn plan_remove_single() {
    let p = planned(OperationKind::RemoveLiquidity, 1, None);
    assert_eq!(p.gas_limit, 500_000);
    assert!(!p.is_batch);
    let clamped = planned(OperationKind::RemoveLiquidity, 4, Some(1));
    assert_eq!(clamped.unit_count, 1);
    assert!(!clamped.is_batch);
    assert_eq!(clamped.gas_limit, 500_000);
}

#[test]
fn plan_remove_all_without_positions() {
    assert_eq!(plan(OperationKind::RemoveAll, 1, Some(0)), Err(CoreError::NoActivePositions));
    assert_eq!(plan(OperationKind::RemoveAll, 0, Some(0)), Err(CoreError::NoActivePositions));
    assert_eq!(plan(OperationKind::RemoveAll, 99, Some(0)), Err(CoreError::NoActivePositions));
    assert_eq!(plan(OperationKind::RemoveAll, 1, None), Err(CoreError::NoActivePositions));
}

#[test]
fn plan_remove_all() {
    let p = planned(OperationKind::RemoveAll, 1, Some(4));
    assert!(p.is_batch);
    assert_eq!(p.unit_count, 4);
    assert_eq!(p.gas_limit, 1_200_000);
    let one = planned(OperationKind::RemoveAll, 50, Some(1));
    assert!(one.is_batch);
    assert_eq!(one.unit_count, 1);
    assert_eq!(one.gas_limit, 300_000);
    assert_eq!(planned(OperationKind::RemoveAll, 1, Some(100)).gas_limit, 8_000_000);
}

#[test]
fn plan_position_driven_without_positions() {
    assert_eq!(plan(OperationKind::RemoveLiquidity, 3, Some(0)), Err(CoreError::NoActivePositions));
    assert_eq!(plan(OperationKind::Rebalance, 3, Some(0)), Err(CoreError::NoActivePositions));
}

#[test]
fn plan_rebalance() {
    let single = planned(OperationKind::Rebalance, 1, None);
    assert_eq!(single.gas_limit, 800_000);
    assert!(!single.is_batch);
    let batch = planned(OperationKind::Rebalance, 6, Some(2));
    assert_eq!(batch.unit_count, 2);
    assert_eq!(batch.gas_limit, 1_200_000);
    assert!(batch.is_batch);
}

#[test]
fn plan_swaps() {
    for kind in [OperationKind::SwapBaseToQuote, OperationKind::SwapQuoteToBase] {
        let single = planned(kind, 1, None);
        assert_eq!(single.gas_limit, 300_000);
        assert!(!single.is_batch);
        let batch = planned(kind, 4, None);
        assert_eq!(batch.gas_limit, 1_000_000);
        assert!(batch.is_batch);
        assert_eq!(planned(kind, 32, None).gas_limit, 8_000_000);
        assert_eq!(planned(kind, 33, None).gas_limit, 8_000_000);
        assert_eq!(planned(kind, 4, Some(0)).unit_count, 4);
    }
}

#[test]
fn plan_huge_count_stays_under_ceiling() {
    let p = planned(OperationKind::AddLiquidity, u64::MAX, None);
    assert_eq!(p.gas_limit, 8_000_000);
    assert_eq!(p.unit_count, u64::MAX);
}

#[test]
fn plan_with_own_schedule() {
    let schedule = GasSchedule {
        add_liquidity: GasCost { single_call: 10, per_unit: 7 },
        remove_liquidity: GasCost { single_call: 20, per_unit: 3 },
        rebalance: GasCost { single_call: 30, per_unit: 9 },
        swap: GasCost { single_call: 40, per_unit: u64::MAX },
        ceiling: 50,
    };
    assert_eq!(schedule.plan(OperationKind::AddLiquidity, 1, None).expect("a plan").gas_limit, 10);
    assert_eq!(schedule.plan(OperationKind::AddLiquidity, 7, None).expect("a plan").gas_limit, 49);
    assert_eq!(schedule.plan(OperationKind::AddLiquidity, 8, None).expect("a plan").gas_limit, 50);
    assert_eq!(schedule.plan(OperationKind::RemoveAll, 1, Some(5)).expect("a plan").gas_limit, 15);
    assert_eq!(schedule.plan(OperationKind::SwapBaseToQuote, u64::MAX, None).expect("a plan").gas_limit, 50);
    assert_eq!(schedule.batch_gas_limit(OperationKind::Rebalance, 5), 45);
    assert_eq!(schedule.cost(OperationKind::RemoveAll), GasCost { single_call: 20, per_unit: 3 });
}

#[test]
fn standard_schedule_figures() {
    let s = GasSchedule::standard();
    assert_eq!(s.add_liquidity, GasCost { single_call: 800_000, per_unit: 600_000 });
    assert_eq!(s.remove_liquidity, GasCost { single_call: 500_000, per_unit: 300_000 });
    assert_eq!(s.rebalance, GasCost { single_call: 800_000, per_unit: 600_000 });
    assert_eq!(s.swap, GasCost { single_call: 300_000, per_unit: 250_000 });
    assert_eq!(s.ceiling, 8_000_000);
}

#[test]
fn error_messages() {
    assert_eq!(CoreError::InvalidAmountFormat.message(), "invalid amount format");
    assert_eq!(CoreError::InvalidAddressFormat.message(), "invalid address format");
    assert_eq!(CoreError::NoActivePositions.message(), "no active positions");
    assert_eq!(CoreError::TransportError.message(), "transport error");
}
