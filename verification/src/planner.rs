//! Dispatch planning: single call or batch, and the gas limit to request.

use vstd::prelude::*;
use crate::error::CoreError;

verus! {

/// The operations that the contract can perform once or in a batch.
#[derive(Clone, Copy, Debug, PartialEq, Eq, Structural)]
pub enum OperationKind {
    AddLiquidity,
    RemoveLiquidity,
    RemoveAll,
    Rebalance,
    SwapBaseToQuote,
    SwapQuoteToBase,
}

/// The gas to request for one operation: for a single call, and per unit of
/// a batch.
#[derive(Clone, Copy, Debug, PartialEq, Eq, Structural)]
pub struct GasCost {
    pub single_call: u64,
    pub per_unit: u64,
}

/// The gas table. The figures are empirical and depend on the chain, so they
/// are data: a caller may plan with a schedule of its own.
#[derive(Clone, Copy, Debug, PartialEq, Eq, Structural)]
pub struct GasSchedule {
    pub add_liquidity: GasCost,
    pub remove_liquidity: GasCost,
    pub rebalance: GasCost,
    pub swap: GasCost,
    /// No plan asks for more gas than this.
    pub ceiling: u64,
}

/// How one operation is to be submitted.
#[derive(Clone, Copy, Debug, PartialEq, Eq, Structural)]
pub struct DispatchPlan {
    pub operation_kind: OperationKind,
    pub is_batch: bool,
    pub unit_count: u64,
    pub gas_limit: u64,
}

/// The smaller of two numbers.
pub open spec fn min_nat(a: nat, b: nat) -> nat {
    if a <= b {
        a
    } else {
        b
    }
}

impl OperationKind {
    /// Whether the operation acts on positions that are currently active, so
    /// that a count of them bounds what can be done.
    pub open spec fn is_position_driven(self) -> bool {
        self == OperationKind::RemoveLiquidity || self == OperationKind::Rebalance
    }
}

impl GasSchedule {
    /// The row of the table that applies to an operation. Removing all
    /// positions is charged as removing by count.
    pub open spec fn cost_of(self, kind: OperationKind) -> GasCost {
        match kind {
            OperationKind::AddLiquidity => self.add_liquidity,
            OperationKind::RemoveLiquidity => self.remove_liquidity,
            OperationKind::RemoveAll => self.remove_liquidity,
            OperationKind::Rebalance => self.rebalance,
            OperationKind::SwapBaseToQuote => self.swap,
            OperationKind::SwapQuoteToBase => self.swap,
        }
    }

    /// The gas for a batch of `units`: the per-unit figure times the count,
    /// held under the ceiling.
    pub open spec fn batch_gas(self, kind: OperationKind, units: nat) -> nat {
        min_nat(self.cost_of(kind).per_unit as nat * units, self.ceiling as nat)
    }

    /// The plan for `units` repetitions, once the count is settled: one
    /// repetition is a single call, any other count a batch.
    pub open spec fn plan_for_units(self, kind: OperationKind, units: u64) -> DispatchPlan {
        if units == 1 {
            DispatchPlan {
                operation_kind: kind,
                is_batch: false,
                unit_count: 1,
                gas_limit: self.cost_of(kind).single_call,
            }
        } else {
            DispatchPlan {
                operation_kind: kind,
                is_batch: true,
                unit_count: units,
                gas_limit: self.batch_gas(kind, units as nat) as u64,
            }
        }
    }

    /// What `plan` returns.
    ///
    /// Removing all positions takes its count from the active positions and
    /// is always a batch; without a count of them, none is known to be
    /// active. Removing or rebalancing against a count of active positions
    /// does at most that many. Both fail when no position is active. Every
    /// other request is planned for the count as given.
    pub open spec fn plan_spec(
        self,
        kind: OperationKind,
        requested_count: u64,
        available_active_count: Option<u64>,
    ) -> Result<DispatchPlan, CoreError> {
        if kind == OperationKind::RemoveAll {
            match available_active_count {
                Some(available) => if available == 0 {
                    Err(CoreError::NoActivePositions)
                } else {
                    Ok(
                        DispatchPlan {
                            operation_kind: kind,
                            is_batch: true,
                            unit_count: available,
                            gas_limit: self.batch_gas(kind, available as nat) as u64,
                        },
                    )
                },
                None => Err(CoreError::NoActivePositions),
            }
        } else if kind.is_position_driven() && available_active_count is Some {
            let available = available_active_count->0;
            if available == 0 {
                Err(CoreError::NoActivePositions)
            } else if requested_count <= available {
                Ok(self.plan_for_units(kind, requested_count))
            } else {
                Ok(self.plan_for_units(kind, available))
            }
        } else {
            Ok(self.plan_for_units(kind, requested_count))
        }
    }

    /// The table in use on the chain that the contract was measured on.
    pub fn standard() -> (schedule: GasSchedule)
        ensures
            schedule == Self::standard_spec(),
    {
        GasSchedule {
            add_liquidity: GasCost { single_call: 800_000, per_unit: 600_000 },
            remove_liquidity: GasCost { single_call: 500_000, per_unit: 300_000 },
            rebalance: GasCost { single_call: 800_000, per_unit: 600_000 },
            swap: GasCost { single_call: 300_000, per_unit: 250_000 },
            ceiling: 8_000_000,
        }
    }

    /// The figures of `standard`.
    pub open spec fn standard_spec() -> GasSchedule {
        GasSchedule {
            add_liquidity: GasCost { single_call: 800_000, per_unit: 600_000 },
            remove_liquidity: GasCost { single_call: 500_000, per_unit: 300_000 },
            rebalance: GasCost { single_call: 800_000, per_unit: 600_000 },
            swap: GasCost { single_call: 300_000, per_unit: 250_000 },
            ceiling: 8_000_000,
        }
    }

    /// The row of the table that applies to an operation.
    pub fn cost(&self, kind: OperationKind) -> (cost: GasCost)
        ensures
            cost == self.cost_of(kind),
    {
        match kind {
            OperationKind::AddLiquidity => self.add_liquidity,
            OperationKind::RemoveLiquidity => self.remove_liquidity,
            OperationKind::RemoveAll => self.remove_liquidity,
            OperationKind::Rebalance => self.rebalance,
            OperationKind::SwapBaseToQuote => self.swap,
            OperationKind::SwapQuoteToBase => self.swap,
        }
    }

    /// The gas limit of a batch of `units`.
    pub fn batch_gas_limit(&self, kind: OperationKind, units: u64) -> (gas: u64)
        ensures
            gas == self.batch_gas(kind, units as nat),
            gas <= self.ceiling,
    {
        let per_unit: u64 = self.cost(kind).per_unit;
        assert(per_unit as int * units as int <= 0xffff_ffff_ffff_ffff * 0xffff_ffff_ffff_ffff)
            by (nonlinear_arith)
            requires
                0 <= per_unit as int <= 0xffff_ffff_ffff_ffff,
                0 <= units as int <= 0xffff_ffff_ffff_ffff,
        ;
        let total: u128 = (per_unit as u128) * (units as u128);
        if total <= self.ceiling as u128 {
            total as u64
        } else {
            self.ceiling
        }
    }

    /// Plans one invocation with this table.
    pub fn plan(
        &self,
        kind: OperationKind,
        requested_count: u64,
        available_active_count: Option<u64>,
    ) -> (result: Result<DispatchPlan, CoreError>)
        requires
            kind != OperationKind::RemoveAll ==> requested_count >= 1,
        ensures
            result == self.plan_spec(kind, requested_count, available_active_count),
            result is Ok ==> result->Ok_0.unit_count >= 1,
            result is Ok ==> result->Ok_0.operation_kind == kind,
            result is Ok ==> result->Ok_0.is_batch || result->Ok_0.unit_count == 1,
            result is Ok && result->Ok_0.is_batch ==> result->Ok_0.gas_limit <= self.ceiling,
    {
        match kind {
            OperationKind::RemoveAll => {
                let available: u64 = match available_active_count {
                    Some(n) => n,
                    None => 0,
                };
                if available == 0 {
                    Err(CoreError::NoActivePositions)
                } else {
                    Ok(
                        DispatchPlan {
                            operation_kind: kind,
                            is_batch: true,
                            unit_count: available,
                            gas_limit: self.batch_gas_limit(kind, available),
                        },
                    )
                }
            },
            OperationKind::RemoveLiquidity | OperationKind::Rebalance => {
                match available_active_count {
                    Some(available) => {
                        if available == 0 {
                            Err(CoreError::NoActivePositions)
                        } else if requested_count <= available {
                            Ok(self.plan_units(kind, requested_count))
                        } else {
                            Ok(self.plan_units(kind, available))
                        }
                    },
                    None => Ok(self.plan_units(kind, requested_count)),
                }
            },
            _ => Ok(self.plan_units(kind, requested_count)),
        }
    }

    /// The plan for a settled count of repetitions.
    pub fn plan_units(&self, kind: OperationKind, units: u64) -> (plan: DispatchPlan)
        ensures
            plan == self.plan_for_units(kind, units),
    {
        if units == 1 {
            DispatchPlan {
                operation_kind: kind,
                is_batch: false,
                unit_count: 1,
                gas_limit: self.cost(kind).single_call,
            }
        } else {
            DispatchPlan {
                operation_kind: kind,
                is_batch: true,
                unit_count: units,
                gas_limit: self.batch_gas_limit(kind, units),
            }
        }
    }
}

/// Plans one invocation with the standard gas table.
pub fn plan(
    kind: OperationKind,
    requested_count: u64,
    available_active_count: Option<u64>,
) -> (result: Result<DispatchPlan, CoreError>)
    requires
        kind != OperationKind::RemoveAll ==> requested_count >= 1,
    ensures
        result == GasSchedule::standard_spec().plan_spec(
            kind,
            requested_count,
            available_active_count,
        ),
        result is Ok ==> result->Ok_0.unit_count >= 1,
        result is Ok ==> result->Ok_0.gas_limit <= 8_000_000,
{
    GasSchedule::standard().plan(kind, requested_count, available_active_count)
}

/// Removing all positions when none is active gives no plan, whatever count
/// comes with the request and whatever the gas table.
pub proof fn lemma_remove_all_needs_positions(schedule: GasSchedule, requested_count: u64)
    ensures
        schedule.plan_spec(OperationKind::RemoveAll, requested_count, Some(0u64)) == Err::<
            DispatchPlan,
            CoreError,
        >(CoreError::NoActivePositions),
{
}

/// An operation on active positions gives no plan when none is active, and
/// otherwise a plan for no more units than are active nor than were asked
/// for.
pub proof fn lemma_plan_within_active_positions(
    schedule: GasSchedule,
    kind: OperationKind,
    requested_count: u64,
    available: u64,
)
    requires
        kind.is_position_driven(),
        requested_count >= 1,
    ensures
        available == 0 ==> schedule.plan_spec(kind, requested_count, Some(available)) is Err,
        available > 0 ==> {
            let plan = schedule.plan_spec(kind, requested_count, Some(available));
            &&& plan is Ok
            &&& plan->Ok_0.unit_count == min_nat(requested_count as nat, available as nat)
        },
{
}

/// A batch never asks for more gas than the ceiling, and asks for the full
/// product where that is under it.
pub proof fn lemma_batch_gas_capped(schedule: GasSchedule, kind: OperationKind, units: nat)
    ensures
        schedule.batch_gas(kind, units) <= schedule.ceiling,
        schedule.cost_of(kind).per_unit * units <= schedule.ceiling ==> schedule.batch_gas(
            kind,
            units,
        ) == schedule.cost_of(kind).per_unit * units,
{
}

} // verus!
