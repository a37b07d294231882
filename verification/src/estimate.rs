//! Compute-unit budgeting from a simulated execution, or from a fixed limit.

use vstd::prelude::*;

verus! {

/// Unit budget assumed when the simulator reports no consumption figure.
pub const DEFAULT_CU: u64 = 15_000;

/// Generous unit budget callers may pick instead of estimating, to stay
/// robust against estimation drift.
pub const FIXED_CU: u64 = 500_000;

/// What one simulation round-trip reported: the execution's own error, if it
/// failed, and the consumed compute units, if the simulator measured them.
#[derive(Debug, Clone, PartialEq, Eq)]
pub struct SimulationOutcome {
    pub err: Option<String>,
    pub units_consumed: Option<u64>,
}

/// Failure of the estimation itself: the simulated execution reported a
/// program-level error, carried verbatim.
#[derive(Debug, Clone, PartialEq, Eq)]
pub enum EstimationError {
    Simulation(String),
}

/// What estimation yields for a given simulation report.
pub open spec fn spec_estimate(sim: SimulationOutcome) -> Result<u64, EstimationError> {
    match sim.err {
        Some(e) => Err(EstimationError::Simulation(e)),
        None => match sim.units_consumed {
            Some(u) => Ok(u),
            None => Ok(DEFAULT_CU),
        },
    }
}

/// Compute units to budget, judged from a simulation report: an embedded
/// execution error is the only failure; a reported figure is returned
/// exactly; a missing figure falls back to `DEFAULT_CU`.
pub fn get_compute_units(sim: SimulationOutcome) -> (r: Result<u64, EstimationError>)
    ensures
        r == spec_estimate(sim),
{
    let SimulationOutcome { err, units_consumed } = sim;
    match err {
        Some(e) => Err(EstimationError::Simulation(e)),
        None => match units_consumed {
            Some(u) => Ok(u),
            None => Ok(DEFAULT_CU),
        },
    }
}

/// How the unit limit of a transaction is to be chosen: a fixed budget, or
/// the outcome of a simulation round-trip.
#[derive(Debug, Clone, PartialEq, Eq)]
pub enum ComputeBudget {
    Fixed(u64),
    Simulated(SimulationOutcome),
}

/// The unit limit under the chosen strategy: a fixed budget is taken as is;
/// a simulated one is judged exactly like `get_compute_units`.
pub fn resolve_compute_budget(budget: ComputeBudget) -> (r: Result<u64, EstimationError>)
    ensures
        r == match budget {
            ComputeBudget::Fixed(u) => Ok::<u64, EstimationError>(u),
            ComputeBudget::Simulated(sim) => spec_estimate(sim),
        },
{
    match budget {
        ComputeBudget::Fixed(u) => Ok(u),
        ComputeBudget::Simulated(sim) => get_compute_units(sim),
    }
}

} // verus!
