use mule_cli::estimate::{
    get_compute_units, resolve_compute_budget, ComputeBudget, EstimationError, SimulationOutcome,
    DEFAULT_CU, FIXED_CU,
};

#[test]
fn embedded_error_is_surfaced_and_units_discarded() {
    let sim = SimulationOutcome {
        err: Some(String::from("custom program error: 0x1")),
        units_consumed: Some(42_000),
    };
    assert_eq!(
        get_compute_units(sim),
        Err(EstimationError::Simulation(String::from("custom program error: 0x1")))
    );
}

#[test]
fn missing_unit_figure_falls_back_to_default() {
    let sim = SimulationOutcome { err: None, units_consumed: None };
    assert_eq!(get_compute_units(sim), Ok(DEFAULT_CU));
    assert_eq!(DEFAULT_CU, 15_000);
}

#[test]
fn reported_unit_figure_is_returned_exactly() {
    let sim = SimulationOutcome { err: None, units_consumed: Some(123_456) };
    assert_eq!(get_compute_units(sim), Ok(123_456));
}

#[test]
fn fixed_budget_strategy_skips_estimation() {
    assert_eq!(resolve_compute_budget(ComputeBudget::Fixed(FIXED_CU)), Ok(500_000));
}

#[test]
fn simulated_budget_strategy_judges_like_the_estimator() {
    let sim = SimulationOutcome { err: Some(String::from("boom")), units_consumed: None };
    assert_eq!(
        resolve_compute_budget(ComputeBudget::Simulated(sim)),
        Err(EstimationError::Simulation(String::from("boom")))
    );
    let sim2 = SimulationOutcome { err: None, units_consumed: Some(9_000) };
    assert_eq!(resolve_compute_budget(ComputeBudget::Simulated(sim2)), Ok(9_000));
}
