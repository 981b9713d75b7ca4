use pwdft::error::PwdftError;
use pwdft::mixing::{BetaAction, BetaMonitor, HistoryWindow, PulayCadence, ResidualTrend};
use pwdft::scf::{
    assign_pseudopotentials, check_scf_entry, find_for_atom, iterative_converged, iterative_plan,
    lowest_count, subspace_route, validate_params, CrystalDefect, FloatChecks, IterativePlan, ScfEntryError,
    ScfLoop, ScfParam, ScfStep, SubspaceRoute,
};
use pwdft::settings::{MixingMode, XcEvaluator, XcFunctional};

/// Float checks of a parameter set, as the caller evaluates them.
fn checks(conv_threshold: f64, mixing_beta: f64, smearing_sigma: f64, gaussian_sigma: f64) -> FloatChecks {
    FloatChecks {
        conv_threshold_positive: conv_threshold > 0.0,
        mixing_beta_in_range: 0.0 < mixing_beta && mixing_beta <= 1.0,
        smearing_sigma_nonnegative: smearing_sigma >= 0.0,
        gaussian_sigma_positive: gaussian_sigma.is_finite() && gaussian_sigma > 0.0,
    }
}

fn default_checks() -> FloatChecks {
    checks(1e-6, 0.3, 0.01, 0.5)
}

#[test]
fn validate_rejects_zero_pulay_period() {
    let mode: MixingMode<f64> = MixingMode::PeriodicPulay { period: 0, kerker: false };
    let err = validate_params(8, 4, 1, &mode, default_checks()).unwrap_err();
    assert_eq!(err, ScfParam::PulayPeriod);
    assert_eq!(err.name(), "pulay_period");

    let mode_k: MixingMode<f64> = MixingMode::PeriodicPulay { period: 0, kerker: true };
    assert_eq!(validate_params(8, 4, 1, &mode_k, default_checks()), Err(ScfParam::PulayPeriod));

    let ok: MixingMode<f64> = MixingMode::PeriodicPulay { period: 1, kerker: false };
    assert!(validate_params(8, 4, 1, &ok, default_checks()).is_ok());
}

#[test]
fn validate_mixing_beta_display_matches_invalid_param() {
    let plain: MixingMode<f64> = MixingMode::Plain;
    let err = validate_params(8, 4, 1, &plain, checks(1e-6, -0.1, 0.01, 0.5)).unwrap_err();
    assert_eq!(err, ScfParam::MixingBeta);
    assert_eq!(err.name(), "mixing_beta");
}

#[test]
fn validate_param_cluster_names() {
    let plain: MixingMode<f64> = MixingMode::Plain;
    let name = |r: Result<(), ScfParam>| r.unwrap_err().name();
    assert_eq!(name(validate_params(0, 4, 1, &plain, default_checks())), "n_bands");
    assert_eq!(name(validate_params(8, 4, 1, &plain, checks(0.0, 0.3, 0.01, 0.5))), "conv_threshold");
    assert_eq!(name(validate_params(8, 4, 1, &plain, checks(1e-6, 1.5, 0.01, 0.5))), "mixing_beta");
    assert_eq!(name(validate_params(8, 4, 1, &plain, checks(1e-6, 0.3, -0.1, 0.5))), "smearing_sigma");
    assert_eq!(name(validate_params(8, 0, 1, &plain, default_checks())), "ecutrho_ratio");
    assert_eq!(name(validate_params(8, 4, 3, &plain, default_checks())), "nspin");
    assert_eq!(name(validate_params(8, 4, 1, &plain, checks(1e-6, 0.3, 0.01, 0.0))), "gaussian_sigma");
    assert!(validate_params(8, 4, 1, &plain, default_checks()).is_ok());
}

#[test]
fn validate_reports_first_violation_in_order() {
    let plain: MixingMode<f64> = MixingMode::Plain;
    // Everything wrong: n_bands comes first.
    assert_eq!(
        validate_params(0, 0, 3, &plain, checks(0.0, 2.0, -1.0, -1.0)),
        Err(ScfParam::NBands)
    );
    assert_eq!(validate_params(8, 0, 3, &plain, default_checks()), Err(ScfParam::EcutrhoRatio));
}

#[test]
fn run_scf_rejects_crystal_shape_errors() {
    let plain: MixingMode<f64> = MixingMode::Plain;
    let c = default_checks();
    match check_scf_entry(8, 4, 1, &plain, c, XcFunctional::Pz, 0, 1, true) {
        Err(ScfEntryError::InvalidCrystal(d)) => {
            assert_eq!(d, CrystalDefect::NoAtoms);
            assert_eq!(d.reason(), "at least one atom is required");
        }
        other => panic!("expected InvalidCrystal, got {other:?}"),
    }
    match check_scf_entry(8, 4, 1, &plain, c, XcFunctional::Pz, 2, 0, true) {
        Err(ScfEntryError::InvalidCrystal(d)) => {
            assert_eq!(d, CrystalDefect::NoKpoints);
            assert_eq!(d.reason(), "at least one k-point is required");
        }
        other => panic!("expected InvalidCrystal, got {other:?}"),
    }
    match check_scf_entry(8, 4, 1, &plain, c, XcFunctional::Pz, 2, 1, false) {
        Err(ScfEntryError::InvalidCrystal(d)) => {
            assert_eq!(d, CrystalDefect::DegenerateLattice);
            assert_eq!(d.reason(), "lattice has zero or near-zero volume");
        }
        other => panic!("expected InvalidCrystal, got {other:?}"),
    }
}

#[test]
fn scf_entry_checks_functional_before_crystal() {
    let plain: MixingMode<f64> = MixingMode::Plain;
    match check_scf_entry(8, 4, 1, &plain, default_checks(), XcFunctional::Hse06, 0, 0, false) {
        Err(ScfEntryError::Setup(PwdftError::NotImplemented { what })) => {
            assert_eq!(what, "xc_functional 'hse06'")
        }
        other => panic!("expected NotImplemented, got {other:?}"),
    }
    match check_scf_entry(8, 4, 1, &plain, default_checks(), XcFunctional::Pbe, 2, 1, true) {
        Ok(e) => assert_eq!(e, XcEvaluator::Pbe),
        other => panic!("expected Ok, got {other:?}"),
    }
    match check_scf_entry(0, 4, 1, &plain, default_checks(), XcFunctional::Pz, 0, 0, false) {
        Err(ScfEntryError::InvalidParam(p)) => assert_eq!(p, ScfParam::NBands),
        other => panic!("expected InvalidParam, got {other:?}"),
    }
}

#[test]
fn scf_loop_needs_a_previous_energy() {
    let mut l = ScfLoop::new(5);
    assert!(l.running());
    // First iteration: both criteria met, but no previous energy yet.
    assert_eq!(l.record(true, true), ScfStep::Mix);
    assert_eq!(l.iteration(), 1);
    assert_eq!(l.record(true, false), ScfStep::Mix);
    assert_eq!(l.record(true, true), ScfStep::Converged { n_iterations: 3 });
}

#[test]
fn scf_loop_gives_up_after_max_iter() {
    let mut l = ScfLoop::new(2);
    assert_eq!(l.record(false, true), ScfStep::Mix);
    assert!(l.running());
    assert_eq!(l.record(false, true), ScfStep::Mix);
    assert!(!l.running());
    assert_eq!(l.max_iter(), 2);
}

#[test]
fn find_for_atom_picks_first_match() {
    let pp_z = vec![Some(8), None, Some(14), Some(14)];
    assert_eq!(find_for_atom(14, &pp_z), Some(2));
    assert_eq!(find_for_atom(8, &pp_z), Some(0));
    assert_eq!(find_for_atom(26, &pp_z), None);
}

#[test]
fn assign_pseudopotentials_reports_first_missing_species() {
    let pp_z = vec![Some(14), Some(8)];
    assert_eq!(assign_pseudopotentials(&vec![14, 8, 14], &pp_z), Ok(vec![0, 1, 0]));
    assert_eq!(assign_pseudopotentials(&vec![14, 26, 11], &pp_z), Err(26));
}

#[test]
fn iterative_plan_sizes() {
    assert_eq!(iterative_plan(3, 4, 2), IterativePlan::NotSquare);
    assert_eq!(iterative_plan(0, 0, 2), IterativePlan::EmptyMatrix);
    // n_bands 8: request max(12, 12) = 12, dimension max(64, 24) = 64.
    assert_eq!(iterative_plan(64, 64, 8), IterativePlan::Dense);
    assert_eq!(iterative_plan(65, 65, 8), IterativePlan::Krylov { n_request: 12, max_dim: 64 });
    // n_bands 40: request 60, dimension 120.
    assert_eq!(iterative_plan(500, 500, 40), IterativePlan::Krylov { n_request: 60, max_dim: 120 });
    assert_eq!(iterative_plan(100, 100, 40), IterativePlan::Dense);
    // n_bands 2: request max(3, 6) = 6.
    assert_eq!(iterative_plan(100, 100, 2), IterativePlan::Krylov { n_request: 6, max_dim: 64 });
    assert!(iterative_converged(8, 8));
    assert!(!iterative_converged(7, 8));
}

#[test]
fn subspace_route_guards() {
    assert_eq!(subspace_route(None, 10, 4), SubspaceRoute::Full);
    assert_eq!(subspace_route(Some((9, 4)), 10, 4), SubspaceRoute::Full);
    assert_eq!(subspace_route(Some((10, 3)), 10, 4), SubspaceRoute::Full);
    assert_eq!(subspace_route(Some((10, 4)), 10, 0), SubspaceRoute::Empty);
    assert_eq!(subspace_route(Some((10, 6)), 10, 4), SubspaceRoute::Project);
    assert_eq!(lowest_count(4, 10), 4);
    assert_eq!(lowest_count(12, 10), 10);
}

#[test]
fn periodic_pulay_period_three_fires_on_correct_iterations() {
    let mut c = PulayCadence::new(3);
    let mut fired = Vec::new();
    for iter in 1..=9usize {
        let history_len = iter.min(8);
        if c.step(history_len) {
            fired.push(iter);
        }
    }
    assert_eq!(fired, vec![3, 6, 9]);
    assert_eq!(c.iteration_count(), 9);
}

#[test]
fn periodic_pulay_period_one_matches_anderson() {
    // Period 1: a DIIS step on every iteration once two entries exist.
    let mut c = PulayCadence::new(1);
    assert!(!c.step(1));
    assert!(c.step(2));
    assert!(c.step(3));
}

#[test]
fn periodic_pulay_first_iteration_is_linear_mixing() {
    let mut c = PulayCadence::new(1);
    assert!(!c.step(1));
}

#[test]
fn periodic_pulay_huge_period_matches_plain_linear() {
    let mut c = PulayCadence::new(usize::MAX);
    for h in 1..50 {
        assert!(!c.step(h));
    }
}

#[test]
fn history_window_drops_oldest() {
    let mut w: HistoryWindow<u32> = HistoryWindow::new(3);
    for x in 1..=5 {
        w.push(x);
    }
    assert_eq!(w.len(), 3);
    assert_eq!(w.as_slice(), &[3, 4, 5]);
}

#[test]
fn disabled_monitor_never_changes_beta() {
    let mut m = BetaMonitor::new(false);
    for t in [ResidualTrend::Grew, ResidualTrend::Grew, ResidualTrend::Shrank, ResidualTrend::Shrank, ResidualTrend::Shrank] {
        assert_eq!(m.observe(t), BetaAction::Keep);
    }
    assert!(!m.enabled());
}

#[test]
fn growing_residual_damps_beta_monotonically() {
    let mut m = BetaMonitor::new(true);
    assert_eq!(m.observe(ResidualTrend::NoRatio), BetaAction::Keep);
    for _ in 0..15 {
        assert_eq!(m.observe(ResidualTrend::Grew), BetaAction::Damp);
    }
}

#[test]
fn shrinking_residual_restores_beta_toward_start() {
    let mut m = BetaMonitor::new(true);
    assert_eq!(m.observe(ResidualTrend::Shrank), BetaAction::Keep);
    assert_eq!(m.observe(ResidualTrend::Shrank), BetaAction::Keep);
    assert_eq!(m.observe(ResidualTrend::Shrank), BetaAction::Restore);
    assert_eq!(m.observe(ResidualTrend::Shrank), BetaAction::Keep);
}

#[test]
fn hysteresis_band_holds_beta_steady() {
    let mut m = BetaMonitor::new(true);
    assert_eq!(m.observe(ResidualTrend::Shrank), BetaAction::Keep);
    assert_eq!(m.observe(ResidualTrend::Shrank), BetaAction::Keep);
    // A steady step breaks the streak.
    assert_eq!(m.observe(ResidualTrend::Steady), BetaAction::Keep);
    assert_eq!(m.observe(ResidualTrend::Shrank), BetaAction::Keep);
    assert_eq!(m.observe(ResidualTrend::Shrank), BetaAction::Keep);
    assert_eq!(m.observe(ResidualTrend::Shrank), BetaAction::Restore);
}

#[test]
fn growth_then_restore_cycle() {
    // Seed, two growths, then three strong decreases.
    let mut m = BetaMonitor::new(true);
    assert_eq!(m.observe(ResidualTrend::NoRatio), BetaAction::Keep);
    assert_eq!(m.observe(ResidualTrend::Grew), BetaAction::Damp);
    assert_eq!(m.observe(ResidualTrend::Grew), BetaAction::Damp);
    assert_eq!(m.observe(ResidualTrend::Shrank), BetaAction::Keep);
    assert_eq!(m.observe(ResidualTrend::Shrank), BetaAction::Keep);
    assert_eq!(m.observe(ResidualTrend::Shrank), BetaAction::Restore);
}

#[test]
fn decrease_between_growths_restarts_the_streak() {
    let mut m = BetaMonitor::new(true);
    assert_eq!(m.observe(ResidualTrend::Grew), BetaAction::Damp);
    assert_eq!(m.observe(ResidualTrend::Shrank), BetaAction::Keep);
    assert_eq!(m.observe(ResidualTrend::Grew), BetaAction::Damp);
    assert_eq!(m.observe(ResidualTrend::Shrank), BetaAction::Keep);
    assert_eq!(m.observe(ResidualTrend::Shrank), BetaAction::Keep);
    assert_eq!(m.observe(ResidualTrend::Shrank), BetaAction::Restore);
}
