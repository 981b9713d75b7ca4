use pwdft::error::PwdftError;
use pwdft::settings::{
    default_ecutrho_ratio, default_max_iter, default_mixing_ndim, EigensolverKind, EigensolverType,
    MixingMode, MixingModeType, OccupationType, SmearingScheme, Verbosity, XcEvaluator, XcFunctional,
    XcSettings,
};

#[test]
fn mixing_mode_type_converts_to_scf_mixing_mode() {
    let plain: MixingMode<f64> = MixingModeType::Plain.into();
    assert!(matches!(plain, MixingMode::Plain));

    let kerker: MixingMode<f64> = MixingModeType::Kerker.into();
    // Kerker conversion should default q_tf to None (auto-estimated at runtime)
    assert!(matches!(kerker, MixingMode::Kerker { q_tf: None }));

    let broyden: MixingMode<f64> = MixingModeType::Broyden.into();
    assert!(matches!(broyden, MixingMode::Broyden { kerker: false }));

    let broyden_kerker: MixingMode<f64> = MixingModeType::BroydenKerker.into();
    assert!(matches!(broyden_kerker, MixingMode::Broyden { kerker: true }));

    // Periodic Pulay picks up the supplied period.
    let pp: MixingMode<f64> = MixingModeType::PeriodicPulay.to_scf_mode(5);
    assert!(matches!(pp, MixingMode::PeriodicPulay { period: 5, kerker: false }));

    let pp_k: MixingMode<f64> = MixingModeType::PeriodicPulayKerker.to_scf_mode(7);
    assert!(matches!(pp_k, MixingMode::PeriodicPulay { period: 7, kerker: true }));

    // Default period via `Into` is 3 (matches `ElectronSettings` default).
    let pp_default: MixingMode<f64> = MixingModeType::PeriodicPulay.into();
    assert!(matches!(pp_default, MixingMode::PeriodicPulay { period: 3, kerker: false }));
}

#[test]
fn xc_evaluator_from_settings_maps_variants_correctly() {
    assert_eq!(XcEvaluator::from_settings(XcFunctional::Pz).unwrap(), XcEvaluator::Pz);
    assert_eq!(XcEvaluator::from_settings(XcFunctional::Pbe).unwrap(), XcEvaluator::Pbe);

    // Hybrids fail fast at construction time with a NotImplemented error.
    let err = XcEvaluator::from_settings(XcFunctional::Pbe0).unwrap_err();
    match err {
        PwdftError::NotImplemented { what } => assert_eq!(what, "xc_functional 'pbe0'"),
    }
    let err = XcEvaluator::from_settings(XcFunctional::Hse06).unwrap_err();
    match err {
        PwdftError::NotImplemented { what } => assert_eq!(what, "xc_functional 'hse06'"),
    }
}

#[test]
fn xc_evaluator_needs_gradient_flags() {
    assert!(!XcEvaluator::Pz.needs_gradient(), "LDA must not need ∇ρ");
    assert!(XcEvaluator::Pbe.needs_gradient(), "PBE needs ∇ρ");
}

#[test]
fn defaults_follow_documented_values() {
    assert_eq!(default_max_iter(), 100);
    assert_eq!(default_mixing_ndim(), 8);
    assert_eq!(default_ecutrho_ratio(), 4);
    assert_eq!(MixingModeType::default(), MixingModeType::Plain);
    assert_eq!(SmearingScheme::default(), SmearingScheme::FermiDirac);
    assert_eq!(OccupationType::default(), OccupationType::Smearing);
    assert_eq!(Verbosity::default(), Verbosity::Normal);
    assert_eq!(XcFunctional::default(), XcFunctional::Pz);
    assert_eq!(XcSettings::default().functional, XcFunctional::Pz);
}

#[test]
fn eigensolver_type_converts_to_kind() {
    let d: EigensolverKind = EigensolverType::Dense.into();
    assert_eq!(d, EigensolverKind::Dense);
    let i: EigensolverKind = EigensolverType::Iterative.into();
    assert_eq!(i, EigensolverKind::Iterative);
    assert_eq!(EigensolverType::default(), EigensolverType::Dense);
}

#[test]
fn xc_evaluator_pbe_eval_returns_not_implemented() {
    assert!(XcEvaluator::Pz.require_implemented().is_ok());
    match XcEvaluator::Pbe.require_implemented() {
        Err(PwdftError::NotImplemented { what }) => assert_eq!(what, "xc_functional 'pbe'"),
        other => panic!("expected NotImplemented, got {other:?}"),
    }
}
