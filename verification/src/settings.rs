//! Calculation options that carry no floating-point data: solver and
//! functional selectors, occupation and mixing modes, output flags, and the
//! integer defaults of the input formats.
use std::collections::HashMap;
use vstd::prelude::*;

use crate::error::PwdftError;

verus! {

/// Which dense-Hamiltonian eigensolver backend the SCF loop uses.
#[derive(Debug, Clone, Copy, PartialEq, Eq, Structural)]
pub enum EigensolverKind {
    /// Full dense Hermitian eigendecomposition (the default).
    Dense,
    /// Iterative partial Hermitian eigensolver (Krylov-Schur).
    Iterative,
}

impl Default for EigensolverKind {
    fn default() -> (k: Self)
        ensures
            k == EigensolverKind::Dense,
    {
        EigensolverKind::Dense
    }
}

/// Eigensolver backend as written in the input file.
#[derive(Debug, Clone, Copy, PartialEq, Eq, Structural)]
pub enum EigensolverType {
    Dense,
    Iterative,
}

impl Default for EigensolverType {
    fn default() -> (k: Self)
        ensures
            k == EigensolverType::Dense,
    {
        EigensolverType::Dense
    }
}

/// The backend an input-file eigensolver choice selects.
pub open spec fn eigensolver_kind_of(t: EigensolverType) -> EigensolverKind {
    match t {
        EigensolverType::Dense => EigensolverKind::Dense,
        EigensolverType::Iterative => EigensolverKind::Iterative,
    }
}

impl From<EigensolverType> for EigensolverKind {
    fn from(kind: EigensolverType) -> (k: Self) {
        match kind {
            EigensolverType::Dense => EigensolverKind::Dense,
            EigensolverType::Iterative => EigensolverKind::Iterative,
        }
    }
}

impl vstd::std_specs::convert::FromSpecImpl<EigensolverType> for EigensolverKind {
    open spec fn obeys_from_spec() -> bool {
        true
    }

    open spec fn from_spec(kind: EigensolverType) -> Self {
        eigensolver_kind_of(kind)
    }
}

/// How occupation numbers are determined.
#[derive(Debug, Clone, Copy, PartialEq, Eq, Structural)]
pub enum OccupationType {
    /// Smearing determines the occupations (metals, finite temperature).
    Smearing,
    /// Fixed integer occupations (insulators at zero temperature).
    Fixed,
}

impl Default for OccupationType {
    fn default() -> (o: Self)
        ensures
            o == OccupationType::Smearing,
    {
        OccupationType::Smearing
    }
}

/// Smearing scheme for occupation numbers.
#[derive(Debug, Clone, Copy, PartialEq, Eq, Structural)]
pub enum SmearingScheme {
    FermiDirac,
    Gaussian,
    MethfesselPaxton,
    Cold,
    /// Fixed occupations (insulator mode); occupies like Fermi-Dirac.
    Fixed,
}

impl Default for SmearingScheme {
    fn default() -> (s: Self)
        ensures
            s == SmearingScheme::FermiDirac,
    {
        SmearingScheme::FermiDirac
    }
}

/// Density-mixing algorithm and preconditioning of the SCF loop.
///
/// `Q` is the type of the Thomas-Fermi screening wavevector of the Kerker
/// preconditioner; `None` asks for it to be estimated from the average
/// electron density.
#[derive(Debug, Clone, Copy)]
pub enum MixingMode<Q> {
    /// Anderson (Pulay/DIIS) mixing without preconditioning.
    Plain,
    /// Anderson mixing with Kerker preconditioning.
    Kerker { q_tf: Option<Q> },
    /// Modified Broyden mixing, optionally Kerker-preconditioned.
    Broyden { kerker: bool },
    /// Linear mixing with a DIIS step every `period`-th iteration.
    PeriodicPulay { period: usize, kerker: bool },
}

impl<Q> Default for MixingMode<Q> {
    fn default() -> (m: Self)
        ensures
            m == MixingMode::<Q>::Plain,
    {
        MixingMode::Plain
    }
}

/// Mixing mode as written in the input file.
#[derive(Debug, Clone, Copy, PartialEq, Eq, Structural)]
pub enum MixingModeType {
    Plain,
    Kerker,
    Broyden,
    BroydenKerker,
    PeriodicPulay,
    PeriodicPulayKerker,
}

impl Default for MixingModeType {
    fn default() -> (m: Self)
        ensures
            m == MixingModeType::Plain,
    {
        MixingModeType::Plain
    }
}

/// Spec of [`MixingModeType::to_scf_mode`].
pub open spec fn spec_scf_mode<Q>(t: MixingModeType, pulay_period: usize) -> MixingMode<Q> {
    match t {
        MixingModeType::Plain => MixingMode::Plain,
        MixingModeType::Kerker => MixingMode::Kerker { q_tf: None },
        MixingModeType::Broyden => MixingMode::Broyden { kerker: false },
        MixingModeType::BroydenKerker => MixingMode::Broyden { kerker: true },
        MixingModeType::PeriodicPulay => MixingMode::PeriodicPulay {
            period: pulay_period,
            kerker: false,
        },
        MixingModeType::PeriodicPulayKerker => MixingMode::PeriodicPulay {
            period: pulay_period,
            kerker: true,
        },
    }
}

/// Pulay period used when a mixing mode is converted without one.
pub const DEFAULT_PULAY_PERIOD: usize = 3;

impl MixingModeType {
    /// The run-time mixing mode, with `pulay_period` for the Periodic Pulay
    /// variants and an automatically estimated screening length for Kerker.
    pub fn to_scf_mode<Q>(self, pulay_period: usize) -> (m: MixingMode<Q>)
        ensures
            m == spec_scf_mode::<Q>(self, pulay_period),
    {
        match self {
            MixingModeType::Plain => MixingMode::Plain,
            MixingModeType::Kerker => MixingMode::Kerker { q_tf: None },
            MixingModeType::Broyden => MixingMode::Broyden { kerker: false },
            MixingModeType::BroydenKerker => MixingMode::Broyden { kerker: true },
            MixingModeType::PeriodicPulay => MixingMode::PeriodicPulay {
                period: pulay_period,
                kerker: false,
            },
            MixingModeType::PeriodicPulayKerker => MixingMode::PeriodicPulay {
                period: pulay_period,
                kerker: true,
            },
        }
    }
}

impl<Q> From<MixingModeType> for MixingMode<Q> {
    /// Conversion with the default Pulay period of 3.
    fn from(mode: MixingModeType) -> (m: Self) {
        mode.to_scf_mode(DEFAULT_PULAY_PERIOD)
    }
}

impl<Q> vstd::std_specs::convert::FromSpecImpl<MixingModeType> for MixingMode<Q> {
    open spec fn obeys_from_spec() -> bool {
        true
    }

    open spec fn from_spec(mode: MixingModeType) -> Self {
        spec_scf_mode::<Q>(mode, DEFAULT_PULAY_PERIOD)
    }
}

/// Supported exchange-correlation functionals.
#[derive(Debug, Clone, Copy, PartialEq, Eq, Structural)]
pub enum XcFunctional {
    /// Perdew-Zunger LDA (Ceperley-Alder); the default.
    Pz,
    /// Perdew-Burke-Ernzerhof GGA.
    Pbe,
    /// PBE0 hybrid.
    Pbe0,
    /// Heyd-Scuseria-Ernzerhof screened hybrid.
    Hse06,
}

impl Default for XcFunctional {
    fn default() -> (f: Self)
        ensures
            f == XcFunctional::Pz,
    {
        XcFunctional::Pz
    }
}

/// Exchange-correlation functional specification.
#[derive(Debug, Clone, Copy)]
pub struct XcSettings {
    pub functional: XcFunctional,
}

impl Default for XcSettings {
    fn default() -> (s: Self)
        ensures
            s.functional == XcFunctional::Pz,
    {
        XcSettings { functional: XcFunctional::Pz }
    }
}

/// The exchange-correlation evaluator a functional selects.
#[derive(Debug, Clone, Copy, PartialEq, Eq, Structural)]
pub enum XcEvaluator {
    /// Perdew-Zunger LDA.
    Pz,
    /// Perdew-Burke-Ernzerhof GGA (declared; evaluating it is not
    /// implemented).
    Pbe,
}

impl XcEvaluator {
    /// The evaluator for a functional; the hybrids `Pbe0` and `Hse06` are
    /// refused with [`PwdftError::NotImplemented`] so that no run silently
    /// uses another functional.
    pub fn from_settings(xc: XcFunctional) -> (r: Result<Self, PwdftError>)
        ensures
            xc == XcFunctional::Pz ==> r == Ok::<Self, PwdftError>(XcEvaluator::Pz),
            xc == XcFunctional::Pbe ==> r == Ok::<Self, PwdftError>(XcEvaluator::Pbe),
            xc == XcFunctional::Pbe0 ==> (r matches Err(PwdftError::NotImplemented { what })
                && what@ == "xc_functional 'pbe0'"@),
            xc == XcFunctional::Hse06 ==> (r matches Err(PwdftError::NotImplemented { what })
                && what@ == "xc_functional 'hse06'"@),
    {
        match xc {
            XcFunctional::Pz => Ok(XcEvaluator::Pz),
            XcFunctional::Pbe => Ok(XcEvaluator::Pbe),
            XcFunctional::Pbe0 => Err(
                PwdftError::NotImplemented { what: "xc_functional 'pbe0'".to_owned() },
            ),
            XcFunctional::Hse06 => Err(
                PwdftError::NotImplemented { what: "xc_functional 'hse06'".to_owned() },
            ),
        }
    }

    /// Whether the functional needs the density gradient (any GGA).
    pub fn needs_gradient(&self) -> (g: bool)
        ensures
            g == (*self == XcEvaluator::Pbe),
    {
        match self {
            XcEvaluator::Pz => false,
            XcEvaluator::Pbe => true,
        }
    }

    /// Whether the functional can be evaluated on a density grid (with or
    /// without spin): the LDA can; PBE is declared but its semilocal
    /// integrator is not implemented, which is reported as
    /// [`PwdftError::NotImplemented`].
    pub fn require_implemented(&self) -> (r: Result<(), PwdftError>)
        ensures
            *self == XcEvaluator::Pz ==> r is Ok,
            *self == XcEvaluator::Pbe ==> (r matches Err(PwdftError::NotImplemented { what })
                && what@ == "xc_functional 'pbe'"@),
    {
        match self {
            XcEvaluator::Pz => Ok(()),
            XcEvaluator::Pbe => Err(PwdftError::NotImplemented { what: "xc_functional 'pbe'".to_owned() }),
        }
    }
}

/// Pseudopotential file paths keyed by element symbol.
#[derive(Debug, Clone)]
pub struct PseudopotentialSettings {
    pub files: HashMap<String, String>,
}

impl Default for PseudopotentialSettings {
    fn default() -> (s: Self)
        ensures
            s.files@.len() == 0,
    {
        PseudopotentialSettings { files: HashMap::new() }
    }
}

/// Output verbosity.
#[derive(Debug, Clone, Copy, PartialEq, Eq, Structural)]
pub enum Verbosity {
    Low,
    Normal,
    High,
}

impl Default for Verbosity {
    fn default() -> (v: Self)
        ensures
            v == Verbosity::Normal,
    {
        Verbosity::Normal
    }
}

/// Output and I/O settings.
#[derive(Debug, Clone, Copy)]
pub struct OutputSettings {
    pub verbosity: Verbosity,
    /// Write the converged charge density to a file.
    pub write_density: bool,
    /// Write band-structure eigenvalues.
    pub write_bands: bool,
}

impl Default for OutputSettings {
    fn default() -> (s: Self)
        ensures
            s.verbosity == Verbosity::Normal,
            !s.write_density,
            s.write_bands,
    {
        OutputSettings { verbosity: Verbosity::Normal, write_density: false, write_bands: true }
    }
}

/// Default maximum number of SCF iterations.
pub fn default_max_iter() -> (n: usize)
    ensures
        n == 100,
{
    100
}

/// Default number of densities kept for Anderson/Pulay mixing.
pub fn default_mixing_ndim() -> (n: usize)
    ensures
        n == 8,
{
    8
}

/// Default charge-density cutoff as a multiple of the wavefunction cutoff.
pub fn default_ecutrho_ratio() -> (n: u32)
    ensures
        n == 4,
{
    4
}

/// Default number of k-points per band-path segment.
pub fn default_band_npoints() -> (n: usize)
    ensures
        n == 50,
{
    50
}

} // verus!
