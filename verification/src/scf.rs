//! Decision logic of the self-consistent field (SCF) loop: parameter
//! validation, the iteration and convergence controller, pseudopotential
//! assignment, eigensolver routing, and the bookkeeping of the density
//! mixers (history windows, Periodic Pulay cadence, adaptive-β streaks).
//!
//! Every floating-point quantity (densities, energies, norms) stays with the
//! caller, which hands in the outcome of each comparison as a `bool` or a
//! classification.
use vstd::prelude::*;

use crate::settings::{EigensolverKind, MixingMode, XcEvaluator, XcFunctional};
use crate::error::PwdftError;

verus! {

/// An SCF parameter that failed validation.
#[derive(Debug, Clone, Copy, PartialEq, Eq, Structural)]
pub enum ScfParam {
    NBands,
    ConvThreshold,
    MixingBeta,
    SmearingSigma,
    EcutrhoRatio,
    Nspin,
    PulayPeriod,
    GaussianSigma,
}

/// Spec of [`ScfParam::name`].
pub open spec fn spec_param_name(p: ScfParam) -> Seq<char> {
    match p {
        ScfParam::NBands => "n_bands"@,
        ScfParam::ConvThreshold => "conv_threshold"@,
        ScfParam::MixingBeta => "mixing_beta"@,
        ScfParam::SmearingSigma => "smearing_sigma"@,
        ScfParam::EcutrhoRatio => "ecutrho_ratio"@,
        ScfParam::Nspin => "nspin"@,
        ScfParam::PulayPeriod => "pulay_period"@,
        ScfParam::GaussianSigma => "gaussian_sigma"@,
    }
}

impl ScfParam {
    /// The parameter's name as it appears in error messages.
    pub fn name(self) -> (s: &'static str)
        ensures
            s@ == spec_param_name(self),
    {
        match self {
            ScfParam::NBands => "n_bands",
            ScfParam::ConvThreshold => "conv_threshold",
            ScfParam::MixingBeta => "mixing_beta",
            ScfParam::SmearingSigma => "smearing_sigma",
            ScfParam::EcutrhoRatio => "ecutrho_ratio",
            ScfParam::Nspin => "nspin",
            ScfParam::PulayPeriod => "pulay_period",
            ScfParam::GaussianSigma => "gaussian_sigma",
        }
    }
}

/// Outcomes of the floating-point parameter checks, evaluated by the caller;
/// each holds only for a value inside its documented range (a NaN is in
/// none of them).
#[derive(Debug, Clone, Copy)]
pub struct FloatChecks {
    /// `conv_threshold > 0`.
    pub conv_threshold_positive: bool,
    /// `0 < mixing_beta && mixing_beta <= 1`.
    pub mixing_beta_in_range: bool,
    /// `smearing_sigma >= 0`.
    pub smearing_sigma_nonnegative: bool,
    /// `gaussian_sigma` finite and `> 0`.
    pub gaussian_sigma_positive: bool,
}

/// The first parameter, in validation order, that is out of range.
pub open spec fn first_invalid_param<Q>(
    n_bands: usize,
    ecutrho_ratio: u32,
    nspin: usize,
    mode: MixingMode<Q>,
    checks: FloatChecks,
) -> Option<ScfParam> {
    if n_bands == 0 {
        Some(ScfParam::NBands)
    } else if !checks.conv_threshold_positive {
        Some(ScfParam::ConvThreshold)
    } else if !checks.mixing_beta_in_range {
        Some(ScfParam::MixingBeta)
    } else if !checks.smearing_sigma_nonnegative {
        Some(ScfParam::SmearingSigma)
    } else if ecutrho_ratio < 1 {
        Some(ScfParam::EcutrhoRatio)
    } else if nspin != 1 && nspin != 2 {
        Some(ScfParam::Nspin)
    } else if mode matches MixingMode::PeriodicPulay { period, .. } && period == 0 {
        Some(ScfParam::PulayPeriod)
    } else if !checks.gaussian_sigma_positive {
        Some(ScfParam::GaussianSigma)
    } else {
        None
    }
}

/// Validate SCF parameters before a calculation: `n_bands > 0`, a positive
/// convergence threshold, `mixing_beta` in `(0, 1]`, a non-negative
/// smearing width, `ecutrho_ratio >= 1`, one or two spin channels, a
/// Periodic Pulay period of at least one, and a positive finite Gaussian
/// width; the first violation is reported.
pub fn validate_params<Q>(
    n_bands: usize,
    ecutrho_ratio: u32,
    nspin: usize,
    mode: &MixingMode<Q>,
    checks: FloatChecks,
) -> (r: Result<(), ScfParam>)
    ensures
        r == (match first_invalid_param(n_bands, ecutrho_ratio, nspin, *mode, checks) {
            Some(p) => Err::<(), ScfParam>(p),
            None => Ok(()),
        }),
{
    if n_bands == 0 {
        return Err(ScfParam::NBands);
    }
    if !checks.conv_threshold_positive {
        return Err(ScfParam::ConvThreshold);
    }
    if !checks.mixing_beta_in_range {
        return Err(ScfParam::MixingBeta);
    }
    if !checks.smearing_sigma_nonnegative {
        return Err(ScfParam::SmearingSigma);
    }
    if ecutrho_ratio < 1 {
        return Err(ScfParam::EcutrhoRatio);
    }
    if nspin != 1 && nspin != 2 {
        return Err(ScfParam::Nspin);
    }
    if let MixingMode::PeriodicPulay { period, .. } = mode {
        if *period == 0 {
            return Err(ScfParam::PulayPeriod);
        }
    }
    if !checks.gaussian_sigma_positive {
        return Err(ScfParam::GaussianSigma);
    }
    Ok(())
}

/// A crystal or k-point set an SCF calculation cannot start from.
#[derive(Debug, Clone, Copy, PartialEq, Eq, Structural)]
pub enum CrystalDefect {
    NoAtoms,
    NoKpoints,
    DegenerateLattice,
}

/// Spec of [`CrystalDefect::reason`].
pub open spec fn spec_defect_reason(d: CrystalDefect) -> Seq<char> {
    match d {
        CrystalDefect::NoAtoms => "at least one atom is required"@,
        CrystalDefect::NoKpoints => "at least one k-point is required"@,
        CrystalDefect::DegenerateLattice => "lattice has zero or near-zero volume"@,
    }
}

impl CrystalDefect {
    /// Human-readable reason.
    pub fn reason(self) -> (s: &'static str)
        ensures
            s@ == spec_defect_reason(self),
    {
        match self {
            CrystalDefect::NoAtoms => "at least one atom is required",
            CrystalDefect::NoKpoints => "at least one k-point is required",
            CrystalDefect::DegenerateLattice => "lattice has zero or near-zero volume",
        }
    }
}

/// Why an SCF run was refused before any iteration.
#[derive(Debug)]
pub enum ScfEntryError {
    InvalidParam(ScfParam),
    Setup(PwdftError),
    InvalidCrystal(CrystalDefect),
}

/// Which entry check fails first, if any (spec of [`check_scf_entry`]).
pub enum EntryFailure {
    Param(ScfParam),
    Functional,
    Crystal(CrystalDefect),
}

/// Spec of [`check_scf_entry`]: the first failing entry check.
pub open spec fn first_entry_failure<Q>(
    n_bands: usize,
    ecutrho_ratio: u32,
    nspin: usize,
    mode: MixingMode<Q>,
    checks: FloatChecks,
    xc: XcFunctional,
    n_atoms: usize,
    n_kpoints: usize,
    volume_ok: bool,
) -> Option<EntryFailure> {
    match first_invalid_param(n_bands, ecutrho_ratio, nspin, mode, checks) {
        Some(p) => Some(EntryFailure::Param(p)),
        None => if xc == XcFunctional::Pbe0 || xc == XcFunctional::Hse06 {
            Some(EntryFailure::Functional)
        } else if n_atoms == 0 {
            Some(EntryFailure::Crystal(CrystalDefect::NoAtoms))
        } else if n_kpoints == 0 {
            Some(EntryFailure::Crystal(CrystalDefect::NoKpoints))
        } else if !volume_ok {
            Some(EntryFailure::Crystal(CrystalDefect::DegenerateLattice))
        } else {
            None
        },
    }
}

/// The evaluator that an implemented functional selects.
pub open spec fn evaluator_of(xc: XcFunctional) -> XcEvaluator {
    if xc == XcFunctional::Pz {
        XcEvaluator::Pz
    } else {
        XcEvaluator::Pbe
    }
}

/// The checks at the entry of an SCF run, in order: parameters, then the
/// exchange-correlation functional, then the crystal (at least one atom, at
/// least one k-point, a cell of non-negligible volume). Returns the
/// evaluator of the functional when every check passes.
pub fn check_scf_entry<Q>(
    n_bands: usize,
    ecutrho_ratio: u32,
    nspin: usize,
    mode: &MixingMode<Q>,
    checks: FloatChecks,
    xc: XcFunctional,
    n_atoms: usize,
    n_kpoints: usize,
    volume_ok: bool,
) -> (r: Result<XcEvaluator, ScfEntryError>)
    ensures
        ({
            let f = first_entry_failure(
                n_bands,
                ecutrho_ratio,
                nspin,
                *mode,
                checks,
                xc,
                n_atoms,
                n_kpoints,
                volume_ok,
            );
            match r {
                Ok(e) => f is None && e == evaluator_of(xc),
                Err(ScfEntryError::InvalidParam(p)) => f == Some(EntryFailure::Param(p)),
                Err(ScfEntryError::Setup(PwdftError::NotImplemented { what })) => {
                    &&& f == Some(EntryFailure::Functional)
                    &&& xc == XcFunctional::Pbe0 ==> what@ == "xc_functional 'pbe0'"@
                    &&& xc == XcFunctional::Hse06 ==> what@ == "xc_functional 'hse06'"@
                },
                Err(ScfEntryError::InvalidCrystal(d)) => f == Some(EntryFailure::Crystal(d)),
            }
        }),
{
    match validate_params(n_bands, ecutrho_ratio, nspin, mode, checks) {
        Err(p) => {
            return Err(ScfEntryError::InvalidParam(p));
        },
        Ok(()) => {},
    }
    let xc_evaluator = match XcEvaluator::from_settings(xc) {
        Ok(e) => e,
        Err(e) => {
            return Err(ScfEntryError::Setup(e));
        },
    };
    if n_atoms == 0 {
        return Err(ScfEntryError::InvalidCrystal(CrystalDefect::NoAtoms));
    }
    if n_kpoints == 0 {
        return Err(ScfEntryError::InvalidCrystal(CrystalDefect::NoKpoints));
    }
    if !volume_ok {
        return Err(ScfEntryError::InvalidCrystal(CrystalDefect::DegenerateLattice));
    }
    Ok(xc_evaluator)
}

/// What the SCF loop does after an iteration.
#[derive(Debug, Clone, Copy, PartialEq, Eq, Structural)]
pub enum ScfStep {
    /// Both criteria are met: stop after `n_iterations` iterations.
    Converged { n_iterations: usize },
    /// Mix the densities and go on (if iterations are left).
    Mix,
}

/// Iteration and convergence controller of the SCF loop.
///
/// An iteration converges when the density change is below its threshold
/// and, from the second iteration on, the change of the total energy since
/// the previous iteration is below its threshold; the loop gives up after
/// `max_iter` iterations.
pub struct ScfLoop {
    max_iter: usize,
    iter: usize,
}

impl ScfLoop {
    /// Maximum number of iterations.
    pub closed spec fn spec_max_iter(&self) -> nat {
        self.max_iter as nat
    }

    /// Iterations completed so far.
    pub closed spec fn spec_done(&self) -> nat {
        self.iter as nat
    }

    pub closed spec fn wf(&self) -> bool {
        self.iter <= self.max_iter
    }

    /// A controller for at most `max_iter` iterations.
    pub fn new(max_iter: usize) -> (s: Self)
        ensures
            s.wf(),
            s.spec_max_iter() == max_iter,
            s.spec_done() == 0,
    {
        ScfLoop { max_iter, iter: 0 }
    }

    /// Whether another iteration is allowed.
    pub fn running(&self) -> (b: bool)
        requires
            self.wf(),
        ensures
            b == (self.spec_done() < self.spec_max_iter()),
    {
        self.iter < self.max_iter
    }

    /// The iteration limit (reported when the loop gives up).
    pub fn max_iter(&self) -> (n: usize)
        ensures
            n == self.spec_max_iter(),
    {
        self.max_iter
    }

    /// Zero-based index of the iteration in progress.
    pub fn iteration(&self) -> (n: usize)
        ensures
            n == self.spec_done(),
    {
        self.iter
    }

    /// Record the outcome of one iteration: `density_converged` is
    /// `delta < conv_threshold`; `energy_converged` is
    /// `|E - E_prev| < energy_threshold`, which only counts once there is a
    /// previous energy (from the second iteration on).
    pub fn record(&mut self, density_converged: bool, energy_converged: bool) -> (step: ScfStep)
        requires
            old(self).wf(),
            old(self).spec_done() < old(self).spec_max_iter(),
        ensures
            final(self).wf(),
            final(self).spec_max_iter() == old(self).spec_max_iter(),
            final(self).spec_done() == old(self).spec_done() + 1,
            step == (if density_converged && energy_converged && old(self).spec_done() > 0 {
                ScfStep::Converged { n_iterations: (old(self).spec_done() + 1) as usize }
            } else {
                ScfStep::Mix
            }),
    {
        let had_previous_energy = self.iter > 0;
        self.iter = self.iter + 1;
        if density_converged && had_previous_energy && energy_converged {
            ScfStep::Converged { n_iterations: self.iter }
        } else {
            ScfStep::Mix
        }
    }
}

/// A converged run took at least two iterations: the energy criterion needs
/// a previous energy.
pub proof fn lemma_convergence_needs_two_iterations(done: nat, density_ok: bool, energy_ok: bool)
    requires
        (if density_ok && energy_ok && done > 0 {
            ScfStep::Converged { n_iterations: (done + 1) as usize }
        } else {
            ScfStep::Mix
        }) matches ScfStep::Converged { .. },
        done + 1 <= usize::MAX,
    ensures
        done + 1 >= 2,
        density_ok,
        energy_ok,
{
}

/// Index of the first pseudopotential whose element has atomic number `z`;
/// `pp_z[i]` is the atomic number of pseudopotential `i`'s element (`None`
/// when its element symbol is not a known element).
pub fn find_for_atom(z: u32, pp_z: &Vec<Option<u32>>) -> (r: Option<usize>)
    ensures
        r matches Some(i) ==> i < pp_z.len() && pp_z[i as int] == Some(z) && forall|j: int|
            0 <= j < i ==> pp_z[j] != Some(z),
        r is None ==> forall|j: int| 0 <= j < pp_z.len() ==> pp_z[j] != Some(z),
{
    let mut i: usize = 0;
    while i < pp_z.len()
        invariant
            i <= pp_z.len(),
            forall|j: int| 0 <= j < i ==> pp_z[j] != Some(z),
        decreases pp_z.len() - i,
    {
        if let Some(pz) = pp_z[i] {
            if pz == z {
                return Some(i);
            }
        }
        i = i + 1;
    }
    None
}

/// Some pseudopotential is for element `z`.
pub open spec fn has_pp(pp_z: Seq<Option<u32>>, z: u32) -> bool {
    exists|j: int| 0 <= j < pp_z.len() && pp_z[j] == Some(z)
}

/// The pseudopotential index of every atom, in atom order; the atomic
/// number of the first atom without a pseudopotential otherwise.
pub fn assign_pseudopotentials(atom_z: &Vec<u32>, pp_z: &Vec<Option<u32>>) -> (r: Result<
    Vec<usize>,
    u32,
>)
    ensures
        r matches Ok(idx) ==> idx.len() == atom_z.len() && forall|a: int|
            0 <= a < atom_z.len() ==> #[trigger] idx[a] < pp_z.len() && pp_z[idx[a] as int]
                == Some(atom_z[a]) && forall|j: int|
                0 <= j < idx[a] ==> pp_z[j] != Some(atom_z[a]),
        r matches Err(z) ==> exists|a: int|
            0 <= a < atom_z.len() && #[trigger] atom_z[a] == z && !has_pp(pp_z@, z) && (forall|b: int|
                0 <= b < a ==> has_pp(pp_z@, #[trigger] atom_z[b])),
{
    let mut idx: Vec<usize> = Vec::new();
    let mut a: usize = 0;
    while a < atom_z.len()
        invariant
            a <= atom_z.len(),
            idx.len() == a,
            forall|b: int|
                0 <= b < a ==> #[trigger] idx[b] < pp_z.len() && pp_z[idx[b] as int] == Some(
                    atom_z[b],
                ) && forall|j: int| 0 <= j < idx[b] ==> pp_z[j] != Some(atom_z[b]),
        decreases atom_z.len() - a,
    {
        match find_for_atom(atom_z[a], pp_z) {
            Some(i) => {
                idx.push(i);
            },
            None => {
                proof {
                    assert forall|b: int| 0 <= b < a implies has_pp(pp_z@, #[trigger] atom_z[b]) by {
                        assert(pp_z[idx[b] as int] == Some(atom_z[b]));
                    }
                    let z = atom_z[a as int];
                    assert(!has_pp(pp_z@, z));
                    assert(atom_z[a as int] == z);
                }
                return Err(atom_z[a]);
            },
        }
        a = a + 1;
    }
    Ok(idx)
}

/// How the per-k-point eigenproblems are solved and whether the previous
/// iteration's eigenvectors are kept as a warm start.
#[derive(Debug, Clone, Copy, PartialEq, Eq, Structural)]
pub struct WarmStart {
    /// Dense solves go through the subspace (Rayleigh-Ritz) path.
    pub dense_subspace: bool,
    /// Keep each iteration's eigenvectors for the next one.
    pub cache_wavefunctions: bool,
}

/// Warm-start policy: the dense subspace path when it is requested and the
/// dense backend is active; the iterative backend always starts from the
/// previous eigenvectors; eigenvectors are cached whenever either uses them.
pub fn warm_start_policy(kind: EigensolverKind, wfrx_subspace: bool) -> (w: WarmStart)
    ensures
        w.dense_subspace == (wfrx_subspace && kind == EigensolverKind::Dense),
        w.cache_wavefunctions == (w.dense_subspace || kind == EigensolverKind::Iterative),
{
    let dense_subspace = wfrx_subspace && match kind {
        EigensolverKind::Dense => true,
        EigensolverKind::Iterative => false,
    };
    let iterative = match kind {
        EigensolverKind::Dense => false,
        EigensolverKind::Iterative => true,
    };
    WarmStart { dense_subspace, cache_wavefunctions: dense_subspace || iterative }
}

/// The eigensolver path one k-point takes.
#[derive(Debug, Clone, Copy, PartialEq, Eq, Structural)]
pub enum DiagRoute {
    /// Full dense decomposition, lowest `n_bands` kept.
    DenseLowest,
    /// Rayleigh-Ritz in the previous eigenvectors' subspace.
    DenseSubspace,
    /// Krylov-Schur, started from the previous first eigenvector when
    /// `warm_v0` (else from a fixed seed); falls back to dense on failure.
    Iterative { warm_v0: bool },
}

/// Route one k-point's diagonalization. `prev_shape` is the shape
/// `(rows, cols)` of the previous eigenvectors at this k-point, if any;
/// `n` is the Hamiltonian's dimension.
pub fn diagonalize_route(
    kind: EigensolverKind,
    dense_subspace: bool,
    prev_shape: Option<(usize, usize)>,
    n: usize,
) -> (r: DiagRoute)
    ensures
        kind == EigensolverKind::Dense && dense_subspace ==> r == DiagRoute::DenseSubspace,
        kind == EigensolverKind::Dense && !dense_subspace ==> r == DiagRoute::DenseLowest,
        kind == EigensolverKind::Iterative ==> r == (DiagRoute::Iterative {
            warm_v0: (prev_shape matches Some((rows, cols)) && rows == n && cols >= 1),
        }),
{
    match kind {
        EigensolverKind::Dense => if dense_subspace {
            DiagRoute::DenseSubspace
        } else {
            DiagRoute::DenseLowest
        },
        EigensolverKind::Iterative => {
            let warm_v0 = match prev_shape {
                Some((rows, cols)) => rows == n && cols >= 1,
                None => false,
            };
            DiagRoute::Iterative { warm_v0 }
        },
    }
}

/// How the iterative eigensolver handles an `nrows x ncols` matrix.
#[derive(Debug, Clone, Copy, PartialEq, Eq, Structural)]
pub enum IterativePlan {
    /// Not square: an eigensolver error.
    NotSquare,
    /// Empty (0 x 0) matrix: an eigensolver error.
    EmptyMatrix,
    /// Too small for Krylov-Schur to pay off (or to run at all): dense.
    Dense,
    /// Krylov-Schur for `n_request` eigenpairs with a Krylov dimension of
    /// `max_dim`.
    Krylov { n_request: usize, max_dim: usize },
}

/// Number of eigenpairs requested from Krylov-Schur: half again as many as
/// needed, at least four more (against losing one of a degenerate set).
pub open spec fn spec_n_request(n_bands: int) -> int {
    let a = n_bands + n_bands / 2;
    let b = n_bands + 4;
    if a >= b {
        a
    } else {
        b
    }
}

/// Krylov subspace dimension for `n_request` eigenpairs.
pub open spec fn spec_max_dim(n_request: int) -> int {
    if 64 >= 2 * n_request {
        64
    } else {
        2 * n_request
    }
}

/// Plan the iterative eigensolver: the matrix must be square and not empty
/// (either failure is an eigensolver error); dimensions up to the Krylov
/// dimension go to the dense solver.
pub fn iterative_plan(nrows: usize, ncols: usize, n_bands: usize) -> (p: IterativePlan)
    requires
        nrows == ncols && nrows > 0 ==> 3 * n_bands + 8 <= usize::MAX,
    ensures
        nrows != ncols ==> p == IterativePlan::NotSquare,
        nrows == ncols && nrows == 0 ==> p == IterativePlan::EmptyMatrix,
        nrows == ncols && nrows > 0 ==> {
            let req = spec_n_request(n_bands as int);
            let dim = spec_max_dim(req);
            &&& nrows <= dim ==> p == IterativePlan::Dense
            &&& nrows > dim ==> p == (IterativePlan::Krylov {
                n_request: req as usize,
                max_dim: dim as usize,
            })
        },
{
    if nrows != ncols {
        return IterativePlan::NotSquare;
    }
    if nrows == 0 {
        return IterativePlan::EmptyMatrix;
    }
    let a = n_bands + n_bands / 2;
    let b = n_bands + 4;
    let n_request = if a >= b {
        a
    } else {
        b
    };
    let max_dim = if 64 >= 2 * n_request {
        64
    } else {
        2 * n_request
    };
    if nrows <= max_dim {
        IterativePlan::Dense
    } else {
        IterativePlan::Krylov { n_request, max_dim }
    }
}

/// The Krylov-Schur result is usable when at least `n_bands` eigenpairs
/// converged.
pub fn iterative_converged(n_converged: usize, n_bands: usize) -> (ok: bool)
    ensures
        ok == (n_converged >= n_bands),
{
    n_converged >= n_bands
}

/// How the subspace (Rayleigh-Ritz) eigensolver proceeds.
#[derive(Debug, Clone, Copy, PartialEq, Eq, Structural)]
pub enum SubspaceRoute {
    /// No usable previous eigenvectors: full dense decomposition.
    Full,
    /// No bands requested: nothing to compute.
    Empty,
    /// Project onto the first `n_bands` previous eigenvectors.
    Project,
}

/// Guards of the subspace eigensolver: previous eigenvectors must exist,
/// have `n` rows and at least `n_bands` columns.
pub fn subspace_route(prev_shape: Option<(usize, usize)>, n: usize, n_bands: usize) -> (r:
    SubspaceRoute)
    ensures
        r == (match prev_shape {
            None => SubspaceRoute::Full,
            Some((rows, cols)) => if rows != n || cols < n_bands {
                SubspaceRoute::Full
            } else if n_bands == 0 {
                SubspaceRoute::Empty
            } else {
                SubspaceRoute::Project
            },
        }),
{
    match prev_shape {
        None => SubspaceRoute::Full,
        Some((rows, cols)) => {
            if rows != n || cols < n_bands {
                SubspaceRoute::Full
            } else if n_bands == 0 {
                SubspaceRoute::Empty
            } else {
                SubspaceRoute::Project
            }
        },
    }
}

/// Number of eigenpairs kept from a full decomposition with `available`
/// eigenpairs when `n_bands` are requested.
pub fn lowest_count(n_bands: usize, available: usize) -> (n: usize)
    ensures
        n == if n_bands <= available {
            n_bands
        } else {
            available
        },
{
    if n_bands <= available {
        n_bands
    } else {
        available
    }
}

} // verus!
