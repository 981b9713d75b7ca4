//! Bookkeeping of the SCF density mixers: which mixer a mode builds, the
//! bounded history of past iterations, the Periodic Pulay cadence, and the
//! streak logic of the adaptive mixing parameter.
use vstd::prelude::*;

use crate::settings::MixingMode;

verus! {

/// How the Kerker preconditioner's screening wavevector is chosen.
#[derive(Debug, Clone, Copy)]
pub enum KerkerChoice<Q> {
    /// No Kerker preconditioning.
    Off,
    /// Estimated from the average electron density.
    Auto,
    /// The given screening wavevector.
    Fixed(Q),
}

/// The mixer a mixing mode builds.
#[derive(Debug, Clone, Copy)]
pub enum MixerPlan<Q> {
    Anderson { kerker: KerkerChoice<Q> },
    Broyden { kerker: KerkerChoice<Q> },
    PeriodicPulay { period: usize, kerker: KerkerChoice<Q> },
}

/// Spec of [`mixer_plan`].
pub open spec fn spec_mixer_plan<Q>(mode: MixingMode<Q>) -> MixerPlan<Q> {
    match mode {
        MixingMode::Plain => MixerPlan::Anderson { kerker: KerkerChoice::Off },
        MixingMode::Kerker { q_tf } => MixerPlan::Anderson {
            kerker: match q_tf {
                Some(q) => KerkerChoice::Fixed(q),
                None => KerkerChoice::Auto,
            },
        },
        MixingMode::Broyden { kerker } => MixerPlan::Broyden {
            kerker: if kerker {
                KerkerChoice::Auto
            } else {
                KerkerChoice::Off
            },
        },
        MixingMode::PeriodicPulay { period, kerker } => MixerPlan::PeriodicPulay {
            period,
            kerker: if kerker {
                KerkerChoice::Auto
            } else {
                KerkerChoice::Off
            },
        },
    }
}

/// The mixer for a mixing mode: Anderson (DIIS) for plain and Kerker modes,
/// modified Broyden, or Periodic Pulay; Kerker preconditioning with the
/// given or an estimated screening wavevector where the mode asks for it.
pub fn mixer_plan<Q: Copy>(mode: &MixingMode<Q>) -> (p: MixerPlan<Q>)
    ensures
        p == spec_mixer_plan(*mode),
{
    match mode {
        MixingMode::Plain => MixerPlan::Anderson { kerker: KerkerChoice::Off },
        MixingMode::Kerker { q_tf } => MixerPlan::Anderson {
            kerker: match q_tf {
                Some(q) => KerkerChoice::Fixed(*q),
                None => KerkerChoice::Auto,
            },
        },
        MixingMode::Broyden { kerker } => MixerPlan::Broyden {
            kerker: if *kerker {
                KerkerChoice::Auto
            } else {
                KerkerChoice::Off
            },
        },
        MixingMode::PeriodicPulay { period, kerker } => MixerPlan::PeriodicPulay {
            period: *period,
            kerker: if *kerker {
                KerkerChoice::Auto
            } else {
                KerkerChoice::Off
            },
        },
    }
}

/// Whether a mixing mode asks for Kerker preconditioning.
pub open spec fn mode_wants_kerker<Q>(mode: MixingMode<Q>) -> bool {
    match mode {
        MixingMode::Plain => false,
        MixingMode::Kerker { .. } => true,
        MixingMode::Broyden { kerker } => kerker,
        MixingMode::PeriodicPulay { kerker, .. } => kerker,
    }
}

/// The Kerker choice of a mixer.
pub open spec fn plan_kerker<Q>(plan: MixerPlan<Q>) -> KerkerChoice<Q> {
    match plan {
        MixerPlan::Anderson { kerker } => kerker,
        MixerPlan::Broyden { kerker } => kerker,
        MixerPlan::PeriodicPulay { kerker, .. } => kerker,
    }
}

/// Every mixing mode builds the mixer it names, and its Kerker
/// preconditioning is on exactly when the mode asks for it: with the given
/// screening wavevector when the mode fixes one, estimated from the density
/// otherwise. The Pulay period is passed on unchanged.
pub proof fn lemma_mixer_follows_mode<Q>(mode: MixingMode<Q>)
    ensures
        (plan_kerker(spec_mixer_plan(mode)) is Off) == !mode_wants_kerker(mode),
        mode_wants_kerker(mode) && !(mode matches MixingMode::Kerker { q_tf: Some(_) }) ==> plan_kerker(
            spec_mixer_plan(mode),
        ) is Auto,
        mode matches MixingMode::Kerker { q_tf: Some(q) } ==> plan_kerker(spec_mixer_plan(mode))
            == KerkerChoice::Fixed(q),
        (mode is Plain || mode is Kerker) == (spec_mixer_plan(mode) is Anderson),
        (mode is Broyden) == (spec_mixer_plan(mode) is Broyden),
        mode matches MixingMode::PeriodicPulay { period, .. } ==> spec_mixer_plan(mode) matches MixerPlan::PeriodicPulay { period: pp, .. } && pp == period,
{
}

/// `s` with its oldest entry dropped when it is longer than `max_len`.
pub open spec fn trimmed<T>(s: Seq<T>, max_len: nat) -> Seq<T> {
    if s.len() > max_len {
        s.drop_first()
    } else {
        s
    }
}

/// The window after pushing each entry of `pushes`, in order, onto an empty
/// window of capacity `max_len`.
pub open spec fn window_after<T>(pushes: Seq<T>, max_len: nat) -> Seq<T>
    decreases pushes.len(),
{
    if pushes.len() == 0 {
        Seq::empty()
    } else {
        trimmed(window_after(pushes.drop_last(), max_len).push(pushes.last()), max_len)
    }
}

/// A bounded history of mixer iterations: pushing appends, and when the
/// history then holds more than `max_len` entries the oldest is dropped.
pub struct HistoryWindow<T> {
    items: Vec<T>,
    max_len: usize,
}

impl<T> HistoryWindow<T> {
    /// The entries, oldest first.
    pub closed spec fn view(&self) -> Seq<T> {
        self.items@
    }

    /// Capacity.
    pub closed spec fn capacity(&self) -> nat {
        self.max_len as nat
    }

    /// An empty history of capacity `max_len`.
    pub fn new(max_len: usize) -> (w: Self)
        ensures
            w.view() == Seq::<T>::empty(),
            w.capacity() == max_len,
    {
        HistoryWindow { items: Vec::new(), max_len }
    }

    /// Append `x`, dropping the oldest entry if the history overflows.
    pub fn push(&mut self, x: T)
        ensures
            final(self).view() == trimmed(old(self).view().push(x), old(self).capacity()),
            final(self).capacity() == old(self).capacity(),
    {
        self.items.push(x);
        if self.items.len() > self.max_len {
            let _oldest = self.items.remove(0);
            proof {
                assert(self.items@ =~= old(self).items@.push(x).drop_first());
            }
        }
    }

    /// Number of entries.
    pub fn len(&self) -> (n: usize)
        ensures
            n == self.view().len(),
    {
        self.items.len()
    }

    /// The entries, oldest first.
    pub fn as_slice(&self) -> (s: &[T])
        ensures
            s@ == self.view(),
    {
        self.items.as_slice()
    }
}

/// A history window holds exactly the most recent `max_len` pushed entries
/// (all of them while fewer were pushed).
pub proof fn lemma_window_keeps_latest<T>(pushes: Seq<T>, max_len: nat)
    ensures
        window_after(pushes, max_len) == pushes.skip(
            if pushes.len() > max_len {
                pushes.len() - max_len
            } else {
                0
            },
        ),
    decreases pushes.len(),
{
    if pushes.len() > 0 {
        let prev = pushes.drop_last();
        lemma_window_keeps_latest(prev, max_len);
        let k = if prev.len() > max_len {
            prev.len() - max_len
        } else {
            0
        };
        let w = prev.skip(k);
        assert(w.push(pushes.last()) =~= pushes.skip(k));
        if pushes.len() > max_len {
            if w.push(pushes.last()).len() > max_len {
                assert(pushes.skip(k).drop_first() =~= pushes.skip(k + 1));
            }
        }
    } else {
        assert(pushes.skip(0) =~= pushes);
    }
}

/// Which iterations of a Periodic Pulay mixer take a DIIS step: every
/// `period`-th iteration (counted from one) once two history entries exist;
/// the others mix linearly.
pub struct PulayCadence {
    period: usize,
    iteration: usize,
}

impl PulayCadence {
    /// The period.
    pub closed spec fn spec_period(&self) -> nat {
        self.period as nat
    }

    /// Iterations seen so far.
    pub closed spec fn spec_iteration(&self) -> nat {
        self.iteration as nat
    }

    pub closed spec fn wf(&self) -> bool {
        self.period >= 1
    }

    /// A cadence of the given period (at least one).
    pub fn new(period: usize) -> (c: Self)
        requires
            period >= 1,
        ensures
            c.wf(),
            c.spec_period() == period,
            c.spec_iteration() == 0,
    {
        PulayCadence { period, iteration: 0 }
    }

    /// Count one more iteration, given the history length after this
    /// iteration's entry was pushed; whether it takes the DIIS step.
    pub fn step(&mut self, history_len: usize) -> (diis: bool)
        requires
            old(self).wf(),
            old(self).spec_iteration() < usize::MAX,
        ensures
            final(self).wf(),
            final(self).spec_period() == old(self).spec_period(),
            final(self).spec_iteration() == old(self).spec_iteration() + 1,
            diis == (final(self).spec_iteration() % final(self).spec_period() == 0
                && history_len >= 2),
    {
        self.iteration = self.iteration + 1;
        self.iteration % self.period == 0 && history_len >= 2
    }

    /// Iterations seen so far.
    pub fn iteration_count(&self) -> (n: usize)
        ensures
            n == self.spec_iteration(),
    {
        self.iteration
    }
}

/// With period one, Periodic Pulay is continuous Anderson: every iteration
/// with two history entries takes the DIIS step.
pub proof fn lemma_period_one_is_anderson(iteration: nat, history_len: nat)
    ensures
        (iteration % 1 == 0 && history_len >= 2) == (history_len >= 2),
{
}

/// Before the first full period no DIIS step happens: the mixer is plain
/// linear mixing for the first `period - 1` iterations.
pub proof fn lemma_no_diis_before_period(iteration: nat, period: nat)
    requires
        1 <= iteration < period,
    ensures
        iteration % period != 0,
{
    vstd::arithmetic::div_mod::lemma_fundamental_div_mod_converse(
        iteration as int,
        period as int,
        0,
        iteration as int,
    );
}

/// How the residual norm moved since the previous iteration, classified by
/// the caller from the ratio `|R_i| / |R_{i-1}|`.
#[derive(Debug, Clone, Copy, PartialEq, Eq, Structural)]
pub enum ResidualTrend {
    /// No usable ratio: first iteration, a non-positive previous norm, or a
    /// non-finite current norm.
    NoRatio,
    /// Ratio above the growth threshold.
    Grew,
    /// Ratio below the restore threshold.
    Shrank,
    /// Ratio within the hysteresis band.
    Steady,
}

/// What to do with the mixing parameter β.
#[derive(Debug, Clone, Copy, PartialEq, Eq, Structural)]
pub enum BetaAction {
    Keep,
    /// `β ← max(β · damp, β_min)`.
    Damp,
    /// `β ← min(β / damp, β_start)`.
    Restore,
}

/// Consecutive strong decreases before β is restored.
pub const RESTORE_WINDOW: usize = 3;

/// Streak logic of the adaptive mixing parameter: damp β when the residual
/// grows, restore it after `RESTORE_WINDOW` consecutive strong decreases,
/// otherwise keep it; a disabled monitor always keeps β.
pub struct BetaMonitor {
    enabled: bool,
    streak: usize,
}

/// Spec of [`BetaMonitor::observe`]: the next streak and the action.
pub open spec fn spec_observe(enabled: bool, streak: nat, t: ResidualTrend) -> (nat, BetaAction) {
    if !enabled {
        (streak, BetaAction::Keep)
    } else {
        match t {
            ResidualTrend::NoRatio => (streak, BetaAction::Keep),
            ResidualTrend::Grew => (0, BetaAction::Damp),
            ResidualTrend::Steady => (0, BetaAction::Keep),
            ResidualTrend::Shrank => if streak + 1 >= RESTORE_WINDOW {
                (0, BetaAction::Restore)
            } else {
                ((streak + 1) as nat, BetaAction::Keep)
            },
        }
    }
}

impl BetaMonitor {
    pub closed spec fn spec_enabled(&self) -> bool {
        self.enabled
    }

    /// Consecutive strong decreases so far.
    pub closed spec fn spec_streak(&self) -> nat {
        self.streak as nat
    }

    pub closed spec fn wf(&self) -> bool {
        self.streak < RESTORE_WINDOW
    }

    /// A monitor with no streak; `enabled == false` never changes β.
    pub fn new(enabled: bool) -> (m: Self)
        ensures
            m.wf(),
            m.spec_enabled() == enabled,
            m.spec_streak() == 0,
    {
        BetaMonitor { enabled, streak: 0 }
    }

    /// Whether the monitor is active.
    pub fn enabled(&self) -> (b: bool)
        ensures
            b == self.spec_enabled(),
    {
        self.enabled
    }

    /// Feed this iteration's residual trend; the action on β.
    pub fn observe(&mut self, t: ResidualTrend) -> (a: BetaAction)
        requires
            old(self).wf(),
        ensures
            final(self).wf(),
            final(self).spec_enabled() == old(self).spec_enabled(),
            (final(self).spec_streak(), a) == spec_observe(
                old(self).spec_enabled(),
                old(self).spec_streak(),
                t,
            ),
    {
        if !self.enabled {
            return BetaAction::Keep;
        }
        match t {
            ResidualTrend::NoRatio => BetaAction::Keep,
            ResidualTrend::Grew => {
                self.streak = 0;
                BetaAction::Damp
            },
            ResidualTrend::Steady => {
                self.streak = 0;
                BetaAction::Keep
            },
            ResidualTrend::Shrank => {
                if self.streak + 1 >= RESTORE_WINDOW {
                    self.streak = 0;
                    BetaAction::Restore
                } else {
                    self.streak = self.streak + 1;
                    BetaAction::Keep
                }
            },
        }
    }
}

/// The actions of an enabled monitor, fresh, over a sequence of trends.
pub open spec fn actions_from(streak: nat, trends: Seq<ResidualTrend>) -> Seq<BetaAction>
    decreases trends.len(),
{
    if trends.len() == 0 {
        Seq::empty()
    } else {
        let (s, a) = spec_observe(true, streak, trends[0]);
        seq![a] + actions_from(s, trends.drop_first())
    }
}

/// Three strong decreases in a row restore β on the third, and not before.
pub proof fn lemma_restore_after_three_decreases()
    ensures
        actions_from(
            0,
            seq![ResidualTrend::Shrank, ResidualTrend::Shrank, ResidualTrend::Shrank],
        ) == seq![BetaAction::Keep, BetaAction::Keep, BetaAction::Restore],
{
    let t = seq![ResidualTrend::Shrank, ResidualTrend::Shrank, ResidualTrend::Shrank];
    assert(t.drop_first() =~= seq![ResidualTrend::Shrank, ResidualTrend::Shrank]);
    assert(t.drop_first().drop_first() =~= seq![ResidualTrend::Shrank]);
    assert(t.drop_first().drop_first().drop_first() =~= Seq::<ResidualTrend>::empty());
    reveal_with_fuel(actions_from, 4);
    assert(actions_from(0, t) =~= seq![BetaAction::Keep, BetaAction::Keep, BetaAction::Restore]);
}

/// A disabled monitor keeps β and its state whatever the residuals do.
pub proof fn lemma_disabled_monitor_keeps_beta(streak: nat, t: ResidualTrend)
    ensures
        spec_observe(false, streak, t) == (streak, BetaAction::Keep),
{
}

/// Growth always damps, and resets the decrease streak.
pub proof fn lemma_growth_damps(streak: nat)
    ensures
        spec_observe(true, streak, ResidualTrend::Grew) == (0nat, BetaAction::Damp),
{
}

} // verus!
