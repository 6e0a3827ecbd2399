//! Health tracking with hysteresis: a backend changes state only after a
//! configured number of consecutive probe outcomes that disagree with it.

use vstd::prelude::*;
use crate::pool::{BackendPool, Health};

verus! {

pub struct HealthCheckConfig {
    /// Seconds between probe rounds.
    pub interval_secs: u64,
    /// Consecutive failures that turn a healthy backend unhealthy.
    pub failure_threshold: u64,
    /// Consecutive successes that turn an unhealthy backend healthy.
    pub success_threshold: u64,
}

#[derive(Clone, Copy, Debug, PartialEq, Eq, Structural)]
pub enum ConfigError {
    /// A threshold of zero consecutive outcomes.
    ZeroThreshold,
}

impl HealthCheckConfig {
    pub open spec fn wf(&self) -> bool {
        self.failure_threshold >= 1 && self.success_threshold >= 1
    }

    /// How many consecutive disagreeing outcomes move a backend out of `h`.
    pub open spec fn threshold_from(&self, h: Health) -> nat {
        if h == Health::Healthy {
            self.failure_threshold as nat
        } else {
            self.success_threshold as nat
        }
    }

    pub fn new(interval_secs: u64, failure_threshold: u64, success_threshold: u64) -> (r: Result<
        HealthCheckConfig,
        ConfigError,
    >)
        ensures
            r is Err <==> (failure_threshold == 0 || success_threshold == 0),
            r is Err ==> r == Err::<HealthCheckConfig, ConfigError>(ConfigError::ZeroThreshold),
            r matches Ok(c) ==> (c.wf() && c.interval_secs == interval_secs
                && c.failure_threshold == failure_threshold && c.success_threshold == success_threshold),
    {
        if failure_threshold == 0 || success_threshold == 0 {
            Err(ConfigError::ZeroThreshold)
        } else {
            Ok(HealthCheckConfig { interval_secs, failure_threshold, success_threshold })
        }
    }
}

/// Whether a probe outcome disagrees with the current state.
pub open spec fn disagrees(h: Health, ok: bool) -> bool {
    (h == Health::Healthy && !ok) || (h == Health::Unhealthy && ok)
}

pub open spec fn flipped(h: Health) -> Health {
    if h == Health::Healthy { Health::Unhealthy } else { Health::Healthy }
}

/// State and streak after one probe outcome: an agreeing outcome resets the
/// streak; a disagreeing one extends it, and flips the state once the streak
/// reaches the threshold.
pub open spec fn next(cfg: HealthCheckConfig, h: Health, streak: nat, ok: bool) -> (Health, nat) {
    if !disagrees(h, ok) {
        (h, 0)
    } else if streak + 1 >= cfg.threshold_from(h) {
        (flipped(h), 0)
    } else {
        (h, streak + 1)
    }
}

/// State and streak after a sequence of probe outcomes, oldest first.
pub open spec fn run(cfg: HealthCheckConfig, h: Health, streak: nat, outcomes: Seq<bool>) -> (Health, nat)
    decreases outcomes.len(),
{
    if outcomes.len() == 0 {
        (h, streak)
    } else {
        let (h1, s1) = next(cfg, h, streak, outcomes[0]);
        run(cfg, h1, s1, outcomes.subrange(1, outcomes.len() as int))
    }
}

/// One backend's health and its streak of consecutive disagreeing outcomes.
#[derive(Clone, Copy, Debug, PartialEq, Eq, Structural)]
pub struct HealthTracker {
    pub health: Health,
    pub streak: u64,
}

impl HealthTracker {
    pub open spec fn wf(&self, cfg: HealthCheckConfig) -> bool {
        (self.streak as nat) < cfg.threshold_from(self.health)
    }

    /// A backend is assumed healthy until probed.
    pub fn new() -> (r: HealthTracker)
        ensures
            r.health == Health::Healthy,
            r.streak == 0,
    {
        HealthTracker { health: Health::Healthy, streak: 0 }
    }

    /// Records one probe outcome; returns whether the state changed.
    pub fn record(&mut self, cfg: &HealthCheckConfig, ok: bool) -> (changed: bool)
        requires
            cfg.wf(),
            old(self).wf(*cfg),
        ensures
            final(self).wf(*cfg),
            (final(self).health, final(self).streak as nat) == next(*cfg, old(self).health, old(self).streak as nat, ok),
            changed == (final(self).health != old(self).health),
    {
        let disagree = match self.health {
            Health::Healthy => !ok,
            Health::Unhealthy => ok,
        };
        if !disagree {
            self.streak = 0;
            return false;
        }
        let threshold = match self.health {
            Health::Healthy => cfg.failure_threshold,
            Health::Unhealthy => cfg.success_threshold,
        };
        if self.streak + 1 >= threshold {
            self.health = match self.health {
                Health::Healthy => Health::Unhealthy,
                Health::Unhealthy => Health::Healthy,
            };
            self.streak = 0;
            true
        } else {
            self.streak = self.streak + 1;
            false
        }
    }
}

/// The outcome that disagrees with `h`: a failure for a healthy backend,
/// a success for an unhealthy one.
pub open spec fn against(h: Health) -> bool {
    h == Health::Unhealthy
}

/// A backend leaves state `h` exactly when its streak of consecutive
/// disagreeing outcomes reaches the threshold, and not before: fewer leave
/// it in `h` with the streak counted up.
pub proof fn lemma_flip_at_threshold(cfg: HealthCheckConfig, h: Health, j: nat, k: nat)
    requires
        cfg.wf(),
        j < cfg.threshold_from(h),
        j + k <= cfg.threshold_from(h),
    ensures
        run(cfg, h, j, Seq::new(k, |i: int| against(h))) == if j + k < cfg.threshold_from(h) {
            (h, j + k)
        } else {
            (flipped(h), 0nat)
        },
    decreases k,
{
    let o = Seq::new(k, |i: int| against(h));
    if k == 0 {
        assert(o.len() == 0);
    } else {
        assert(disagrees(h, o[0]));
        if j + 1 < cfg.threshold_from(h) {
            assert(o.subrange(1, k as int) =~= Seq::new((k - 1) as nat, |i: int| against(h)));
            lemma_flip_at_threshold(cfg, h, j + 1, (k - 1) as nat);
        } else {
            assert(o.subrange(1, k as int) =~= Seq::<bool>::empty());
            assert(run(cfg, flipped(h), 0, Seq::<bool>::empty()) == (flipped(h), 0nat));
        }
    }
}

/// An outcome that agrees with the current state resets the streak to zero
/// and keeps the state.
pub proof fn lemma_agreeing_outcome_resets(cfg: HealthCheckConfig, h: Health, streak: nat, ok: bool)
    requires
        !disagrees(h, ok),
    ensures
        next(cfg, h, streak, ok) == (h, 0nat),
{
}

/// Fewer outcomes than the threshold, whatever they are, never move a backend
/// out of its state.
pub proof fn lemma_no_early_flip(cfg: HealthCheckConfig, h: Health, j: nat, outcomes: Seq<bool>)
    requires
        cfg.wf(),
        j + outcomes.len() < cfg.threshold_from(h),
    ensures
        run(cfg, h, j, outcomes).0 == h,
        run(cfg, h, j, outcomes).1 <= j + outcomes.len(),
    decreases outcomes.len(),
{
    if outcomes.len() > 0 {
        let (h1, s1) = next(cfg, h, j, outcomes[0]);
        lemma_no_early_flip(cfg, h1, s1, outcomes.subrange(1, outcomes.len() as int));
    }
}

/// Health trackers for every member of a pool, in the pool's order.
pub struct HealthChecker {
    config: HealthCheckConfig,
    trackers: Vec<HealthTracker>,
}

impl HealthChecker {
    pub closed spec fn config(&self) -> HealthCheckConfig {
        self.config
    }

    /// Health and streak of each tracked backend.
    pub closed spec fn states(&self) -> Seq<(Health, nat)> {
        Seq::new(self.trackers@.len(), |i: int| (self.trackers@[i].health, self.trackers@[i].streak as nat))
    }

    pub closed spec fn wf(&self) -> bool {
        &&& self.config.wf()
        &&& forall|i: int| 0 <= i < self.trackers@.len() ==> (#[trigger] self.trackers@[i]).wf(self.config)
    }

    /// Trackers for `count` backends, all assumed healthy.
    pub fn new(config: HealthCheckConfig, count: usize) -> (r: HealthChecker)
        requires
            config.wf(),
        ensures
            r.wf(),
            r.config() == config,
            r.states() == Seq::new(count as nat, |i: int| (Health::Healthy, 0nat)),
    {
        let mut trackers: Vec<HealthTracker> = Vec::new();
        let mut i: usize = 0;
        while i < count
            invariant
                i <= count,
                config.wf(),
                trackers@.len() == i,
                forall|k: int| 0 <= k < i ==> (#[trigger] trackers@[k]).health == Health::Healthy && trackers@[k].streak == 0,
            decreases count - i,
        {
            trackers.push(HealthTracker::new());
            i = i + 1;
        }
        let r = HealthChecker { config, trackers };
        assert(r.states() =~= Seq::new(count as nat, |i: int| (Health::Healthy, 0nat)));
        r
    }

    pub fn interval_secs(&self) -> (r: u64)
        ensures
            r == self.config().interval_secs,
    {
        self.config.interval_secs
    }

    /// Records one probe outcome for the member at `index`, and publishes a
    /// change of state into the pool at once. Returns whether it changed.
    pub fn observe(&mut self, pool: &mut BackendPool, index: usize, ok: bool) -> (changed: bool)
        requires
            old(self).wf(),
            old(pool).wf(),
            index < old(self).states().len(),
            index < old(pool).len(),
        ensures
            final(self).wf(),
            final(pool).wf(),
            final(self).config() == old(self).config(),
            final(self).states() == old(self).states().update(
                index as int,
                next(old(self).config(), old(self).states()[index as int].0, old(self).states()[index as int].1, ok),
            ),
            changed == (final(self).states()[index as int].0 != old(self).states()[index as int].0),
            final(pool).addresses() == old(pool).addresses(),
            final(pool).cursor() == old(pool).cursor(),
            final(pool).fail_open() == old(pool).fail_open(),
            final(pool).healths() == if changed {
                old(pool).healths().update(index as int, final(self).states()[index as int].0)
            } else {
                old(pool).healths()
            },
    {
        let mut t = self.trackers[index];
        let changed = t.record(&self.config, ok);
        self.trackers.set(index, t);
        if changed {
            pool.set_health(index, t.health);
        }
        assert(self.states() =~= old(self).states().update(
            index as int,
            next(old(self).config(), old(self).states()[index as int].0, old(self).states()[index as int].1, ok),
        ));
        changed
    }

    /// Records one round of probe outcomes, one per member in pool order.
    pub fn apply_round(&mut self, pool: &mut BackendPool, outcomes: &Vec<bool>)
        requires
            old(self).wf(),
            old(pool).wf(),
            old(self).states().len() == old(pool).len(),
            outcomes@.len() == old(pool).len(),
        ensures
            final(self).wf(),
            final(pool).wf(),
            final(self).config() == old(self).config(),
            final(self).states().len() == old(self).states().len(),
            forall|i: int| 0 <= i < outcomes@.len() ==> #[trigger] final(self).states()[i] == next(
                old(self).config(),
                old(self).states()[i].0,
                old(self).states()[i].1,
                outcomes@[i],
            ),
            final(pool).addresses() == old(pool).addresses(),
            final(pool).cursor() == old(pool).cursor(),
            final(pool).fail_open() == old(pool).fail_open(),
            forall|i: int| 0 <= i < outcomes@.len() ==> #[trigger] final(pool).healths()[i] == if final(self).states()[i].0
                != old(self).states()[i].0 {
                final(self).states()[i].0
            } else {
                old(pool).healths()[i]
            },
    {
        let n = outcomes.len();
        let mut i: usize = 0;
        proof { old(pool).lemma_lengths(); }
        while i < n
            invariant
                n == outcomes@.len(),
                i <= n,
                self.wf(),
                pool.wf(),
                self.config() == old(self).config(),
                self.states().len() == n,
                old(self).states().len() == n,
                pool.len() == n,
                pool.addresses() == old(pool).addresses(),
                pool.cursor() == old(pool).cursor(),
                pool.fail_open() == old(pool).fail_open(),
                forall|k: int| 0 <= k < i ==> #[trigger] self.states()[k] == next(
                    old(self).config(),
                    old(self).states()[k].0,
                    old(self).states()[k].1,
                    outcomes@[k],
                ),
                forall|k: int| i <= k < n ==> #[trigger] self.states()[k] == old(self).states()[k],
                forall|k: int| 0 <= k < i ==> #[trigger] pool.healths()[k] == if self.states()[k].0
                    != old(self).states()[k].0 {
                    self.states()[k].0
                } else {
                    old(pool).healths()[k]
                },
                forall|k: int| i <= k < n ==> #[trigger] pool.healths()[k] == old(pool).healths()[k],
            decreases n - i,
        {
            proof { pool.lemma_lengths(); }
            self.observe(pool, i, outcomes[i]);
            proof { pool.lemma_lengths(); }
            i = i + 1;
        }
    }
}

} // verus!
