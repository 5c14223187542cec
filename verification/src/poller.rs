//! The debounced up/down state machine behind every health probe: a fixed
//! number of consecutive failures takes an upstream down, a fixed number of
//! consecutive successes brings it back up.

use vstd::prelude::*;

verus! {

/// The probe state machine. `upstream_enabled` starts true; `error_count`
/// and `success_count` are the thresholds, and the two current counters hold
/// the length of the present run of failures or successes.
#[derive(Clone, Copy, Debug, PartialEq, Eq, Structural)]
pub struct Poller {
    pub error_count: u64,
    pub success_count: u64,
    pub current_error_count: u64,
    pub current_success_count: u64,
    pub upstream_enabled: bool,
}

impl Poller {
    /// Thresholds are positive, and each counter stays below its threshold.
    pub open spec fn wf(&self) -> bool {
        &&& self.error_count >= 1
        &&& self.success_count >= 1
        &&& self.current_error_count < self.error_count
        &&& self.current_success_count < self.success_count
    }

    /// A fresh poller: up, with both counters at zero.
    pub fn build(error_count: u64, success_count: u64) -> (r: Self)
        requires
            error_count >= 1,
            success_count >= 1,
        ensures
            r == (Poller {
                error_count,
                success_count,
                current_error_count: 0,
                current_success_count: 0,
                upstream_enabled: true,
            }),
            r.wf(),
    {
        Poller {
            error_count,
            success_count,
            current_error_count: 0,
            current_success_count: 0,
            upstream_enabled: true,
        }
    }

    /// Feeds one successful tick. Returns `true` exactly when this tick
    /// completes the success run and the upstream just came back up.
    pub fn check_and_enable_upstream(&mut self) -> (r: bool)
        requires
            old(self).wf(),
        ensures
            final(self).wf(),
            (*final(self), r) == spec_success_tick(*old(self)),
    {
        if !self.upstream_enabled {
            // count successes only while the upstream is down
            self.current_success_count = self.current_success_count + 1;
            if self.current_success_count == self.success_count {
                // the success run is complete: back up, counter reset
                self.upstream_enabled = true;
                self.current_success_count = 0;
                return true;
            }
        } else {
            // a success while up breaks any failure run
            self.current_error_count = 0;
        }
        false
    }

    /// Feeds one failed tick. Returns `true` exactly when this tick
    /// completes the failure run and the upstream just went down.
    pub fn check_and_disable_upstream(&mut self) -> (r: bool)
        requires
            old(self).wf(),
        ensures
            final(self).wf(),
            (*final(self), r) == spec_failure_tick(*old(self)),
    {
        if self.upstream_enabled {
            // count failures only while the upstream is up
            self.current_error_count = self.current_error_count + 1;
            if self.current_error_count == self.error_count {
                // the failure run is complete: down, counter reset
                self.upstream_enabled = false;
                self.current_error_count = 0;
                return true;
            }
        } else {
            // a failure while down breaks any success run
            self.current_success_count = 0;
        }
        false
    }
}

/// What one successful tick does: while down it lengthens the success run,
/// flipping up when the run reaches the threshold; while up it only resets
/// the failure run.
pub open spec fn spec_success_tick(p: Poller) -> (Poller, bool) {
    if p.upstream_enabled {
        (Poller { current_error_count: 0, ..p }, false)
    } else if p.current_success_count + 1 == p.success_count {
        (Poller { upstream_enabled: true, current_success_count: 0, ..p }, true)
    } else {
        (Poller { current_success_count: (p.current_success_count + 1) as u64, ..p }, false)
    }
}

/// What one failed tick does: while up it lengthens the failure run,
/// flipping down when the run reaches the threshold; while down it only
/// resets the success run.
pub open spec fn spec_failure_tick(p: Poller) -> (Poller, bool) {
    if !p.upstream_enabled {
        (Poller { current_success_count: 0, ..p }, false)
    } else if p.current_error_count + 1 == p.error_count {
        (Poller { upstream_enabled: false, current_error_count: 0, ..p }, true)
    } else {
        (Poller { current_error_count: (p.current_error_count + 1) as u64, ..p }, false)
    }
}


/// The poller after a run of failed ticks, and the flags the run returned.
pub open spec fn spec_failure_run(p: Poller, count: nat) -> (Poller, Seq<bool>)
    decreases count,
{
    if count == 0 {
        (p, Seq::empty())
    } else {
        let stepped = spec_failure_tick(p);
        let rest = spec_failure_run(stepped.0, (count - 1) as nat);
        (rest.0, seq![stepped.1] + rest.1)
    }
}

/// The poller after a run of successful ticks, and the flags the run
/// returned.
pub open spec fn spec_success_run(p: Poller, count: nat) -> (Poller, Seq<bool>)
    decreases count,
{
    if count == 0 {
        (p, Seq::empty())
    } else {
        let stepped = spec_success_tick(p);
        let rest = spec_success_run(stepped.0, (count - 1) as nat);
        (rest.0, seq![stepped.1] + rest.1)
    }
}

/// Debounce on the way down: from up, the run of consecutive failures that
/// completes the threshold transitions exactly once, on its last tick, and
/// leaves the poller down with its counter reset.
pub proof fn lemma_failures_take_poller_down(p: Poller)
    requires
        p.wf(),
        p.upstream_enabled,
    ensures
        ({
            let count = (p.error_count - p.current_error_count) as nat;
            let run = spec_failure_run(p, count);
            &&& run.1.len() == count
            &&& forall|j: int| 0 <= j < count - 1 ==> !(#[trigger] run.1[j])
            &&& run.1[count - 1]
            &&& !run.0.upstream_enabled
            &&& run.0.current_error_count == 0
            &&& run.0.current_success_count == p.current_success_count
            &&& run.0.error_count == p.error_count
            &&& run.0.success_count == p.success_count
        }),
    decreases p.error_count - p.current_error_count,
{
    let count = (p.error_count - p.current_error_count) as nat;
    let stepped = spec_failure_tick(p);
    if p.current_error_count + 1 == p.error_count {
        assert(count == 1);
        assert(stepped.1);
        assert(spec_failure_run(stepped.0, 0) == (stepped.0, Seq::<bool>::empty()));
        assert(spec_failure_run(p, 1).1 =~= seq![true]);
    } else {
        lemma_failures_take_poller_down(stepped.0);
        let rest = spec_failure_run(stepped.0, (count - 1) as nat);
        assert(spec_failure_run(p, count).1 =~= seq![stepped.1] + rest.1);
    }
}

/// Debounce below the threshold: while down, fewer successes than the
/// threshold asks never transition; they only lengthen the success run.
pub proof fn lemma_few_successes_stay_down(p: Poller, count: nat)
    requires
        p.wf(),
        !p.upstream_enabled,
        p.current_success_count + count < p.success_count,
    ensures
        ({
            let run = spec_success_run(p, count);
            &&& run.1.len() == count
            &&& forall|j: int| 0 <= j < count ==> !(#[trigger] run.1[j])
            &&& !run.0.upstream_enabled
            &&& run.0.current_success_count == p.current_success_count + count
            &&& run.0.current_error_count == p.current_error_count
            &&& run.0.error_count == p.error_count
            &&& run.0.success_count == p.success_count
        }),
    decreases count,
{
    if count > 0 {
        let stepped = spec_success_tick(p);
        lemma_few_successes_stay_down(stepped.0, (count - 1) as nat);
        let rest = spec_success_run(stepped.0, (count - 1) as nat);
        assert(spec_success_run(p, count).1 =~= seq![stepped.1] + rest.1);
    }
}

/// Debounce on the way up: from down, the run of consecutive successes
/// that completes the threshold transitions exactly once, on its last tick,
/// and leaves the poller up with its counter reset.
pub proof fn lemma_successes_bring_poller_up(p: Poller)
    requires
        p.wf(),
        !p.upstream_enabled,
    ensures
        ({
            let count = (p.success_count - p.current_success_count) as nat;
            let run = spec_success_run(p, count);
            &&& run.1.len() == count
            &&& forall|j: int| 0 <= j < count - 1 ==> !(#[trigger] run.1[j])
            &&& run.1[count - 1]
            &&& run.0.upstream_enabled
            &&& run.0.current_success_count == 0
            &&& run.0.current_error_count == p.current_error_count
            &&& run.0.error_count == p.error_count
            &&& run.0.success_count == p.success_count
        }),
    decreases p.success_count - p.current_success_count,
{
    let count = (p.success_count - p.current_success_count) as nat;
    let stepped = spec_success_tick(p);
    if p.current_success_count + 1 == p.success_count {
        assert(count == 1);
        assert(stepped.1);
        assert(spec_success_run(stepped.0, 0) == (stepped.0, Seq::<bool>::empty()));
        assert(spec_success_run(p, 1).1 =~= seq![true]);
    } else {
        lemma_successes_bring_poller_up(stepped.0);
        let rest = spec_success_run(stepped.0, (count - 1) as nat);
        assert(spec_success_run(p, count).1 =~= seq![stepped.1] + rest.1);
    }
}

} // verus!
