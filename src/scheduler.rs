//! Refresh scheduling: when a new snapshot is due, and how long to sleep otherwise.
use vstd::prelude::*;

verus! {

/// Shortest wait handed back to the host loop, in milliseconds.
pub const MIN_WAKE_MS: u64 = 100;

/// Largest accepted base interval in milliseconds: five times it still fits in a `u64`.
pub const MAX_BASE_INTERVAL_MS: u64 = 3689348814741910323;

/// The factor applied to the base interval for a focus / power-saving combination.
pub open spec fn interval_factor(focused: bool, energy_saving: bool) -> nat {
    if !focused {
        5
    } else if energy_saving {
        2
    } else {
        1
    }
}

/// Time elapsed between two clock readings; a reading earlier than `last` counts as no time.
pub open spec fn elapsed_between(last: u64, now: u64) -> nat {
    if now >= last {
        (now - last) as nat
    } else {
        0
    }
}

pub open spec fn at_least_min_wake(ms: int) -> int {
    if ms < MIN_WAKE_MS {
        MIN_WAKE_MS as int
    } else {
        ms
    }
}

/// The wait between refreshes once focus and power saving have been taken into account.
pub fn effective_interval(base_ms: u64, focused: bool, energy_saving: bool) -> (r: u64)
    requires
        base_ms <= MAX_BASE_INTERVAL_MS,
    ensures
        r == base_ms * interval_factor(focused, energy_saving),
        focused && !energy_saving ==> r == base_ms,
        focused && energy_saving ==> r == 2 * base_ms,
        !focused ==> r == 5 * base_ms,
{
    if !focused {
        base_ms * 5
    } else if energy_saving {
        base_ms * 2
    } else {
        base_ms
    }
}

/// What the host loop is told after one evaluation of the scheduler.
#[derive(Clone, Copy, Debug, PartialEq, Eq, Structural)]
pub enum Tick {
    /// Nothing is due; evaluate again after this many milliseconds.
    Wait { wake_after_ms: u64 },
    /// Pull a new snapshot now (disks too when `disks_due`), then evaluate again
    /// after `wake_after_ms`.
    Refresh { disks_due: bool, wake_after_ms: u64 },
}

/// Timestamps and settings that decide when a refresh happens.
/// Clock readings are milliseconds on a monotonic clock chosen by the host.
pub struct Scheduler {
    pub base_interval_ms: u64,
    pub last_refresh_ms: u64,
    pub energy_saving: bool,
    pub force_pending: bool,
}

impl Scheduler {
    pub open spec fn wf(&self) -> bool {
        self.base_interval_ms <= MAX_BASE_INTERVAL_MS
    }

    pub open spec fn spec_effective(&self, focused: bool) -> nat {
        (self.base_interval_ms * interval_factor(focused, self.energy_saving)) as nat
    }

    /// A scheduler whose first refresh is due at once.
    pub fn new(base_interval_ms: u64, now_ms: u64) -> (s: Scheduler)
        requires
            base_interval_ms <= MAX_BASE_INTERVAL_MS,
        ensures
            s.wf(),
            s.base_interval_ms == base_interval_ms,
            s.last_refresh_ms == now_ms,
            !s.energy_saving,
            s.force_pending,
    {
        Scheduler {
            base_interval_ms,
            last_refresh_ms: now_ms,
            energy_saving: false,
            force_pending: true,
        }
    }

    /// Decides whether a refresh happens at `now_ms`. The last-refresh time moves
    /// only when one does.
    pub fn poll(&mut self, now_ms: u64, focused: bool) -> (t: Tick)
        requires
            old(self).wf(),
        ensures
            final(self).wf(),
            final(self).base_interval_ms == old(self).base_interval_ms,
            final(self).energy_saving == old(self).energy_saving,
            ({
                let elapsed = elapsed_between(old(self).last_refresh_ms, now_ms);
                let eff = old(self).spec_effective(focused);
                if old(self).force_pending || elapsed >= eff {
                    &&& t == (Tick::Refresh {
                        disks_due: elapsed > 2 * old(self).base_interval_ms,
                        wake_after_ms: at_least_min_wake(eff as int) as u64,
                    })
                    &&& final(self).last_refresh_ms == now_ms
                    &&& !final(self).force_pending
                } else {
                    &&& t == (Tick::Wait { wake_after_ms: at_least_min_wake(eff - elapsed) as u64 })
                    &&& *final(self) == *old(self)
                }
            }),
    {
        let eff = effective_interval(self.base_interval_ms, focused, self.energy_saving);
        let elapsed: u64 = if now_ms >= self.last_refresh_ms {
            now_ms - self.last_refresh_ms
        } else {
            0
        };
        if self.force_pending || elapsed >= eff {
            self.last_refresh_ms = now_ms;
            self.force_pending = false;
            let disks_due = elapsed / 2 > self.base_interval_ms
                || (elapsed / 2 == self.base_interval_ms && elapsed % 2 == 1);
            let wake = if eff < MIN_WAKE_MS {
                MIN_WAKE_MS
            } else {
                eff
            };
            Tick::Refresh { disks_due, wake_after_ms: wake }
        } else {
            let rest = eff - elapsed;
            let wake = if rest < MIN_WAKE_MS {
                MIN_WAKE_MS
            } else {
                rest
            };
            Tick::Wait { wake_after_ms: wake }
        }
    }

    /// Makes the next evaluation refresh whatever the elapsed time.
    pub fn force_refresh(&mut self)
        ensures
            final(self).force_pending,
            final(self).base_interval_ms == old(self).base_interval_ms,
            final(self).last_refresh_ms == old(self).last_refresh_ms,
            final(self).energy_saving == old(self).energy_saving,
    {
        self.force_pending = true;
    }

    /// Changes the base interval; the next evaluation refreshes.
    pub fn set_base_interval(&mut self, ms: u64)
        requires
            ms <= MAX_BASE_INTERVAL_MS,
        ensures
            final(self).wf(),
            final(self).base_interval_ms == ms,
            final(self).force_pending,
            final(self).last_refresh_ms == old(self).last_refresh_ms,
            final(self).energy_saving == old(self).energy_saving,
    {
        self.base_interval_ms = ms;
        self.force_pending = true;
    }

    pub fn set_energy_saving(&mut self, on: bool)
        ensures
            final(self).energy_saving == on,
            final(self).base_interval_ms == old(self).base_interval_ms,
            final(self).last_refresh_ms == old(self).last_refresh_ms,
            final(self).force_pending == old(self).force_pending,
    {
        self.energy_saving = on;
    }
}

} // verus!
