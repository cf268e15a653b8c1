//! The session controller: owns every component and is the one place state changes.
use vstd::prelude::*;
use crate::disk::{DiskRecord, RawDisk, derived_from, disk_records};
use crate::history::{HistoryRing, HistorySample, HISTORY_CAPACITY, latest_window};
use crate::process::{ProcessRecord, views, ingested};
use crate::ranking::{SortKey, stable_sort};
use crate::scheduler::{Scheduler, Tick, MAX_BASE_INTERVAL_MS, elapsed_between, at_least_min_wake};
use crate::table::{ProcessTable, rank_base};

verus! {

/// What the OS reported for the last termination request.
#[derive(Clone, Copy, Debug, PartialEq, Eq, Structural)]
pub struct TerminationOutcome {
    pub pid: u32,
    pub succeeded: bool,
}

/// One monitoring session.
pub struct Monitor {
    pub table: ProcessTable,
    pub history: HistoryRing,
    pub scheduler: Scheduler,
    pub disks: Vec<DiskRecord>,
    pub selected: Option<u32>,
    pub last_termination: Option<TerminationOutcome>,
}

impl Monitor {
    pub open spec fn wf(&self) -> bool {
        &&& self.table.wf()
        &&& self.history@.len() <= HISTORY_CAPACITY
        &&& self.scheduler.wf()
    }

    /// A session with nothing sampled yet, whose first evaluation refreshes.
    pub fn new(base_interval_ms: u64, now_ms: u64) -> (m: Monitor)
        requires
            base_interval_ms <= MAX_BASE_INTERVAL_MS,
        ensures
            m.wf(),
            m.table@.records.len() == 0,
            m.table@.key == SortKey::Name,
            !m.table@.descending,
            m.table@.filter.len() == 0,
            m.history@.len() == 0,
            m.scheduler.base_interval_ms == base_interval_ms,
            m.scheduler.force_pending,
            !m.scheduler.energy_saving,
            m.disks@.len() == 0,
            m.selected.is_none(),
            m.last_termination.is_none(),
    {
        Monitor {
            table: ProcessTable::new(),
            history: HistoryRing::new(),
            scheduler: Scheduler::new(base_interval_ms, now_ms),
            disks: Vec::new(),
            selected: None,
            last_termination: None,
        }
    }

    /// Asks the scheduler whether a refresh is due at `now_ms`.
    pub fn tick(&mut self, now_ms: u64, focused: bool) -> (t: Tick)
        requires
            old(self).wf(),
        ensures
            final(self).wf(),
            ({
                let elapsed = elapsed_between(old(self).scheduler.last_refresh_ms, now_ms);
                let eff = old(self).scheduler.spec_effective(focused);
                if old(self).scheduler.force_pending || elapsed >= eff {
                    &&& t == (Tick::Refresh {
                        disks_due: elapsed > 2 * old(self).scheduler.base_interval_ms,
                        wake_after_ms: at_least_min_wake(eff as int) as u64,
                    })
                    &&& final(self).scheduler.last_refresh_ms == now_ms
                    &&& !final(self).scheduler.force_pending
                } else {
                    &&& t == (Tick::Wait { wake_after_ms: at_least_min_wake(eff - elapsed) as u64 })
                    &&& final(self).scheduler == old(self).scheduler
                }
            }),
            final(self).scheduler.base_interval_ms == old(self).scheduler.base_interval_ms,
            final(self).scheduler.energy_saving == old(self).scheduler.energy_saving,
            final(self).table@ == old(self).table@,
            final(self).history@ == old(self).history@,
            final(self).disks@ == old(self).disks@,
            final(self).selected == old(self).selected,
            final(self).last_termination == old(self).last_termination,
    {
        self.scheduler.poll(now_ms, focused)
    }

    /// Takes in one refresh: the process list replaces the snapshot and is re-ranked,
    /// the aggregate sample joins the history, and the disk list is replaced when one
    /// was pulled. The selection is left as it was, whether or not its process is
    /// still in the snapshot.
    pub fn apply_refresh(
        &mut self,
        raw: &Vec<ProcessRecord>,
        cpu_centi: u32,
        used_memory_bytes: u64,
        disks: Option<&Vec<RawDisk>>,
    )
        requires
            old(self).wf(),
        ensures
            final(self).wf(),
            final(self).table@.records == ingested(views(raw@), old(self).table@.filter),
            final(self).table@.rank == stable_sort(
                final(self).table@.records,
                old(self).table@.key,
                old(self).table@.descending,
                rank_base(old(self).table@.rank, final(self).table@.records.len()),
            ),
            final(self).table@.key == old(self).table@.key,
            final(self).table@.descending == old(self).table@.descending,
            final(self).table@.filter == old(self).table@.filter,
            final(self).history@ == latest_window(
                old(self).history@.push(HistorySample { cpu_centi, memory_bytes: used_memory_bytes }),
            ),
            match disks {
                Some(d) => final(self).disks@.len() == d@.len() && forall|i: int|
                    0 <= i < d@.len() ==> derived_from(#[trigger] final(self).disks@[i], d@[i]),
                None => final(self).disks@ == old(self).disks@,
            },
            final(self).selected == old(self).selected,
            final(self).scheduler == old(self).scheduler,
            final(self).last_termination == old(self).last_termination,
    {
        self.table.ingest(raw);
        self.history.push(HistorySample { cpu_centi, memory_bytes: used_memory_bytes });
        match disks {
            Some(d) => {
                self.disks = disk_records(d);
            },
            None => {},
        }
    }

    /// Selects the process with id `pid`.
    pub fn select(&mut self, pid: u32)
        ensures
            final(self).selected == Some(pid),
            final(self).table == old(self).table,
            final(self).history == old(self).history,
            final(self).scheduler == old(self).scheduler,
            final(self).disks@ == old(self).disks@,
            final(self).last_termination == old(self).last_termination,
    {
        self.selected = Some(pid);
    }

    /// Drops the selection.
    pub fn clear_selection(&mut self)
        ensures
            final(self).selected.is_none(),
            final(self).table == old(self).table,
            final(self).history == old(self).history,
            final(self).scheduler == old(self).scheduler,
            final(self).disks@ == old(self).disks@,
            final(self).last_termination == old(self).last_termination,
    {
        self.selected = None;
    }

    /// The selected process id, whether or not it is in the latest snapshot.
    pub fn current(&self) -> (r: Option<u32>)
        ensures
            r == self.selected,
    {
        self.selected
    }

    /// Where the selected process stands in the latest snapshot; `None` when nothing
    /// is selected or the selected process is absent from it.
    pub fn selected_position(&self) -> (r: Option<usize>)
        ensures
            match r {
                Some(i) => self.selected.is_some() && i < self.table@.records.len()
                    && self.table@.records[i as int].pid == self.selected.unwrap(),
                None => self.selected.is_none() || forall|k: int|
                    0 <= k < self.table@.records.len() ==> #[trigger] self.table@.records[k].pid
                        != self.selected.unwrap(),
            },
    {
        match self.selected {
            Some(pid) => self.table.position_of_pid(pid),
            None => None,
        }
    }

    /// The process a termination request is for: the selected one, if any.
    pub fn termination_target(&self) -> (r: Option<u32>)
        ensures
            r == self.selected,
    {
        self.selected
    }

    /// Records what became of a termination request. The selection stays as it was.
    pub fn record_termination(&mut self, pid: u32, succeeded: bool)
        ensures
            final(self).last_termination == Some(TerminationOutcome { pid, succeeded }),
            final(self).selected == old(self).selected,
            final(self).table == old(self).table,
            final(self).history == old(self).history,
            final(self).scheduler == old(self).scheduler,
            final(self).disks@ == old(self).disks@,
    {
        self.last_termination = Some(TerminationOutcome { pid, succeeded });
    }

    /// Sets the filter text; it applies from the next refresh on.
    pub fn set_filter(&mut self, filter: String)
        requires
            old(self).wf(),
        ensures
            final(self).wf(),
            final(self).table@.filter == filter@,
            final(self).table@.records == old(self).table@.records,
            final(self).table@.rank == old(self).table@.rank,
            final(self).table@.key == old(self).table@.key,
            final(self).table@.descending == old(self).table@.descending,
            final(self).selected == old(self).selected,
    {
        self.table.set_filter(filter);
    }

    /// A click on a column heading; see `ProcessTable::select_column`.
    pub fn select_column(&mut self, key: SortKey)
        requires
            old(self).wf(),
        ensures
            final(self).wf(),
            final(self).table@.key == key,
            final(self).table@.descending == (if key == old(self).table@.key {
                !old(self).table@.descending
            } else {
                key == SortKey::Cpu || key == SortKey::Memory
            }),
            final(self).table@.rank == stable_sort(
                old(self).table@.records,
                key,
                final(self).table@.descending,
                old(self).table@.rank,
            ),
            final(self).table@.records == old(self).table@.records,
            final(self).selected == old(self).selected,
    {
        self.table.select_column(key);
    }

    /// Changes the base refresh interval; the next evaluation refreshes.
    pub fn set_base_interval(&mut self, ms: u64)
        requires
            old(self).wf(),
            ms <= MAX_BASE_INTERVAL_MS,
        ensures
            final(self).wf(),
            final(self).scheduler.base_interval_ms == ms,
            final(self).scheduler.force_pending,
            final(self).table@ == old(self).table@,
            final(self).selected == old(self).selected,
    {
        self.scheduler.set_base_interval(ms);
    }

    /// Asks for a refresh at the next evaluation.
    pub fn force_refresh(&mut self)
        requires
            old(self).wf(),
        ensures
            final(self).wf(),
            final(self).scheduler.force_pending,
            final(self).table@ == old(self).table@,
            final(self).selected == old(self).selected,
    {
        self.scheduler.force_refresh();
    }

    /// Turns power saving on or off.
    pub fn set_energy_saving(&mut self, on: bool)
        requires
            old(self).wf(),
        ensures
            final(self).wf(),
            final(self).scheduler.energy_saving == on,
            final(self).table@ == old(self).table@,
            final(self).selected == old(self).selected,
    {
        self.scheduler.set_energy_saving(on);
    }
}

} // verus!
