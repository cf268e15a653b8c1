//! Process records and their ingestion from raw telemetry.
use vstd::prelude::*;
use crate::text::{make_pid_label, passes_filter, pid_label, lower_of, fold_filter, name_passes_folded};

verus! {

/// One process of a snapshot. CPU usage is held in hundredths of a percent.
#[derive(Clone, Debug)]
pub struct ProcessRecord {
    pub name: String,
    pub pid: u32,
    pub cpu_centi: u32,
    pub memory_bytes: u64,
    pub status: String,
    pub owner: Option<String>,
    pub command_line: Option<String>,
}

/// The mathematical value of a `ProcessRecord`.
pub struct ProcessView {
    pub name: Seq<char>,
    pub pid: u32,
    pub cpu_centi: u32,
    pub memory_bytes: u64,
    pub status: Seq<char>,
    pub owner: Option<Seq<char>>,
    pub command_line: Option<Seq<char>>,
}

pub open spec fn opt_text(o: Option<String>) -> Option<Seq<char>> {
    match o {
        Some(s) => Some(s@),
        None => None,
    }
}

impl View for ProcessRecord {
    type V = ProcessView;

    open spec fn view(&self) -> ProcessView {
        ProcessView {
            name: self.name@,
            pid: self.pid,
            cpu_centi: self.cpu_centi,
            memory_bytes: self.memory_bytes,
            status: self.status@,
            owner: opt_text(self.owner),
            command_line: opt_text(self.command_line),
        }
    }
}

fn copy_opt_text(o: &Option<String>) -> (r: Option<String>)
    ensures
        opt_text(r) == opt_text(*o),
{
    match o {
        Some(s) => Some(s.clone()),
        None => None,
    }
}

impl ProcessRecord {
    /// A copy with the same value.
    pub fn duplicate(&self) -> (r: ProcessRecord)
        ensures
            r@ == self@,
    {
        ProcessRecord {
            name: self.name.clone(),
            pid: self.pid,
            cpu_centi: self.cpu_centi,
            memory_bytes: self.memory_bytes,
            status: self.status.clone(),
            owner: copy_opt_text(&self.owner),
            command_line: copy_opt_text(&self.command_line),
        }
    }
}

/// The name shown for a process: its own, or `PID: <pid>` when that is empty.
pub open spec fn display_name(name: Seq<char>, pid: u32) -> Seq<char> {
    if name.len() == 0 {
        pid_label(pid)
    } else {
        name
    }
}

/// A raw entry with its display name in place of the name it came with.
pub open spec fn with_display_name(p: ProcessView) -> ProcessView {
    ProcessView { name: display_name(p.name, p.pid), ..p }
}

/// The records that ingestion keeps, in the order of the raw entries.
pub open spec fn ingested(raw: Seq<ProcessView>, filter: Seq<char>) -> Seq<ProcessView>
    decreases raw.len(),
{
    if raw.len() == 0 {
        Seq::empty()
    } else {
        let prev = ingested(raw.drop_last(), filter);
        let p = with_display_name(raw.last());
        if passes_filter(p.name, filter) {
            prev.push(p)
        } else {
            prev
        }
    }
}

pub open spec fn views(s: Seq<ProcessRecord>) -> Seq<ProcessView> {
    s.map_values(|p: ProcessRecord| p@)
}

/// Turns one raw entry into a record, naming it `PID: <pid>` when its name is empty.
pub fn to_display_record(raw: &ProcessRecord) -> (r: ProcessRecord)
    ensures
        r@ == with_display_name(raw@),
{
    let mut r = raw.duplicate();
    if raw.name.as_str().unicode_len() == 0 {
        r.name = make_pid_label(raw.pid);
    }
    r
}

/// Builds a snapshot from raw entries: each entry gets its display name, and only
/// those whose display name passes `filter` are kept, in the order they came.
pub fn ingest(raw: &Vec<ProcessRecord>, filter: &str) -> (r: Vec<ProcessRecord>)
    ensures
        views(r@) == ingested(views(raw@), filter@),
{
    let folded = fold_filter(filter);
    let mut out: Vec<ProcessRecord> = Vec::new();
    let mut i: usize = 0;
    while i < raw.len()
        invariant
            i <= raw@.len(),
            folded@ == lower_of(filter@),
            views(out@) == ingested(views(raw@.take(i as int)), filter@),
        decreases raw@.len() - i,
    {
        let rec = to_display_record(&raw[i]);
        let keep = name_passes_folded(rec.name.as_str(), filter, folded.as_str());
        proof {
            assert(views(raw@.take(i + 1)).drop_last() =~= views(raw@.take(i as int)));
            assert(views(raw@.take(i + 1)).last() == raw@[i as int]@);
        }
        let ghost prev = out@;
        let ghost rv = rec@;
        if keep {
            out.push(rec);
            assert(views(out@) =~= views(prev).push(rv));
        }
        i = i + 1;
    }
    assert(raw@.take(raw@.len() as int) =~= raw@);
    out
}

} // verus!
