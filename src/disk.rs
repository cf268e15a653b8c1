//! Disk records derived from raw capacity figures.
use vstd::prelude::*;

verus! {

/// The kind of storage a disk reports.
#[derive(Clone, Copy, Debug, PartialEq, Eq, Structural)]
pub enum DiskKind {
    Ssd,
    Hdd,
    Unknown,
}

/// A disk as the telemetry source describes it.
#[derive(Clone, Debug)]
pub struct RawDisk {
    pub name: String,
    pub total_bytes: u64,
    pub available_bytes: u64,
    pub kind: DiskKind,
    pub filesystem: String,
}

/// One disk of the disk snapshot. Usage is held in hundredths of a percent.
#[derive(Clone, Debug)]
pub struct DiskRecord {
    pub name: String,
    pub total_bytes: u64,
    pub available_bytes: u64,
    pub used_bytes: u64,
    pub usage_centi: u32,
    pub kind: DiskKind,
    pub filesystem: String,
}

/// Bytes in use: total minus available, never below zero.
pub open spec fn used_of(total: u64, available: u64) -> nat {
    if available <= total {
        (total - available) as nat
    } else {
        0
    }
}

/// Share of the disk in use, in hundredths of a percent rounded down; zero for an
/// empty disk.
pub open spec fn usage_centi_of(total: u64, available: u64) -> nat {
    if total == 0 {
        0
    } else {
        (used_of(total, available) * 10000 / (total as nat)) as nat
    }
}

/// Share of a disk in use, in hundredths of a percent; zero when `total` is zero.
pub fn usage_centi(total: u64, available: u64) -> (r: u32)
    ensures
        r == usage_centi_of(total, available),
        r <= 10000,
{
    if total == 0 {
        return 0;
    }
    let used: u64 = total.saturating_sub(available);
    let scaled: u128 = (used as u128) * 10000;
    let q: u128 = scaled / (total as u128);
    assert((used as int) * 10000 / (total as int) <= 10000) by (nonlinear_arith)
        requires
            used <= total,
            total > 0,
    ;
    q as u32
}

/// How full a disk is, for colouring its usage.
#[derive(Clone, Copy, Debug, PartialEq, Eq, Structural)]
pub enum UsageLevel {
    /// At most 70%.
    Normal,
    /// Above 70%, at most 90%.
    Elevated,
    /// Above 90%.
    Critical,
}

/// The level of a usage given in hundredths of a percent.
pub fn usage_level(usage_centi: u32) -> (l: UsageLevel)
    ensures
        usage_centi > 9000 ==> l == UsageLevel::Critical,
        7000 < usage_centi <= 9000 ==> l == UsageLevel::Elevated,
        usage_centi <= 7000 ==> l == UsageLevel::Normal,
{
    if usage_centi > 9000 {
        UsageLevel::Critical
    } else if usage_centi > 7000 {
        UsageLevel::Elevated
    } else {
        UsageLevel::Normal
    }
}

/// Share of `total` that `part` makes up, in hundredths of a percent rounded down;
/// zero when `total` is zero. Used for a process's share of total memory.
pub fn share_centi(part: u64, total: u64) -> (r: u128)
    ensures
        r == (if total == 0 {
            0
        } else {
            (part as nat) * 10000 / (total as nat)
        }),
{
    if total == 0 {
        return 0;
    }
    let scaled: u128 = (part as u128) * 10000;
    assert(scaled / (total as u128) <= scaled) by (nonlinear_arith)
        requires
            total > 0,
    ;
    scaled / (total as u128)
}

/// Derives a disk record from a raw description.
pub fn disk_record(raw: &RawDisk) -> (d: DiskRecord)
    ensures
        d.name@ == raw.name@,
        d.total_bytes == raw.total_bytes,
        d.available_bytes == raw.available_bytes,
        d.used_bytes == used_of(raw.total_bytes, raw.available_bytes),
        d.usage_centi == usage_centi_of(raw.total_bytes, raw.available_bytes),
        d.kind == raw.kind,
        d.filesystem@ == raw.filesystem@,
{
    DiskRecord {
        name: raw.name.clone(),
        total_bytes: raw.total_bytes,
        available_bytes: raw.available_bytes,
        used_bytes: raw.total_bytes.saturating_sub(raw.available_bytes),
        usage_centi: usage_centi(raw.total_bytes, raw.available_bytes),
        kind: raw.kind,
        filesystem: raw.filesystem.clone(),
    }
}

/// `d` is the record derived from `raw`.
pub open spec fn derived_from(d: DiskRecord, raw: RawDisk) -> bool {
    &&& d.name@ == raw.name@
    &&& d.total_bytes == raw.total_bytes
    &&& d.available_bytes == raw.available_bytes
    &&& d.used_bytes == used_of(raw.total_bytes, raw.available_bytes)
    &&& d.usage_centi == usage_centi_of(raw.total_bytes, raw.available_bytes)
    &&& d.kind == raw.kind
    &&& d.filesystem@ == raw.filesystem@
}

/// Derives the records of a whole disk snapshot, one per raw disk, in order.
pub fn disk_records(raw: &Vec<RawDisk>) -> (r: Vec<DiskRecord>)
    ensures
        r@.len() == raw@.len(),
        forall|i: int| 0 <= i < raw@.len() ==> derived_from(#[trigger] r@[i], raw@[i]),
{
    let mut r: Vec<DiskRecord> = Vec::new();
    let mut i: usize = 0;
    while i < raw.len()
        invariant
            i <= raw@.len(),
            r@.len() == i,
            forall|k: int| 0 <= k < i ==> derived_from(#[trigger] r@[k], raw@[k]),
        decreases raw@.len() - i,
    {
        r.push(disk_record(&raw[i]));
        i = i + 1;
    }
    r
}

} // verus!
