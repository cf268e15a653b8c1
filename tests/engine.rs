use syswatch::disk::{
    disk_record, disk_records, share_centi, usage_centi, usage_level, DiskKind, RawDisk, UsageLevel,
};
use syswatch::export::{export_file_name, Stamp};
use syswatch::history::{HistoryRing, HistorySample, HISTORY_CAPACITY};
use syswatch::monitor::{Monitor, TerminationOutcome};
use syswatch::process::{ingest, to_display_record, ProcessRecord};
use syswatch::ranking::{sort_positions, SortKey};
use syswatch::scheduler::{effective_interval, Scheduler, Tick, MIN_WAKE_MS};
use syswatch::table::{identity_positions, ProcessTable};
use syswatch::text::{
    chars_of, compare_chars, contains_chars, make_pid_label, matches_folded, name_passes,
};

fn proc_rec(name: &str, pid: u32, cpu_centi: u32, memory_bytes: u64, status: &str) -> ProcessRecord {
    ProcessRecord {
        name: name.to_string(),
        pid,
        cpu_centi,
        memory_bytes,
        status: status.to_string(),
        owner: None,
        command_line: None,
    }
}

fn names_in_rank(t: &ProcessTable) -> Vec<String> {
    t.rank().iter().map(|&i| t.records()[i].name.clone()).collect()
}

#[test]
fn interval_table_for_every_combination() {
    assert_eq!(effective_interval(1000, true, false), 1000);
    assert_eq!(effective_interval(1000, true, true), 2000);
    assert_eq!(effective_interval(1000, false, false), 5000);
    assert_eq!(effective_interval(1000, false, true), 5000);
    assert_eq!(effective_interval(0, false, true), 0);
}

#[test]
fn scheduler_waits_then_refreshes() {
    let mut s = Scheduler::new(1000, 0);
    // first evaluation refreshes at once
    assert_eq!(s.poll(0, true), Tick::Refresh { disks_due: false, wake_after_ms: 1000 });
    assert_eq!(s.last_refresh_ms, 0);
    // too early: told how long to wait, timestamp untouched
    assert_eq!(s.poll(400, true), Tick::Wait { wake_after_ms: 600 });
    assert_eq!(s.last_refresh_ms, 0);
    // close to due: the wait is floored
    assert_eq!(s.poll(950, true), Tick::Wait { wake_after_ms: MIN_WAKE_MS });
    // due
    assert_eq!(s.poll(1000, true), Tick::Refresh { disks_due: false, wake_after_ms: 1000 });
    assert_eq!(s.last_refresh_ms, 1000);
    // unfocused: five times the base
    assert_eq!(s.poll(3000, false), Tick::Wait { wake_after_ms: 3000 });
    assert_eq!(s.poll(6000, false), Tick::Refresh { disks_due: true, wake_after_ms: 5000 });
    assert_eq!(s.last_refresh_ms, 6000);
}

#[test]
fn scheduler_energy_saving_and_disk_gate() {
    let mut s = Scheduler::new(1000, 0);
    s.set_energy_saving(true);
    assert_eq!(s.poll(0, true), Tick::Refresh { disks_due: false, wake_after_ms: 2000 });
    assert_eq!(s.poll(1500, true), Tick::Wait { wake_after_ms: 500 });
    // exactly twice the base is not yet "more than" twice
    assert_eq!(s.poll(2000, true), Tick::Refresh { disks_due: false, wake_after_ms: 2000 });
    assert_eq!(s.poll(4001, true), Tick::Refresh { disks_due: true, wake_after_ms: 2000 });
}

#[test]
fn scheduler_force_and_interval_change() {
    let mut s = Scheduler::new(1000, 0);
    assert!(matches!(s.poll(0, true), Tick::Refresh { .. }));
    s.force_refresh();
    assert!(matches!(s.poll(10, true), Tick::Refresh { .. }));
    assert!(matches!(s.poll(20, true), Tick::Wait { .. }));
    s.set_base_interval(10);
    assert!(matches!(s.poll(25, true), Tick::Refresh { .. }));
    assert_eq!(s.poll(30, true), Tick::Wait { wake_after_ms: MIN_WAKE_MS });
}

#[test]
fn history_keeps_latest_hundred_in_order() {
    let mut h = HistoryRing::new();
    for k in 0..150u32 {
        h.push(HistorySample { cpu_centi: k, memory_bytes: k as u64 * 10 });
        assert!(h.len() <= HISTORY_CAPACITY);
    }
    let snap = h.snapshot();
    assert_eq!(snap.len(), 100);
    for (i, s) in snap.iter().enumerate() {
        assert_eq!(s.cpu_centi, 50 + i as u32);
        assert_eq!(s.memory_bytes, (50 + i as u64) * 10);
    }
}

#[test]
fn history_below_capacity_keeps_everything() {
    let mut h = HistoryRing::new();
    assert_eq!(h.snapshot().len(), 0);
    h.push(HistorySample { cpu_centi: 1, memory_bytes: 2 });
    h.push(HistorySample { cpu_centi: 3, memory_bytes: 4 });
    assert_eq!(
        h.snapshot(),
        vec![HistorySample { cpu_centi: 1, memory_bytes: 2 }, HistorySample { cpu_centi: 3, memory_bytes: 4 }]
    );
}

#[test]
fn filter_chrome_keeps_first_two_in_order() {
    let raw = vec![
        proc_rec("Chrome.exe", 1, 0, 0, "Run"),
        proc_rec("chromedriver", 2, 0, 0, "Run"),
        proc_rec("Notepad", 3, 0, 0, "Run"),
    ];
    let out = ingest(&raw, "chrome");
    let names: Vec<&str> = out.iter().map(|p| p.name.as_str()).collect();
    assert_eq!(names, vec!["Chrome.exe", "chromedriver"]);
    let out2 = ingest(&raw, "CHROME");
    assert_eq!(out2.len(), 2);
}

#[test]
fn empty_filter_passes_everything() {
    let raw = vec![proc_rec("a", 1, 0, 0, "Run"), proc_rec("b", 2, 0, 0, "Run")];
    assert_eq!(ingest(&raw, "").len(), 2);
    assert_eq!(ingest(&Vec::new(), "x").len(), 0);
    assert!(name_passes("Anything", ""));
    assert!(!name_passes("Notepad", "chrome"));
}

#[test]
fn empty_name_becomes_pid_label() {
    let raw = vec![proc_rec("", 4242, 0, 0, "Run")];
    let out = ingest(&raw, "");
    assert_eq!(out[0].name, "PID: 4242");
    assert_eq!(out[0].pid, 4242);
    assert_eq!(to_display_record(&proc_rec("", 0, 0, 0, "")).name, "PID: 0");
    assert_eq!(make_pid_label(4294967295), "PID: 4294967295");
    // the label takes part in filtering
    assert_eq!(ingest(&raw, "pid: 42").len(), 1);
}

#[test]
fn text_helpers() {
    assert!(matches_folded("chromedriver", "chrome"));
    assert!(!matches_folded("chrom", "chrome"));
    assert!(matches_folded("abc", ""));
    assert!(contains_chars(&chars_of("hello"), &chars_of("llo")));
    assert!(!contains_chars(&chars_of("hello"), &chars_of("lol")));
    assert_eq!(compare_chars(&chars_of("abc"), &chars_of("abd")), -1);
    assert_eq!(compare_chars(&chars_of("abc"), &chars_of("ab")), 1);
    assert_eq!(compare_chars(&chars_of("ab"), &chars_of("ab")), 0);
    assert_eq!(compare_chars(&chars_of("B"), &chars_of("a")), -1);
    assert_eq!(chars_of("żółw").len(), 4);
}

#[test]
fn disk_usage_percent() {
    assert_eq!(usage_centi(0, 0), 0);
    assert_eq!(usage_centi(0, 500), 0);
    assert_eq!(usage_centi(1000, 250), 7500);
    assert_eq!(usage_centi(1000, 2000), 0);
    assert_eq!(usage_centi(u64::MAX, 0), 10000);
    let d = disk_record(&RawDisk {
        name: "sda".to_string(),
        total_bytes: 1000,
        available_bytes: 250,
        kind: DiskKind::Ssd,
        filesystem: "ext4".to_string(),
    });
    assert_eq!(d.used_bytes, 750);
    assert_eq!(d.usage_centi, 7500);
    assert_eq!(d.kind, DiskKind::Ssd);
    let z = disk_records(&vec![RawDisk {
        name: "empty".to_string(),
        total_bytes: 0,
        available_bytes: 0,
        kind: DiskKind::Unknown,
        filesystem: String::new(),
    }]);
    assert_eq!(z[0].usage_centi, 0);
    assert_eq!(z[0].used_bytes, 0);
}

fn sample_table() -> ProcessTable {
    let mut t = ProcessTable::new();
    t.ingest(&vec![
        proc_rec("delta", 4, 300, 10, "Sleep"),
        proc_rec("alpha", 1, 100, 40, "Run"),
        proc_rec("charlie", 3, 400, 20, "Run"),
        proc_rec("bravo", 2, 200, 30, "Sleep"),
    ]);
    t
}

#[test]
fn rank_by_name_ascending_by_default() {
    let t = sample_table();
    assert_eq!(t.sort_key(), SortKey::Name);
    assert!(!t.descending());
    assert_eq!(names_in_rank(&t), vec!["alpha", "bravo", "charlie", "delta"]);
    // the snapshot itself keeps ingestion order
    assert_eq!(t.records()[0].name, "delta");
}

#[test]
fn rerank_twice_is_idempotent() {
    let mut t = sample_table();
    t.select_column(SortKey::Status);
    let first = t.rank().clone();
    t.rerank();
    assert_eq!(t.rank(), &first);
    t.rerank();
    assert_eq!(t.rank(), &first);
}

#[test]
fn flipping_direction_reverses_distinct_keys() {
    let mut t = sample_table();
    t.select_column(SortKey::Memory);
    assert!(t.descending());
    let desc = t.rank().clone();
    assert_eq!(names_in_rank(&t), vec!["alpha", "bravo", "charlie", "delta"]);
    t.select_column(SortKey::Memory);
    assert!(!t.descending());
    let mut asc = t.rank().clone();
    asc.reverse();
    assert_eq!(asc, desc);
}

#[test]
fn column_defaults_and_toggle() {
    let mut t = sample_table();
    t.select_column(SortKey::Cpu);
    assert!(t.descending());
    assert_eq!(names_in_rank(&t), vec!["charlie", "delta", "bravo", "alpha"]);
    t.select_column(SortKey::Name);
    assert!(!t.descending());
    t.select_column(SortKey::Name);
    assert!(t.descending());
    assert_eq!(names_in_rank(&t), vec!["delta", "charlie", "bravo", "alpha"]);
    t.select_column(SortKey::Status);
    assert!(!t.descending());
}

#[test]
fn stable_ties_keep_prior_order() {
    let mut t = sample_table();
    // by name first: alpha, bravo, charlie, delta
    t.select_column(SortKey::Status);
    // Run: alpha, charlie; Sleep: bravo, delta (prior name order kept)
    assert_eq!(names_in_rank(&t), vec!["alpha", "charlie", "bravo", "delta"]);
}

#[test]
fn sort_positions_identity_start() {
    let recs = vec![proc_rec("b", 1, 5, 0, ""), proc_rec("a", 2, 5, 0, ""), proc_rec("c", 3, 1, 0, "")];
    let mut p = identity_positions(3);
    assert_eq!(p, vec![0, 1, 2]);
    sort_positions(&recs, SortKey::Cpu, false, &mut p);
    assert_eq!(p, vec![2, 0, 1]);
    let mut q = identity_positions(3);
    sort_positions(&recs, SortKey::Name, true, &mut q);
    assert_eq!(q, vec![2, 0, 1]);
}

#[test]
fn rank_regenerated_when_size_changes() {
    let mut t = sample_table();
    t.ingest(&vec![proc_rec("z", 9, 0, 0, ""), proc_rec("y", 8, 0, 0, "")]);
    assert_eq!(t.rank().len(), 2);
    assert_eq!(names_in_rank(&t), vec!["y", "z"]);
    t.ingest(&Vec::new());
    assert_eq!(t.rank().len(), 0);
}

#[test]
fn selection_survives_refresh_without_its_process() {
    let mut m = Monitor::new(1000, 0);
    m.apply_refresh(&vec![proc_rec("a", 7, 0, 0, ""), proc_rec("b", 8, 0, 0, "")], 0, 0, None);
    m.select(7);
    assert_eq!(m.selected_position(), Some(0));
    m.apply_refresh(&vec![proc_rec("b", 8, 0, 0, "")], 0, 0, None);
    assert_eq!(m.current(), Some(7));
    assert_eq!(m.selected_position(), None);
    m.clear_selection();
    assert_eq!(m.current(), None);
    assert_eq!(m.selected_position(), None);
}

#[test]
fn termination_outcome_keeps_selection() {
    let mut m = Monitor::new(1000, 0);
    m.select(5);
    assert_eq!(m.termination_target(), Some(5));
    m.record_termination(5, false);
    assert_eq!(m.last_termination, Some(TerminationOutcome { pid: 5, succeeded: false }));
    assert_eq!(m.current(), Some(5));
}

#[test]
fn monitor_refresh_cycle() {
    let mut m = Monitor::new(1000, 0);
    assert!(matches!(m.tick(0, true), Tick::Refresh { .. }));
    m.set_filter("a".to_string());
    m.apply_refresh(
        &vec![proc_rec("a1", 1, 0, 0, ""), proc_rec("b", 2, 0, 0, "")],
        1234,
        2048,
        Some(&vec![RawDisk {
            name: "d".to_string(),
            total_bytes: 1000,
            available_bytes: 250,
            kind: DiskKind::Hdd,
            filesystem: "ntfs".to_string(),
        }]),
    );
    assert_eq!(m.table.records().len(), 1);
    assert_eq!(m.disks.len(), 1);
    assert_eq!(m.disks[0].usage_centi, 7500);
    assert_eq!(m.history.snapshot(), vec![HistorySample { cpu_centi: 1234, memory_bytes: 2048 }]);
    assert_eq!(m.tick(500, true), Tick::Wait { wake_after_ms: 500 });
    m.apply_refresh(&Vec::new(), 0, 0, None);
    assert_eq!(m.disks.len(), 1);
    assert_eq!(m.table.records().len(), 0);
    m.set_energy_saving(true);
    assert_eq!(m.tick(500, true), Tick::Wait { wake_after_ms: 1500 });
    m.force_refresh();
    assert!(matches!(m.tick(600, true), Tick::Refresh { .. }));
    m.set_base_interval(200);
    m.select_column(SortKey::Memory);
    assert!(m.table.descending());
}

#[test]
fn export_name_format() {
    let t = Stamp { year: 2024, month: 3, day: 7, hour: 9, minute: 5, second: 0 };
    assert_eq!(export_file_name(t, "json"), "processes_20240307_090500.json");
    let u = Stamp { year: 999, month: 12, day: 31, hour: 23, minute: 59, second: 59 };
    assert_eq!(export_file_name(u, "csv"), "processes_09991231_235959.csv");
}

#[test]
fn usage_levels_and_memory_share() {
    assert_eq!(usage_level(0), UsageLevel::Normal);
    assert_eq!(usage_level(7000), UsageLevel::Normal);
    assert_eq!(usage_level(7001), UsageLevel::Elevated);
    assert_eq!(usage_level(9000), UsageLevel::Elevated);
    assert_eq!(usage_level(9001), UsageLevel::Critical);
    assert_eq!(share_centi(512, 2048), 2500);
    assert_eq!(share_centi(1, 3), 3333);
    assert_eq!(share_centi(5, 0), 0);
    assert_eq!(share_centi(u64::MAX, 1), u64::MAX as u128 * 10000);
}
