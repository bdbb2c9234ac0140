use proxmox_backup::rrd::{
    count_restarts, extract_plan, invalidated_slots, select_archive, slot, slot_end_time,
    slot_start_time, CF,
};
use proxmox_backup::media_pool::RetentionPolicy;
use proxmox_backup::time_span::{parse_time_span, TimeSpan, TimeSpanError};
use proxmox_backup::verify::{
    archive_type, bad_chunk_counter, bad_chunk_name, group_is_verified, snapshot_verify_outcome,
    ArchiveType, SnapshotVerifyOutcome, owner_matches, snapshot_verify_state,
    ChunkCheck, ChunkOutcome, ChunkStep, ChunkVerifier, VerifyState,
};

#[test]
fn corrupt_chunk_is_quarantined() {
    let digest = openssl::sha::sha256(b"chunk");
    let mut v = ChunkVerifier::new();
    assert_eq!(v.begin_chunk(&digest), ChunkStep::Load);
    let out = v.chunk_checked(&digest, ChunkCheck::Checked { mode_matches: true, valid: false });
    assert_eq!(out, ChunkOutcome::Quarantine);
    assert!(v.is_corrupt(&digest));
    assert!(v.error_count() > 0);
    assert_eq!(v.begin_chunk(&digest), ChunkStep::KnownCorrupt);
    let counter = bad_chunk_counter(&[false]);
    assert_eq!(counter, 0);
    let name = String::from_utf8(bad_chunk_name(&digest, counter)).unwrap();
    assert!(name.ends_with(".0.bad"));
    assert_eq!(name.len(), 64 + 6);
    assert_eq!(snapshot_verify_state(&[true, false]), VerifyState::Failed);
    assert_eq!(snapshot_verify_state(&[true, true]), VerifyState::Passed);
}

#[test]
fn verified_chunks_are_skipped() {
    let digest = openssl::sha::sha256(b"good");
    let mut v = ChunkVerifier::new();
    v.start_index();
    let out = v.chunk_checked(&digest, ChunkCheck::Checked { mode_matches: true, valid: true });
    assert_eq!(out, ChunkOutcome::Done);
    assert!(v.is_verified(&digest));
    assert_eq!(v.begin_chunk(&digest), ChunkStep::AlreadyVerified);
    assert_eq!(v.error_count(), 0);
    assert_eq!(v.load_failed(&openssl::sha::sha256(b"gone")), ChunkOutcome::Quarantine);
    assert_eq!(v.error_count(), 1);
    assert_eq!(bad_chunk_counter(&[true, true, false]), 2);
    assert_eq!(bad_chunk_counter(&[true; 12]), 9);
}

#[test]
fn owner_filter() {
    assert!(owner_matches("alice@pbs", "alice@pbs"));
    assert!(owner_matches("alice@pbs!token1", "alice@pbs"));
    assert!(!owner_matches("alice@pbs", "alice@pbs!token1"));
    assert!(!owner_matches("bob@pbs!t", "alice@pbs"));
    assert!(!group_is_verified("host", "benchmark"));
    assert!(group_is_verified("vm", "100"));
}

#[test]
fn rrd_slots_and_selection() {
    assert_eq!(slot(60, 5, 330), 0);
    assert_eq!(slot(60, 5, 270), 4);
    assert_eq!(slot_start_time(60, 90), 60);
    assert_eq!(slot_end_time(60, 90), Some(120));
    assert_eq!(slot_end_time(60, u64::MAX), None);
    let archives = [(CF::Average, 60), (CF::Maximum, 60), (CF::Average, 3600), (CF::Average, 30)];
    assert_eq!(select_archive(&archives, CF::Average, 60), Some(0));
    assert_eq!(select_archive(&archives, CF::Average, 7200), Some(2));
    assert_eq!(select_archive(&archives, CF::Last, 60), None);
    assert!(count_restarts(60, 5, 200, 100));
    assert!(!count_restarts(60, 5, 90, 60));
}

#[test]
fn rrd_extract_plan_matches_window() {
    // last update at 270: window [0, 300)
    let plan = extract_plan(60, 5, 270, 60, 300);
    assert_eq!(plan, vec![Some(1), Some(2), Some(3), Some(4), None]);
    assert_eq!(extract_plan(60, 5, 270, 300, 60), Vec::<Option<u64>>::new());
    let inv = invalidated_slots(60, 5, 3000, 270);
    assert_eq!(inv.len(), 5);
    assert!(invalidated_slots(60, 5, 300, 270).is_empty());
}

#[test]
fn time_spans() {
    let ts = parse_time_span("2h 30min").unwrap();
    assert_eq!(ts, TimeSpan { hours: 2, minutes: 30, ..Default::default() });
    let ts = parse_time_span("1 day 12 hours 5").unwrap();
    assert_eq!(ts, TimeSpan { days: 1, hours: 12, seconds: 5, ..Default::default() });
    assert_eq!(parse_time_span("3µs").unwrap().usec, 3);
    assert_eq!(parse_time_span("  ").unwrap(), TimeSpan::default());
    assert_eq!(parse_time_span("5 mins"), Err(TimeSpanError::Syntax));
    assert_eq!(parse_time_span("abc"), Err(TimeSpanError::Syntax));
    assert_eq!(parse_time_span("99999999999999999999s"), Err(TimeSpanError::Overflow));
    assert_eq!(RetentionPolicy::from_str("keep"), Ok(RetentionPolicy::KeepForever));
    assert_eq!(RetentionPolicy::from_str("overwrite"), Ok(RetentionPolicy::OverwriteAlways));
    assert_eq!(
        RetentionPolicy::from_str("2 weeks"),
        Ok(RetentionPolicy::ProtectFor(TimeSpan { weeks: 2, ..Default::default() }))
    );
}

#[test]
fn snapshot_verify_decisions() {
    assert_eq!(archive_type("disk.fidx"), Some(ArchiveType::FixedIndex));
    assert_eq!(archive_type("root.pxar.didx"), Some(ArchiveType::DynamicIndex));
    assert_eq!(archive_type("index.json.blob"), Some(ArchiveType::Blob));
    assert_eq!(archive_type("notes.txt"), None);
    let skipped = SnapshotVerifyOutcome { result: true, record: None };
    assert_eq!(snapshot_verify_outcome(false, true, true, &[false]), skipped);
    assert_eq!(
        snapshot_verify_outcome(true, false, true, &[]),
        SnapshotVerifyOutcome { result: false, record: None }
    );
    assert_eq!(snapshot_verify_outcome(true, true, false, &[false]), skipped);
    assert_eq!(
        snapshot_verify_outcome(true, true, true, &[true, false]),
        SnapshotVerifyOutcome { result: false, record: Some(VerifyState::Failed) }
    );
    assert_eq!(
        snapshot_verify_outcome(true, true, true, &[true]),
        SnapshotVerifyOutcome { result: true, record: Some(VerifyState::Passed) }
    );
}
