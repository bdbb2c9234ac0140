use proxmox_backup::index::{
    compute_index_csum, hex_to_digest, Digest, DynamicIndexReader, DynamicIndexWriter,
    FixedIndexReader, FixedIndexWriter, IndexError,
};
use proxmox_backup::session::{
    check_backup_start, check_new_snapshot, digest_to_hex, session_outcome, BackupSession,
    SessionError, SessionOutcome, WorkerKind, FIXED_CHUNK_SIZE,
};

const MIB: u64 = 1024 * 1024;

fn d(n: u8) -> Digest {
    openssl::sha::sha256(&[n])
}

fn hex(d: &Digest) -> String {
    String::from_utf8(digest_to_hex(d)).unwrap()
}

#[test]
fn sha256_of_known_input() {
    let h = openssl::sha::sha256(b"abc");
    assert_eq!(hex(&h), "ba7816bf8f01cfea414140de5dae2223b00361a396177a9cb410ff61f20015ad");
    assert_eq!(hex_to_digest(&hex(&h)), Some(h));
    assert_eq!(hex_to_digest("zz"), None);
}

#[test]
fn index_csum_is_sha_of_concatenated_digests() {
    let ds = [d(1), d(2)];
    let mut cat = Vec::new();
    cat.extend_from_slice(&ds[0]);
    cat.extend_from_slice(&ds[1]);
    assert_eq!(compute_index_csum(&ds), openssl::sha::sha256(&cat));
}

#[test]
fn fixed_index_reopen_keeps_csum() {
    let mut w = FixedIndexWriter::new(8 * MIB, 4 * MIB).unwrap();
    w.add_chunk(0, 4 * MIB, &d(1)).unwrap();
    w.add_chunk(4 * MIB, 4 * MIB, &d(2)).unwrap();
    let (csum, size) = w.close(false).unwrap();
    assert_eq!(size, 8 * MIB);
    let bytes = w.to_file_bytes();
    let r = FixedIndexReader::open(&bytes).unwrap();
    assert_eq!(r.index_count(), 2);
    assert_eq!(r.compute_csum(), (csum, 8 * MIB));
    assert_eq!(r.digest_list(), vec![d(1), d(2)]);
    assert!(FixedIndexReader::open(&bytes[..40]).is_err());
}

#[test]
fn fixed_index_slot_rules() {
    let mut w = FixedIndexWriter::new(10, 4).unwrap();
    assert_eq!(w.index_count(), 3);
    assert_eq!(w.add_chunk(1, 4, &d(1)), Err(IndexError::UnalignedOffset));
    assert_eq!(w.add_chunk(8, 4, &d(1)), Err(IndexError::OutOfRange));
    assert_eq!(w.add_chunk(0, 3, &d(1)), Err(IndexError::WrongChunkSize));
    w.add_chunk(8, 2, &d(1)).unwrap();
    assert_eq!(w.add_chunk(8, 2, &d(1)), Err(IndexError::SlotWrittenTwice));
    assert_eq!(w.close(false), Err(IndexError::MissingChunks));
    assert!(w.close(true).is_ok());
}

#[test]
fn dynamic_index_reopen_keeps_csum() {
    let mut w = DynamicIndexWriter::new();
    w.add_chunk(0, 100, &d(1)).unwrap();
    assert_eq!(w.add_chunk(50, 10, &d(2)), Err(IndexError::OffsetMismatch));
    w.add_chunk(100, 50, &d(2)).unwrap();
    let (csum, size) = w.close();
    assert_eq!(size, 150);
    let r = DynamicIndexReader::open(&w.to_file_bytes()).unwrap();
    assert_eq!(r.compute_csum(), (csum, 150));
    assert_eq!(r.chunk_info(1), Some((d(2), 100, 150)));
    assert_eq!(r.chunk_info(2), None);
}

#[test]
fn empty_backup_then_double_finish() {
    let mut s = BackupSession::new();
    assert_eq!(s.finish(&[], true), Err(SessionError::MissingManifest));
    s.add_blob("index.json.blob", 10, 10).unwrap();
    s.finish(&[], true).unwrap();
    assert!(s.ensure_finished().is_ok());
    assert_eq!(s.finish(&[], true), Err(SessionError::Finished));
    assert_eq!(s.register_chunk(&d(1), 4), Err(SessionError::Finished));
    assert_eq!(s.create_dynamic_index("a.didx"), Err(SessionError::Finished));
    assert_eq!(s.add_blob("x.blob", 1, 1), Err(SessionError::Finished));
    assert_eq!(s.lookup_chunk(&d(1)), None);
}

#[test]
fn fixed_incremental_backup() {
    // previous snapshot: disk.fidx of 8 MiB in four 2 MiB chunks D1..D4
    let cs = 2 * MIB;
    let mut prev = FixedIndexWriter::new(8 * MIB, cs).unwrap();
    for i in 0..4u64 {
        prev.add_chunk(i * cs, cs, &d(i as u8 + 1)).unwrap();
    }
    let (c, _) = prev.close(false).unwrap();
    let prev_reader = FixedIndexReader::open(&prev.to_file_bytes()).unwrap();

    let mut s = BackupSession::new();
    let wid = s
        .create_fixed_index("disk.fidx", 8 * MIB, cs, Some(&hex(&c)), Some(&prev_reader))
        .unwrap();
    assert_eq!(wid, 1);
    let d2_new = d(22);
    s.register_fixed_chunk(wid, &d2_new, cs as u32).unwrap();
    s.fixed_append(wid, &[d2_new], &[cs]).unwrap();
    let expected = compute_index_csum(&[d(1), d2_new, d(3), d(4)]);
    assert_eq!(s.fixed_writer_close(wid, 4, 8 * MIB, &c), Err(SessionError::CsumMismatch));
    s.fixed_writer_close(wid, 4, 8 * MIB, &expected).unwrap();
    s.add_blob("index.json.blob", 3, 3).unwrap();
    let files = vec!["disk.fidx".to_string()];
    assert_eq!(s.finish(&[], true), Err(SessionError::ManifestMismatch));
    assert_eq!(s.finish(&files, false), Err(SessionError::BadSignature));
    s.finish(&files, true).unwrap();
}

#[test]
fn incremental_needs_matching_csum() {
    let prev = FixedIndexWriter::new(8 * MIB, FIXED_CHUNK_SIZE).unwrap();
    let mut s0 = BackupSession::new();
    assert_eq!(s0.create_fixed_index("x.fidx", 1, 0, None, None), Err(SessionError::BadChunkSize));
    let reader = FixedIndexReader::open(&prev.to_file_bytes()).unwrap();
    let mut s = BackupSession::new();
    assert_eq!(
        s.create_fixed_index("disk.fidx", 8 * MIB, FIXED_CHUNK_SIZE, Some("00"), Some(&reader)),
        Err(SessionError::CsumMismatch)
    );
    assert_eq!(
        s.create_fixed_index("disk.fidx", 8 * MIB, FIXED_CHUNK_SIZE, Some("00"), None),
        Err(SessionError::NoPreviousBackup)
    );
    assert_eq!(s.create_fixed_index("disk.img", 8 * MIB, FIXED_CHUNK_SIZE, None, None), Err(SessionError::WrongExtension));
}

#[test]
fn dynamic_session_flow() {
    let mut s = BackupSession::new();
    let wid = s.create_dynamic_index("root.didx").unwrap();
    assert_eq!(s.dynamic_append(wid, &[d(1)], &[0]), Err(SessionError::UnknownChunk));
    s.register_dynamic_chunk(wid, &d(1), 100).unwrap();
    s.register_dynamic_chunk(wid, &d(2), 50).unwrap();
    assert_eq!(s.dynamic_append(wid, &[d(1)], &[0, 1]), Err(SessionError::LengthMismatch));
    s.dynamic_append(wid, &[d(1), d(2)], &[0, 100]).unwrap();
    let csum = compute_index_csum(&[d(1), d(2)]);
    assert_eq!(s.dynamic_writer_close(wid, 2, 149, &csum), Err(SessionError::SizeMismatch));
    assert_eq!(s.add_blob("index.json.blob", 3, 3), Ok(()));
    assert_eq!(s.finish(&[], true), Err(SessionError::OpenWriters));
    s.dynamic_writer_close(wid, 2, 150, &csum).unwrap();
    assert_eq!(s.dynamic_writer_close(wid, 2, 150, &csum), Err(SessionError::UnknownWriter));
    assert_eq!(
        s.finish(&["root.didx".to_string(), "extra.blob".to_string()], true),
        Err(SessionError::ManifestMismatch)
    );
    s.finish(&["root.didx".to_string()], true).unwrap();
}

#[test]
fn fixed_chunk_registration_rules() {
    let mut s = BackupSession::new();
    let wid = s.create_fixed_index("a.fidx", 10 * MIB, FIXED_CHUNK_SIZE, None, None).unwrap();
    assert_eq!(s.register_fixed_chunk(wid, &d(1), (FIXED_CHUNK_SIZE + 1) as u32), Err(SessionError::LargeChunk));
    s.register_fixed_chunk(wid, &d(1), 100).unwrap();
    assert_eq!(s.register_fixed_chunk(wid, &d(2), 100), Err(SessionError::MultipleEndChunks));
    assert_eq!(s.register_dynamic_chunk(wid, &d(2), 100), Err(SessionError::WrongWriterKind));
    assert_eq!(s.lookup_chunk(&d(1)), Some(100));
    assert_eq!(s.add_blob("x.blob", 5, 4), Err(SessionError::BlobSizeMismatch));
}

#[test]
fn session_open_checks() {
    assert_eq!(
        check_backup_start("proxmox-backup-protocol-v1", "host", "foo", false),
        Ok(WorkerKind::Backup)
    );
    assert_eq!(
        check_backup_start("proxmox-backup-protocol-v1", "host", "benchmark", true),
        Ok(WorkerKind::Benchmark)
    );
    assert_eq!(
        check_backup_start("proxmox-backup-protocol-v1", "host", "benchmark", false),
        Err(SessionError::BenchmarkMismatch)
    );
    assert_eq!(check_backup_start("other", "host", "foo", false), Err(SessionError::WrongProtocol));
    assert_eq!(check_new_snapshot(WorkerKind::Backup, true, Some(1000), 2000, true), Ok(()));
    assert_eq!(
        check_new_snapshot(WorkerKind::Backup, true, Some(2000), 2000, true),
        Err(SessionError::TimeNotAfterLast)
    );
    assert_eq!(check_new_snapshot(WorkerKind::Backup, false, None, 1, true), Err(SessionError::NotOwner));
    assert_eq!(check_new_snapshot(WorkerKind::Benchmark, false, None, 1, true), Ok(()));
    assert_eq!(check_new_snapshot(WorkerKind::Backup, true, None, 1, false), Err(SessionError::SnapshotExists));
    assert_eq!(
        session_outcome(false, false),
        SessionOutcome { keep_snapshot: false, success: false }
    );
    assert_eq!(session_outcome(false, true), SessionOutcome { keep_snapshot: true, success: true });
    assert_eq!(session_outcome(true, true), SessionOutcome { keep_snapshot: false, success: true });
}

#[test]
fn download_previous_registers_chunks() {
    let mut prev = FixedIndexWriter::new(5 * MIB, 2 * MIB).unwrap();
    prev.add_chunk(0, 2 * MIB, &d(1)).unwrap();
    prev.add_chunk(2 * MIB, 2 * MIB, &d(2)).unwrap();
    prev.add_chunk(4 * MIB, MIB, &d(3)).unwrap();
    let reader = FixedIndexReader::open(&prev.to_file_bytes()).unwrap();
    let list = reader.chunk_list();
    assert_eq!(list, vec![(d(1), 2 * MIB), (d(2), 2 * MIB), (d(3), MIB)]);

    let mut dynw = DynamicIndexWriter::new();
    dynw.add_chunk(0, 10, &d(4)).unwrap();
    dynw.add_chunk(10, 5, &d(5)).unwrap();
    let dr = DynamicIndexReader::open(&dynw.to_file_bytes()).unwrap();
    assert_eq!(dr.chunk_list(), vec![(d(4), 10), (d(5), 5)]);

    let mut s = BackupSession::new();
    s.register_previous_chunks(&list).unwrap();
    assert_eq!(s.lookup_chunk(&d(3)), Some(MIB as u32));
    assert_eq!(s.register_previous_chunks(&[(d(6), 1u64 << 33)]), Err(SessionError::LargeChunk));
    assert_eq!(s.lookup_chunk(&d(6)), None);
    let wid = s.create_dynamic_index("root.didx").unwrap();
    s.register_previous_chunks(&dr.chunk_list()).unwrap();
    s.dynamic_append(wid, &[d(4), d(5)], &[0, 10]).unwrap();
}

#[test]
fn session_index_file_bytes() {
    let mut s = BackupSession::new();
    assert_eq!(s.index_file_bytes(1), None);
    let wid = s.create_dynamic_index("a.didx").unwrap();
    s.register_dynamic_chunk(wid, &d(1), 7).unwrap();
    s.dynamic_append(wid, &[d(1)], &[0]).unwrap();
    let bytes = s.index_file_bytes(wid).unwrap();
    let r = DynamicIndexReader::open(&bytes).unwrap();
    assert_eq!(r.chunk_info(0), Some((d(1), 0, 7)));
}
