use proxmox_backup::blob::{
    check_crc, check_signature, parse_blob_header, verify_unencrypted, BlobError, BlobMode, UploadChunk,
    AUTHENTICATED_BLOB_MAGIC_1_0, UNCOMPRESSED_BLOB_MAGIC_1_0,
};
use proxmox_backup::calendar::{parse_calendar_event, CalendarError, DateTimeValue};
use proxmox_backup::chunk_reader::RemoteChunkReader;
use proxmox_backup::media_pool::{MediaPoolConfig, MediaSetPolicy};
use proxmox_backup::task::{last_log_line, task_state_from_last_line, TaskState};

#[test]
fn calendar_words_and_specs() {
    let ev = parse_calendar_event("daily").unwrap();
    assert_eq!(ev.hour, vec![DateTimeValue::Single(0)]);
    assert_eq!(ev.days, 0);
    let ev = parse_calendar_event("minutely").unwrap();
    assert!(ev.hour.is_empty() && ev.minute.is_empty());
    assert_eq!(ev.second, vec![DateTimeValue::Single(0)]);
    let ev = parse_calendar_event("mon..fri 8:30").unwrap();
    assert_eq!(ev.days, 0b0011111);
    assert_eq!(ev.hour, vec![DateTimeValue::Single(8)]);
    assert_eq!(ev.minute, vec![DateTimeValue::Single(30)]);
    assert_eq!(ev.second, vec![DateTimeValue::Single(0)]);
    let ev = parse_calendar_event("sat..mon").unwrap();
    assert_eq!(ev.days, 0b1100001);
    let ev = parse_calendar_event("*:0/15,50..55:10").unwrap();
    assert!(ev.hour.is_empty());
    assert_eq!(ev.minute, vec![DateTimeValue::Repeated(0, 15), DateTimeValue::Range(50, 55)]);
    assert_eq!(ev.second, vec![DateTimeValue::Single(10)]);
    let ev = parse_calendar_event("Sun,wed").unwrap();
    assert_eq!(ev.days, 64 | 4);
    assert_eq!(parse_calendar_event("monthly"), Err(CalendarError::NotImplemented));
    assert_eq!(parse_calendar_event("noday"), Err(CalendarError::Syntax));
    assert_eq!(parse_calendar_event("8:"), Err(CalendarError::Syntax));
    assert_eq!(parse_calendar_event("mon,"), Err(CalendarError::Syntax));
    assert_eq!(parse_calendar_event(""), Err(CalendarError::Syntax));
}

#[test]
fn media_set_policies() {
    assert_eq!(MediaSetPolicy::from_str("continue"), Ok(MediaSetPolicy::ContinueCurrent));
    assert_eq!(MediaSetPolicy::from_str("always"), Ok(MediaSetPolicy::AlwaysCreate));
    match MediaSetPolicy::from_str("hourly") {
        Ok(MediaSetPolicy::CreateAt(ev)) => assert_eq!(ev.minute, vec![DateTimeValue::Single(0)]),
        other => panic!("unexpected {:?}", other),
    }
    assert!(MediaSetPolicy::from_str("sometimes").is_err());
    let cfg = MediaPoolConfig {
        name: "pool1".to_string(),
        drive: "drive0".to_string(),
        allocation: Some("always".to_string()),
        retention: None,
        template: None,
    };
    assert_eq!(cfg.clone(), cfg);
}

#[test]
fn blob_headers() {
    let mut data = UNCOMPRESSED_BLOB_MAGIC_1_0.to_vec();
    data.extend_from_slice(&0x11223344u32.to_le_bytes());
    data.extend_from_slice(b"payload");
    let h = parse_blob_header(&data).unwrap();
    assert_eq!(h.mode, BlobMode::Uncompressed);
    assert_eq!(h.crc, 0x11223344);
    assert_eq!(h.payload_start, 12);
    assert_eq!(check_crc(&h, 0x11223344), Ok(()));
    assert_eq!(check_crc(&h, 1), Err(BlobError::CrcMismatch));

    let mut signed = AUTHENTICATED_BLOB_MAGIC_1_0.to_vec();
    signed.extend_from_slice(&[0u8; 4]);
    assert_eq!(parse_blob_header(&signed), Err(BlobError::TooShort));
    signed.extend_from_slice(&[7u8; 32]);
    let h = parse_blob_header(&signed).unwrap();
    assert_eq!(h.mode, BlobMode::Signed);
    assert_eq!(h.auth, [7u8; 32]);
    assert_eq!(check_signature(&h, Some([7u8; 32])), Ok(()));
    assert_eq!(check_signature(&h, Some([8u8; 32])), Err(BlobError::SignatureMismatch));
    assert_eq!(check_signature(&h, None), Ok(()));
    assert_eq!(parse_blob_header(&[1u8; 20]), Err(BlobError::BadMagic));
}

#[test]
fn chunk_content_addressing() {
    let plain = b"some chunk data";
    let digest = openssl::sha::sha256(plain);
    assert_eq!(verify_unencrypted(plain, plain.len(), &digest), Ok(()));
    assert_eq!(verify_unencrypted(plain, 3, &digest), Err(BlobError::SizeMismatch));
    assert_eq!(verify_unencrypted(b"other chunk dat", 15, &digest), Err(BlobError::DigestMismatch));

    let mut up = UploadChunk::new(digest, plain.len() as u32, 10);
    up.push_data(&[1, 2, 3, 4]).unwrap();
    assert_eq!(up.finish(), Err(BlobError::UnexpectedSize));
    assert_eq!(up.push_data(&[0u8; 7]), Err(BlobError::LargerThanAnnounced));
    up.push_data(&[5, 6, 7, 8, 9, 10]).unwrap();
    assert_eq!(up.finish(), Ok(vec![1, 2, 3, 4, 5, 6, 7, 8, 9, 10]));
    assert_eq!(up.accept_plaintext(plain), Ok(()));
    assert!(up.accept_plaintext(b"tampered chunk!").is_err());
}

#[test]
fn remote_reader_cache() {
    let a = openssl::sha::sha256(b"a");
    let b = openssl::sha::sha256(b"b");
    let mut r = RemoteChunkReader::new(vec![a]);
    assert!(r.use_cache(&a));
    assert!(!r.use_cache(&b));
    assert_eq!(r.cached_chunk(&a), None);
    r.chunk_decoded(&a, b"data-a");
    r.chunk_decoded(&b, b"data-b");
    assert_eq!(r.cached_chunk(&a), Some(b"data-a".to_vec()));
    assert_eq!(r.cached_chunk(&b), None);
}

#[test]
fn task_log_last_line() {
    let log = b"2021-01-01T00:00:00+00:00: starting\n2021-01-01T00:00:05+00:00: TASK OK\n";
    let line = last_log_line(log);
    assert_eq!(line, b"2021-01-01T00:00:05+00:00: TASK OK".to_vec());
    let text = String::from_utf8(line).unwrap();
    assert_eq!(task_state_from_last_line(&text, 1), TaskState::OK { endtime: 1609459205 });
    assert_eq!(
        task_state_from_last_line("2021-01-01T00:00:05+00:00: TASK ERROR: failed", 1),
        TaskState::Error { message: "failed".to_string(), endtime: 1609459205 }
    );
    assert_eq!(task_state_from_last_line("garbage", 42), TaskState::Unknown { endtime: 42 });
    assert_eq!(last_log_line(b"single"), b"single".to_vec());
    assert_eq!(last_log_line(b""), Vec::<u8>::new());
}
