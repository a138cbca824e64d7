use syswatch::model::{ServiceStatus, ServiceTick};
use syswatch::recording::{
    decode_block, push_frame, read_header, session_records, split_records, write_header, BlockWriter, HeaderError,
    IdentityTracker, ProcIdentity, BLOCK_TICKS, FORMAT_VERSION, MAGIC,
};

fn header_of(bytes: &[u8]) -> [u8; 6] {
    let mut h = [0u8; 6];
    h.copy_from_slice(&bytes[..6]);
    h
}

#[test]
fn header_is_magic_then_version() {
    let h = write_header();
    assert_eq!(&h[..4], &MAGIC);
    assert_eq!(&h[..4], b"SWR\0");
    assert_eq!(u16::from_le_bytes([h[4], h[5]]), FORMAT_VERSION);
    assert_eq!(read_header(&header_of(&h)), Ok(()));
}

#[test]
fn rejects_wrong_magic() {
    let err = read_header(&header_of(b"NOPE\x01\x00")).unwrap_err();
    assert!(err.message().contains("not a syswatch recording"));
    assert_eq!(
        err.message(),
        "not a syswatch recording (magic mismatch: [78, 79, 80, 69])"
    );
}

#[test]
fn rejects_future_format_version() {
    let mut bytes = Vec::from(MAGIC);
    bytes.extend_from_slice(&999u16.to_le_bytes());
    let err = read_header(&header_of(&bytes)).unwrap_err();
    assert_eq!(err, HeaderError::Newer(999));
    assert!(err.message().contains("newer than this binary"));
}

#[test]
fn rejects_older_format_version() {
    let mut bytes = Vec::from(MAGIC);
    bytes.extend_from_slice(&2u16.to_le_bytes());
    let err = read_header(&header_of(&bytes)).unwrap_err();
    assert!(err.message().contains("predates this binary"));
    assert_eq!(
        err.message(),
        "recording format v2 predates this binary (needs v3); re-record with the current syswatch"
    );
}

#[test]
fn frames_split_back_into_records() {
    let mut buf = Vec::new();
    for r in [&b"abc"[..], &b""[..], &[7u8; 300][..]] {
        push_frame(&mut buf, r).unwrap();
    }
    assert_eq!(&buf[..4], &3u32.to_le_bytes());
    let (records, truncated) = split_records(&buf);
    assert!(!truncated);
    assert_eq!(records, vec![b"abc".to_vec(), Vec::new(), vec![7u8; 300]]);
}

#[test]
fn split_records_reports_a_frame_running_past_the_end() {
    let mut buf = Vec::new();
    push_frame(&mut buf, b"ok").unwrap();
    buf.extend_from_slice(&999_999u32.to_le_bytes());
    buf.extend_from_slice(b"short");
    let (records, truncated) = split_records(&buf);
    assert!(truncated);
    assert_eq!(records, vec![b"ok".to_vec()]);
    let (r2, t2) = split_records(&[1, 2, 3]);
    assert!(r2.is_empty());
    assert!(!t2);
}

#[test]
fn block_writer_round_trips_through_zstd() {
    let mut w = BlockWriter::new();
    let mut due = false;
    for i in 0..BLOCK_TICKS {
        due = w.push(&[i as u8; 10]).unwrap();
    }
    assert!(due);
    assert_eq!(w.count(), BLOCK_TICKS as u64);
    let block = w.next_block().unwrap().expect("a block is buffered");
    let len = u32::from_le_bytes([block[0], block[1], block[2], block[3]]) as usize;
    assert_eq!(len, block.len() - 4);
    let (records, truncated) = decode_block(&block[4..]).expect("valid zstd");
    assert!(!truncated);
    assert_eq!(records.len(), BLOCK_TICKS);
    assert_eq!(records[5], vec![5u8; 10]);
    w.block_written();
    assert_eq!(w.next_block().unwrap(), None);
}

#[test]
fn corrupt_block_does_not_decode() {
    assert!(decode_block(&[0xFFu8; 16]).is_none());
}

fn ident(pid: u32, name: &str, start: u64) -> ProcIdentity {
    ProcIdentity {
        pid,
        ppid: 1,
        user: "matt".into(),
        name: name.into(),
        cmd: format!("/usr/bin/{name}"),
        start_time: Some((true, start, 0)),
    }
}

fn service(name: &str) -> ServiceTick {
    ServiceTick {
        name: name.into(),
        status: ServiceStatus::Unknown,
        pid: None,
        exit_code: None,
        detail: String::new(),
    }
}

#[test]
fn tracker_sends_identities_once_and_reads_them_back_in_order() {
    let mut enc = IdentityTracker::new();
    let mut dec = IdentityTracker::new();
    let tick1 = vec![ident(100, "chrome", 0), ident(200, "sshd", 0)];
    let (w1, s1) = enc.encode(&tick1, &vec![service("sshd")]);
    assert_eq!(w1.len(), 2);
    let (ids1, svc1) = dec.decode(w1, s1, &vec![100, 200]).unwrap();
    assert_eq!(ids1[0].name, "chrome");
    assert_eq!(svc1.len(), 1);

    let (w2, s2) = enc.encode(&tick1, &vec![service("sshd")]);
    assert!(w2.is_empty());
    assert!(s2.is_none());
    let (ids2, svc2) = dec.decode(w2, s2, &vec![200, 100]).unwrap();
    assert_eq!(ids2[0].name, "sshd");
    assert_eq!(ids2[1].pid, 100);
    assert_eq!(svc2[0].name, "sshd");
}

#[test]
fn tracker_resends_identity_on_pid_reuse() {
    let mut enc = IdentityTracker::new();
    let mut dec = IdentityTracker::new();
    let (w1, s1) = enc.encode(&vec![ident(500, "old-proc", 0)], &vec![]);
    dec.decode(w1, s1, &vec![500]).unwrap();
    let (w2, s2) = enc.encode(&vec![ident(500, "new-proc", 2)], &vec![]);
    assert_eq!(w2.len(), 1);
    let (ids, _) = dec.decode(w2, s2, &vec![500]).unwrap();
    assert_eq!(ids[0].name, "new-proc");
    assert_eq!(ids[0].start_time, Some((true, 2, 0)));
}

#[test]
fn tracker_refuses_unknown_pids_and_missing_services() {
    let mut dec = IdentityTracker::new();
    assert!(dec.decode(vec![], None, &vec![]).is_none());
    let mut dec2 = IdentityTracker::new();
    assert!(dec2.decode(vec![], Some(vec![]), &vec![42]).is_none());
}

#[test]
fn round_trip_preserves_process_identity_and_order() {
    let mut enc = IdentityTracker::new();
    let mut dec = IdentityTracker::new();
    let tick = vec![ident(100, "chrome", 0), ident(200, "sshd", 0)];
    let mut back = Vec::new();
    for _ in 0..2 {
        let (w, s) = enc.encode(&tick, &vec![]);
        back.push(dec.decode(w, s, &vec![100, 200]).unwrap().0);
    }
    assert_eq!(back.len(), 2);
    assert_eq!(back[0][0].name, "chrome");
    assert_eq!(back[1][0].name, "chrome");
    assert_eq!(back[1][1].name, "sshd");
    assert_eq!(back[1][0].pid, 100);
    assert_eq!(back[1][1].pid, 200);
}

#[test]
fn pid_reuse_gets_a_fresh_identity_not_the_stale_one() {
    let mut enc = IdentityTracker::new();
    let mut dec = IdentityTracker::new();
    let (w1, s1) = enc.encode(&vec![ident(500, "old-proc", 0)], &vec![]);
    let first = dec.decode(w1, s1, &vec![500]).unwrap().0;
    let (w2, s2) = enc.encode(&vec![ident(500, "new-proc", 2)], &vec![]);
    let second = dec.decode(w2, s2, &vec![500]).unwrap().0;
    assert_eq!(first[0].name, "old-proc");
    assert_eq!(second[0].name, "new-proc");
    assert_eq!(second[0].start_time, Some((true, 2, 0)));
}

#[test]
fn unchanged_services_are_not_resent_but_still_decode() {
    let mut enc = IdentityTracker::new();
    let mut dec = IdentityTracker::new();
    let s1 = vec![service("sshd"), service("cron")];
    let s2 = vec![service("sshd"), service("cron")];
    let s3 = vec![service("sshd")];
    let mut back: Vec<Vec<ServiceTick>> = Vec::new();
    let mut sent = Vec::new();
    for s in [&s1, &s2, &s3] {
        let (w, written) = enc.encode(&vec![], s);
        sent.push(written.is_some());
        back.push(dec.decode(w, written, &vec![]).unwrap().1);
    }
    assert_eq!(sent, vec![true, false, true]);
    assert_eq!(back[0].len(), 2);
    assert_eq!(back[1].len(), 2);
    assert_eq!(back[1][0].name, back[0][0].name);
    assert_eq!(back[1][1].name, back[0][1].name);
    assert_eq!(back[2].len(), 1);
}

/// A session file of `records` in one block, as the recorder writes it.
fn session_bytes(records: &[Vec<u8>]) -> Vec<u8> {
    let mut out = write_header();
    let mut w = BlockWriter::new();
    for r in records {
        w.push(r).unwrap();
    }
    out.extend(w.next_block().unwrap().expect("a block is buffered"));
    out
}

/// The records a reader recovers from a session file.
fn recovered(file: &[u8]) -> usize {
    assert_eq!(read_header(&header_of(file)), Ok(()));
    session_records(&file[6..]).len()
}

#[test]
fn truncated_block_length_returns_partial() {
    let mut file = session_bytes(&[vec![10u8; 8], vec![20u8; 8]]);
    file.extend_from_slice(&999_999u32.to_le_bytes());
    assert_eq!(recovered(&file), 2);
}

#[test]
fn corrupt_compressed_block_returns_partial() {
    let mut file = session_bytes(&[vec![1u8; 8]]);
    let garbage = vec![0xFFu8; 16];
    push_frame(&mut file, &garbage).unwrap();
    assert_eq!(recovered(&file), 1);
}

#[test]
fn session_records_reads_every_block_in_order() {
    let mut w = BlockWriter::new();
    w.push(&[1u8, 2]).unwrap();
    w.push(&[3u8]).unwrap();
    let mut body = w.next_block().unwrap().unwrap();
    w.block_written();
    w.push(&[4u8, 5, 6]).unwrap();
    body.extend(w.next_block().unwrap().unwrap());
    let records = session_records(&body);
    assert_eq!(records, vec![vec![1u8, 2], vec![3u8], vec![4u8, 5, 6]]);
    assert!(session_records(&[]).is_empty());
}
