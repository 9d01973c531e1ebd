use bytes::Bytes;
use loki_ariaforge::circuit::{probe_range_header, range_header_value, Circuit};
use loki_ariaforge::state::DownloadState;

#[test]
fn new_circuit_starts_at_its_first_byte() {
    let c = Circuit::new(3, 100, 199, true);
    assert_eq!((c.chunk_id, c.start_byte, c.end_byte, c.current_offset), (3, 100, 199, 100));
    assert!(c.wants_request(true));
    assert!(!c.wants_request(false));
    assert!(!c.is_complete());
}

#[test]
fn range_header_asks_for_the_rest() {
    let mut c = Circuit::new(0, 100, 199, true);
    assert_eq!(c.range_header().as_deref(), Some("bytes=100-199"));
    let _ = c.on_data(Bytes::from_static(b"0123456789"), "out.bin");
    assert_eq!(c.range_header().as_deref(), Some("bytes=110-199"));
    let unranged = Circuit::new(0, 0, 0, false);
    assert_eq!(unranged.range_header(), None);
}

#[test]
fn probe_header_value() {
    assert_eq!(probe_range_header(), "bytes=0-0");
    assert_eq!(range_header_value(5, 52040670751), "bytes=5-52040670751");
}

#[test]
fn data_is_written_at_consecutive_offsets() {
    let mut c = Circuit::new(2, 50, 74, true);
    let (m1, p1) = c.on_data(Bytes::from_static(b"abcdefghij"), "f.bin");
    assert_eq!((m1.offset, m1.chunk_id, m1.close_file), (50, 2, false));
    assert_eq!(m1.filepath, "f.bin");
    assert_eq!(&m1.data[..], b"abcdefghij");
    assert_eq!((p1.id, p1.downloaded, p1.total), (2, 10, 25));
    assert_eq!(p1.status, "Active");
    let (m2, p2) = c.on_data(Bytes::from_static(b"klmnopqrstuvwxy"), "f.bin");
    assert_eq!(m2.offset, 60);
    assert_eq!((p2.downloaded, p2.total), (25, 25));
    assert_eq!(c.current_offset, 75);
    assert!(c.is_complete());
    assert!(!c.wants_request(true));
}

#[test]
fn empty_piece_leaves_offset() {
    let mut c = Circuit::new(0, 0, 9, true);
    let (m, p) = c.on_data(Bytes::new(), "f");
    assert_eq!(m.offset, 0);
    assert_eq!(p.downloaded, 0);
    assert_eq!(c.current_offset, 0);
}

#[test]
fn completion_message_closes_chunk() {
    let mut c = Circuit::new(4, 10, 19, true);
    let _ = c.on_data(Bytes::from_static(&[7u8; 10]), "g.bin");
    let (m, p) = c.completion("g.bin");
    assert!(m.close_file);
    assert_eq!((m.offset, m.chunk_id), (0, 4));
    assert!(m.data.is_empty());
    assert_eq!((p.id, p.downloaded, p.total), (4, 10, 10));
    assert_eq!(p.status, "Done");
}

#[test]
fn unknown_length_circuit_finishes_after_first_byte() {
    let mut c = Circuit::new(0, 0, 0, false);
    assert!(c.wants_request(true));
    let (m, p) = c.on_data(Bytes::from_static(b"whole file"), "h");
    assert_eq!(m.offset, 0);
    assert_eq!((p.downloaded, p.total), (10, 1));
    assert!(c.is_complete());
}

#[test]
fn circuits_of_a_download_cover_the_file() {
    let n = 4usize;
    let len = 103u64;
    let mut s = DownloadState::fresh(n);
    s.record_content_length(len, n);
    let mut written = vec![0u32; len as usize];
    for a in s.pending_assignments(n) {
        let mut c = Circuit::new(a.chunk_id, a.start_byte, a.end_byte, true);
        while c.wants_request(true) {
            let left = c.end_byte - c.current_offset + 1;
            let piece = vec![1u8; left.min(7) as usize];
            let (m, _) = c.on_data(Bytes::from(piece), "x");
            for b in m.offset..m.offset + m.data.len() as u64 {
                written[b as usize] += 1;
            }
        }
        let (m, _) = c.completion("x");
        s.apply_write(&m);
    }
    assert!(written.iter().all(|&w| w == 1));
    assert_eq!(s.remaining_count(), 0);
}

#[test]
fn take_data_refuses_offset_overflow() {
    let mut c = Circuit::new(1, u64::MAX - 3, u64::MAX - 1, true);
    assert!(c.take_data(Bytes::from_static(b"12345"), "f").is_none());
    assert_eq!(c.current_offset, u64::MAX - 3);
    let (m, p) = c.take_data(Bytes::from_static(b"123"), "f").unwrap();
    assert_eq!(m.offset, u64::MAX - 3);
    assert_eq!((p.downloaded, p.total), (3, 3));
    assert_eq!(c.current_offset, u64::MAX);
    assert!(c.is_complete());
}
