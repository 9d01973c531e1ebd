use bytes::Bytes;
use loki_ariaforge::state::DownloadState;
use loki_ariaforge::writer::{WriteMsg, WriterStep};

fn msg(offset: u64, data: &'static [u8], close_file: bool, chunk_id: usize) -> WriteMsg {
    WriteMsg { filepath: "out.bin".to_string(), offset, data: Bytes::from_static(data), close_file, chunk_id }
}

#[test]
fn data_message_is_written_at_its_offset() {
    let mut s = DownloadState::fresh(2);
    let step = s.apply_write(&msg(40, b"abc", false, 1));
    assert_eq!(step, WriterStep { write_at: Some(40), chunk_finished: false, all_done: false });
    assert_eq!(s.completed_chunks, vec![false, false]);
}

#[test]
fn close_message_marks_chunk() {
    let mut s = DownloadState::fresh(2);
    let step = s.apply_write(&msg(0, b"", true, 1));
    assert_eq!(step, WriterStep { write_at: None, chunk_finished: true, all_done: false });
    assert_eq!(s.completed_chunks, vec![false, true]);
    let step = s.apply_write(&msg(0, b"", true, 0));
    assert_eq!(step, WriterStep { write_at: None, chunk_finished: true, all_done: true });
    assert_eq!(s.remaining_count(), 0);
}

#[test]
fn closing_twice_is_harmless() {
    let mut s = DownloadState::fresh(3);
    s.apply_write(&msg(0, b"", true, 2));
    let before = s.completed_count();
    let step = s.apply_write(&msg(0, b"", true, 2));
    assert!(step.chunk_finished);
    assert!(!step.all_done);
    assert_eq!(s.completed_count(), before);
}

#[test]
fn empty_data_without_close_does_nothing() {
    let mut s = DownloadState::fresh(1);
    let step = s.apply_write(&msg(9, b"", false, 0));
    assert_eq!(step, WriterStep { write_at: None, chunk_finished: false, all_done: false });
}

#[test]
fn close_with_data_writes_and_marks() {
    let mut s = DownloadState::fresh(1);
    let step = s.apply_write(&msg(3, b"z", true, 0));
    assert_eq!(step, WriterStep { write_at: Some(3), chunk_finished: true, all_done: true });
}

#[test]
fn writer_run_marks_only_closed_chunks_and_keeps_shape() {
    let mut s = DownloadState::fresh(3);
    s.record_content_length(30, 3);
    let msgs = vec![
        msg(0, b"0123456789", false, 0),
        msg(10, b"abcdefghij", false, 1),
        msg(0, b"", true, 0),
        msg(20, b"ABCDEFGHIJ", false, 2),
        msg(0, b"", true, 2),
    ];
    let mut covered = vec![false; 30];
    for m in &msgs {
        let before = s.completed_chunks.clone();
        let step = s.apply_write(m);
        if let Some(off) = step.write_at {
            for b in off..off + m.data.len() as u64 {
                covered[b as usize] = true;
            }
        }
        for j in 0..3 {
            assert!(!before[j] || s.completed_chunks[j]);
        }
        if step.chunk_finished {
            let (a, b) = s.chunk_range(m.chunk_id, 3);
            assert!((a..=b).all(|x| covered[x as usize]));
        }
        assert_eq!((s.num_circuits, s.completed_chunks.len(), s.chunk_size, s.content_length), (3, 3, 10, 30));
    }
    assert_eq!(s.completed_chunks, vec![true, false, true]);
}
