use loki_ariaforge::state::{chunk_size_for, resume_or_start, ChunkAssignment, DownloadState};

fn state(completed: Vec<bool>, num_circuits: usize, chunk_size: u64, content_length: u64) -> DownloadState {
    DownloadState { completed_chunks: completed, num_circuits, chunk_size, content_length }
}

#[test]
fn default_state_is_blank() {
    let s = DownloadState::default();
    assert!(s.completed_chunks.is_empty());
    assert_eq!((s.num_circuits, s.chunk_size, s.content_length), (0, 0, 0));
}

#[test]
fn fresh_state_has_nothing_done() {
    let s = DownloadState::fresh(4);
    assert_eq!(s.completed_chunks, vec![false; 4]);
    assert_eq!(s.num_circuits, 4);
    assert_eq!(s.completed_count(), 0);
    assert_eq!(s.remaining_count(), 4);
}

#[test]
fn resume_takes_matching_saved_state() {
    let saved = state(vec![true, false, true], 3, 100, 300);
    let (s, resuming) = resume_or_start(true, Some(saved), 3);
    assert!(resuming);
    assert_eq!(s.completed_chunks, vec![true, false, true]);
    assert_eq!((s.num_circuits, s.chunk_size, s.content_length), (3, 100, 300));
}

#[test]
fn resume_rejects_other_circuit_count() {
    let saved = state(vec![true, false], 2, 100, 200);
    let (s, resuming) = resume_or_start(true, Some(saved), 3);
    assert!(!resuming);
    assert!(s.completed_chunks.is_empty());
    assert_eq!(s.num_circuits, 0);
}

#[test]
fn unreadable_state_file_leaves_blank_state() {
    let (s, resuming) = resume_or_start(true, None, 5);
    assert!(!resuming);
    assert!(s.completed_chunks.is_empty());
    assert_eq!(s.num_circuits, 0);
}

#[test]
fn no_state_file_starts_fresh() {
    let saved = state(vec![true], 1, 1, 1);
    let (s, resuming) = resume_or_start(false, Some(saved), 2);
    assert!(!resuming);
    assert_eq!(s.completed_chunks, vec![false, false]);
    assert_eq!(s.num_circuits, 2);
}

#[test]
fn chunk_size_divides_length() {
    assert_eq!(chunk_size_for(1000, 3), 333);
    assert_eq!(chunk_size_for(0, 0), 0);
    assert_eq!(chunk_size_for(0, 7), 0);
    assert_eq!(chunk_size_for(52040670752, 150), 346937805);
}

#[test]
fn record_content_length_sets_share() {
    let mut s = DownloadState::fresh(4);
    s.record_content_length(1003, 4);
    assert_eq!(s.content_length, 1003);
    assert_eq!(s.chunk_size, 250);
    assert_eq!(s.num_circuits, 4);
}

#[test]
fn chunk_ranges_tile_the_file() {
    let mut s = DownloadState::fresh(3);
    s.record_content_length(10, 3);
    assert_eq!(s.chunk_range(0, 3), (0, 2));
    assert_eq!(s.chunk_range(1, 3), (3, 5));
    assert_eq!(s.chunk_range(2, 3), (6, 9));
}

#[test]
fn tiling_law_on_many_sizes() {
    for n in 1usize..12 {
        for len in (n as u64)..60 {
            let mut s = DownloadState::fresh(n);
            s.record_content_length(len, n);
            assert!(s.check_plan_defined(n));
            let mut next = 0u64;
            for i in 0..n {
                let (a, b) = s.chunk_range(i, n);
                assert_eq!(a, next);
                assert!(a <= b);
                next = b + 1;
            }
            assert_eq!(next, len);
        }
    }
}

#[test]
fn unknown_length_asks_whole_file() {
    let s = DownloadState::fresh(4);
    for i in 0..4 {
        assert_eq!(s.chunk_range(i, 4), (0, 0));
    }
}

#[test]
fn plan_check_catches_short_state() {
    let s = DownloadState::default();
    assert!(!s.check_plan_defined(3));
    assert!(s.check_plan_defined(0));
}

#[test]
fn plan_check_catches_zero_share() {
    let mut s = DownloadState::fresh(5);
    s.record_content_length(3, 5);
    assert_eq!(s.chunk_size, 0);
    assert!(!s.check_plan_defined(5));
}

#[test]
fn plan_check_catches_overflow() {
    let s = state(vec![false, false, false], 3, u64::MAX, u64::MAX);
    assert!(!s.check_plan_defined(3));
    let s = state(vec![false, false], 2, u64::MAX, u64::MAX);
    assert!(s.check_plan_defined(2));
    assert_eq!(s.chunk_range(1, 2), (u64::MAX, u64::MAX - 1));
    let s = state(vec![false, true], 2, u64::MAX, u64::MAX);
    assert!(s.check_plan_defined(2));
    assert_eq!(s.chunk_range(0, 2), (0, u64::MAX - 1));
    let s = state(vec![true, false, false], 3, u64::MAX / 2 + 1, u64::MAX);
    assert!(!s.check_plan_defined(3));
    let s = state(vec![true, false], 2, u64::MAX, u64::MAX);
    assert!(s.check_plan_defined(2));
}

#[test]
fn pending_assignments_skip_completed() {
    let mut s = DownloadState::fresh(4);
    s.record_content_length(100, 4);
    s.mark_completed(1);
    s.mark_completed(3);
    assert!(s.check_plan_defined(4));
    let plan = s.pending_assignments(4);
    assert_eq!(
        plan,
        vec![
            ChunkAssignment { chunk_id: 0, start_byte: 0, end_byte: 24 },
            ChunkAssignment { chunk_id: 2, start_byte: 50, end_byte: 74 },
        ]
    );
}

#[test]
fn pending_assignments_for_fresh_download_cover_all() {
    let mut s = DownloadState::fresh(3);
    s.record_content_length(7, 3);
    let plan = s.pending_assignments(3);
    let ids: Vec<usize> = plan.iter().map(|a| a.chunk_id).collect();
    assert_eq!(ids, vec![0, 1, 2]);
    assert_eq!(plan[2], ChunkAssignment { chunk_id: 2, start_byte: 4, end_byte: 6 });
}

#[test]
fn completed_and_remaining_counts() {
    let mut s = DownloadState::fresh(5);
    s.mark_completed(0);
    s.mark_completed(4);
    s.mark_completed(4);
    assert_eq!(s.completed_count(), 2);
    assert_eq!(s.remaining_count(), 3);
    assert_eq!(s.completed_chunks, vec![true, false, false, false, true]);
}

#[test]
fn all_pending_closed_completes_state() {
    let mut s = state(vec![true, false, true, false], 4, 10, 40);
    let plan = s.pending_assignments(4);
    for a in &plan {
        s.mark_completed(a.chunk_id);
    }
    assert_eq!(s.remaining_count(), 0);
    assert!(s.pending_assignments(4).is_empty());
}
