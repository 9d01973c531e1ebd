//! Messages from the circuits to the disk writer, and the writer's decisions.
use vstd::prelude::*;
use bytes::Bytes;
use crate::state::{DownloadState, chunk_range_spec, lemma_count_true_all};
use crate::circuit::{holds_byte, writes_cover, lemma_writes_cover_bytes};

verus! {

#[verifier::external_type_specification]
#[verifier::external_body]
pub struct ExBytes(bytes::Bytes);

/// The bytes that a `bytes::Bytes` buffer holds.
pub uninterp spec fn bytes_content(b: Bytes) -> Seq<u8>;

/// Calls `bytes::Bytes::new`, which makes a buffer that holds no bytes.
#[verifier::external_body]
pub(crate) fn empty_bytes() -> (b: Bytes)
    ensures
        bytes_content(b) == Seq::<u8>::empty(),
{
    Bytes::new()
}

/// Calls `bytes::Bytes::len`, the number of bytes the buffer holds.
#[verifier::external_body]
pub(crate) fn bytes_len(b: &Bytes) -> (n: usize)
    ensures
        n == bytes_content(*b).len(),
{
    b.len()
}

/// Calls `bytes::Bytes::is_empty`: whether the buffer holds no bytes.
#[verifier::external_body]
pub(crate) fn bytes_is_empty(b: &Bytes) -> (e: bool)
    ensures
        e == (bytes_content(*b).len() == 0),
{
    b.is_empty()
}

/// A request to the disk writer: write `data` at `offset` of `filepath`, and,
/// when `close_file` is set, record chunk `chunk_id` as complete.
pub struct WriteMsg {
    pub filepath: String,
    pub offset: u64,
    pub data: Bytes,
    pub close_file: bool,
    pub chunk_id: usize,
}

/// What the writer reads of a message: the chunk, the offset, the number of
/// bytes, and whether it closes the chunk.
pub open spec fn msg_summary(m: WriteMsg) -> (int, int, int, bool) {
    (m.chunk_id as int, m.offset as int, bytes_content(m.data).len() as int, m.close_file)
}

/// The completion marks after the writer applies one message.
pub open spec fn apply_summary(completed: Seq<bool>, m: (int, int, int, bool)) -> Seq<bool> {
    if m.3 {
        completed.update(m.0, true)
    } else {
        completed
    }
}

/// The completion marks after the writer applies `msgs` in order.
pub open spec fn apply_all(completed: Seq<bool>, msgs: Seq<(int, int, int, bool)>) -> Seq<bool>
    decreases msgs.len(),
{
    if msgs.len() == 0 {
        completed
    } else {
        apply_summary(apply_all(completed, msgs.drop_last()), msgs.last())
    }
}

/// The writes of chunk `j` among `msgs`, in order, as offset and length.
pub open spec fn data_writes(msgs: Seq<(int, int, int, bool)>, j: int) -> Seq<(int, int)>
    decreases msgs.len(),
{
    if msgs.len() == 0 {
        Seq::empty()
    } else {
        let w = data_writes(msgs.drop_last(), j);
        if msgs.last().0 == j && !msgs.last().3 {
            w.push((msgs.last().1, msgs.last().2))
        } else {
            w
        }
    }
}

/// Every message that closes a chunk comes after writes of that chunk that
/// cover its whole range, from its first byte to past its last: what a
/// circuit's own messages, delivered in order, satisfy.
pub open spec fn closes_after_cover(
    msgs: Seq<(int, int, int, bool)>,
    content_length: u64,
    chunk_size: u64,
    n: int,
) -> bool {
    forall|k: int|
        0 <= k < msgs.len() && (#[trigger] msgs[k]).3 ==> exists|t: int|
            t > chunk_range_spec(content_length, chunk_size, n, msgs[k].0).1 && writes_cover(
                data_writes(msgs.take(k), msgs[k].0),
                chunk_range_spec(content_length, chunk_size, n, msgs[k].0).0,
                t,
            )
}

/// Some write of chunk `j` among `msgs` holds byte `b`.
pub open spec fn byte_sent(msgs: Seq<(int, int, int, bool)>, j: int, b: int) -> bool {
    exists|k: int|
        0 <= k < msgs.len() && (#[trigger] msgs[k]).0 == j && !msgs[k].3 && holds_byte(
            (msgs[k].1, msgs[k].2),
            b,
        )
}

/// What the disk writer does for one message.
#[derive(Clone, Copy, Debug, PartialEq, Eq, Structural)]
pub struct WriterStep {
    /// Write the message's bytes at this offset (nothing to write when `None`).
    pub write_at: Option<u64>,
    /// The chunk is complete: save the state and close the file handle.
    pub chunk_finished: bool,
    /// Every chunk of the download is now complete.
    pub all_done: bool,
}

impl DownloadState {
    /// Applies one message to the writer's copy of the state.
    pub fn apply_write(&mut self, msg: &WriteMsg) -> (step: WriterStep)
        requires
            msg.close_file ==> msg.chunk_id < old(self).completed_chunks@.len(),
        ensures
            step.write_at == (if bytes_content(msg.data).len() > 0 {
                Some(msg.offset)
            } else {
                None::<u64>
            }),
            step.chunk_finished == msg.close_file,
            final(self).completed_chunks@ == (if msg.close_file {
                old(self).completed_chunks@.update(msg.chunk_id as int, true)
            } else {
                old(self).completed_chunks@
            }),
            final(self).num_circuits == old(self).num_circuits,
            final(self).chunk_size == old(self).chunk_size,
            final(self).content_length == old(self).content_length,
            step.all_done == (msg.close_file && forall|j: int|
                0 <= j < final(self).completed_chunks@.len() ==> #[trigger] final(self).completed_chunks@[j]),
            final(self).completed_chunks@ == apply_summary(old(self).completed_chunks@, msg_summary(*msg)),
            forall|n: usize| #[trigger] old(self).has_shape(n) ==> final(self).has_shape(n),
    {
        let write_at = if !bytes_is_empty(&msg.data) {
            Some(msg.offset)
        } else {
            None
        };
        if msg.close_file {
            self.mark_completed(msg.chunk_id);
            let remaining = self.remaining_count();
            proof {
                lemma_count_true_all(self.completed_chunks@);
            }
            WriterStep { write_at, chunk_finished: true, all_done: remaining == 0 }
        } else {
            WriterStep { write_at, chunk_finished: false, all_done: false }
        }
    }
}

/// The writer's marks over any run of messages: the number of chunks stays,
/// no mark is ever cleared, and a chunk is marked exactly when it was marked
/// before or some message closed it. When every closing message follows writes
/// covering its chunk, as a circuit's messages do, a chunk newly marked
/// complete has had every byte of its range handed to the writer.
pub proof fn lemma_writer_run(
    completed: Seq<bool>,
    msgs: Seq<(int, int, int, bool)>,
    content_length: u64,
    chunk_size: u64,
    n: int,
)
    requires
        forall|k: int| 0 <= k < msgs.len() && (#[trigger] msgs[k]).3 ==> 0 <= msgs[k].0 < completed.len(),
    ensures
        apply_all(completed, msgs).len() == completed.len(),
        forall|j: int|
            0 <= j < completed.len() ==> (#[trigger] apply_all(completed, msgs)[j] <==> (completed[j]
                || exists|k: int| 0 <= k < msgs.len() && (#[trigger] msgs[k]).3 && msgs[k].0 == j)),
        closes_after_cover(msgs, content_length, chunk_size, n) ==> forall|j: int, b: int|
            0 <= j < completed.len() && #[trigger] apply_all(completed, msgs)[j] && !completed[j]
                && chunk_range_spec(content_length, chunk_size, n, j).0 <= b
                <= chunk_range_spec(content_length, chunk_size, n, j).1 ==> #[trigger] byte_sent(
                msgs,
                j,
                b,
            ),
    decreases msgs.len(),
{
    if msgs.len() > 0 {
        let rest = msgs.drop_last();
        assert forall|k: int| 0 <= k < rest.len() && (#[trigger] rest[k]).3 implies 0 <= rest[k].0
            < completed.len() by {
            assert(rest[k] == msgs[k]);
        }
        lemma_writer_run(completed, rest, content_length, chunk_size, n);
        let last = msgs.last();
        assert(msgs[msgs.len() - 1] == last);
        assert forall|j: int| 0 <= j < completed.len() implies (#[trigger] apply_all(completed, msgs)[j]
            <==> (completed[j] || exists|k: int|
            0 <= k < msgs.len() && (#[trigger] msgs[k]).3 && msgs[k].0 == j)) by {
            if exists|k: int| 0 <= k < rest.len() && (#[trigger] rest[k]).3 && rest[k].0 == j {
                let k = choose|k: int| 0 <= k < rest.len() && (#[trigger] rest[k]).3 && rest[k].0 == j;
                assert(msgs[k] == rest[k]);
            }
            if exists|k: int| 0 <= k < msgs.len() && (#[trigger] msgs[k]).3 && msgs[k].0 == j {
                let k = choose|k: int| 0 <= k < msgs.len() && (#[trigger] msgs[k]).3 && msgs[k].0 == j;
                if k < rest.len() {
                    assert(rest[k] == msgs[k]);
                }
            }
        }
        if closes_after_cover(msgs, content_length, chunk_size, n) {
            assert forall|k: int| 0 <= k < rest.len() && (#[trigger] rest[k]).3 implies exists|t: int|
                t > chunk_range_spec(content_length, chunk_size, n, rest[k].0).1 && writes_cover(
                    data_writes(rest.take(k), rest[k].0),
                    chunk_range_spec(content_length, chunk_size, n, rest[k].0).0,
                    t,
                ) by {
                assert(rest[k] == msgs[k]);
                assert(rest.take(k) =~= msgs.take(k));
            }
            assert forall|j: int, b: int|
                0 <= j < completed.len() && #[trigger] apply_all(completed, msgs)[j] && !completed[j]
                    && chunk_range_spec(content_length, chunk_size, n, j).0 <= b
                    <= chunk_range_spec(content_length, chunk_size, n, j).1 implies #[trigger] byte_sent(
                msgs,
                j,
                b,
            ) by {
                if apply_all(completed, rest)[j] {
                    assert(byte_sent(rest, j, b));
                    let k = choose|k: int|
                        0 <= k < rest.len() && (#[trigger] rest[k]).0 == j && !rest[k].3 && holds_byte(
                            (rest[k].1, rest[k].2),
                            b,
                        );
                    assert(msgs[k] == rest[k]);
                } else {
                    let kk = msgs.len() - 1;
                    assert(msgs[kk].3 && msgs[kk].0 == j);
                    let t = choose|t: int|
                        t > chunk_range_spec(content_length, chunk_size, n, msgs[kk].0).1 && writes_cover(
                            data_writes(msgs.take(kk), msgs[kk].0),
                            chunk_range_spec(content_length, chunk_size, n, msgs[kk].0).0,
                            t,
                        );
                    assert(msgs.take(kk) =~= rest);
                    lemma_writes_cover_bytes(
                        data_writes(rest, j),
                        chunk_range_spec(content_length, chunk_size, n, j).0,
                        t,
                        b,
                    );
                    let m = choose|m: int|
                        0 <= m < data_writes(rest, j).len() && #[trigger] holds_byte(
                            data_writes(rest, j)[m],
                            b,
                        );
                    lemma_data_writes_origin(rest, j, m);
                    let k = choose|k: int|
                        0 <= k < rest.len() && (#[trigger] rest[k]).0 == j && !rest[k].3 && (rest[k].1,
                        rest[k].2) == data_writes(rest, j)[m];
                    assert(msgs[k] == rest[k]);
                }
            }
        }
    }
}

/// Each write of chunk `j` among `msgs` comes from a message of that chunk
/// that does not close it.
pub proof fn lemma_data_writes_origin(msgs: Seq<(int, int, int, bool)>, j: int, m: int)
    requires
        0 <= m < data_writes(msgs, j).len(),
    ensures
        exists|k: int|
            0 <= k < msgs.len() && (#[trigger] msgs[k]).0 == j && !msgs[k].3 && (msgs[k].1, msgs[k].2)
                == data_writes(msgs, j)[m],
    decreases msgs.len(),
{
    let rest = msgs.drop_last();
    let w = data_writes(rest, j);
    if m < w.len() {
        lemma_data_writes_origin(rest, j, m);
        let k = choose|k: int|
            0 <= k < rest.len() && (#[trigger] rest[k]).0 == j && !rest[k].3 && (rest[k].1, rest[k].2)
                == w[m];
        assert(msgs[k] == rest[k]);
    } else {
        assert(msgs[msgs.len() - 1] == msgs.last());
    }
}

} // verus!
