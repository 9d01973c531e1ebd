//! One download circuit: the bytes it has fetched of its range, the range
//! header it asks for, and the messages it hands to the disk writer.
use vstd::prelude::*;
use bytes::Bytes;
use vstd::string::StringExecFns;
use crate::text::{decimal, push_decimal};
use crate::writer::{WriteMsg, bytes_content, bytes_len, empty_bytes};
use crate::state::{chunk_owner, chunk_range_spec, chunk_size_spec, in_chunk, lemma_chunks_tile_file};
use crate::writer::data_writes;

verus! {

broadcast use vstd::string::group_string_axioms;

/// The `Range` header value that asks for bytes `from..=to`.
pub open spec fn range_header_spec(from: nat, to: nat) -> Seq<char> {
    seq!['b', 'y', 't', 'e', 's', '='] + decimal(from) + seq!['-'] + decimal(to)
}

/// The writes in `writes`, each an offset and a length, follow one another
/// without gap or overlap, from byte `from` up to (not including) byte `to`.
pub open spec fn writes_cover(writes: Seq<(int, int)>, from: int, to: int) -> bool
    decreases writes.len(),
{
    if writes.len() == 0 {
        from == to
    } else {
        &&& writes.last().1 >= 0
        &&& writes.last().0 + writes.last().1 == to
        &&& writes_cover(writes.drop_last(), from, writes.last().0)
    }
}

/// The write `w` (offset and length) holds byte `b`.
pub open spec fn holds_byte(w: (int, int), b: int) -> bool {
    w.0 <= b < w.0 + w.1
}

/// The `Range` value `bytes={from}-{to}`.
pub fn range_header_value(from: u64, to: u64) -> (h: String)
    ensures
        h@ == range_header_spec(from as nat, to as nat),
{
    let mut s = String::from_str("bytes=");
    proof {
        reveal_strlit("bytes=");
        reveal_strlit("-");
    }
    push_decimal(&mut s, from);
    s.append("-");
    push_decimal(&mut s, to);
    assert(s@ =~= range_header_spec(from as nat, to as nat));
    s
}

/// The `Range` value of the pre-flight probe that asks for the first byte
/// when a HEAD request does not tell the length: `bytes=0-0`.
pub fn probe_range_header() -> (h: String)
    ensures
        h@ == range_header_spec(0, 0),
{
    range_header_value(0, 0)
}

/// A progress report for one circuit: bytes fetched of its range, the range's
/// size, and `Active` or `Done`.
pub struct CircuitProgress {
    pub id: usize,
    pub downloaded: u64,
    pub total: u64,
    pub status: String,
}

/// One circuit fetching the inclusive byte range `start_byte..=end_byte`.
pub struct Circuit {
    pub chunk_id: usize,
    pub start_byte: u64,
    pub end_byte: u64,
    /// The next byte to fetch.
    pub current_offset: u64,
    /// Whether requests carry a `Range` header (only when the length is known).
    pub ranged: bool,
    /// The writes handed to the disk writer so far, as offset and length.
    pub written: Ghost<Seq<(int, int)>>,
}

impl Circuit {
    /// The circuit's offsets are ordered and its writes cover what it fetched.
    pub open spec fn well_formed(self) -> bool {
        &&& self.start_byte <= self.end_byte
        &&& self.end_byte < u64::MAX
        &&& self.start_byte <= self.current_offset
        &&& writes_cover(self.written@, self.start_byte as int, self.current_offset as int)
    }

    /// The range is fully fetched.
    pub open spec fn complete(self) -> bool {
        self.current_offset > self.end_byte
    }

    /// A circuit that has fetched nothing yet.
    pub fn new(chunk_id: usize, start_byte: u64, end_byte: u64, ranged: bool) -> (c: Self)
        requires
            start_byte <= end_byte < u64::MAX,
        ensures
            c.well_formed(),
            c.chunk_id == chunk_id,
            c.start_byte == start_byte,
            c.end_byte == end_byte,
            c.current_offset == start_byte,
            c.ranged == ranged,
            c.written@ == Seq::<(int, int)>::empty(),
    {
        Circuit {
            chunk_id,
            start_byte,
            end_byte,
            current_offset: start_byte,
            ranged,
            written: Ghost(Seq::empty()),
        }
    }

    /// Whether to issue (another) request: bytes remain and the download runs.
    pub fn wants_request(&self, running: bool) -> (b: bool)
        ensures
            b == (self.current_offset <= self.end_byte && running),
    {
        self.current_offset <= self.end_byte && running
    }

    /// Whether the whole range has been fetched.
    pub fn is_complete(&self) -> (b: bool)
        ensures
            b == self.complete(),
    {
        self.current_offset > self.end_byte
    }

    /// The `Range` header for the next request: from the next byte to the end
    /// of the range, or none when the length is unknown.
    pub fn range_header(&self) -> (h: Option<String>)
        ensures
            self.ranged ==> h is Some && h->0@ == range_header_spec(
                self.current_offset as nat,
                self.end_byte as nat,
            ),
            !self.ranged ==> h is None,
    {
        if self.ranged {
            Some(range_header_value(self.current_offset, self.end_byte))
        } else {
            None
        }
    }

    /// Takes one piece of the response body: it is written at the next
    /// offset, the offset moves past it, and progress is reported.
    pub fn on_data(&mut self, data: Bytes, filepath: &str) -> (r: (WriteMsg, CircuitProgress))
        requires
            old(self).well_formed(),
            old(self).current_offset + bytes_content(data).len() <= u64::MAX,
        ensures
            final(self).well_formed(),
            r.0.filepath@ == filepath@,
            r.0.offset == old(self).current_offset,
            r.0.data == data,
            !r.0.close_file,
            r.0.chunk_id == old(self).chunk_id,
            final(self).current_offset == old(self).current_offset + bytes_content(data).len(),
            final(self).written@ == old(self).written@.push(
                (old(self).current_offset as int, bytes_content(data).len() as int),
            ),
            final(self).chunk_id == old(self).chunk_id,
            final(self).start_byte == old(self).start_byte,
            final(self).end_byte == old(self).end_byte,
            final(self).ranged == old(self).ranged,
            r.1.id == old(self).chunk_id,
            r.1.downloaded == final(self).current_offset - old(self).start_byte,
            r.1.total == old(self).end_byte - old(self).start_byte + 1,
            r.1.status@ == seq!['A', 'c', 't', 'i', 'v', 'e'],
    {
        let len = bytes_len(&data);
        let offset = self.current_offset;
        let ghost old_written = self.written@;
        let msg = WriteMsg {
            filepath: String::from_str(filepath),
            offset,
            data,
            close_file: false,
            chunk_id: self.chunk_id,
        };
        self.current_offset = offset + len as u64;
        self.written = Ghost(old_written.push((offset as int, len as int)));
        assert(self.written@.drop_last() =~= old_written);
        let status = String::from_str("Active");
        proof {
            reveal_strlit("Active");
        }
        let progress = CircuitProgress {
            id: self.chunk_id,
            downloaded: self.current_offset - self.start_byte,
            total: self.end_byte - self.start_byte + 1,
            status,
        };
        (msg, progress)
    }

    /// Takes one piece of the response body as `on_data` does, unless the
    /// offset past it would not fit in 64 bits; the circuit is then left as
    /// it was and nothing is returned.
    pub fn take_data(&mut self, data: Bytes, filepath: &str) -> (r: Option<(WriteMsg, CircuitProgress)>)
        requires
            old(self).well_formed(),
        ensures
            final(self).well_formed(),
            r is None <==> old(self).current_offset + bytes_content(data).len() > u64::MAX,
            r is None ==> *final(self) == *old(self),
            r matches Some(p) ==> {
                &&& p.0.filepath@ == filepath@
                &&& p.0.offset == old(self).current_offset
                &&& p.0.data == data
                &&& !p.0.close_file
                &&& p.0.chunk_id == old(self).chunk_id
                &&& final(self).current_offset == old(self).current_offset + bytes_content(data).len()
                &&& final(self).written@ == old(self).written@.push(
                    (old(self).current_offset as int, bytes_content(data).len() as int),
                )
                &&& final(self).chunk_id == old(self).chunk_id
                &&& final(self).start_byte == old(self).start_byte
                &&& final(self).end_byte == old(self).end_byte
                &&& final(self).ranged == old(self).ranged
                &&& p.1.id == old(self).chunk_id
                &&& p.1.downloaded == final(self).current_offset - old(self).start_byte
                &&& p.1.total == old(self).end_byte - old(self).start_byte + 1
                &&& p.1.status@ == seq!['A', 'c', 't', 'i', 'v', 'e']
            },
    {
        let len = bytes_len(&data) as u64;
        if self.current_offset > u64::MAX - len {
            None
        } else {
            Some(self.on_data(data, filepath))
        }
    }

    /// Once the range is fully fetched: the message that closes the chunk and
    /// the final progress report.
    pub fn completion(&self, filepath: &str) -> (r: (WriteMsg, CircuitProgress))
        requires
            self.well_formed(),
            self.complete(),
        ensures
            r.0.filepath@ == filepath@,
            r.0.offset == 0,
            bytes_content(r.0.data).len() == 0,
            r.0.close_file,
            r.0.chunk_id == self.chunk_id,
            r.1.id == self.chunk_id,
            r.1.downloaded == self.end_byte - self.start_byte + 1,
            r.1.total == self.end_byte - self.start_byte + 1,
            r.1.status@ == seq!['D', 'o', 'n', 'e'],
    {
        let msg = WriteMsg {
            filepath: String::from_str(filepath),
            offset: 0,
            data: empty_bytes(),
            close_file: true,
            chunk_id: self.chunk_id,
        };
        let total = self.end_byte - self.start_byte + 1;
        let status = String::from_str("Done");
        proof {
            reveal_strlit("Done");
        }
        (msg, CircuitProgress { id: self.chunk_id, downloaded: total, total, status })
    }
}

/// Writes that cover `from..to` in order put every byte of that span in
/// exactly one write.
pub proof fn lemma_writes_cover_bytes(writes: Seq<(int, int)>, from: int, to: int, b: int)
    requires
        writes_cover(writes, from, to),
        from <= b < to,
    ensures
        exists|k: int| 0 <= k < writes.len() && #[trigger] holds_byte(writes[k], b),
        forall|k: int, m: int|
            0 <= k < writes.len() && 0 <= m < writes.len() && #[trigger] holds_byte(writes[k], b)
                && #[trigger] holds_byte(writes[m], b) ==> k == m,
    decreases writes.len(),
{
    lemma_writes_cover_bounds(writes, from, to);
    let last = writes.last();
    let rest = writes.drop_last();
    lemma_writes_cover_bounds(rest, from, last.0);
    if b >= last.0 {
        assert(holds_byte(writes[writes.len() - 1], b));
    } else {
        lemma_writes_cover_bytes(rest, from, last.0, b);
        let k = choose|k: int| 0 <= k < rest.len() && #[trigger] holds_byte(rest[k], b);
        assert(writes[k] == rest[k]);
        assert(holds_byte(writes[k], b));
    }
    assert forall|k: int, m: int|
        0 <= k < writes.len() && 0 <= m < writes.len() && #[trigger] holds_byte(writes[k], b)
            && #[trigger] holds_byte(writes[m], b) implies k == m by {
        if k < writes.len() - 1 && m < writes.len() - 1 {
            if b < last.0 {
                assert(rest[k] == writes[k]);
                assert(rest[m] == writes[m]);
                lemma_writes_cover_bytes(rest, from, last.0, b);
            }
        }
    }
}

/// Every write of a covering run lies inside the span, after all earlier writes.
pub proof fn lemma_writes_cover_bounds(writes: Seq<(int, int)>, from: int, to: int)
    requires
        writes_cover(writes, from, to),
    ensures
        from <= to,
        forall|k: int|
            0 <= k < writes.len() ==> from <= #[trigger] writes[k].0 && writes[k].0 + writes[k].1
                <= to && writes[k].1 >= 0,
        forall|k: int, m: int|
            0 <= k < m < writes.len() ==> #[trigger] writes[k].0 + writes[k].1 <= #[trigger] writes[m].0,
    decreases writes.len(),
{
    if writes.len() > 0 {
        let rest = writes.drop_last();
        lemma_writes_cover_bounds(rest, from, writes.last().0);
        assert forall|k: int| 0 <= k < writes.len() implies from <= #[trigger] writes[k].0
            && writes[k].0 + writes[k].1 <= to && writes[k].1 >= 0 by {
            if k < writes.len() - 1 {
                assert(rest[k] == writes[k]);
            }
        }
        assert forall|k: int, m: int| 0 <= k < m < writes.len() implies #[trigger] writes[k].0
            + writes[k].1 <= #[trigger] writes[m].0 by {
            assert(rest[k] == writes[k]);
            if m < writes.len() - 1 {
                assert(rest[m] == writes[m]);
            }
        }
    }
}

/// A circuit reports its chunk complete only after writes covering every byte
/// of its range, each exactly once, have been handed to the disk writer.
pub proof fn lemma_complete_circuit_wrote_range(c: Circuit, b: int)
    requires
        c.well_formed(),
        c.complete(),
        c.start_byte <= b <= c.end_byte,
    ensures
        exists|k: int| 0 <= k < c.written@.len() && #[trigger] holds_byte(c.written@[k], b),
{
    lemma_writes_cover_bytes(c.written@, c.start_byte as int, c.current_offset as int, b);
}

/// Some write that circuit `c` handed to the disk writer holds byte `b`.
pub open spec fn written_by(c: Circuit, b: int) -> bool {
    exists|k: int| 0 <= k < c.written@.len() && #[trigger] holds_byte(c.written@[k], b)
}

/// The file comes out whole: when every circuit of a download split over
/// `num_circuits` circuits (at most one per byte) has fetched its chunk, each
/// byte of the file has been handed to the disk writer by the circuit whose
/// chunk holds it.
pub proof fn lemma_completed_circuits_cover_file(
    content_length: u64,
    num_circuits: usize,
    circuits: Seq<Circuit>,
)
    requires
        num_circuits > 0,
        content_length >= num_circuits,
        circuits.len() == num_circuits,
        forall|i: int|
            0 <= i < num_circuits ==> {
                &&& (#[trigger] circuits[i]).well_formed()
                &&& circuits[i].complete()
                &&& (circuits[i].start_byte as int, circuits[i].end_byte as int) == chunk_range_spec(
                    content_length,
                    chunk_size_spec(content_length, num_circuits),
                    num_circuits as int,
                    i,
                )
            },
    ensures
        forall|b: int|
            0 <= b < content_length ==> #[trigger] written_by(
                circuits[chunk_owner(
                    chunk_size_spec(content_length, num_circuits),
                    num_circuits as int,
                    b,
                )],
                b,
            ),
{
    let cs = chunk_size_spec(content_length, num_circuits);
    let n = num_circuits as int;
    lemma_chunks_tile_file(content_length, num_circuits);
    assert((content_length as int) / n >= 1) by (nonlinear_arith)
        requires
            content_length >= n,
            n > 0,
    ;
    assert(cs >= 1);
    assert forall|b: int| 0 <= b < content_length implies #[trigger] written_by(
        circuits[chunk_owner(cs, n, b)],
        b,
    ) by {
        let o = chunk_owner(cs, n, b);
        assert(0 <= o < n) by {
            assert(b / (cs as int) >= 0) by (nonlinear_arith)
                requires
                    b >= 0,
                    cs >= 1,
            ;
        }
        assert(in_chunk(content_length, cs, n, o, b));
        let c = circuits[o];
        assert(c.well_formed() && c.complete());
        lemma_complete_circuit_wrote_range(c, b);
    }
}

/// A circuit's closing message meets the writer's covering condition: when
/// the writes of its chunk that reached the writer before the close are the
/// circuit's own writes, they cover the chunk's range from its first byte to
/// past its last.
pub proof fn lemma_circuit_close_covered(
    c: Circuit,
    msgs: Seq<(int, int, int, bool)>,
    k: int,
    content_length: u64,
    chunk_size: u64,
    n: int,
)
    requires
        c.well_formed(),
        c.complete(),
        (c.start_byte as int, c.end_byte as int) == chunk_range_spec(
            content_length,
            chunk_size,
            n,
            c.chunk_id as int,
        ),
        0 <= k < msgs.len(),
        msgs[k] == (c.chunk_id as int, 0int, 0int, true),
        data_writes(msgs.take(k), c.chunk_id as int) == c.written@,
    ensures
        exists|t: int|
            t > chunk_range_spec(content_length, chunk_size, n, msgs[k].0).1 && writes_cover(
                data_writes(msgs.take(k), msgs[k].0),
                chunk_range_spec(content_length, chunk_size, n, msgs[k].0).0,
                t,
            ),
{
    let t = c.current_offset as int;
    assert(msgs[k].0 == c.chunk_id as int);
    assert(t > chunk_range_spec(content_length, chunk_size, n, msgs[k].0).1);
    assert(writes_cover(
        data_writes(msgs.take(k), msgs[k].0),
        chunk_range_spec(content_length, chunk_size, n, msgs[k].0).0,
        t,
    ));
}

} // verus!
