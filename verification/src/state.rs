//! The persisted download state, the division of a file into per-circuit
//! byte ranges, and the bookkeeping of which ranges are done.
use vstd::prelude::*;
use vstd::arithmetic::div_mod::{lemma_fundamental_div_mod, lemma_fundamental_div_mod_converse, lemma_mod_pos_bound};
use vstd::arithmetic::mul::lemma_mul_inequality;

verus! {

/// How many entries of `s` are `true`.
pub open spec fn count_true(s: Seq<bool>) -> nat
    decreases s.len(),
{
    if s.len() == 0 {
        0
    } else {
        count_true(s.drop_last()) + if s.last() {
            1nat
        } else {
            0nat
        }
    }
}

/// Progress of one download, as saved beside the output file so that an
/// interrupted download can resume.
#[derive(Clone, Debug)]
pub struct DownloadState {
    /// `completed_chunks[i]` is true once circuit `i` has fetched its whole range.
    pub completed_chunks: Vec<bool>,
    pub num_circuits: usize,
    pub chunk_size: u64,
    pub content_length: u64,
}

/// One circuit's share of the file: the chunk number and its inclusive byte range.
#[derive(Clone, Copy, Debug, PartialEq, Eq, Structural)]
pub struct ChunkAssignment {
    pub chunk_id: usize,
    pub start_byte: u64,
    pub end_byte: u64,
}

/// The size of each circuit's share: the length divided by the number of
/// circuits, or zero while the length is unknown.
pub open spec fn chunk_size_spec(content_length: u64, num_circuits: usize) -> u64 {
    if content_length > 0 {
        (content_length / (num_circuits as u64)) as u64
    } else {
        0
    }
}

/// First byte of chunk `i`.
pub open spec fn range_start(chunk_size: u64, i: int) -> int {
    i * chunk_size
}

/// Last byte of chunk `i`: the last chunk runs to the end of the file.
pub open spec fn range_end(content_length: u64, chunk_size: u64, n: int, i: int) -> int {
    if i == n - 1 {
        content_length - 1
    } else {
        (i + 1) * chunk_size - 1
    }
}

/// The byte range that circuit `i` of `n` fetches. While the length is unknown
/// every circuit asks for the whole file and the range is reported as `(0, 0)`.
pub open spec fn chunk_range_spec(content_length: u64, chunk_size: u64, n: int, i: int) -> (int, int) {
    if content_length > 0 {
        (range_start(chunk_size, i), range_end(content_length, chunk_size, n, i))
    } else {
        (0, 0)
    }
}

/// The range of chunk `i` can be computed in 64-bit arithmetic without
/// overflow or underflow.
pub open spec fn chunk_range_defined(content_length: u64, chunk_size: u64, n: int, i: int) -> bool {
    content_length > 0 ==> {
        &&& i * chunk_size <= u64::MAX
        &&& i != n - 1 ==> 1 <= (i + 1) * chunk_size <= u64::MAX
    }
}

/// The chunk numbers below `n` that are not yet complete, in increasing order.
pub open spec fn pending_ids(completed: Seq<bool>, n: nat) -> Seq<usize>
    decreases n,
{
    if n == 0 {
        Seq::empty()
    } else {
        pending_ids(completed, (n - 1) as nat) + if completed[n - 1] {
            Seq::<usize>::empty()
        } else {
            seq![(n - 1) as usize]
        }
    }
}

impl Default for DownloadState {
    fn default() -> (s: Self)
        ensures
            s.completed_chunks@ == Seq::<bool>::empty(),
            s.num_circuits == 0,
            s.chunk_size == 0,
            s.content_length == 0,
    {
        DownloadState {
            completed_chunks: Vec::new(),
            num_circuits: 0,
            chunk_size: 0,
            content_length: 0,
        }
    }
}

impl DownloadState {
    /// The state holds no progress at all (what `default` gives).
    pub open spec fn is_blank(self) -> bool {
        &&& self.completed_chunks@ == Seq::<bool>::empty()
        &&& self.num_circuits == 0
        &&& self.chunk_size == 0
        &&& self.content_length == 0
    }

    /// The state of a download over `n` circuits that has not started.
    pub open spec fn is_fresh(self, n: usize) -> bool {
        &&& self.completed_chunks@ == Seq::new(n as nat, |i: int| false)
        &&& self.num_circuits == n
        &&& self.chunk_size == 0
        &&& self.content_length == 0
    }

    /// The shape every state of a download over `n` circuits keeps: one entry
    /// per circuit, and the share size that goes with the recorded length.
    pub open spec fn has_shape(self, n: usize) -> bool {
        &&& self.num_circuits == n
        &&& self.completed_chunks@.len() == n
        &&& self.chunk_size == chunk_size_spec(self.content_length, n)
    }

    /// A new state for `num_circuits` circuits with nothing completed.
    pub fn fresh(num_circuits: usize) -> (s: Self)
        ensures
            s.is_fresh(num_circuits),
            s.has_shape(num_circuits),
    {
        let mut completed: Vec<bool> = Vec::new();
        let mut i: usize = 0;
        while i < num_circuits
            invariant
                i <= num_circuits,
                completed@ == Seq::new(i as nat, |k: int| false),
            decreases num_circuits - i,
        {
            completed.push(false);
            i = i + 1;
        }
        DownloadState { completed_chunks: completed, num_circuits, chunk_size: 0, content_length: 0 }
    }

    /// How many chunks are complete.
    pub fn completed_count(&self) -> (c: usize)
        ensures
            c == count_true(self.completed_chunks@),
    {
        let mut c: usize = 0;
        let mut i: usize = 0;
        while i < self.completed_chunks.len()
            invariant
                i <= self.completed_chunks@.len(),
                c == count_true(self.completed_chunks@.take(i as int)),
                c <= i,
            decreases self.completed_chunks@.len() - i,
        {
            assert(self.completed_chunks@.take(i + 1).drop_last() =~= self.completed_chunks@.take(
                i as int,
            ));
            if self.completed_chunks[i] {
                c = c + 1;
            }
            i = i + 1;
        }
        assert(self.completed_chunks@.take(i as int) =~= self.completed_chunks@);
        c
    }

    /// How many chunks are still to be fetched.
    pub fn remaining_count(&self) -> (r: usize)
        ensures
            r == self.completed_chunks@.len() - count_true(self.completed_chunks@),
    {
        let c = self.completed_count();
        proof {
            lemma_count_true_le_len(self.completed_chunks@);
        }
        self.completed_chunks.len() - c
    }

    /// Records the length of the file and the size of each circuit's share.
    pub fn record_content_length(&mut self, content_length: u64, num_circuits: usize)
        requires
            content_length > 0 ==> num_circuits > 0,
        ensures
            final(self).content_length == content_length,
            final(self).chunk_size == chunk_size_spec(content_length, num_circuits),
            final(self).completed_chunks@ == old(self).completed_chunks@,
            final(self).num_circuits == old(self).num_circuits,
            old(self).num_circuits == num_circuits && old(self).completed_chunks@.len()
                == num_circuits ==> final(self).has_shape(num_circuits),
    {
        self.content_length = content_length;
        self.chunk_size = chunk_size_for(content_length, num_circuits);
    }

    /// The inclusive byte range that circuit `i` of `num_circuits` fetches.
    pub fn chunk_range(&self, i: usize, num_circuits: usize) -> (r: (u64, u64))
        requires
            i < num_circuits,
            chunk_range_defined(self.content_length, self.chunk_size, num_circuits as int, i as int),
        ensures
            (r.0 as int, r.1 as int) == chunk_range_spec(
                self.content_length,
                self.chunk_size,
                num_circuits as int,
                i as int,
            ),
    {
        if self.content_length > 0 {
            let s = i as u64 * self.chunk_size;
            let e = if i == num_circuits - 1 {
                self.content_length - 1
            } else {
                (i as u64 + 1) * self.chunk_size - 1
            };
            (s, e)
        } else {
            (0, 0)
        }
    }

    /// Whether `chunk_range` may be asked for every incomplete chunk below
    /// `num_circuits`: the state knows of that many chunks and no range
    /// overflows.
    pub open spec fn plan_defined(self, num_circuits: usize) -> bool {
        &&& self.completed_chunks@.len() >= num_circuits
        &&& forall|i: int|
            0 <= i < num_circuits && !self.completed_chunks@[i] ==> chunk_range_defined(
                self.content_length,
                self.chunk_size,
                num_circuits as int,
                i,
            )
    }

    /// Tests `plan_defined`.
    pub fn check_plan_defined(&self, num_circuits: usize) -> (b: bool)
        ensures
            b == self.plan_defined(num_circuits),
    {
        if self.completed_chunks.len() < num_circuits {
            return false;
        }
        let mut i: usize = 0;
        while i < num_circuits
            invariant
                i <= num_circuits,
                self.completed_chunks@.len() >= num_circuits,
                forall|k: int|
                    0 <= k < i && !self.completed_chunks@[k] ==> chunk_range_defined(
                        self.content_length,
                        self.chunk_size,
                        num_circuits as int,
                        k,
                    ),
            decreases num_circuits - i,
        {
            if !self.completed_chunks[i] && self.content_length > 0 {
                let cs = self.chunk_size;
                let ii = i as u64;
                let start = ii.checked_mul(cs);
                if start.is_none() {
                    return false;
                }
                if i != num_circuits - 1 {
                    let next = (ii + 1).checked_mul(cs);
                    match next {
                        None => {
                            return false;
                        },
                        Some(v) => {
                            if v == 0 {
                                return false;
                            }
                        },
                    }
                }
            }
            i = i + 1;
        }
        true
    }

    /// The circuits to launch: every chunk below `num_circuits` that is not
    /// complete, in increasing order, each with its byte range.
    pub fn pending_assignments(&self, num_circuits: usize) -> (r: Vec<ChunkAssignment>)
        requires
            self.plan_defined(num_circuits),
        ensures
            r@.map_values(|a: ChunkAssignment| a.chunk_id) == pending_ids(
                self.completed_chunks@,
                num_circuits as nat,
            ),
            forall|k: int|
                0 <= k < r@.len() ==> (#[trigger] r@[k].start_byte as int, r@[k].end_byte as int)
                    == chunk_range_spec(
                    self.content_length,
                    self.chunk_size,
                    num_circuits as int,
                    r@[k].chunk_id as int,
                ),
    {
        let mut r: Vec<ChunkAssignment> = Vec::new();
        let mut i: usize = 0;
        while i < num_circuits
            invariant
                i <= num_circuits,
                self.plan_defined(num_circuits),
                r@.map_values(|a: ChunkAssignment| a.chunk_id) == pending_ids(
                    self.completed_chunks@,
                    i as nat,
                ),
                forall|k: int|
                    0 <= k < r@.len() ==> (#[trigger] r@[k].start_byte as int, r@[k].end_byte as int)
                        == chunk_range_spec(
                        self.content_length,
                        self.chunk_size,
                        num_circuits as int,
                        r@[k].chunk_id as int,
                    ),
            decreases num_circuits - i,
        {
            let ghost before = r@;
            if !self.completed_chunks[i] {
                let (s, e) = self.chunk_range(i, num_circuits);
                r.push(ChunkAssignment { chunk_id: i, start_byte: s, end_byte: e });
                assert(r@.map_values(|a: ChunkAssignment| a.chunk_id) =~= before.map_values(
                    |a: ChunkAssignment| a.chunk_id,
                ) + seq![i]);
            } else {
                assert(pending_ids(self.completed_chunks@, (i + 1) as nat) =~= pending_ids(
                    self.completed_chunks@,
                    i as nat,
                ));
            }
            i = i + 1;
        }
        r
    }

    /// Marks chunk `chunk_id` as complete.
    pub fn mark_completed(&mut self, chunk_id: usize)
        requires
            chunk_id < old(self).completed_chunks@.len(),
        ensures
            final(self).completed_chunks@ == old(self).completed_chunks@.update(chunk_id as int, true),
            final(self).num_circuits == old(self).num_circuits,
            final(self).chunk_size == old(self).chunk_size,
            final(self).content_length == old(self).content_length,
    {
        self.completed_chunks.set(chunk_id, true);
    }
}

/// Chooses the state to download with. A saved state is taken up only when
/// the state file exists, could be read and parsed, and was made for the same
/// number of circuits; the flag then says that the download resumes. A state
/// file that cannot be taken up leaves the state blank. Without a state file
/// the download starts fresh.
pub fn resume_or_start(state_file_exists: bool, saved: Option<DownloadState>, num_circuits: usize) -> (r: (
    DownloadState,
    bool,
))
    ensures
        state_file_exists && saved is Some && saved->0.num_circuits == num_circuits ==> r.0
            == saved->0 && r.1,
        state_file_exists && !(saved is Some && saved->0.num_circuits == num_circuits) ==> r.0.is_blank()
            && !r.1,
        !state_file_exists ==> r.0.is_fresh(num_circuits) && !r.1,
{
    if state_file_exists {
        match saved {
            Some(parsed) => {
                if parsed.num_circuits == num_circuits {
                    return (parsed, true);
                }
                (DownloadState::default(), false)
            },
            None => (DownloadState::default(), false),
        }
    } else {
        (DownloadState::fresh(num_circuits), false)
    }
}

/// The size of each circuit's share, as `record_content_length` stores it.
pub fn chunk_size_for(content_length: u64, num_circuits: usize) -> (c: u64)
    requires
        content_length > 0 ==> num_circuits > 0,
    ensures
        c == chunk_size_spec(content_length, num_circuits),
{
    if content_length > 0 {
        content_length / (num_circuits as u64)
    } else {
        0
    }
}

/// A count of `true` entries never exceeds the length.
pub proof fn lemma_count_true_le_len(s: Seq<bool>)
    ensures
        count_true(s) <= s.len(),
    decreases s.len(),
{
    if s.len() > 0 {
        lemma_count_true_le_len(s.drop_last());
    }
}

/// The chunk that byte `b` falls in: its share index, with every byte past
/// the last full share belonging to the last chunk.
pub open spec fn chunk_owner(chunk_size: u64, n: int, b: int) -> int {
    if b / (chunk_size as int) < n - 1 {
        b / (chunk_size as int)
    } else {
        n - 1
    }
}

/// Byte `b` lies in the range of chunk `i`.
pub open spec fn in_chunk(content_length: u64, chunk_size: u64, n: int, i: int, b: int) -> bool {
    range_start(chunk_size, i) <= b && b <= range_end(content_length, chunk_size, n, i)
}

/// For a file of `content_length` bytes split over `num_circuits` circuits
/// (at most one circuit per byte), the chunk ranges tile the file: every range
/// is computable and non-empty, the first starts at byte 0, the last ends at
/// the file's last byte, each range ends just before the next begins, and each
/// byte lies in exactly one range, that of `chunk_owner`.
pub proof fn lemma_chunks_tile_file(content_length: u64, num_circuits: usize)
    requires
        num_circuits > 0,
        content_length >= num_circuits,
    ensures
        ({
            let cs = chunk_size_spec(content_length, num_circuits);
            let n = num_circuits as int;
            &&& forall|i: int| 0 <= i < n ==> #[trigger] chunk_range_defined(content_length, cs, n, i)
            &&& forall|i: int|
                0 <= i < n ==> range_start(cs, i) <= #[trigger] range_end(content_length, cs, n, i)
                    < u64::MAX
            &&& range_start(cs, 0) == 0
            &&& range_end(content_length, cs, n, n - 1) == content_length - 1
            &&& forall|i: int|
                0 <= i < n - 1 ==> #[trigger] range_end(content_length, cs, n, i) + 1 == range_start(
                    cs,
                    i + 1,
                )
            &&& forall|b: int, i: int|
                0 <= b < content_length && 0 <= i < n ==> (#[trigger] in_chunk(content_length, cs, n, i, b) <==> i == chunk_owner(cs, n, b))
        }),
{
    let cs = chunk_size_spec(content_length, num_circuits);
    let n = num_circuits as int;
    let cl = content_length as int;
    let c = cs as int;
    assert(c == cl / n);
    lemma_fundamental_div_mod(cl, n);
    lemma_mod_pos_bound(cl, n);
    assert(c >= 1) by {
        if c < 1 {
            assert(c == 0);
            assert(n * c == 0) by (nonlinear_arith)
                requires
                    c == 0,
            ;
        }
    }
    assert(n * c <= cl);
    assert(c * n <= cl) by (nonlinear_arith)
        requires
            n * c <= cl,
    ;
    assert forall|i: int| 0 <= i < n implies chunk_range_defined(content_length, cs, n, i) by {
        lemma_share_bounds(i, n, c, cl);
        if i != n - 1 {
            assert(1 <= (i + 1) * c) by (nonlinear_arith)
                requires
                    i >= 0,
                    c >= 1,
            ;
        }
    }
    assert forall|i: int| 0 <= i < n implies range_start(cs, i) <= #[trigger] range_end(content_length, cs, n, i)
        < u64::MAX by {
        lemma_share_bounds(i, n, c, cl);
        assert((i + 1) * c == i * c + c) by (nonlinear_arith);
    }
    assert(range_start(cs, 0) == 0);
    assert forall|b: int, i: int| 0 <= b < content_length && 0 <= i < n implies (#[trigger] in_chunk(
        content_length,
        cs,
        n,
        i,
        b,
    ) <==> i == chunk_owner(cs, n, b)) by {
        lemma_owner(content_length, cs, n, b, i);
    }
}

proof fn lemma_owner(content_length: u64, cs: u64, n: int, b: int, i: int)
    requires
        0 <= b < content_length,
        0 <= i < n,
        cs >= 1,
        cs * n <= content_length,
    ensures
        in_chunk(content_length, cs, n, i, b) <==> i == chunk_owner(
            cs,
            n,
            b,
        ),
{
    let c = cs as int;
    lemma_fundamental_div_mod(b, c);
    lemma_mod_pos_bound(b, c);
    let q = b / c;
    assert(q * c <= b < (q + 1) * c) by (nonlinear_arith)
        requires
            b == c * q + b % c,
            0 <= b % c < c,
    ;
    assert((i + 1) * c == i * c + c) by (nonlinear_arith);
    assert(q >= 0) by (nonlinear_arith)
        requires
            b >= 0,
            c >= 1,
            q == b / c,
    ;
    if i < n - 1 {
        if i * c <= b && b <= (i + 1) * c - 1 {
            lemma_fundamental_div_mod_converse(b, c, i, b - i * c);
        }
        if q == i {
            assert(i * c <= b <= (i + 1) * c - 1);
        }
    } else {
        if q >= n - 1 {
            lemma_mul_inequality(n - 1, q, c);
        }
        if (n - 1) * c <= b {
            if q < n - 1 {
                lemma_mul_inequality(q + 1, n - 1, c);
            }
        }
    }
}

proof fn lemma_share_bounds(i: int, n: int, c: int, cl: int)
    requires
        0 <= i < n,
        c >= 1,
        c * n <= cl,
    ensures
        (i + 1) * c <= cl,
        i * c <= cl - c,
        (i + 1) * c == i * c + c,
{
    lemma_mul_inequality(i + 1, n, c);
    assert((i + 1) * c == i * c + c) by (nonlinear_arith);
    assert(n * c == c * n) by (nonlinear_arith);
}

/// Marking a chunk complete adds one to the count exactly when it was not
/// complete before.
pub proof fn lemma_count_true_update(s: Seq<bool>, i: int)
    requires
        0 <= i < s.len(),
    ensures
        count_true(s.update(i, true)) == count_true(s) + if s[i] {
            0nat
        } else {
            1nat
        },
    decreases s.len(),
{
    let t = s.update(i, true);
    if i == s.len() - 1 {
        assert(t.drop_last() =~= s.drop_last());
    } else {
        lemma_count_true_update(s.drop_last(), i);
        assert(t.drop_last() =~= s.drop_last().update(i, true));
    }
}

/// All entries are `true` exactly when the count of `true` entries is the length.
pub proof fn lemma_count_true_all(s: Seq<bool>)
    ensures
        (count_true(s) == s.len()) <==> (forall|i: int| 0 <= i < s.len() ==> #[trigger] s[i]),
    decreases s.len(),
{
    lemma_count_true_le_len(s);
    if s.len() > 0 {
        lemma_count_true_all(s.drop_last());
        lemma_count_true_le_len(s.drop_last());
        if count_true(s) == s.len() {
            assert forall|i: int| 0 <= i < s.len() implies #[trigger] s[i] by {
                if i < s.len() - 1 {
                    assert(s.drop_last()[i] == s[i]);
                }
            }
        }
        if forall|i: int| 0 <= i < s.len() ==> #[trigger] s[i] {
            assert forall|i: int| 0 <= i < s.drop_last().len() implies #[trigger] s.drop_last()[i] by {
                assert(s[i]);
            }
            assert(s[s.len() - 1]);
        }
    }
}

/// Resuming fetches exactly what is missing: the chunks a resumed download
/// launches are, in increasing order, precisely those below `n` not yet
/// marked complete.
pub proof fn lemma_pending_ids_exact(completed: Seq<bool>, n: nat)
    requires
        n <= completed.len(),
        n <= usize::MAX,
    ensures
        forall|i: int| 0 <= i < n ==> (!completed[i] <==> pending_ids(completed, n).contains(i as usize)),
        forall|k: int|
            0 <= k < pending_ids(completed, n).len() ==> #[trigger] pending_ids(completed, n)[k] < n
                && !completed[pending_ids(completed, n)[k] as int],
        forall|k: int, m: int|
            0 <= k < m < pending_ids(completed, n).len() ==> #[trigger] pending_ids(completed, n)[k]
                < #[trigger] pending_ids(completed, n)[m],
    decreases n,
{
    if n > 0 {
        let m = (n - 1) as nat;
        lemma_pending_ids_exact(completed, m);
        let prev = pending_ids(completed, m);
        let cur = pending_ids(completed, n);
        let tail = if completed[n - 1] {
            Seq::<usize>::empty()
        } else {
            seq![(n - 1) as usize]
        };
        assert(cur == prev + tail);
        assert forall|k: int| 0 <= k < prev.len() implies cur[k] == prev[k] by {}
        assert forall|k: int, j: int| 0 <= k < j < cur.len() implies #[trigger] cur[k] < #[trigger] cur[j] by {
            assert(cur[k] == prev[k]);
            if j < prev.len() {
                assert(cur[j] == prev[j]);
            } else {
                assert(cur[j] == (n - 1) as usize);
                assert(prev[k] < m);
            }
        }
        assert forall|k: int| 0 <= k < cur.len() implies #[trigger] cur[k] < n && !completed[cur[k] as int] by {
            if k < prev.len() {
                assert(cur[k] == prev[k]);
            }
        }
        assert forall|i: int| 0 <= i < n implies (!completed[i] <==> cur.contains(i as usize)) by {
            if i < n - 1 {
                if prev.contains(i as usize) {
                    let k = choose|k: int| 0 <= k < prev.len() && prev[k] == i as usize;
                    assert(cur[k] == i as usize);
                }
                if cur.contains(i as usize) {
                    let k = choose|k: int| 0 <= k < cur.len() && cur[k] == i as usize;
                    if k >= prev.len() {
                        assert(cur[k] == (n - 1) as usize);
                    } else {
                        assert(prev[k] == i as usize);
                    }
                }
            } else {
                if !completed[i] {
                    assert(cur[prev.len() as int] == i as usize);
                }
                if cur.contains(i as usize) {
                    let k = choose|k: int| 0 <= k < cur.len() && cur[k] == i as usize;
                    if k < prev.len() {
                        assert(prev[k] == i as usize);
                        assert(prev[k] < m);
                    }
                }
            }
        }
    }
}

/// Marking every launched chunk complete leaves the whole state complete.
pub proof fn lemma_pending_closes_all(completed: Seq<bool>, n: nat)
    requires
        n == completed.len(),
        n <= usize::MAX,
    ensures
        forall|i: int|
            0 <= i < n ==> (completed[i] || pending_ids(completed, n).contains(i as usize)),
{
    lemma_pending_ids_exact(completed, n);
}

/// A state whose length was recorded for `num_circuits` circuits, with
/// unknown length or at most one circuit per byte, can always be planned:
/// every chunk range is computable, and each is a non-empty range that ends
/// before the largest 64-bit offset.
pub proof fn lemma_recorded_state_plannable(s: DownloadState, num_circuits: usize)
    requires
        s.completed_chunks@.len() >= num_circuits,
        s.chunk_size == chunk_size_spec(s.content_length, num_circuits),
        s.content_length == 0 || (num_circuits > 0 && s.content_length >= num_circuits),
    ensures
        s.plan_defined(num_circuits),
        forall|i: int|
            0 <= i < num_circuits ==> {
                let r = #[trigger] chunk_range_spec(
                    s.content_length,
                    s.chunk_size,
                    num_circuits as int,
                    i,
                );
                r.0 <= r.1 < u64::MAX
            },
{
    if s.content_length > 0 {
        lemma_chunks_tile_file(s.content_length, num_circuits);
        assert forall|i: int|
            0 <= i < num_circuits && !s.completed_chunks@[i] implies chunk_range_defined(
            s.content_length,
            s.chunk_size,
            num_circuits as int,
            i,
        ) by {}
        assert forall|i: int| 0 <= i < num_circuits implies {
            let r = #[trigger] chunk_range_spec(s.content_length, s.chunk_size, num_circuits as int, i);
            r.0 <= r.1 < u64::MAX
        } by {
            assert(range_start(s.chunk_size, i) <= range_end(
                s.content_length,
                s.chunk_size,
                num_circuits as int,
                i,
            ) < u64::MAX);
        }
    }
}

} // verus!
