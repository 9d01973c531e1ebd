//! Deciding how a target is reached and how long it is.
use vstd::prelude::*;
use vstd::string::StringExecFns;
use crate::text::{
    chars_of,
    contains_seq,
    decimal,
    is_digit,
    lemma_decimal_digits,
    lemma_parse_decimal_roundtrip,
    parse_u64_from,
    parse_u64_spec,
    str_contains,
};

verus! {

broadcast use vstd::string::group_string_axioms;

/// The size assumed for an onion `.7z` archive whose length the server hides.
pub const ONION_ARCHIVE_FALLBACK_LENGTH: u64 = 52040670752;

/// `.onion`
pub open spec fn onion_marker() -> Seq<char> {
    seq!['.', 'o', 'n', 'i', 'o', 'n']
}

/// `.7z`
pub open spec fn archive_marker() -> Seq<char> {
    seq!['.', '7', 'z']
}

/// What follows the last `/` of `s` (all of `s` when it has none), as the
/// last item of `s.split('/')`.
pub open spec fn last_segment(s: Seq<char>) -> Seq<char>
    decreases s.len(),
{
    if s.len() == 0 {
        s
    } else if s.last() == '/' {
        Seq::empty()
    } else {
        last_segment(s.drop_last()).push(s.last())
    }
}

/// The total size that a `Content-Range` value such as `bytes 0-1/5000`
/// announces: the text after its last `/`, read as a `u64`.
pub open spec fn content_range_total_spec(value: Seq<char>) -> Option<u64> {
    parse_u64_spec(last_segment(value))
}

/// The length settled on after the probes: a non-zero HEAD length; failing
/// that the total announced by the ranged GET, when it reads as a number;
/// failing that zero, except that an onion `.7z` target is taken to be the
/// known archive size.
pub open spec fn settled_length_spec(
    head: Option<u64>,
    content_range: Option<Seq<char>>,
    is_onion: bool,
    url: Seq<char>,
) -> u64 {
    let from_head = match head {
        Some(n) => n,
        None => 0,
    };
    let probed = if from_head != 0 {
        from_head
    } else {
        match content_range {
            Some(v) => match content_range_total_spec(v) {
                Some(t) => t,
                None => 0,
            },
            None => 0,
        }
    };
    if probed == 0 && is_onion && contains_seq(url, archive_marker()) {
        ONION_ARCHIVE_FALLBACK_LENGTH
    } else {
        probed
    }
}

/// Whether the target goes through Tor: an onion address, or Tor is forced.
pub fn is_onion_target(url: &str, force_tor: bool) -> (b: bool)
    ensures
        b == (contains_seq(url@, onion_marker()) || force_tor),
{
    proof {
        reveal_strlit(".onion");
    }
    let found = str_contains(url, ".onion");
    assert(".onion"@ =~= onion_marker());
    found || force_tor
}

/// The file that records progress beside the output: `{output}.loki_state`.
pub fn state_file_path(output_target: &str) -> (p: String)
    ensures
        p@ == output_target@ + ".loki_state"@,
{
    let mut p = String::from_str(output_target);
    p.append(".loki_state");
    p
}

/// Whether the HEAD answer leaves the length unknown, so that a ranged GET
/// must be tried.
pub fn needs_range_probe(head: Option<u64>) -> (b: bool)
    ensures
        b == (match head {
            Some(n) => n == 0,
            None => true,
        }),
{
    match head {
        Some(n) => n == 0,
        None => true,
    }
}

/// Reads the total size out of a `Content-Range` value.
pub fn content_range_total(value: &str) -> (r: Option<u64>)
    ensures
        r == content_range_total_spec(value@),
{
    let v = chars_of(value);
    let mut i = v.len();
    assert(v@.subrange(0, i as int) =~= v@);
    assert(v@.subrange(i as int, v@.len() as int) =~= Seq::<char>::empty());
    assert(last_segment(v@) =~= last_segment(v@.subrange(0, i as int)) + v@.subrange(
        i as int,
        v@.len() as int,
    ));
    while i > 0 && v[i - 1] != '/'
        invariant
            i <= v@.len(),
            v@ == value@,
            last_segment(v@) == last_segment(v@.subrange(0, i as int)) + v@.subrange(
                i as int,
                v@.len() as int,
            ),
        decreases i,
    {
        let ghost p = v@.subrange(0, i as int);
        assert(p.drop_last() =~= v@.subrange(0, i - 1));
        assert(last_segment(p) == last_segment(p.drop_last()).push(p.last()));
        assert(last_segment(p) + v@.subrange(i as int, v@.len() as int) =~= last_segment(
            v@.subrange(0, i - 1),
        ) + v@.subrange(i - 1, v@.len() as int));
        i = i - 1;
    }
    proof {
        let p = v@.subrange(0, i as int);
        assert(last_segment(p) =~= Seq::<char>::empty());
        assert(last_segment(v@) =~= v@.subrange(i as int, v@.len() as int));
    }
    parse_u64_from(&v, i)
}

/// The length of the target once the probes are done.
pub fn settle_content_length(
    head: Option<u64>,
    content_range: Option<&str>,
    is_onion: bool,
    url: &str,
) -> (n: u64)
    ensures
        n == settled_length_spec(
            head,
            match content_range {
                Some(v) => Some(v@),
                None => None,
            },
            is_onion,
            url@,
        ),
{
    let from_head = match head {
        Some(n) => n,
        None => 0,
    };
    let probed = if from_head != 0 {
        from_head
    } else {
        match content_range {
            Some(v) => match content_range_total(v) {
                Some(t) => t,
                None => 0,
            },
            None => 0,
        }
    };
    if probed == 0 && is_onion {
        proof {
            reveal_strlit(".7z");
        }
        let archive = str_contains(url, ".7z");
        assert(".7z"@ =~= archive_marker());
        if archive {
            return ONION_ARCHIVE_FALLBACK_LENGTH;
        }
    }
    probed
}

/// The text after the last `/` of `prefix`, a `/`, and a run without `/` is
/// that run.
pub proof fn lemma_last_segment_after_slash(prefix: Seq<char>, tail: Seq<char>)
    requires
        forall|i: int| 0 <= i < tail.len() ==> #[trigger] tail[i] != '/',
    ensures
        last_segment(prefix + seq!['/'] + tail) == tail,
    decreases tail.len(),
{
    let w = prefix + seq!['/'] + tail;
    if tail.len() == 0 {
        assert(w.last() == '/');
        assert(last_segment(w) =~= tail);
    } else {
        let shorter = tail.drop_last();
        assert forall|i: int| 0 <= i < shorter.len() implies #[trigger] shorter[i] != '/' by {
            assert(shorter[i] == tail[i]);
        }
        lemma_last_segment_after_slash(prefix, shorter);
        assert(w.drop_last() =~= prefix + seq!['/'] + shorter);
        assert(w.last() == tail[tail.len() - 1]);
        assert(last_segment(w) =~= shorter.push(tail.last()));
        assert(shorter.push(tail.last()) =~= tail);
    }
}

/// A decimal rendering holds no `/`.
proof fn lemma_decimal_has_no_slash(t: nat)
    ensures
        forall|i: int| 0 <= i < decimal(t).len() ==> #[trigger] decimal(t)[i] != '/',
{
    lemma_decimal_digits(t);
    assert forall|i: int| 0 <= i < decimal(t).len() implies #[trigger] decimal(t)[i] != '/' by {
        assert(is_digit(decimal(t)[i]));
    }
}

/// Any `Content-Range` value that ends in `/` and the decimal total `t` (such
/// as `bytes 0-1/52040670752`) announces exactly `t`, for every 64-bit `t`.
pub proof fn lemma_content_range_total_reads_decimal(prefix: Seq<char>, t: u64)
    ensures
        content_range_total_spec(prefix + seq!['/'] + decimal(t as nat)) == Some(t),
{
    lemma_decimal_has_no_slash(t as nat);
    lemma_last_segment_after_slash(prefix, decimal(t as nat));
    lemma_parse_decimal_roundtrip(t);
}

/// A non-zero HEAD length is the length, whatever else is known.
pub proof fn lemma_settled_head_wins(
    n: u64,
    content_range: Option<Seq<char>>,
    is_onion: bool,
    url: Seq<char>,
)
    requires
        n > 0,
    ensures
        settled_length_spec(Some(n), content_range, is_onion, url) == n,
{
}

/// When the HEAD request gives no length, a positive total announced by the
/// range probe's `Content-Range` (`…/t`) is the length, whether or not the
/// target goes through Tor and whatever its name: the archive fallback never
/// overrides a length the server reported.
pub proof fn lemma_settled_range_total_wins(
    head: Option<u64>,
    prefix: Seq<char>,
    t: u64,
    is_onion: bool,
    url: Seq<char>,
)
    requires
        head == Some(0u64) || head is None,
        t > 0,
    ensures
        settled_length_spec(head, Some(prefix + seq!['/'] + decimal(t as nat)), is_onion, url) == t,
{
    lemma_content_range_total_reads_decimal(prefix, t);
}

/// When neither probe gives a length, the length is 52040670752 for a Tor
/// target (an onion address or forced Tor alike) whose URL holds `.7z`, and 0
/// otherwise.
pub proof fn lemma_settled_fallback(
    head: Option<u64>,
    content_range: Option<Seq<char>>,
    is_onion: bool,
    url: Seq<char>,
)
    requires
        head == Some(0u64) || head is None,
        content_range is None || content_range_total_spec(content_range->0) is None
            || content_range_total_spec(content_range->0) == Some(0u64),
    ensures
        (is_onion && exists|i: int|
            0 <= i && i + 3 <= url.len() && #[trigger] url.subrange(i, i + 3) == seq!['.', '7', 'z'])
            ==> settled_length_spec(head, content_range, is_onion, url) == 52040670752u64,
        !(is_onion && exists|i: int|
            0 <= i && i + 3 <= url.len() && #[trigger] url.subrange(i, i + 3) == seq!['.', '7', 'z'])
            ==> settled_length_spec(head, content_range, is_onion, url) == 0,
{
    assert(archive_marker().len() == 3);
}

} // verus!
