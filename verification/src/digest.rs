//! The SHA-256 fingerprint of a finished download, in lowercase hex.
use vstd::prelude::*;
use sha2::{Digest, Sha256};

verus! {

/// A `sha2::Sha256` hasher, whose insides Verus does not see.
#[verifier::external_body]
pub struct Sha256Hasher {
    inner: Sha256,
}

/// The bytes a SHA-256 hasher has taken in since it was made.
pub uninterp spec fn sha256_absorbed(h: Sha256Hasher) -> Seq<u8>;

/// The SHA-256 digest of `data`.
pub uninterp spec fn sha256_digest(data: Seq<u8>) -> Seq<u8>;

/// The lowercase hex digit for a value below sixteen.
pub open spec fn hex_digit(d: int) -> char {
    if d < 10 {
        (d + 48) as char
    } else {
        (d + 87) as char
    }
}

/// Two lowercase hex digits per byte, high nibble first.
pub open spec fn hex_lower(data: Seq<u8>) -> Seq<char>
    decreases data.len(),
{
    if data.len() == 0 {
        Seq::empty()
    } else {
        hex_lower(data.drop_last()) + seq![
            hex_digit(data.last() as int / 16),
            hex_digit(data.last() as int % 16),
        ]
    }
}

/// Calls `<Sha256 as Digest>::new`: a hasher that has taken in nothing.
#[verifier::external_body]
fn sha256_new() -> (h: Sha256Hasher)
    ensures
        sha256_absorbed(h) == Seq::<u8>::empty(),
{
    Sha256Hasher { inner: Sha256::new() }
}

/// Calls `<Sha256 as Digest>::update`: the hasher takes in `data` after what
/// it already holds.
#[verifier::external_body]
fn sha256_update(h: &mut Sha256Hasher, data: &[u8])
    ensures
        sha256_absorbed(*final(h)) == sha256_absorbed(*old(h)) + data@,
{
    h.inner.update(data)
}

/// Calls `<Sha256 as Digest>::finalize`: the 32-byte digest of everything the
/// hasher took in.
#[verifier::external_body]
fn sha256_finalize(h: Sha256Hasher) -> (d: Vec<u8>)
    ensures
        d@ == sha256_digest(sha256_absorbed(h)),
        d@.len() == 32,
{
    h.inner.finalize().to_vec()
}

/// Calls `hex::encode`: two lowercase hex digits per byte.
#[verifier::external_body]
fn hex_encode(data: &[u8]) -> (s: String)
    ensures
        s@ == hex_lower(data@),
{
    hex::encode(data)
}

/// A running SHA-256 over a file read piece by piece.
pub struct ContentDigest {
    hasher: Sha256Hasher,
}

impl ContentDigest {
    /// The bytes taken in so far.
    pub closed spec fn absorbed(self) -> Seq<u8> {
        sha256_absorbed(self.hasher)
    }

    /// A digest that has taken in nothing.
    pub fn new() -> (d: Self)
        ensures
            d.absorbed() == Seq::<u8>::empty(),
    {
        ContentDigest { hasher: sha256_new() }
    }

    /// Takes in the next piece of the file.
    pub fn absorb(&mut self, data: &[u8])
        ensures
            final(self).absorbed() == old(self).absorbed() + data@,
    {
        sha256_update(&mut self.hasher, data);
    }

    /// The lowercase hex SHA-256 of everything taken in.
    pub fn finish_hex(self) -> (s: String)
        ensures
            s@ == hex_lower(sha256_digest(self.absorbed())),
            s@.len() == 64,
    {
        let d = sha256_finalize(self.hasher);
        let s = hex_encode(d.as_slice());
        proof {
            lemma_hex_lower_len(d@);
        }
        s
    }
}

/// Hex rendering doubles the length.
pub proof fn lemma_hex_lower_len(data: Seq<u8>)
    ensures
        hex_lower(data).len() == 2 * data.len(),
    decreases data.len(),
{
    if data.len() > 0 {
        lemma_hex_lower_len(data.drop_last());
    }
}

} // verus!
