//! The two digest engines.
//!
//! Both take the normalized content bytes as their sole input:
//! - the fast digest is a 64-bit non-cryptographic xxHash3 of the bytes;
//! - the canonical object digest prepends the header `"blob " + decimal
//!   length + NUL`, hashes the concatenation with SHA-1, and hex-encodes the
//!   result in lowercase, bit-exact with git's blob object ids.

use vstd::prelude::*;

use crate::content::{
    content_to_hash, lemma_normalize_crlf_free_identity, lemma_normalize_yields_crlf_free,
    spec_content_to_hash, spec_is_binary, spec_no_cr_before_crlf, spec_normalize_crlf,
};

verus! {

/// The 64-bit xxHash3 digest of a byte sequence. The digest is a function
/// of the bytes alone; what it is on given bytes is left to the outside
/// implementation.
pub uninterp spec fn spec_xxh3(s: Seq<u8>) -> u64;

/// The outcome of SHA-1 hashing a byte sequence with collision detection:
/// the 20-byte digest, or `None` when a collision attack is detected. The
/// outcome is a function of the bytes alone.
pub uninterp spec fn spec_sha1(s: Seq<u8>) -> Option<Seq<u8>>;

/// The decimal ASCII rendering of a number: most significant digit first,
/// no leading zeros, `"0"` for zero.
pub open spec fn spec_decimal_digits(n: nat) -> Seq<u8>
    decreases n,
{
    if n < 10 {
        seq![(48 + n) as u8]
    } else {
        spec_decimal_digits(n / 10).push((48 + n % 10) as u8)
    }
}

/// The loose object header for a blob of the given size:
/// `"blob " + decimal(size) + NUL`.
pub open spec fn spec_blob_header(size: nat) -> Seq<u8> {
    seq![98u8, 108u8, 111u8, 98u8, 32u8] + spec_decimal_digits(size) + seq![0u8]
}

/// The lowercase hex character for a nibble.
pub open spec fn spec_hex_digit(n: u8) -> char {
    if n == 0 { '0' } else if n == 1 { '1' } else if n == 2 { '2' }
    else if n == 3 { '3' } else if n == 4 { '4' } else if n == 5 { '5' }
    else if n == 6 { '6' } else if n == 7 { '7' } else if n == 8 { '8' }
    else if n == 9 { '9' } else if n == 10 { 'a' } else if n == 11 { 'b' }
    else if n == 12 { 'c' } else if n == 13 { 'd' } else if n == 14 { 'e' }
    else { 'f' }
}

/// The lowercase hex encoding of a byte sequence: two digits per byte, high
/// nibble first.
pub open spec fn spec_hex_of(s: Seq<u8>) -> Seq<char> {
    Seq::new(
        2 * s.len(),
        |i: int| if i % 2 == 0 {
            spec_hex_digit(s[i / 2] >> 4u8)
        } else {
            spec_hex_digit(s[i / 2] & 15u8)
        },
    )
}

/// The fast digest of a file with the given raw content: xxHash3-64 of the
/// normalized bytes.
pub open spec fn spec_fast_digest(raw: Seq<u8>) -> u64 {
    spec_xxh3(spec_content_to_hash(raw))
}

/// The canonical object digest of a file with the given raw content:
/// lowercase hex of SHA-1 over `"blob " + decimal(len) + NUL` followed by
/// the normalized bytes. `None` only when the SHA-1 engine rejects the
/// input as a collision attack.
pub open spec fn spec_canonical_digest(raw: Seq<u8>) -> Option<Seq<char>> {
    let content = spec_content_to_hash(raw);
    match spec_sha1(spec_blob_header(content.len()) + content) {
        Some(d) => Some(spec_hex_of(d)),
        None => None,
    }
}

/// Relies on `xxhash_rust::xxh3::xxh3_64`: the streaming 64-bit xxHash3
/// digest of the input bytes, a pure function of those bytes.
#[verifier::external_body]
fn xxh3_64(bytes: &[u8]) -> (r: u64)
    ensures
        r == spec_xxh3(bytes@),
{
    xxhash_rust::xxh3::xxh3_64(bytes)
}

/// Relies on `gix::hash::hasher` and `Hasher::try_finalize` with kind SHA-1:
/// the 20-byte SHA-1 digest of the input bytes, or a rejection when the
/// collision-detecting implementation flags the input; either outcome is a
/// pure function of the bytes.
#[verifier::external_body]
fn sha1(bytes: &[u8]) -> (r: Option<Vec<u8>>)
    ensures
        match r {
            Some(d) => spec_sha1(bytes@) == Some(d@) && d@.len() == 20,
            None => spec_sha1(bytes@) is None,
        },
{
    let mut hasher = gix::hash::hasher(gix::hash::Kind::Sha1);
    hasher.update(bytes);
    match hasher.try_finalize() {
        Ok(id) => Some(id.as_slice().to_vec()),
        Err(_) => None,
    }
}

/// Relies on `gix::objs::encode::loose_header` with kind `Blob`: the header
/// is the kind's name `"blob"`, a space, the size in decimal ASCII, and a
/// NUL byte.
#[verifier::external_body]
fn blob_loose_header(size: u64) -> (r: Vec<u8>)
    ensures
        r@ == spec_blob_header(size as nat),
{
    gix::objs::encode::loose_header(gix::objs::Kind::Blob, size).to_vec()
}

/// Relies on `hex::encode`: two lowercase hex digits for each input byte,
/// high nibble first.
#[verifier::external_body]
fn hex_lower(bytes: &[u8]) -> (r: String)
    ensures
        r@ == spec_hex_of(bytes@),
{
    hex::encode(bytes)
}

/// The fast (xxHash3-64) digest of a file's raw content, computed over the
/// normalized bytes.
pub fn fast_digest(bytes: &Vec<u8>) -> (r: u64)
    ensures
        r == spec_fast_digest(bytes@),
{
    let content = content_to_hash(bytes);
    xxh3_64(content.as_slice())
}

/// The canonical object digest of a file's raw content: git's blob object
/// id of the normalized bytes, as a lowercase hex string.
pub fn canonical_digest(bytes: &Vec<u8>) -> (r: Option<String>)
    ensures
        match r {
            Some(s) => spec_canonical_digest(bytes@) == Some(s@),
            None => spec_canonical_digest(bytes@) is None,
        },
{
    let content = content_to_hash(bytes);
    let mut message = blob_loose_header(content.len() as u64);
    message.extend_from_slice(content.as_slice());
    proof {
        assert(message@ =~= spec_blob_header(spec_content_to_hash(bytes@).len())
            + spec_content_to_hash(bytes@));
    }
    match sha1(message.as_slice()) {
        Some(d) => Some(hex_lower(d.as_slice())),
        None => None,
    }
}

/// A text file's digest is invariant under collapsing every CRLF pair in
/// its source content to LF: hashing the original and the LF-normalized
/// content yields the same digest. This holds whenever no CRLF pair is
/// itself directly preceded by a carriage return; on content such as
/// `CR CR LF` the collapse creates a new CRLF pair and the digests differ.
pub proof fn lemma_digest_invariant_under_crlf_collapse(s: Seq<u8>)
    requires
        !spec_is_binary(s),
        spec_no_cr_before_crlf(s),
    ensures
        spec_fast_digest(spec_normalize_crlf(s)) == spec_fast_digest(s),
        spec_canonical_digest(spec_normalize_crlf(s)) == spec_canonical_digest(s),
{
    lemma_normalize_yields_crlf_free(s);
    lemma_normalize_crlf_free_identity(spec_normalize_crlf(s));
}

/// Two byte-identical file contents produce identical digests, at whatever
/// paths the files live: both digests are functions of the content alone.
pub proof fn lemma_identical_content_identical_digests(a: Seq<u8>, b: Seq<u8>)
    requires
        a == b,
    ensures
        spec_fast_digest(a) == spec_fast_digest(b),
        spec_canonical_digest(a) == spec_canonical_digest(b),
{
}

} // verus!
