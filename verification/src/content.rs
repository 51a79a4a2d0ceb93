//! Content classification and line-ending normalization.
//!
//! Before hashing, a file's bytes are either passed through unchanged (when
//! the file is classified as binary) or normalized by collapsing every CRLF
//! pair to a single LF, so that fingerprints are stable across checkouts
//! with different line-ending conventions.

use vstd::prelude::*;

verus! {

/// Carriage return.
pub const CR: u8 = 13;

/// Line feed.
pub const LF: u8 = 10;

/// Upper bound (in bytes) of the prefix inspected by the binary heuristic.
pub const BINARY_SNIFF_LEN: usize = 8000;

/// A file is classified as binary when its first 8000 bytes contain a zero
/// byte (the same heuristic git uses).
pub open spec fn spec_is_binary(s: Seq<u8>) -> bool {
    exists|i: int| 0 <= i < s.len() && i < 8000 && s[i] == 0u8
}

/// The file's bytes with every CRLF pair collapsed to a single LF, in one
/// left-to-right pass. A carriage return not followed by a line feed, and a
/// line feed not preceded by a carriage return, are preserved as-is.
pub open spec fn spec_normalize_crlf(s: Seq<u8>) -> Seq<u8>
    decreases s.len(),
{
    if s.len() == 0 {
        Seq::<u8>::empty()
    } else if s.len() >= 2 && s[0] == CR && s[1] == LF {
        seq![LF] + spec_normalize_crlf(s.skip(2))
    } else {
        seq![s[0]] + spec_normalize_crlf(s.skip(1))
    }
}

/// The exact byte sequence fed to a digest engine for a file with the given
/// raw content: the raw bytes for a binary file, the CRLF-normalized bytes
/// for a text file.
pub open spec fn spec_content_to_hash(s: Seq<u8>) -> Seq<u8> {
    if spec_is_binary(s) {
        s
    } else {
        spec_normalize_crlf(s)
    }
}

/// Whether the first 8000 bytes contain a zero byte.
pub fn is_binary(bytes: &Vec<u8>) -> (r: bool)
    ensures
        r == spec_is_binary(bytes@),
{
    let n = if bytes.len() < BINARY_SNIFF_LEN {
        bytes.len()
    } else {
        BINARY_SNIFF_LEN
    };
    let mut i: usize = 0;
    while i < n
        invariant
            0 <= i <= n,
            n <= bytes@.len(),
            n == if bytes@.len() < 8000 { bytes@.len() as int } else { 8000 },
            forall|j: int| 0 <= j < i ==> bytes@[j] != 0u8,
        decreases n - i,
    {
        if bytes[i] == 0u8 {
            assert(spec_is_binary(bytes@)) by {
                assert(bytes@[i as int] == 0u8);
            }
            return true;
        }
        i += 1;
    }
    false
}

/// Collapses every CRLF pair to a single LF in one left-to-right pass.
pub fn normalize_crlf(bytes: &Vec<u8>) -> (r: Vec<u8>)
    ensures
        r@ == spec_normalize_crlf(bytes@),
{
    let mut out: Vec<u8> = Vec::new();
    let mut i: usize = 0;
    proof {
        assert(bytes@.skip(0) =~= bytes@);
    }
    while i < bytes.len()
        invariant
            0 <= i <= bytes@.len(),
            out@ + spec_normalize_crlf(bytes@.skip(i as int)) == spec_normalize_crlf(bytes@),
        decreases bytes@.len() - i,
    {
        let ghost pre = bytes@.skip(i as int);
        if bytes[i] == CR && i + 1 < bytes.len() && bytes[i + 1] == LF {
            out.push(LF);
            i += 2;
            proof {
                assert(pre.skip(2) =~= bytes@.skip(i as int));
                assert(out@ + spec_normalize_crlf(bytes@.skip(i as int))
                    =~= spec_normalize_crlf(bytes@));
            }
        } else {
            out.push(bytes[i]);
            i += 1;
            proof {
                assert(pre.skip(1) =~= bytes@.skip(i as int));
                assert(out@ + spec_normalize_crlf(bytes@.skip(i as int))
                    =~= spec_normalize_crlf(bytes@));
            }
        }
    }
    proof {
        assert(bytes@.skip(i as int) =~= Seq::<u8>::empty());
        assert(out@ =~= spec_normalize_crlf(bytes@));
    }
    out
}

/// Produces the exact byte sequence to hash for a file with the given raw
/// content: raw bytes when binary, CRLF-normalized bytes otherwise.
pub fn content_to_hash(bytes: &Vec<u8>) -> (r: Vec<u8>)
    ensures
        r@ == spec_content_to_hash(bytes@),
{
    if is_binary(bytes) {
        bytes.clone()
    } else {
        normalize_crlf(bytes)
    }
}

/// No CRLF pair occurs anywhere in the byte sequence.
pub open spec fn spec_crlf_free(s: Seq<u8>) -> bool {
    forall|i: int| 0 <= i && i + 1 < s.len() ==> !(#[trigger] s[i] == CR && s[i + 1] == LF)
}

/// No CRLF pair is directly preceded by a carriage return. On such content,
/// collapsing CRLF pairs to LF never creates a new CRLF pair.
pub open spec fn spec_no_cr_before_crlf(s: Seq<u8>) -> bool {
    forall|i: int|
        0 <= i && i + 2 < s.len() ==> !(#[trigger] s[i] == CR && s[i + 1] == CR && s[i + 2] == LF)
}

/// Normalization leaves CRLF-free content unchanged.
pub proof fn lemma_normalize_crlf_free_identity(s: Seq<u8>)
    requires
        spec_crlf_free(s),
    ensures
        spec_normalize_crlf(s) == s,
    decreases s.len(),
{
    if s.len() == 0 {
        assert(spec_normalize_crlf(s) =~= s);
    } else {
        assert(!(s.len() >= 2 && s[0] == CR && s[1] == LF)) by {
            if s.len() >= 2 {
                assert(!(s[0] == CR && s[1int] == LF));
            }
        }
        let t = s.skip(1);
        assert forall|i: int| 0 <= i && i + 1 < t.len() implies !(#[trigger] t[i] == CR && t[i + 1] == LF) by {
            assert(t[i] == s[i + 1] && t[i + 1] == s[i + 2]);
            assert(!(s[i + 1] == CR && s[i + 2] == LF));
        }
        lemma_normalize_crlf_free_identity(t);
        assert(seq![s[0]] + t =~= s);
    }
}

/// When no CRLF pair is directly preceded by a carriage return, the
/// normalized content contains no CRLF pair at all.
pub proof fn lemma_normalize_yields_crlf_free(s: Seq<u8>)
    requires
        spec_no_cr_before_crlf(s),
    ensures
        spec_crlf_free(spec_normalize_crlf(s)),
    decreases s.len(),
{
    let r = spec_normalize_crlf(s);
    if s.len() == 0 {
        assert(spec_crlf_free(r));
    } else if s.len() >= 2 && s[0] == CR && s[1] == LF {
        let t = s.skip(2);
        assert forall|i: int|
            0 <= i && i + 2 < t.len() implies !(#[trigger] t[i] == CR && t[i + 1] == CR && t[i + 2] == LF) by {
            assert(t[i] == s[i + 2] && t[i + 1] == s[i + 3] && t[i + 2] == s[i + 4]);
            assert(!(s[i + 2] == CR && s[i + 3] == CR && s[i + 4] == LF));
        }
        lemma_normalize_yields_crlf_free(t);
        let rt = spec_normalize_crlf(t);
        assert(r == seq![LF] + rt);
        assert forall|i: int| 0 <= i && i + 1 < r.len() implies !(#[trigger] r[i] == CR && r[i + 1] == LF) by {
            if i == 0 {
                assert(r[0] == LF);
            } else {
                assert(r[i] == rt[i - 1] && r[i + 1] == rt[i]);
                assert(!(rt[i - 1] == CR && rt[i] == LF));
            }
        }
    } else {
        let t = s.skip(1);
        assert forall|i: int|
            0 <= i && i + 2 < t.len() implies !(#[trigger] t[i] == CR && t[i + 1] == CR && t[i + 2] == LF) by {
            assert(t[i] == s[i + 1] && t[i + 1] == s[i + 2] && t[i + 2] == s[i + 3]);
            assert(!(s[i + 1] == CR && s[i + 2] == CR && s[i + 3] == LF));
        }
        lemma_normalize_yields_crlf_free(t);
        let rt = spec_normalize_crlf(t);
        assert(r == seq![s[0]] + rt);
        assert forall|i: int| 0 <= i && i + 1 < r.len() implies !(#[trigger] r[i] == CR && r[i + 1] == LF) by {
            if i == 0 {
                // The only dangerous pair is a leading CR followed by the
                // first normalized byte of the tail.
                if s[0] == CR {
                    assert(s.len() >= 2 && s[1] != LF);
                    if t.len() >= 2 && t[0] == CR && t[1] == LF {
                        // s would start with CR CR LF, which is excluded.
                        assert(s[0] == CR && s[1int] == CR && s[2int] == LF);
                        assert(false);
                    } else {
                        assert(rt[0] == t[0]);
                        assert(r[1] == s[1]);
                    }
                }
            } else {
                assert(r[i] == rt[i - 1] && r[i + 1] == rt[i]);
                assert(!(rt[i - 1] == CR && rt[i] == LF));
            }
        }
    }
}

/// A binary file (a zero byte among its first 8000) is hashed on its raw
/// bytes: no CRLF collapsing is applied, even if it contains CRLF pairs.
pub proof fn lemma_binary_content_hashed_raw(s: Seq<u8>)
    requires
        spec_is_binary(s),
    ensures
        spec_content_to_hash(s) == s,
{
}

/// The digests are sensitive to standalone carriage returns and line
/// feeds: two distinct text contents that contain no CRLF pair are fed to
/// the digest engines as distinct byte sequences (normalization collapses
/// only CRLF pairs, so it tells such contents apart).
pub proof fn lemma_standalone_line_ending_changes_reach_digest(a: Seq<u8>, b: Seq<u8>)
    requires
        !spec_is_binary(a),
        !spec_is_binary(b),
        spec_crlf_free(a),
        spec_crlf_free(b),
        a != b,
    ensures
        spec_content_to_hash(a) != spec_content_to_hash(b),
{
    lemma_normalize_crlf_free_identity(a);
    lemma_normalize_crlf_free_identity(b);
}

} // verus!
