//! Content digests: SHA-256 of a file's bytes, rendered as lowercase hex.

use vstd::prelude::*;
use sha2::Digest;

verus! {

/// What SHA-256 returns for `bytes`: a function of the bytes alone.
pub uninterp spec fn sha256_of(bytes: Seq<u8>) -> Seq<u8>;

/// Relies on sha2's `Sha256` (one-shot `Digest::digest`): the digest depends
/// on the input bytes alone and is 32 bytes long.
#[verifier::external_body]
fn sha256_digest(data: &[u8]) -> (r: Vec<u8>)
    ensures
        r@ == sha256_of(data@),
        r@.len() == 32,
{
    sha2::Sha256::digest(data).to_vec()
}

/// The lowercase hex digit for a nibble value.
pub open spec fn hex_digit(n: int) -> char {
    if n == 0 {
        '0'
    } else if n == 1 {
        '1'
    } else if n == 2 {
        '2'
    } else if n == 3 {
        '3'
    } else if n == 4 {
        '4'
    } else if n == 5 {
        '5'
    } else if n == 6 {
        '6'
    } else if n == 7 {
        '7'
    } else if n == 8 {
        '8'
    } else if n == 9 {
        '9'
    } else if n == 10 {
        'a'
    } else if n == 11 {
        'b'
    } else if n == 12 {
        'c'
    } else if n == 13 {
        'd'
    } else if n == 14 {
        'e'
    } else {
        'f'
    }
}

/// Lowercase hex encoding: two digits per byte, high nibble first.
pub open spec fn hex_lower_of(bytes: Seq<u8>) -> Seq<char>
    decreases bytes.len(),
{
    if bytes.len() == 0 {
        Seq::empty()
    } else {
        hex_lower_of(bytes.drop_last()).push(hex_digit(bytes.last() as int / 16)).push(
            hex_digit(bytes.last() as int % 16),
        )
    }
}

/// Relies on hex::encode: lowercase hex, exactly two digits for each input
/// byte, high nibble first.
#[verifier::external_body]
fn hex_encode(data: &[u8]) -> (r: String)
    ensures
        r@ == hex_lower_of(data@),
{
    hex::encode(data)
}

/// The content digest of a file's bytes: SHA-256 rendered as lowercase hex.
pub open spec fn spec_file_digest(bytes: Seq<u8>) -> Seq<char> {
    hex_lower_of(sha256_of(bytes))
}

/// Compute the content digest of a file's bytes: always 64 hex characters.
pub fn calculate_file_hash(content: &[u8]) -> (r: String)
    ensures
        r@ == spec_file_digest(content@),
        r@.len() == 64,
{
    let d = sha256_digest(content);
    proof {
        lemma_hex_lower_len(d@);
    }
    hex_encode(d.as_slice())
}

/// The digest is a function of the content: files with identical bytes have
/// equal digests.
pub proof fn lemma_digest_deterministic(a: Seq<u8>, b: Seq<u8>)
    requires
        a == b,
    ensures
        spec_file_digest(a) == spec_file_digest(b),
{
}

pub proof fn lemma_hex_lower_len(bytes: Seq<u8>)
    ensures
        hex_lower_of(bytes).len() == 2 * bytes.len(),
    decreases bytes.len(),
{
    if bytes.len() > 0 {
        lemma_hex_lower_len(bytes.drop_last());
    }
}

/// Hex encoding is injective: equal digest strings mean equal digest bytes,
/// so comparing rendered digests is exactly comparing the underlying hashes.
pub proof fn lemma_hex_lower_injective(a: Seq<u8>, b: Seq<u8>)
    requires
        hex_lower_of(a) == hex_lower_of(b),
    ensures
        a == b,
    decreases a.len(),
{
    lemma_hex_lower_len(a);
    lemma_hex_lower_len(b);
    if a.len() == 0 {
        assert(b.len() == 0);
        assert(a =~= b);
    } else {
        let ha = hex_lower_of(a);
        let hb = hex_lower_of(b);
        assert(hex_digit(a.last() as int / 16) == hex_digit(b.last() as int / 16) && hex_digit(
            a.last() as int % 16,
        ) == hex_digit(b.last() as int % 16)) by {
            assert(ha[ha.len() - 1] == hb[hb.len() - 1]);
            assert(ha[ha.len() - 2] == hb[hb.len() - 2]);
        }
        assert(a.last() as int / 16 == b.last() as int / 16 && a.last() as int % 16 == b.last() as int % 16);
        assert(a.last() == b.last());
        assert(hex_lower_of(a.drop_last()) == hex_lower_of(b.drop_last())) by {
            lemma_hex_lower_len(a.drop_last());
            assert forall|i: int| 0 <= i < ha.len() - 2 implies hex_lower_of(a.drop_last())[i]
                == hex_lower_of(b.drop_last())[i] by {
                assert(ha[i] == hb[i]);
            }
            assert(hex_lower_of(a.drop_last()) =~= hex_lower_of(b.drop_last()));
        }
        lemma_hex_lower_injective(a.drop_last(), b.drop_last());
        assert forall|i: int| 0 <= i < a.len() implies a[i] == b[i] by {
            if i < a.len() - 1 {
                assert(a[i] == a.drop_last()[i]);
                assert(b[i] == b.drop_last()[i]);
            }
        }
        assert(a =~= b);
    }
}

} // verus!
