//! Binary encoding of embeddings. An embedding is a vector of 32-bit floats,
//! held here as their IEEE-754 bit patterns; each one is stored as four
//! little-endian bytes, in vector order.

use vstd::prelude::*;

verus! {

/// Why a stored value could not be read back.
#[derive(Debug, Clone, Copy, PartialEq, Eq, Structural)]
pub enum CodecError {
    /// The embedding blob's length is not a multiple of four.
    EmbeddingLength,
    /// The tag column does not hold a list of strings.
    Tags,
    /// The timestamp column does not hold an RFC 3339 date and time.
    Timestamp,
}

/// Byte `k` (0 is the least significant) of the word `w`.
pub open spec fn byte_at(w: u32, k: int) -> u8 {
    if k == 0 {
        (w % 256) as u8
    } else if k == 1 {
        ((w / 256) % 256) as u8
    } else if k == 2 {
        ((w / 65536) % 256) as u8
    } else {
        (w / 16777216) as u8
    }
}

/// The word whose little-endian bytes are `b0 b1 b2 b3`.
pub open spec fn word_of(b0: u8, b1: u8, b2: u8, b3: u8) -> int {
    b0 + 256 * b1 + 65536 * b2 + 16777216 * b3
}

/// The encoding of `v`: four bytes per word, least significant first.
pub open spec fn encoded(v: Seq<u32>) -> Seq<u8> {
    Seq::new(4 * v.len(), |i: int| byte_at(v[i / 4], i % 4))
}

/// The words that a blob of whole four-byte chunks decodes to.
pub open spec fn decoded(b: Seq<u8>) -> Seq<u32> {
    Seq::new(b.len() / 4, |j: int| word_of(b[4 * j], b[4 * j + 1], b[4 * j + 2], b[4 * j + 3]) as u32)
}

proof fn lemma_word_bytes(w: u32)
    ensures
        word_of(byte_at(w, 0), byte_at(w, 1), byte_at(w, 2), byte_at(w, 3)) == w,
{
    assert(word_of(byte_at(w, 0), byte_at(w, 1), byte_at(w, 2), byte_at(w, 3)) == w) by (nonlinear_arith);
}

/// Encodes an embedding as `4 * v.len()` bytes.
pub fn encode_embedding(v: &Vec<u32>) -> (r: Vec<u8>)
    requires
        4 * v@.len() <= usize::MAX,
    ensures
        r@ == encoded(v@),
{
    let mut r: Vec<u8> = Vec::new();
    let mut i: usize = 0;
    while i < v.len()
        invariant
            i <= v@.len(),
            4 * v@.len() <= usize::MAX,
            r@.len() == 4 * i,
            forall|k: int| 0 <= k < 4 * i ==> r@[k] == byte_at(v@[k / 4], k % 4),
        decreases v@.len() - i,
    {
        let w = v[i];
        r.push((w % 256) as u8);
        r.push(((w / 256) % 256) as u8);
        r.push(((w / 65536) % 256) as u8);
        r.push((w / 16777216) as u8);
        assert forall|k: int| 0 <= k < 4 * (i + 1) implies r@[k] == byte_at(v@[k / 4], k % 4) by {
            if k >= 4 * i {
                assert(k / 4 == i as int);
            }
        }
        i = i + 1;
    }
    assert(r@ =~= encoded(v@));
    r
}

/// Decodes a blob into words, four bytes at a time; fails where the length
/// is not a multiple of four.
pub fn decode_embedding(b: &Vec<u8>) -> (r: Result<Vec<u32>, CodecError>)
    ensures
        r is Err <==> b@.len() % 4 != 0,
        r is Err ==> r->Err_0 == CodecError::EmbeddingLength,
        r is Ok ==> r->Ok_0@ == decoded(b@),
{
    if b.len() % 4 != 0 {
        return Err(CodecError::EmbeddingLength);
    }
    let n = b.len() / 4;
    let mut r: Vec<u32> = Vec::new();
    let mut j: usize = 0;
    while j < n
        invariant
            n == b@.len() / 4,
            b@.len() % 4 == 0,
            j <= n,
            r@.len() == j,
            forall|t: int| 0 <= t < j ==> r@[t] == decoded(b@)[t],
        decreases n - j,
    {
        assert(4 * j + 3 < b@.len()) by (nonlinear_arith)
            requires j < n, n == b@.len() / 4, b@.len() % 4 == 0;
        let len = b.len();
        assert(4 * j + 3 < len);
        let b0 = b[4 * j];
        let b1 = b[4 * j + 1];
        let b2 = b[4 * j + 2];
        let b3 = b[4 * j + 3];
        assert(word_of(b0, b1, b2, b3) <= u32::MAX) by (nonlinear_arith)
            requires b0 <= 255, b1 <= 255, b2 <= 255, b3 <= 255;
        let w: u32 = b0 as u32 + 256 * (b1 as u32) + 65536 * (b2 as u32) + 16777216 * (b3 as u32);
        r.push(w);
        j = j + 1;
    }
    assert(r@ =~= decoded(b@));
    Ok(r)
}

/// Decoding what was encoded gives back the same words, and so the same
/// float bit patterns.
pub proof fn lemma_round_trip(v: Seq<u32>)
    ensures
        encoded(v).len() % 4 == 0,
        decoded(encoded(v)) == v,
{
    let e = encoded(v);
    assert((4 * v.len()) / 4 == v.len()) by (nonlinear_arith);
    assert((4 * v.len()) % 4 == 0) by (nonlinear_arith);
    assert forall|j: int| 0 <= j < v.len() implies decoded(e)[j] == v[j] by {
        assert forall|k: int| 0 <= k < 4 implies (#[trigger] ((4 * j + k) / 4)) == j && (4 * j + k) % 4 == k by {
            assert((4 * j + k) / 4 == j && (4 * j + k) % 4 == k) by (nonlinear_arith)
                requires 0 <= k < 4;
        }
        assert(4 * j + 3 < 4 * v.len()) by (nonlinear_arith) requires 0 <= j < v.len();
        lemma_word_bytes(v[j]);
        assert(e[4 * j] == byte_at(v[j], 0));
        assert(e[4 * j + 1] == byte_at(v[j], 1));
        assert(e[4 * j + 2] == byte_at(v[j], 2));
        assert(e[4 * j + 3] == byte_at(v[j], 3));
    }
    assert(decoded(e) =~= v);
}

} // verus!
