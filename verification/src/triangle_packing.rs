//! WGSL has no 8-bit storage buffers, so the meshlet micro indices (one byte
//! each) are padded with zeros to a multiple of four and packed, four at a
//! time in little-endian order, into 32-bit words.
use vstd::prelude::*;

verus! {

/// Byte `k` of the zero-padded index list.
pub open spec fn padded_byte(bytes: Seq<u8>, k: int) -> int {
    if 0 <= k < bytes.len() {
        bytes[k] as int
    } else {
        0
    }
}

/// The little-endian word made of padded bytes `4i .. 4i + 3`.
pub open spec fn packed_word(bytes: Seq<u8>, i: int) -> int {
    padded_byte(bytes, 4 * i) + 256 * padded_byte(bytes, 4 * i + 1) + 65536 * padded_byte(bytes, 4 * i + 2)
        + 16777216 * padded_byte(bytes, 4 * i + 3)
}

/// Number of words needed for `n` bytes.
pub open spec fn word_count(n: nat) -> nat {
    (n + 3) as nat / 4
}

/// Byte `j` (0 to 3, little-endian) of a word.
pub open spec fn byte_of(w: int, j: int) -> int {
    if j == 0 {
        w % 256
    } else if j == 1 {
        (w / 256) % 256
    } else if j == 2 {
        (w / 65536) % 256
    } else {
        (w / 16777216) % 256
    }
}

/// Packs micro indices into words, the way `u32::from_le_bytes` reads each
/// four-byte chunk of the zero-padded list.
pub fn pack_triangle_indices(bytes: &Vec<u8>) -> (r: Vec<u32>)
    ensures
        r@.len() == word_count(bytes@.len()),
        forall|i: int| 0 <= i < r@.len() ==> r@[i] as int == packed_word(bytes@, i),
{
    let n = bytes.len();
    let words = n / 4 + if n % 4 != 0 {
        1usize
    } else {
        0usize
    };
    let mut r: Vec<u32> = Vec::new();
    let mut i: usize = 0;
    while i < words
        invariant
            n == bytes@.len(),
            words == word_count(n as nat),
            i <= words,
            r@.len() == i,
            forall|w: int| 0 <= w < i ==> r@[w] as int == packed_word(bytes@, w),
        decreases words - i,
    {
        let b0: u32 = bytes[4 * i] as u32;
        let b1: u32 = if 4 * i + 1 < n {
            bytes[4 * i + 1] as u32
        } else {
            0
        };
        let b2: u32 = if 4 * i + 2 < n {
            bytes[4 * i + 2] as u32
        } else {
            0
        };
        let b3: u32 = if 4 * i + 3 < n {
            bytes[4 * i + 3] as u32
        } else {
            0
        };
        let word = b0 + b1 * 256 + b2 * 65536 + b3 * 16777216;
        r.push(word);
        assert(r@[i as int] as int == packed_word(bytes@, i as int));
        i = i + 1;
    }
    r
}

proof fn lemma_word_bytes(b0: int, b1: int, b2: int, b3: int)
    requires
        0 <= b0 < 256,
        0 <= b1 < 256,
        0 <= b2 < 256,
        0 <= b3 < 256,
    ensures
        byte_of(b0 + 256 * b1 + 65536 * b2 + 16777216 * b3, 0) == b0,
        byte_of(b0 + 256 * b1 + 65536 * b2 + 16777216 * b3, 1) == b1,
        byte_of(b0 + 256 * b1 + 65536 * b2 + 16777216 * b3, 2) == b2,
        byte_of(b0 + 256 * b1 + 65536 * b2 + 16777216 * b3, 3) == b3,
{
    let w = b0 + 256 * b1 + 65536 * b2 + 16777216 * b3;
    assert(w % 256 == b0) by (nonlinear_arith)
        requires
            w == b0 + 256 * b1 + 65536 * b2 + 16777216 * b3,
            0 <= b0 < 256,
            0 <= b1 < 256,
            0 <= b2 < 256,
            0 <= b3 < 256,
    ;
    assert((w / 256) % 256 == b1) by (nonlinear_arith)
        requires
            w == b0 + 256 * b1 + 65536 * b2 + 16777216 * b3,
            0 <= b0 < 256,
            0 <= b1 < 256,
            0 <= b2 < 256,
            0 <= b3 < 256,
    ;
    assert((w / 65536) % 256 == b2) by (nonlinear_arith)
        requires
            w == b0 + 256 * b1 + 65536 * b2 + 16777216 * b3,
            0 <= b0 < 256,
            0 <= b1 < 256,
            0 <= b2 < 256,
            0 <= b3 < 256,
    ;
    assert((w / 16777216) % 256 == b3) by (nonlinear_arith)
        requires
            w == b0 + 256 * b1 + 65536 * b2 + 16777216 * b3,
            0 <= b0 < 256,
            0 <= b1 < 256,
            0 <= b2 < 256,
            0 <= b3 < 256,
    ;
}

/// Packing loses nothing: byte `k % 4` of word `k / 4` is micro index `k`,
/// and the bytes past the end of the list are zero.
pub proof fn lemma_packing_round_trip(bytes: Seq<u8>, words: Seq<u32>)
    requires
        words.len() == word_count(bytes.len()),
        forall|i: int| 0 <= i < words.len() ==> words[i] as int == packed_word(bytes, i),
    ensures
        forall|k: int| 0 <= k < bytes.len() ==> #[trigger] byte_of(words[k / 4] as int, k % 4) == bytes[k] as int,
        forall|k: int|
            bytes.len() <= k < 4 * words.len() ==> #[trigger] byte_of(words[k / 4] as int, k % 4) == 0,
{
    assert forall|k: int| 0 <= k < 4 * words.len() implies #[trigger] byte_of(words[k / 4] as int, k % 4)
        == padded_byte(bytes, k) by {
        let i = k / 4;
        assert(0 <= i < words.len());
        lemma_word_bytes(
            padded_byte(bytes, 4 * i),
            padded_byte(bytes, 4 * i + 1),
            padded_byte(bytes, 4 * i + 2),
            padded_byte(bytes, 4 * i + 3),
        );
        assert(k == 4 * i + k % 4);
    }
    assert(bytes.len() <= 4 * words.len());
}

} // verus!
