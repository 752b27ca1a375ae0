//! The on-file encoding of the header words.
//!
//! The header consists of two fixed-width words stored little-endian in the
//! first bytes of the mapped region, so the file format does not depend on
//! the platform's native word size.

use vstd::prelude::*;
use vstd::arithmetic::div_mod::{
    lemma_div_denominator, lemma_div_of0, lemma_fundamental_div_mod, lemma_small_mod,
};

verus! {

/// Width in bytes of one header word.
pub const WORD_BYTES: usize = 8;

/// Total size of the header: the lock word followed by the append-offset word.
pub const HEADER_BYTES: usize = 16;

/// One more than the largest value a header word can encode.
pub const WORD_LIMIT: u128 = 0x1_0000_0000_0000_0000;

/// The place value of byte `k` in a little-endian word.
pub open spec fn byte_weight(k: int) -> int {
    if k == 0 {
        0x1
    } else if k == 1 {
        0x100
    } else if k == 2 {
        0x1_0000
    } else if k == 3 {
        0x100_0000
    } else if k == 4 {
        0x1_0000_0000
    } else if k == 5 {
        0x100_0000_0000
    } else if k == 6 {
        0x1_0000_0000_0000
    } else {
        0x100_0000_0000_0000
    }
}

/// Byte `k` of the little-endian encoding of `v`.
pub open spec fn le_byte(v: int, k: int) -> u8 {
    (((v / byte_weight(k)) % 0x100) as u8)
}

/// The value encoded little-endian by the eight bytes of `s` starting at `i`.
pub open spec fn le64_at(s: Seq<u8>, i: int) -> int {
    (s[i] as int) + (s[i + 1] as int) * 0x100 + (s[i + 2] as int) * 0x1_0000 + (s[i + 3] as int)
        * 0x100_0000 + (s[i + 4] as int) * 0x1_0000_0000 + (s[i + 5] as int) * 0x100_0000_0000 + (
    s[i + 6] as int) * 0x1_0000_0000_0000 + (s[i + 7] as int) * 0x100_0000_0000_0000
}

/// `s` with the eight bytes starting at `i` replaced by the little-endian
/// encoding of `v`.
pub open spec fn store64_at(s: Seq<u8>, i: int, v: int) -> Seq<u8> {
    Seq::new(s.len(), |j: int| if i <= j < i + 8 { le_byte(v, j - i) } else { s[j] })
}

/// `s` with the bytes of `d` written in order starting at `pos`.
pub open spec fn written(s: Seq<u8>, pos: int, d: Seq<u8>) -> Seq<u8> {
    Seq::new(s.len(), |j: int| if pos <= j < pos + d.len() { d[j - pos] } else { s[j] })
}

/// Two regions that agree on a word's eight bytes decode it to the same value.
pub proof fn lemma_le64_agree(s: Seq<u8>, t: Seq<u8>, i: int)
    requires
        0 <= i,
        i + 8 <= s.len(),
        i + 8 <= t.len(),
        forall|j: int| i <= j < i + 8 ==> s[j] == t[j],
    ensures
        le64_at(s, i) == le64_at(t, i),
{
}

/// A word that decodes to zero is stored as eight zero bytes.
pub proof fn lemma_le64_zero_bytes(s: Seq<u8>, i: int)
    requires
        0 <= i,
        i + 8 <= s.len(),
        le64_at(s, i) == 0,
    ensures
        forall|j: int| i <= j < i + 8 ==> s[j] == 0,
{
    assert forall|j: int| i <= j < i + 8 implies s[j] == 0 by {
        assert((s[i] as int) + (s[i + 1] as int) * 0x100 + (s[i + 2] as int) * 0x1_0000 + (s[i
            + 3] as int) * 0x100_0000 + (s[i + 4] as int) * 0x1_0000_0000 + (s[i + 5] as int)
            * 0x100_0000_0000 + (s[i + 6] as int) * 0x1_0000_0000_0000 + (s[i + 7] as int)
            * 0x100_0000_0000_0000 == 0);
    }
}

/// Every byte of the little-endian encoding of zero is zero.
pub proof fn lemma_zero_le_bytes()
    ensures
        forall|k: int| #[trigger] le_byte(0, k) == 0,
{
    assert forall|k: int| #[trigger] le_byte(0, k) == 0 by {
        assert(byte_weight(k) > 0);
        lemma_div_of0(byte_weight(k));
    }
}

/// Storing a word leaves the length and every byte outside the word unchanged.
pub proof fn lemma_store64_preserves(s: Seq<u8>, i: int, v: int)
    ensures
        store64_at(s, i, v).len() == s.len(),
        forall|j: int|
            0 <= j < s.len() && !(i <= j < i + 8) ==> #[trigger] store64_at(s, i, v)[j] == s[j],
{
}

/// Storing a word and decoding it again gives the value back.
pub proof fn lemma_store64_le64(s: Seq<u8>, i: int, v: int)
    requires
        0 <= i,
        i + 8 <= s.len(),
        0 <= v < WORD_LIMIT,
    ensures
        le64_at(store64_at(s, i, v), i) == v,
{
    let t = store64_at(s, i, v);
    assert(t[i] == le_byte(v, 0));
    assert(t[i + 1] == le_byte(v, 1));
    assert(t[i + 2] == le_byte(v, 2));
    assert(t[i + 3] == le_byte(v, 3));
    assert(t[i + 4] == le_byte(v, 4));
    assert(t[i + 5] == le_byte(v, 5));
    assert(t[i + 6] == le_byte(v, 6));
    assert(t[i + 7] == le_byte(v, 7));
    lemma_le64_of_le_bytes(v);
}

/// The little-endian bytes of a word sum back to the word.
proof fn lemma_le64_of_le_bytes(v: int)
    requires
        0 <= v < WORD_LIMIT,
    ensures
        (le_byte(v, 0) as int) + (le_byte(v, 1) as int) * 0x100 + (le_byte(v, 2) as int) * 0x1_0000
            + (le_byte(v, 3) as int) * 0x100_0000 + (le_byte(v, 4) as int) * 0x1_0000_0000 + (
        le_byte(v, 5) as int) * 0x100_0000_0000 + (le_byte(v, 6) as int) * 0x1_0000_0000_0000 + (
        le_byte(v, 7) as int) * 0x100_0000_0000_0000 == v,
{
    lemma_fundamental_div_mod(v, 0x100);
    lemma_div_denominator(v, 0x100, 0x100);
    lemma_fundamental_div_mod(v / 0x100, 0x100);
    lemma_div_denominator(v, 0x1_0000, 0x100);
    lemma_fundamental_div_mod(v / 0x1_0000, 0x100);
    lemma_div_denominator(v, 0x100_0000, 0x100);
    lemma_fundamental_div_mod(v / 0x100_0000, 0x100);
    lemma_div_denominator(v, 0x1_0000_0000, 0x100);
    lemma_fundamental_div_mod(v / 0x1_0000_0000, 0x100);
    lemma_div_denominator(v, 0x100_0000_0000, 0x100);
    lemma_fundamental_div_mod(v / 0x100_0000_0000, 0x100);
    lemma_div_denominator(v, 0x1_0000_0000_0000, 0x100);
    lemma_fundamental_div_mod(v / 0x1_0000_0000_0000, 0x100);
    assert(v / 0x100_0000_0000_0000 < 0x100) by {
        lemma_div_denominator(v, 0x100_0000_0000_0000, 0x100);
        assert(v / 0x1_0000_0000_0000_0000 == 0);
        lemma_fundamental_div_mod(v / 0x100_0000_0000_0000, 0x100);
    }
    lemma_small_mod((v / 0x100_0000_0000_0000) as nat, 0x100);
}

/// Reads the word stored little-endian at byte position `pos`.
pub fn read_word_at(region: &Vec<u8>, pos: usize) -> (r: u64)
    requires
        pos + 8 <= region.len(),
    ensures
        r as int == le64_at(region@, pos as int),
{
    let b0 = region[pos] as u64;
    let b1 = region[pos + 1] as u64;
    let b2 = region[pos + 2] as u64;
    let b3 = region[pos + 3] as u64;
    let b4 = region[pos + 4] as u64;
    let b5 = region[pos + 5] as u64;
    let b6 = region[pos + 6] as u64;
    let b7 = region[pos + 7] as u64;
    b0 + b1 * 0x100 + b2 * 0x1_0000 + b3 * 0x100_0000 + b4 * 0x1_0000_0000 + b5 * 0x100_0000_0000
        + b6 * 0x1_0000_0000_0000 + b7 * 0x100_0000_0000_0000
}

/// Stores `v` little-endian at byte position `pos`.
pub fn write_word_at(region: &mut Vec<u8>, pos: usize, v: u64)
    requires
        pos + 8 <= old(region).len(),
    ensures
        final(region)@ == store64_at(old(region)@, pos as int, v as int),
{
    region.set(pos, (v % 0x100) as u8);
    region.set(pos + 1, ((v / 0x100) % 0x100) as u8);
    region.set(pos + 2, ((v / 0x1_0000) % 0x100) as u8);
    region.set(pos + 3, ((v / 0x100_0000) % 0x100) as u8);
    region.set(pos + 4, ((v / 0x1_0000_0000) % 0x100) as u8);
    region.set(pos + 5, ((v / 0x100_0000_0000) % 0x100) as u8);
    region.set(pos + 6, ((v / 0x1_0000_0000_0000) % 0x100) as u8);
    region.set(pos + 7, ((v / 0x100_0000_0000_0000) % 0x100) as u8);
    proof {
        assert(region@ =~= store64_at(old(region)@, pos as int, v as int));
    }
}

/// Copies `data` into the region starting at byte position `pos`.
pub fn write_bytes_at(region: &mut Vec<u8>, pos: usize, data: &[u8])
    requires
        pos + data@.len() <= old(region).len(),
    ensures
        final(region)@ == written(old(region)@, pos as int, data@),
{
    let mut k: usize = 0;
    while k < data.len()
        invariant
            k <= data@.len(),
            pos + data@.len() <= usize::MAX,
            pos + data@.len() <= region@.len(),
            region@.len() == old(region)@.len(),
            forall|j: int| 0 <= j < k ==> region@[pos + j] == data@[j],
            forall|j: int|
                0 <= j < region@.len() && !(pos <= j < pos + k) ==> region@[j] == old(region)@[j],
        decreases data@.len() - k,
    {
        let b = data[k];
        region.set(pos + k, b);
        k = k + 1;
    }
    proof {
        assert(region@ =~= written(old(region)@, pos as int, data@));
    }
}

} // verus!
