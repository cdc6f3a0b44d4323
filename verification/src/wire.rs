//! The byte form of the tables: 32-bit words, least significant byte first.

use vstd::prelude::*;

verus! {

/// Byte `j` of `word`, counted from the least significant: the digit of weight `256^j` when
/// the word is written in base 256.
pub open spec fn le_byte(word: u32, j: int) -> u8 {
    if j == 0 {
        (word % 256) as u8
    } else if j == 1 {
        (word / 0x100 % 256) as u8
    } else if j == 2 {
        (word / 0x1_0000 % 256) as u8
    } else {
        (word / 0x100_0000 % 256) as u8
    }
}

/// The little-endian bytes of a sequence of words, four to a word.
pub open spec fn le_bytes(words: Seq<u32>) -> Seq<u8> {
    Seq::new(4 * words.len(), |k: int| le_byte(words[k / 4], k % 4))
}

/// The four bytes of a word, least significant first, make up the word.
pub proof fn lemma_le_bytes_value(word: u32)
    ensures
        word == le_byte(word, 0) + 0x100 * le_byte(word, 1) + 0x1_0000 * le_byte(word, 2)
            + 0x100_0000 * le_byte(word, 3),
{
}

/// The little-endian bytes of `word`.
pub fn word_to_le(word: u32) -> (bytes: [u8; 4])
    ensures
        forall|j: int| 0 <= j < 4 ==> #[trigger] bytes[j] == le_byte(word, j),
{
    assert(word & 0xff == word % 256 && (word >> 8) & 0xff == word / 0x100 % 256 && (word >> 16)
        & 0xff == word / 0x1_0000 % 256 && (word >> 24) & 0xff == word / 0x100_0000 % 256)
        by (bit_vector);
    [
        (word & 0xff) as u8,
        ((word >> 8) & 0xff) as u8,
        ((word >> 16) & 0xff) as u8,
        ((word >> 24) & 0xff) as u8,
    ]
}

/// Serializes `words`, each as its four little-endian bytes.
pub fn serialize(words: &Vec<u32>) -> (bytes: Vec<u8>)
    requires
        4 * words.len() <= usize::MAX,
    ensures
        bytes@ == le_bytes(words@),
{
    let mut bytes: Vec<u8> = Vec::new();
    let mut i: usize = 0;
    while i < words.len()
        invariant
            i <= words.len(),
            bytes.len() == 4 * i,
            forall|k: int|
                0 <= k < 4 * i ==> #[trigger] bytes@[k] == le_byte(words@[k / 4], k % 4),
        decreases words.len() - i,
    {
        let quad = word_to_le(words[i]);
        bytes.push(quad[0]);
        bytes.push(quad[1]);
        bytes.push(quad[2]);
        bytes.push(quad[3]);
        i += 1;
    }
    assert(bytes@ =~= le_bytes(words@));
    bytes
}

} // verus!
