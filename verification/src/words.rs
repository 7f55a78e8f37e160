//! Byte-granular edits of machine words.
//!
//! Traced-memory I/O moves whole 8-byte words, while planting a breakpoint
//! replaces a single code byte. These functions carry the read-modify-write
//! algebra: extract one byte of a word, splice a new byte in, and restore the
//! original word from the displaced byte.

use vstd::prelude::*;

verus! {

/// Width in bytes of a traced-memory word.
pub const WORD_SIZE: usize = 8;

/// The trap opcode planted at a breakpoint address.
pub const TRAP_OPCODE: u8 = 0xCC;

/// The byte sitting `off` bytes above the word-aligned base of `word`.
pub open spec fn byte_at(word: u64, off: u64) -> u8 {
    ((word >> (8 * off)) & 0xff) as u8
}

/// `word` with the byte at `off` replaced by `val` and every other byte kept.
pub open spec fn spliced(word: u64, off: u64, val: u8) -> u64 {
    (word & !(0xffu64 << (8 * off))) | ((val as u64) << (8 * off))
}

/// Word-align an address downward, as traced-memory reads and writes require.
pub fn align_addr_to_word(addr: usize) -> (r: usize)
    ensures
        r == addr - (addr % 8),
        r % 8 == 0,
        r <= addr < r + 8,
        addr - r < 8,
{
    addr / 8 * 8
}

/// Replace the byte at `off` inside `word` with `val`, returning the updated
/// word together with the byte it displaced.
pub fn splice_byte(word: u64, off: u64, val: u8) -> (r: (u64, u8))
    requires
        off < 8,
    ensures
        r.0 == spliced(word, off, val),
        r.1 == byte_at(word, off),
{
    let sh: u64 = 8 * off;
    let orig: u8 = ((word >> sh) & 0xff) as u8;
    let masked: u64 = word & !(0xffu64 << sh);
    let updated: u64 = masked | ((val as u64) << sh);
    (updated, orig)
}

/// After a splice, the spliced position reads back exactly the new byte: a
/// planted trap opcode is the byte a later read sees.
pub proof fn lemma_splice_reads_back(word: u64, off: u64, val: u8)
    requires
        off < 8,
    ensures
        byte_at(spliced(word, off, val), off) == val,
{
    assert(((((word & !(0xffu64 << (8 * off))) | ((val as u64) << (8 * off))) >> (8 * off))
        & 0xff) as u8 == val) by (bit_vector)
        requires
            off < 8,
    ;
}

/// A splice leaves every byte other than the spliced one untouched.
pub proof fn lemma_splice_preserves_others(word: u64, off: u64, val: u8, other: u64)
    requires
        off < 8,
        other < 8,
        other != off,
    ensures
        byte_at(spliced(word, off, val), other) == byte_at(word, other),
{
    assert(((((word & !(0xffu64 << (8 * off))) | ((val as u64) << (8 * off))) >> (8 * other))
        & 0xff) as u8 == ((word >> (8 * other)) & 0xff) as u8) by (bit_vector)
        requires
            off < 8,
            other < 8,
            other != off,
    ;
}

/// Round trip: splicing any byte in and then splicing the displaced byte back
/// restores the word bit for bit.
pub proof fn lemma_splice_round_trip(word: u64, off: u64, val: u8)
    requires
        off < 8,
    ensures
        spliced(spliced(word, off, val), off, byte_at(word, off)) == word,
{
    assert((((word & !(0xffu64 << (8 * off))) | ((val as u64) << (8 * off))) & !(0xffu64 << (8
        * off))) | (((((word >> (8 * off)) & 0xff) as u8) as u64) << (8 * off)) == word)
        by (bit_vector)
        requires
            off < 8,
    ;
}

} // verus!
