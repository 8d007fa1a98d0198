use vstd::prelude::*;

verus! {

/// True when bit `i` of `byte` is set. Cells are stored low-bit-first, so
/// bit `i` of a byte holds the cell whose linear index is congruent to `i`
/// modulo eight.
pub open spec fn bit_of(byte: u8, i: u8) -> bool {
    (byte >> i) & 1u8 == 1u8
}

/// A freshly allocated all-zero backing buffer of `n` bytes.
pub fn zero_bytes(n: usize) -> (r: Vec<u8>)
    ensures
        r@.len() == n,
        forall|i: int| 0 <= i < n ==> r@[i] == 0u8,
{
    let mut v: Vec<u8> = Vec::new();
    while v.len() < n
        invariant
            v@.len() <= n,
            forall|i: int| 0 <= i < v@.len() ==> v@[i] == 0u8,
        decreases n - v@.len(),
    {
        v.push(0u8);
    }
    v
}

/// Every bit of the zero byte is clear.
pub proof fn lemma_zero_byte_clear(i: u8)
    ensures
        !bit_of(0u8, i),
{
    assert((0u8 >> i) & 1u8 != 1u8) by (bit_vector);
}

/// Testing a bit with a mask agrees with reading it by shifting.
pub proof fn lemma_mask_reads_bit(b: u8, i: u8)
    requires
        i < 8,
    ensures
        (b & (1u8 << i) != 0) == bit_of(b, i),
{
    assert((b & (1u8 << i) != 0) == ((b >> i) & 1u8 == 1u8)) by (bit_vector)
        requires
            i < 8,
    ;
}

/// Or-ing a one-bit mask in sets exactly that bit and leaves the rest alone.
pub proof fn lemma_set_bit(b: u8, i: u8, j: u8)
    requires
        i < 8,
        j < 8,
    ensures
        bit_of(b | (1u8 << i), i),
        j != i ==> bit_of(b | (1u8 << i), j) == bit_of(b, j),
{
    assert(((b | (1u8 << i)) >> i) & 1u8 == 1u8) by (bit_vector)
        requires
            i < 8,
    ;
    assert(j != i ==> ((b | (1u8 << i)) >> j) & 1u8 == (b >> j) & 1u8) by (bit_vector)
        requires
            i < 8 && j < 8,
    ;
}

/// And-ing a one-bit mask out clears exactly that bit and leaves the rest alone.
pub proof fn lemma_clear_bit(b: u8, i: u8, j: u8)
    requires
        i < 8,
        j < 8,
    ensures
        !bit_of(b & !(1u8 << i), i),
        j != i ==> bit_of(b & !(1u8 << i), j) == bit_of(b, j),
{
    assert(((b & !(1u8 << i)) >> i) & 1u8 != 1u8) by (bit_vector)
        requires
            i < 8,
    ;
    assert(j != i ==> ((b & !(1u8 << i)) >> j) & 1u8 == (b >> j) & 1u8) by (bit_vector)
        requires
            i < 8 && j < 8,
    ;
}

} // verus!
