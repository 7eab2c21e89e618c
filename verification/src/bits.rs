//! How logical 1-Wire bits travel over the UART: one whole byte per bit slot,
//! and bytes of data as eight slots, least-significant bit first.

use vstd::prelude::*;

verus! {

/// The byte that drives one bit slot: all ones releases the line for a "1"
/// (or lets a device answer), all zeros pulls it low for a "0".
pub open spec fn wire_byte(bit: u8) -> u8 {
    if bit != 0 {
        0xFF
    } else {
        0x00
    }
}

/// The bus level sampled in a slot, read off the echoed byte.
pub open spec fn sampled_bit(echo: u8) -> u8 {
    echo & 1
}

/// The bytes that drive a run of bit slots.
pub open spec fn wire_bytes(bits: Seq<u8>) -> Seq<u8> {
    Seq::new(bits.len(), |i: int| wire_byte(bits[i]))
}

/// The bus levels sampled in a run of slots.
pub open spec fn sampled_bits(echoes: Seq<u8>) -> Seq<u8> {
    Seq::new(echoes.len(), |i: int| sampled_bit(echoes[i]))
}

/// Bit `i` of `byte`, as 0 or 1.
pub open spec fn byte_bit(byte: u8, i: usize) -> u8 {
    (byte >> i) & 1
}

/// The eight bit slots that carry `byte`, least-significant bit first.
pub open spec fn byte_bits(byte: u8) -> Seq<u8> {
    Seq::new(8, |i: int| byte_bit(byte, i as usize))
}

/// The byte whose low `n` bits are set where the first `n` slots read nonzero.
pub open spec fn assemble_bits(bits: Seq<u8>, n: usize) -> u8
    decreases n,
{
    if n == 0 {
        0
    } else if bits[n - 1] != 0 {
        assemble_bits(bits, (n - 1) as usize) | (1u8 << ((n - 1) as usize))
    } else {
        assemble_bits(bits, (n - 1) as usize)
    }
}

/// The byte carried by eight sampled slots, least-significant bit first.
pub open spec fn bits_byte(bits: Seq<u8>) -> u8 {
    assemble_bits(bits, 8)
}

/// The wire bytes that drive `bits[from..to]`.
pub fn encode_bits(bits: &[u8], from: usize, to: usize) -> (wire: Vec<u8>)
    requires
        from <= to <= bits.len(),
    ensures
        wire@ == wire_bytes(bits@.subrange(from as int, to as int)),
{
    let mut wire: Vec<u8> = Vec::new();
    let mut i: usize = from;
    while i < to
        invariant
            from <= i <= to <= bits.len(),
            wire@ == wire_bytes(bits@.subrange(from as int, i as int)),
        decreases to - i,
    {
        let byte: u8 = if bits[i] != 0 { 0xFF } else { 0x00 };
        wire.push(byte);
        i += 1;
        assert(wire@ =~= wire_bytes(bits@.subrange(from as int, i as int)));
    }
    wire
}

/// Appends to `bits` the bus level sampled in each echoed byte.
pub fn decode_bits(echoes: &[u8], bits: &mut Vec<u8>)
    ensures
        final(bits)@ == old(bits)@ + sampled_bits(echoes@),
{
    let mut i: usize = 0;
    while i < echoes.len()
        invariant
            i <= echoes.len(),
            bits@ == old(bits)@ + sampled_bits(echoes@.take(i as int)),
        decreases echoes.len() - i,
    {
        bits.push(echoes[i] & 1);
        i += 1;
        assert(bits@ =~= old(bits)@ + sampled_bits(echoes@.take(i as int)));
    }
    assert(echoes@.take(echoes.len() as int) =~= echoes@);
}

/// Splits `byte` into its eight bit slots, least-significant bit first.
pub fn byte_to_bits(byte: u8) -> (bits: Vec<u8>)
    ensures
        bits@ == byte_bits(byte),
{
    let mut bits: Vec<u8> = Vec::new();
    let mut i: usize = 0;
    while i < 8
        invariant
            i <= 8,
            bits@.len() == i,
            forall|k: int| 0 <= k < i ==> bits@[k] == byte_bit(byte, k as usize),
        decreases 8 - i,
    {
        bits.push((byte >> i) & 1);
        i += 1;
    }
    assert(bits@ =~= byte_bits(byte));
    bits
}

/// Reassembles a byte from eight sampled slots, least-significant bit first.
pub fn bits_to_byte(bits: &[u8]) -> (byte: u8)
    requires
        bits.len() == 8,
    ensures
        byte == bits_byte(bits@),
{
    let mut byte: u8 = 0;
    let mut i: usize = 0;
    while i < 8
        invariant
            i <= 8,
            bits.len() == 8,
            byte == assemble_bits(bits@, i),
        decreases 8 - i,
    {
        if bits[i] != 0 {
            byte |= 1u8 << i;
        }
        i += 1;
    }
    byte
}

proof fn lemma_reassembled(b: u8)
    by (bit_vector)
    ensures
        b == (if (b >> 0usize) & 1 != 0 { 1u8 << 0usize } else { 0 })
            | (if (b >> 1usize) & 1 != 0 { 1u8 << 1usize } else { 0 })
            | (if (b >> 2usize) & 1 != 0 { 1u8 << 2usize } else { 0 })
            | (if (b >> 3usize) & 1 != 0 { 1u8 << 3usize } else { 0 })
            | (if (b >> 4usize) & 1 != 0 { 1u8 << 4usize } else { 0 })
            | (if (b >> 5usize) & 1 != 0 { 1u8 << 5usize } else { 0 })
            | (if (b >> 6usize) & 1 != 0 { 1u8 << 6usize } else { 0 })
            | (if (b >> 7usize) & 1 != 0 { 1u8 << 7usize } else { 0 }),
        forall|x: u8| x | 0 == x,
        forall|x: u8| 0 | x == x,
{
}

/// Eight slots that carry a byte reassemble to that byte.
pub proof fn lemma_byte_round_trip(byte: u8)
    ensures
        bits_byte(byte_bits(byte)) == byte,
{
    reveal_with_fuel(assemble_bits, 9);
    lemma_reassembled(byte);
}

/// A driven slot that no device pulls low reads back as the bit that was sent.
pub proof fn lemma_undisturbed_slot(bit: u8)
    by (bit_vector)
    ensures
        (if bit != 0 { 0xFFu8 } else { 0x00u8 }) & 1 == (if bit != 0 { 1u8 } else { 0u8 }),
{
}

/// A byte sent as eight slots that nothing disturbs is read back as sent.
pub proof fn lemma_undisturbed_byte(byte: u8)
    ensures
        bits_byte(sampled_bits(wire_bytes(byte_bits(byte)))) == byte,
{
    let echoes = wire_bytes(byte_bits(byte));
    assert forall|i: int| 0 <= i < 8 implies (sampled_bits(echoes)[i] != 0) == (byte_bits(byte)[i]
        != 0) by {
        lemma_undisturbed_slot(byte_bits(byte)[i]);
    }
    reveal_with_fuel(assemble_bits, 9);
    lemma_byte_round_trip(byte);
}

} // verus!
