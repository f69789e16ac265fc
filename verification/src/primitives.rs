//! Little-endian byte primitives shared by the parser and the encoder.

use vstd::prelude::*;

verus! {

/// The four little-endian bytes of a 32-bit value.
pub open spec fn spec_u32_bytes(v: u32) -> Seq<u8> {
    seq![
        (v & 0xFF) as u8,
        ((v >> 8u32) & 0xFF) as u8,
        ((v >> 16u32) & 0xFF) as u8,
        ((v >> 24u32) & 0xFF) as u8,
    ]
}

/// The two little-endian bytes of a 16-bit value.
pub open spec fn spec_u16_bytes(v: u16) -> Seq<u8> {
    seq![(v & 0xFF) as u8, ((v >> 8u16) & 0xFF) as u8]
}

/// The eight little-endian bytes of a 64-bit value.
pub open spec fn spec_u64_bytes(v: u64) -> Seq<u8> {
    seq![
        (v & 0xFF) as u8,
        ((v >> 8u64) & 0xFF) as u8,
        ((v >> 16u64) & 0xFF) as u8,
        ((v >> 24u64) & 0xFF) as u8,
        ((v >> 32u64) & 0xFF) as u8,
        ((v >> 40u64) & 0xFF) as u8,
        ((v >> 48u64) & 0xFF) as u8,
        ((v >> 56u64) & 0xFF) as u8,
    ]
}

/// The 32-bit value read little-endian from four bytes at position `i`.
pub open spec fn spec_u32le(b: Seq<u8>, i: int) -> u32 {
    (b[i] as u32) | ((b[i + 1] as u32) << 8u32) | ((b[i + 2] as u32) << 16u32) | ((b[i + 3] as u32)
        << 24u32)
}

/// Writing a value and reading it back gives the value again.
pub proof fn lemma_u32_bytes_roundtrip(v: u32)
    ensures
        spec_u32le(spec_u32_bytes(v), 0) == v,
{
    let b0 = (v & 0xFF) as u8;
    let b1 = ((v >> 8u32) & 0xFF) as u8;
    let b2 = ((v >> 16u32) & 0xFF) as u8;
    let b3 = ((v >> 24u32) & 0xFF) as u8;
    assert((b0 as u32) | ((b1 as u32) << 8u32) | ((b2 as u32) << 16u32) | ((b3 as u32) << 24u32)
        == v) by (bit_vector)
        requires
            b0 == (v & 0xFF) as u8,
            b1 == ((v >> 8u32) & 0xFF) as u8,
            b2 == ((v >> 16u32) & 0xFF) as u8,
            b3 == ((v >> 24u32) & 0xFF) as u8,
    ;
}

/// Reading four bytes and writing the value back gives the bytes again.
pub proof fn lemma_le_bytes_roundtrip(b0: u8, b1: u8, b2: u8, b3: u8)
    ensures
        spec_u32_bytes(
            (b0 as u32) | ((b1 as u32) << 8u32) | ((b2 as u32) << 16u32) | ((b3 as u32) << 24u32),
        ) =~= seq![b0, b1, b2, b3],
{
    let v = (b0 as u32) | ((b1 as u32) << 8u32) | ((b2 as u32) << 16u32) | ((b3 as u32) << 24u32);
    assert((v & 0xFF) as u8 == b0 && ((v >> 8u32) & 0xFF) as u8 == b1 && ((v >> 16u32)
        & 0xFF) as u8 == b2 && ((v >> 24u32) & 0xFF) as u8 == b3) by (bit_vector)
        requires
            v == (b0 as u32) | ((b1 as u32) << 8u32) | ((b2 as u32) << 16u32) | ((b3 as u32)
                << 24u32),
    ;
}

/// Append the two little-endian bytes of the value to the output.
pub fn push_le_u16(value: u16, output: &mut Vec<u8>)
    ensures
        final(output)@ == old(output)@ + spec_u16_bytes(value),
{
    output.push((value & 0xFF) as u8);
    output.push(((value >> 8u16) & 0xFF) as u8);
    proof {
        assert(final(output)@ =~= old(output)@ + spec_u16_bytes(value));
    }
}

/// Append the four little-endian bytes of the value to the output.
pub fn push_le_u32(value: u32, output: &mut Vec<u8>)
    ensures
        final(output)@ == old(output)@ + spec_u32_bytes(value),
{
    output.push((value & 0xFF) as u8);
    output.push(((value >> 8u32) & 0xFF) as u8);
    output.push(((value >> 16u32) & 0xFF) as u8);
    output.push(((value >> 24u32) & 0xFF) as u8);
    proof {
        assert(final(output)@ =~= old(output)@ + spec_u32_bytes(value));
    }
}

/// Append the eight little-endian bytes of the value to the output.
pub fn push_le_u64(value: u64, output: &mut Vec<u8>)
    ensures
        final(output)@ == old(output)@ + spec_u64_bytes(value),
{
    output.push((value & 0xFF) as u8);
    output.push(((value >> 8u64) & 0xFF) as u8);
    output.push(((value >> 16u64) & 0xFF) as u8);
    output.push(((value >> 24u64) & 0xFF) as u8);
    output.push(((value >> 32u64) & 0xFF) as u8);
    output.push(((value >> 40u64) & 0xFF) as u8);
    output.push(((value >> 48u64) & 0xFF) as u8);
    output.push(((value >> 56u64) & 0xFF) as u8);
    proof {
        assert(final(output)@ =~= old(output)@ + spec_u64_bytes(value));
    }
}

/// Read the 32-bit value stored little-endian at the given position.
pub fn read_le_u32(input: &[u8], pos: usize) -> (r: u32)
    requires
        pos + 4 <= input@.len(),
    ensures
        r == spec_u32le(input@, pos as int),
{
    (input[pos] as u32) | ((input[pos + 1] as u32) << 8u32) | ((input[pos + 2] as u32) << 16u32) | (
    (input[pos + 3] as u32) << 24u32)
}

} // verus!
