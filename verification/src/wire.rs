use vstd::prelude::*;

verus! {

/// The 16-bit big-endian value with high byte `hi` and low byte `lo`.
pub open spec fn spec_u16_from(hi: u8, lo: u8) -> u16 {
    (hi as int * 256 + lo as int) as u16
}

/// The 16-bit big-endian value stored at offset `i` of `d`.
pub open spec fn spec_u16_at(d: Seq<u8>, i: int) -> u16 {
    spec_u16_from(d[i], d[i + 1])
}

/// The 32-bit big-endian value stored at offset `i` of `d`.
pub open spec fn spec_u32_at(d: Seq<u8>, i: int) -> u32 {
    (d[i] as int * 0x1000000 + d[i + 1] as int * 0x10000 + d[i + 2] as int * 0x100 + d[i
        + 3] as int) as u32
}

/// The two bytes of `x` in big-endian order.
pub open spec fn spec_be16(x: u16) -> Seq<u8> {
    seq![(x as int / 256) as u8, (x as int % 256) as u8]
}

/// Reads a 16-bit big-endian value from two bytes.
pub fn u16_from_be(hi: u8, lo: u8) -> (r: u16)
    ensures
        r == spec_u16_from(hi, lo),
{
    (hi as u16) * 256 + (lo as u16)
}

/// Reads a 32-bit big-endian value from four bytes.
pub fn u32_from_be(b0: u8, b1: u8, b2: u8, b3: u8) -> (r: u32)
    ensures
        r == spec_u32_at(seq![b0, b1, b2, b3], 0),
{
    (b0 as u32) * 0x1000000 + (b1 as u32) * 0x10000 + (b2 as u32) * 0x100 + (b3 as u32)
}

/// Appends the two big-endian bytes of `x` to `out`.
pub fn push_be16(out: &mut Vec<u8>, x: u16)
    ensures
        final(out)@ == old(out)@ + spec_be16(x),
{
    out.push((x / 256) as u8);
    out.push((x % 256) as u8);
    proof {
        assert(out@ =~= old(out)@ + spec_be16(x));
    }
}

} // verus!
