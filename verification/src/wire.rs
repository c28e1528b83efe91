//! Big-endian integer encoding used by every packet on the wire.

use vstd::prelude::*;

verus! {

/// The four big-endian bytes of the unsigned 32-bit value `v`.
pub open spec fn spec_be32(v: int) -> Seq<u8> {
    seq![
        ((v / 0x1000000) % 256) as u8,
        ((v / 0x10000) % 256) as u8,
        ((v / 0x100) % 256) as u8,
        (v % 256) as u8,
    ]
}

/// The unsigned 32-bit two's-complement image of a signed 32-bit value.
pub open spec fn spec_u32_of_i32(x: int) -> int {
    if x >= 0 {
        x
    } else {
        x + 0x1_0000_0000
    }
}

/// Appends the four big-endian bytes of `v` to `out`.
pub fn push_be32(out: &mut Vec<u8>, v: u32)
    ensures
        final(out)@ == old(out)@ + spec_be32(v as int),
{
    let b0: u8 = (v / 0x1000000) as u8;
    let b1: u8 = (v / 0x10000 % 256) as u8;
    let b2: u8 = (v / 0x100 % 256) as u8;
    let b3: u8 = (v % 256) as u8;
    assert(v / 0x1000000 < 256);
    out.push(b0);
    out.push(b1);
    out.push(b2);
    out.push(b3);
    assert(out@ =~= old(out)@ + spec_be32(v as int));
}

/// The two's-complement reinterpretation of `x` as an unsigned 32-bit value.
pub fn u32_of_i32(x: i32) -> (r: u32)
    ensures
        r as int == spec_u32_of_i32(x as int),
{
    if x >= 0 {
        x as u32
    } else {
        let w: i64 = x as i64 + 0x1_0000_0000;
        w as u32
    }
}

/// Appends the four big-endian two's-complement bytes of the signed value `x`.
pub fn push_be32_i32(out: &mut Vec<u8>, x: i32)
    ensures
        final(out)@ == old(out)@ + spec_be32(spec_u32_of_i32(x as int)),
{
    let u = u32_of_i32(x);
    push_be32(out, u);
}

} // verus!
