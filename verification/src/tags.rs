//! The per-instance tag that animates a fish or a bottom dweller in its
//! vertex shader: four quantized fields packed in 32 bits (12 bits of phase,
//! 6 of amplitude, 6 of a third quantity, 8 of a fourth).
use vstd::prelude::*;

verus! {

/// The packed tag: `p` in bits 0-11, `a` in 12-17, `w` in 18-23, `t` in
/// 24-31, each field cut to its width.
pub open spec fn spec_pack(p: u32, a: u32, w: u32, t: u32) -> u32 {
    (p & 0xfff) | ((a & 0x3f) << 12u32) | ((w & 0x3f) << 18u32) | ((t & 0xff) << 24u32)
}

/// Packs the four quantized fields.
pub fn pack_fields(p: u32, a: u32, w: u32, t: u32) -> (tag: u32)
    ensures
        tag == spec_pack(p, a, w, t),
{
    (p & 0xfff) | ((a & 0x3f) << 12u32) | ((w & 0x3f) << 18u32) | ((t & 0xff) << 24u32)
}

/// The shader reads each field back: the fields do not overlap, and each
/// comes out as it went in, cut to its width.
pub proof fn lemma_fields_read_back(p: u32, a: u32, w: u32, t: u32)
    ensures
        spec_pack(p, a, w, t) & 0xfff == p & 0xfff,
        (spec_pack(p, a, w, t) >> 12u32) & 0x3f == a & 0x3f,
        (spec_pack(p, a, w, t) >> 18u32) & 0x3f == w & 0x3f,
        spec_pack(p, a, w, t) >> 24u32 == t & 0xff,
{
    assert(((p & 0xfff) | ((a & 0x3f) << 12u32) | ((w & 0x3f) << 18u32) | ((t & 0xff) << 24u32)) & 0xfff
        == p & 0xfff) by (bit_vector);
    assert((((p & 0xfff) | ((a & 0x3f) << 12u32) | ((w & 0x3f) << 18u32) | ((t & 0xff) << 24u32))
        >> 12u32) & 0x3f == a & 0x3f) by (bit_vector);
    assert((((p & 0xfff) | ((a & 0x3f) << 12u32) | ((w & 0x3f) << 18u32) | ((t & 0xff) << 24u32))
        >> 18u32) & 0x3f == w & 0x3f) by (bit_vector);
    assert(((p & 0xfff) | ((a & 0x3f) << 12u32) | ((w & 0x3f) << 18u32) | ((t & 0xff) << 24u32))
        >> 24u32 == t & 0xff) by (bit_vector);
}

} // verus!
