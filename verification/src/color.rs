use vstd::prelude::*;

verus! {

/// Packs three colour channels into a Windows `COLORREF` value (`0x00BBGGRR`).
pub fn rgb(r: u32, g: u32, b: u32) -> (c: u32)
    ensures
        c == (b << 16u32) | (g << 8u32) | r,
        r < 256 && g < 256 && b < 256 ==> c == b * 65536 + g * 256 + r,
{
    proof {
        assert(r < 256 && g < 256 && b < 256 ==> (b << 16u32) | (g << 8u32) | r == b * 65536 + g
            * 256 + r) by (bit_vector);
    }
    (b << 16) | (g << 8) | r
}

/// Each channel below 256 can be read back out of the packed value: red from
/// the low byte, green from the next, blue from the third.
pub proof fn law_rgb_channels(r: u32, g: u32, b: u32)
    requires
        r < 256,
        g < 256,
        b < 256,
    ensures
        ((b << 16u32) | (g << 8u32) | r) & 0xffu32 == r,
        (((b << 16u32) | (g << 8u32) | r) >> 8u32) & 0xffu32 == g,
        (((b << 16u32) | (g << 8u32) | r) >> 16u32) & 0xffu32 == b,
        ((b << 16u32) | (g << 8u32) | r) >> 24u32 == 0,
{
    assert(r < 256 && g < 256 && b < 256 ==> {
        &&& ((b << 16u32) | (g << 8u32) | r) & 0xffu32 == r
        &&& (((b << 16u32) | (g << 8u32) | r) >> 8u32) & 0xffu32 == g
        &&& (((b << 16u32) | (g << 8u32) | r) >> 16u32) & 0xffu32 == b
        &&& ((b << 16u32) | (g << 8u32) | r) >> 24u32 == 0
    }) by (bit_vector);
}

} // verus!
