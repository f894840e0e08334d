use vstd::prelude::*;

verus! {

/// The packed value of a colour: red in the lowest byte, then green, blue, and alpha in the highest.
pub open spec fn packed(r: u8, g: u8, b: u8, a: u8) -> u32 {
    (a as int * 0x1000000 + b as int * 0x10000 + g as int * 0x100 + r as int) as u32
}

/// Packs four channels into one `u32`, red in the lowest byte.
pub fn pack_color(r: u8, g: u8, b: u8, a: u8) -> (c: u32)
    ensures
        c == packed(r, g, b, a),
{
    let c: u32 = ((a as u32) << 24u32) | ((b as u32) << 16u32) | ((g as u32) << 8u32) | (r as u32);
    assert(c == (a as u32) * 0x1000000u32 + (b as u32) * 0x10000u32 + (g as u32) * 0x100u32 + (r as u32)) by (bit_vector)
        requires
            c == ((a as u32) << 24u32) | ((b as u32) << 16u32) | ((g as u32) << 8u32) | (r as u32),
    ;
    c
}

/// Splits a packed colour into its channels `(r, g, b, a)`.
pub fn unpack_color(color: &u32) -> (rgba: (u8, u8, u8, u8))
    ensures
        packed(rgba.0, rgba.1, rgba.2, rgba.3) == *color,
        rgba.0 as int == *color as int % 0x100,
        rgba.1 as int == (*color as int / 0x100) % 0x100,
        rgba.2 as int == (*color as int / 0x10000) % 0x100,
        rgba.3 as int == *color as int / 0x1000000,
{
    let c: u32 = *color;
    let r: u8 = (c & 0xffu32) as u8;
    let g: u8 = ((c >> 8u32) & 0xffu32) as u8;
    let b: u8 = ((c >> 16u32) & 0xffu32) as u8;
    let a: u8 = ((c >> 24u32) & 0xffu32) as u8;
    assert(r == c % 0x100 && g == (c / 0x100) % 0x100 && b == (c / 0x10000) % 0x100 && a == c / 0x1000000) by (bit_vector)
        requires
            r == (c & 0xffu32) as u8,
            g == ((c >> 8u32) & 0xffu32) as u8,
            b == ((c >> 16u32) & 0xffu32) as u8,
            a == ((c >> 24u32) & 0xffu32) as u8,
    ;
    assert(c == (a as u32) * 0x1000000u32 + (b as u32) * 0x10000u32 + (g as u32) * 0x100u32 + (r as u32)) by (bit_vector)
        requires
            r == (c & 0xffu32) as u8,
            g == ((c >> 8u32) & 0xffu32) as u8,
            b == ((c >> 16u32) & 0xffu32) as u8,
            a == ((c >> 24u32) & 0xffu32) as u8,
    ;
    (r, g, b, a)
}

} // verus!
