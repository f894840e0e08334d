use vstd::prelude::*;
use crate::framebuffer::Framebuffer;
use crate::util::unpack_color;

verus! {

/// The decimal digits of `n` as ASCII bytes, most significant first.
pub open spec fn decimal(n: nat) -> Seq<u8>
    decreases n,
{
    if n < 10 {
        seq![(48 + n) as u8]
    } else {
        decimal(n / 10).push((48 + n % 10) as u8)
    }
}

/// The header of a binary PPM image `w` by `h` with 255 levels: `P6\n{w} {h} \n255\n`.
pub open spec fn ppm_header(w: nat, h: nat) -> Seq<u8> {
    seq![80u8, 54u8, 10u8] + decimal(w) + seq![32u8] + decimal(h) + seq![32u8, 10u8, 50u8, 53u8, 53u8, 10u8]
}

/// Channel `k` (0 red, 1 green, 2 blue) of a packed colour.
pub open spec fn channel(c: u32, k: int) -> u8 {
    if k == 0 {
        (c as int % 0x100) as u8
    } else if k == 1 {
        ((c as int / 0x100) % 0x100) as u8
    } else {
        ((c as int / 0x10000) % 0x100) as u8
    }
}

/// The colours as RGB byte triplets, alpha left out.
pub open spec fn rgb_bytes(image: Seq<u32>) -> Seq<u8> {
    Seq::new(3 * image.len(), |k: int| channel(image[k / 3], k % 3))
}

/// Appends the decimal digits of `n`.
fn push_decimal(out: &mut Vec<u8>, n: usize)
    ensures
        final(out)@ == old(out)@ + decimal(n as nat),
    decreases n,
{
    if n >= 10 {
        push_decimal(out, n / 10);
    }
    let d: u8 = (n % 10) as u8;
    out.push(48 + d);
    assert(final(out)@ =~= old(out)@ + decimal(n as nat)) by {
        reveal_with_fuel(decimal, 2);
    }
}

/// Encodes the first `w * h` cells of a frame as a binary PPM image: the header, then
/// one RGB triplet per cell, row-major, alpha left out.
pub fn encode_ppm(image: &Framebuffer, w: usize, h: usize) -> (bytes: Vec<u8>)
    requires
        image.image@.len() == w * h,
    ensures
        bytes@ == ppm_header(w as nat, h as nat) + rgb_bytes(image.image@),
{
    let mut out: Vec<u8> = Vec::new();
    out.push(80u8);
    out.push(54u8);
    out.push(10u8);
    push_decimal(&mut out, w);
    out.push(32u8);
    push_decimal(&mut out, h);
    out.push(32u8);
    out.push(10u8);
    out.push(50u8);
    out.push(53u8);
    out.push(53u8);
    out.push(10u8);
    let ghost header = out@;
    assert(header =~= ppm_header(w as nat, h as nat));
    let n: usize = image.length();
    let mut i: usize = 0;
    while i < n
        invariant
            n == image.image@.len(),
            i <= n,
            out@.len() == header.len() + 3 * i,
            out@.subrange(0, header.len() as int) == header,
            forall|k: int| 0 <= k < 3 * i ==> #[trigger] out@[header.len() + k] == channel(image.image@[k / 3], k % 3),
        decreases n - i,
    {
        let (r, g, b, _a) = unpack_color(&image.get_pixel(i));
        out.push(r);
        out.push(g);
        out.push(b);
        assert(out@.subrange(0, header.len() as int) =~= header);
        assert forall|k: int| 0 <= k < 3 * (i + 1) implies #[trigger] out@[header.len() + k] == channel(image.image@[k / 3], k % 3) by {
            if k >= 3 * i {
                assert(k / 3 == i);
            }
        }
        i = i + 1;
    }
    assert(out@ =~= ppm_header(w as nat, h as nat) + rgb_bytes(image.image@)) by {
        assert forall|k: int| 0 <= k < out@.len() implies out@[k] == (ppm_header(w as nat, h as nat) + rgb_bytes(image.image@))[k] by {
            if k >= header.len() {
                assert(out@[header.len() + (k - header.len())] == channel(image.image@[(k - header.len()) / 3], (k - header.len()) % 3));
            } else {
                assert(out@.subrange(0, header.len() as int)[k] == header[k]);
            }
        }
    }
    out
}

} // verus!
