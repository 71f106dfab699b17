//! Packed-RGBA pixel colors and the binary image serialization the engine
//! emits: each pixel is one `u32` holding four 8-bit channels.

use vstd::prelude::*;

verus! {

/// The color obtained by packing the four channels, least significant byte
/// first: red in the low byte, then green, blue, and alpha.
pub open spec fn spec_pack(r: u8, g: u8, b: u8, a: u8) -> u32 {
    (r + g * 0x100 + b * 0x10000 + a * 0x1000000) as u32
}

/// Store each RGBA `u8` component in one `u32`, red in the low byte; a
/// missing alpha means fully opaque.
pub fn pack_color(r: u8, g: u8, b: u8, a: Option<u8>) -> (c: u32)
    ensures
        c == spec_pack(r, g, b, a.unwrap_or(255)),
{
    let av: u8 = match a {
        Some(v) => v,
        None => 255,
    };
    let c = (u32::from(av) << 24) | (u32::from(b) << 16) | (u32::from(g) << 8) | u32::from(r);
    proof {
        let ru = r as u32;
        let gu = g as u32;
        let bu = b as u32;
        let au = av as u32;
        assert((au << 24) | (bu << 16) | (gu << 8) | ru == ru + gu * 0x100 + bu * 0x10000 + au
            * 0x1000000) by (bit_vector)
            requires
                ru < 0x100 && gu < 0x100 && bu < 0x100 && au < 0x100,
        ;
    }
    c
}

/// Split a packed color back into its four channels, red from the low byte.
pub fn unpack_color(color: &u32, r: &mut u8, g: &mut u8, b: &mut u8, a: &mut u8)
    ensures
        *final(r) == *color % 0x100,
        *final(g) == (*color / 0x100) % 0x100,
        *final(b) == (*color / 0x10000) % 0x100,
        *final(a) == (*color / 0x1000000) % 0x100,
{
    let c = *color;
    proof {
        assert((c & 255) == c % 0x100 && ((c >> 8) & 255) == (c / 0x100) % 0x100 && ((c >> 16)
            & 255) == (c / 0x10000) % 0x100 && ((c >> 24) & 255) == (c / 0x1000000) % 0x100)
            by (bit_vector);
    }
    *r = (c & 255) as u8;
    *g = ((c >> 8) & 255) as u8;
    *b = ((c >> 16) & 255) as u8;
    *a = ((c >> 24) & 255) as u8;
}

/// The decimal digit string of a nonnegative number, as ASCII bytes.
pub open spec fn spec_decimal(n: int) -> Seq<u8>
    decreases n,
{
    if n < 10 {
        seq![(48 + n) as u8]
    } else {
        spec_decimal(n / 10) + seq![(48 + n % 10) as u8]
    }
}

/// The red, green, or blue channel of a packed color: channel `c` of the
/// pixel, red first, alpha dropped.
pub open spec fn spec_channel(p: u32, c: int) -> u8 {
    if c == 0 {
        (p % 0x100) as u8
    } else if c == 1 {
        ((p / 0x100) % 0x100) as u8
    } else {
        ((p / 0x10000) % 0x100) as u8
    }
}

/// The pixel data of the binary image format: three bytes per pixel in
/// row-major order.
pub open spec fn spec_ppm_body(img: Seq<u32>) -> Seq<u8> {
    Seq::new((3 * img.len()) as nat, |i: int| spec_channel(img[i / 3], i % 3))
}

/// The serialized binary image: the two-byte magic token and a newline,
/// the decimal width and height separated by a space, the maximum channel
/// value line, then the raw byte triples.
pub open spec fn spec_ppm(img: Seq<u32>, w: int, h: int) -> Seq<u8> {
    seq![80u8, 54u8, 10u8] + spec_decimal(w) + seq![32u8] + spec_decimal(h) + seq![
        10u8,
        50u8,
        53u8,
        53u8,
        10u8,
    ] + spec_ppm_body(img)
}

/// Append the decimal digits of `n`.
fn push_decimal(out: &mut Vec<u8>, n: usize)
    ensures
        final(out)@ == old(out)@ + spec_decimal(n as int),
    decreases n,
{
    if n < 10 {
        out.push(48 + n as u8);
        proof {
            assert(out@ =~= old(out)@ + spec_decimal(n as int));
        }
    } else {
        push_decimal(out, n / 10);
        out.push(48 + (n % 10) as u8);
        proof {
            assert(out@ =~= old(out)@ + spec_decimal(n as int));
        }
    }
}

/// Serialize a pixel grid to the binary image bytes: the header names the
/// dimensions, and each pixel contributes its red, green, and blue bytes
/// in order; alpha is dropped.
pub fn ppm_bytes(image: &Vec<u32>, width: usize, height: usize) -> (r: Vec<u8>)
    requires
        image@.len() == width * height,
    ensures
        r@ == spec_ppm(image@, width as int, height as int),
{
    let mut out: Vec<u8> = Vec::new();
    out.push(80);
    out.push(54);
    out.push(10);
    push_decimal(&mut out, width);
    out.push(32);
    push_decimal(&mut out, height);
    out.push(10);
    out.push(50);
    out.push(53);
    out.push(53);
    out.push(10);
    let ghost header = seq![80u8, 54u8, 10u8] + spec_decimal(width as int) + seq![32u8]
        + spec_decimal(height as int) + seq![10u8, 50u8, 53u8, 53u8, 10u8];
    proof {
        assert(out@ =~= header);
    }
    let ghost body = spec_ppm_body(image@);
    let mut p: usize = 0;
    while p < image.len()
        invariant
            image@.len() == width * height,
            p <= image@.len(),
            body == spec_ppm_body(image@),
            header == seq![80u8, 54u8, 10u8] + spec_decimal(width as int) + seq![32u8]
                + spec_decimal(height as int) + seq![10u8, 50u8, 53u8, 53u8, 10u8],
            out@ == header + body.subrange(0, 3 * p),
        decreases image@.len() - p,
    {
        let px = image[p];
        let cr = (px & 255) as u8;
        let cg = ((px >> 8) & 255) as u8;
        let cb = ((px >> 16) & 255) as u8;
        proof {
            assert((px & 255) == px % 0x100 && ((px >> 8) & 255) == (px / 0x100) % 0x100 && ((px
                >> 16) & 255) == (px / 0x10000) % 0x100) by (bit_vector);
        }
        out.push(cr);
        out.push(cg);
        out.push(cb);
        proof {
            vstd::arithmetic::div_mod::lemma_fundamental_div_mod_converse(3 * p, 3, p as int, 0);
            vstd::arithmetic::div_mod::lemma_fundamental_div_mod_converse(
                3 * p + 1,
                3,
                p as int,
                1,
            );
            vstd::arithmetic::div_mod::lemma_fundamental_div_mod_converse(
                3 * p + 2,
                3,
                p as int,
                2,
            );
            assert(out@ =~= header + body.subrange(0, 3 * (p + 1)));
        }
        p += 1;
    }
    proof {
        assert(body.subrange(0, 3 * (image@.len() as int)) =~= body);
        assert(out@ == spec_ppm(image@, width as int, height as int));
    }
    out
}

} // verus!
