//! The grayscale pixel transform: per-pixel luminance with the ITU-R BT.601
//! weights (0.299 R + 0.587 G + 0.114 B), computed in integer thousandths,
//! with any alpha channel passed through unchanged.

use vstd::prelude::*;

verus! {

/// The BT.601 luminance of one pixel, in integer arithmetic: the weighted
/// sum in thousandths, divided down. Always within 0..=255.
pub open spec fn luma_spec(r: u8, g: u8, b: u8) -> int {
    (r as int * 299 + g as int * 587 + b as int * 114) / 1000
}

/// Computes the BT.601 luminance of one pixel.
pub fn luma(r: u8, g: u8, b: u8) -> (l: u8)
    ensures
        l as int == luma_spec(r, g, b),
{
    let sum: u32 = r as u32 * 299 + g as u32 * 587 + b as u32 * 114;
    proof {
        assert(sum <= 255000);
        assert(sum / 1000 <= 255);
    }
    (sum / 1000) as u8
}

/// What each output byte of the RGBA grayscale transform is: the pixel's
/// luminance in the three color channels, the alpha byte unchanged.
pub open spec fn gray_rgba_byte(p: Seq<u8>, i: int) -> u8 {
    let base = 4 * (i / 4);
    if i % 4 == 3 {
        p[i]
    } else {
        luma_spec(p[base], p[base + 1], p[base + 2]) as u8
    }
}

/// Converts an RGBA byte buffer to grayscale in place of the color
/// channels, preserving each pixel's alpha byte unchanged.
pub fn grayscale_rgba(p: &Vec<u8>) -> (out: Vec<u8>)
    requires
        p@.len() % 4 == 0,
    ensures
        out@.len() == p@.len(),
        forall|i: int| 0 <= i < out@.len() ==> out@[i] == gray_rgba_byte(p@, i),
{
    let mut out: Vec<u8> = Vec::new();
    let len = p.len();
    let n = len / 4;
    let mut j: usize = 0;
    while j < n
        invariant
            len == p@.len(),
            p@.len() % 4 == 0,
            n == p@.len() / 4,
            j <= n,
            out@.len() == 4 * j,
            forall|i: int| 0 <= i < 4 * j ==> out@[i] == gray_rgba_byte(p@, i),
        decreases n - j,
    {
        let base = 4 * j;
        let l = luma(p[base], p[base + 1], p[base + 2]);
        let a = p[base + 3];
        out.push(l);
        out.push(l);
        out.push(l);
        out.push(a);
        proof {
            assert forall|i: int| 0 <= i < 4 * (j + 1) implies out@[i] == gray_rgba_byte(p@, i) by {
                if i >= 4 * j {
                    assert(i / 4 == j as int);
                    assert(4 * (i / 4) == 4 * j);
                }
            }
        }
        j = j + 1;
    }
    out
}

/// What each output byte of the RGB-to-grayscale-RGBA transform is: the
/// pixel's luminance in the three color channels, and a fully opaque alpha.
pub open spec fn gray_rgb_byte(p: Seq<u8>, i: int) -> u8 {
    let base = 3 * (i / 4);
    if i % 4 == 3 {
        255
    } else {
        luma_spec(p[base], p[base + 1], p[base + 2]) as u8
    }
}

/// Converts an RGB byte buffer (no alpha) to a grayscale RGBA buffer with a
/// fully opaque alpha channel, as the color variant of the proxy does.
pub fn grayscale_rgb_to_rgba(p: &Vec<u8>) -> (out: Vec<u8>)
    requires
        p@.len() % 3 == 0,
    ensures
        out@.len() == p@.len() / 3 * 4,
        forall|i: int| 0 <= i < out@.len() ==> out@[i] == gray_rgb_byte(p@, i),
{
    let mut out: Vec<u8> = Vec::new();
    let len = p.len();
    let n = len / 3;
    let mut j: usize = 0;
    while j < n
        invariant
            len == p@.len(),
            p@.len() % 3 == 0,
            n == p@.len() / 3,
            j <= n,
            out@.len() == 4 * j,
            forall|i: int| 0 <= i < 4 * j ==> out@[i] == gray_rgb_byte(p@, i),
        decreases n - j,
    {
        let base = 3 * j;
        let l = luma(p[base], p[base + 1], p[base + 2]);
        out.push(l);
        out.push(l);
        out.push(l);
        out.push(255);
        proof {
            assert forall|i: int| 0 <= i < 4 * (j + 1) implies out@[i] == gray_rgb_byte(p@, i) by {
                if i >= 4 * j {
                    assert(i / 4 == j as int);
                    assert(3 * (i / 4) == 3 * j);
                }
            }
        }
        j = j + 1;
    }
    out
}

} // verus!
