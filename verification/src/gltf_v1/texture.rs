//! glTF 1.0 embedded textures: the format a MIME type hints at, and the
//! texels of decoded image data.
use vstd::prelude::*;

use crate::gltf2::image_source::PixelFormat;
use crate::imaging::ImageFormat;

verus! {

/// The texture format a MIME type hints at: JPEG, PNG, BMP or GIF; none
/// for any other or when there is none.
pub open spec fn mime_hint_spec(mime: Option<Seq<char>>) -> Option<ImageFormat> {
    match mime {
        Some(m) => if m == "image/jpeg"@ {
            Some(ImageFormat::Jpeg)
        } else if m == "image/png"@ {
            Some(ImageFormat::Png)
        } else if m == "image/bmp"@ {
            Some(ImageFormat::Bmp)
        } else if m == "image/gif"@ {
            Some(ImageFormat::Gif)
        } else {
            None
        },
        None => None,
    }
}

/// The texture format a MIME type hints at.
pub fn mime_hint(mime: Option<&str>) -> (r: Option<ImageFormat>)
    ensures
        r == mime_hint_spec(match mime { Some(m) => Some(m@), None => None }),
{
    match mime {
        Some(m) => if crate::text::str_eq(m, "image/jpeg") {
            Some(ImageFormat::Jpeg)
        } else if crate::text::str_eq(m, "image/png") {
            Some(ImageFormat::Png)
        } else if crate::text::str_eq(m, "image/bmp") {
            Some(ImageFormat::Bmp)
        } else if crate::text::str_eq(m, "image/gif") {
            Some(ImageFormat::Gif)
        } else {
            None
        },
        None => None,
    }
}

/// How many bytes one pixel of an integer layout takes (none for the
/// float layouts).
pub open spec fn int_pixel_size(f: PixelFormat) -> Option<nat> {
    match f {
        PixelFormat::R8 => Some(1),
        PixelFormat::R8G8 => Some(2),
        PixelFormat::R8G8B8 => Some(3),
        PixelFormat::R8G8B8A8 => Some(4),
        PixelFormat::R16 => Some(2),
        PixelFormat::R16G16 => Some(4),
        PixelFormat::R16G16B16 => Some(6),
        PixelFormat::R16G16B16A16 => Some(8),
        _ => None,
    }
}

/// The RGBA texel of one pixel `c` of an integer layout: missing colour
/// channels are 0 and a missing alpha is 255; of a 16-bit channel the
/// first byte is kept.
pub open spec fn texel_of(f: PixelFormat, c: Seq<u8>) -> (u8, u8, u8, u8) {
    match f {
        PixelFormat::R8 => (c[0], c[0], c[0], 255),
        PixelFormat::R8G8 => (c[0], c[1], 0, 255),
        PixelFormat::R8G8B8 => (c[0], c[1], c[2], 255),
        PixelFormat::R8G8B8A8 => (c[0], c[1], c[2], c[3]),
        PixelFormat::R16 => (c[0], c[0], c[0], 255),
        PixelFormat::R16G16 => (c[0], c[2], 0, 255),
        PixelFormat::R16G16B16 => (c[0], c[2], c[4], 255),
        _ => (c[0], c[2], c[4], c[6]),
    }
}

/// The texels of pixel data of an integer layout: one per whole pixel (a
/// trailing part pixel is dropped).
pub open spec fn texels_spec(f: PixelFormat, pixels: Seq<u8>, k: nat) -> Seq<(u8, u8, u8, u8)> {
    Seq::new(pixels.len() / k, |i: int| texel_of(f, pixels.subrange(i * k, i * k + k)))
}

fn pixel_size(f: PixelFormat) -> (r: Option<usize>)
    ensures
        match r {
            Some(k) => int_pixel_size(f) == Some(k as nat) && 1 <= k <= 8,
            None => int_pixel_size(f) is None,
        },
{
    match f {
        PixelFormat::R8 => Some(1),
        PixelFormat::R8G8 => Some(2),
        PixelFormat::R8G8B8 => Some(3),
        PixelFormat::R8G8B8A8 => Some(4),
        PixelFormat::R16 => Some(2),
        PixelFormat::R16G16 => Some(4),
        PixelFormat::R16G16B16 => Some(6),
        PixelFormat::R16G16B16A16 => Some(8),
        _ => None,
    }
}

proof fn lemma_chunk_in_range(i: int, k: int, n: int)
    requires
        k >= 1,
        0 <= i < n / k,
    ensures
        0 <= i * k,
        i * k + k <= n,
{
    assert(i * k + k <= n) by (nonlinear_arith)
        requires k >= 1, 0 <= i < n / k;
    assert(0 <= i * k) by (nonlinear_arith)
        requires k >= 1, 0 <= i;
}

/// The RGBA texels of decoded pixel data of an integer layout (none for
/// the float layouts, whose conversion needs floating point).
pub fn get_texels(f: PixelFormat, pixels: &Vec<u8>) -> (r: Option<Vec<(u8, u8, u8, u8)>>)
    ensures
        match int_pixel_size(f) {
            Some(k) => r is Some && r->0@ == texels_spec(f, pixels@, k),
            None => r is None,
        },
{
    let k = match pixel_size(f) {
        Some(k) => k,
        None => return None,
    };
    let n = pixels.len() / k;
    let mut out: Vec<(u8, u8, u8, u8)> = Vec::new();
    let mut i: usize = 0;
    let mut off: usize = 0;
    while i < n
        invariant
            1 <= k <= 8,
            int_pixel_size(f) == Some(k as nat),
            n == pixels.len() / k,
            i <= n,
            off == i * k,
            out@.len() == i,
            forall|j: int| 0 <= j < i ==> #[trigger] out@[j] == texels_spec(f, pixels@, k as nat)[j],
        decreases n - i,
    {
        proof {
            lemma_chunk_in_range(i as int, k as int, pixels.len() as int);
        }
        let c0 = pixels[off];
        let t = match f {
            PixelFormat::R8 => (c0, c0, c0, 255u8),
            PixelFormat::R8G8 => (c0, pixels[off + 1], 0u8, 255u8),
            PixelFormat::R8G8B8 => (c0, pixels[off + 1], pixels[off + 2], 255u8),
            PixelFormat::R8G8B8A8 => (c0, pixels[off + 1], pixels[off + 2], pixels[off + 3]),
            PixelFormat::R16 => (c0, c0, c0, 255u8),
            PixelFormat::R16G16 => (c0, pixels[off + 2], 0u8, 255u8),
            PixelFormat::R16G16B16 => (c0, pixels[off + 2], pixels[off + 4], 255u8),
            _ => (c0, pixels[off + 2], pixels[off + 4], pixels[off + 6]),
        };
        proof {
            let c = pixels@.subrange(off as int, off + k);
            assert(c.len() == k);
            assert(t == texel_of(f, c));
        }
        out.push(t);
        proof {
            assert((i + 1) * k == i * k + k) by (nonlinear_arith);
        }
        i = i + 1;
        off = off + k;
    }
    assert(out@ =~= texels_spec(f, pixels@, k as nat));
    Some(out)
}

} // verus!
