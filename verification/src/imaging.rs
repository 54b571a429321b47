//! Decoding encoded images (PNG, JPEG, ...) into RGBA texels with the
//! `image` crate.
use vstd::prelude::*;

use image::GenericImageView;

verus! {

/// The encoded image formats the importers name.
#[derive(Clone, Copy, Debug, PartialEq, Eq, Structural)]
pub enum ImageFormat {
    Png,
    Jpeg,
    Gif,
    WebP,
    Bmp,
}

/// The error of the `image` crate, carried through unread.
#[verifier::external_type_specification]
#[verifier::external_body]
pub struct ExImageError(image::ImageError);

/// A decoded image: its size and its texels as RGBA bytes, row by row.
#[derive(Debug)]
pub struct DecodedImage {
    pub width: u32,
    pub height: u32,
    pub rgba: Vec<u8>,
}

/// What `image::load_from_memory` decodes from `data`, as RGBA bytes with
/// the image's size (none when it cannot decode it).
pub uninterp spec fn rgba_guessed(data: Seq<u8>) -> Option<(u32, u32, Seq<u8>)>;

/// What `image::load_from_memory_with_format` decodes from `data` read as
/// `format`: the channel count and bytes per pixel of its colour type, its
/// size, its bytes in that layout, and its texels as RGBA bytes (none when
/// it cannot decode it).
pub uninterp spec fn decoded_as(data: Seq<u8>, format: ImageFormat) -> Option<(u8, u8, u32, u32, Seq<u8>, Seq<u8>)>;

/// The RGBA texels, with the size, of `data` decoded as `format`.
pub open spec fn rgba_as_format(data: Seq<u8>, format: ImageFormat) -> Option<(u32, u32, Seq<u8>)> {
    match decoded_as(data, format) {
        Some((_c, _b, w, h, _bytes, rgba)) => Some((w, h, rgba)),
        None => None,
    }
}

/// The channel count, bytes per pixel, size and bytes in its own layout of
/// `data` decoded as `format`.
pub open spec fn native_decoded(data: Seq<u8>, format: ImageFormat) -> Option<(u8, u8, u32, u32, Seq<u8>)> {
    match decoded_as(data, format) {
        Some((c, b, w, h, bytes, _rgba)) => Some((c, b, w, h, bytes)),
        None => None,
    }
}

/// An image decoded from a known encoding: its colour type's channel count
/// and bytes per pixel, its size, its bytes in that layout, and its texels
/// as RGBA bytes.
pub struct FormatDecoded {
    pub channels: u8,
    pub bytes_per_pixel: u8,
    pub width: u32,
    pub height: u32,
    pub bytes: Vec<u8>,
    pub rgba: Vec<u8>,
}

/// The decoded image as a value.
pub open spec fn decoded_view(d: DecodedImage) -> (u32, u32, Seq<u8>) {
    (d.width, d.height, d.rgba@)
}

/// Decodes an image of a format guessed from its first bytes
/// (`image::load_from_memory`, then `to_rgba8`). The result is named, not
/// stated: it is what the `image` crate's decoders give.
#[verifier::external_body]
pub(crate) fn decode_guessed(data: &[u8]) -> (r: Result<DecodedImage, image::ImageError>)
    ensures
        match r {
            Ok(d) => rgba_guessed(data@) == Some(decoded_view(d)),
            Err(_) => rgba_guessed(data@) is None,
        },
{
    image::load_from_memory(data).map(|img| {
        let rgba = img.to_rgba8();
        DecodedImage { width: rgba.width(), height: rgba.height(), rgba: rgba.into_raw() }
    })
}

/// Decodes an image read as the given format
/// (`image::load_from_memory_with_format`, then its colour type, size and
/// bytes, and `to_rgba8`). The result is named, not stated: it is what the
/// `image` crate's decoders give.
#[verifier::external_body]
pub(crate) fn decode_as(data: &[u8], format: ImageFormat) -> (r: Result<FormatDecoded, image::ImageError>)
    ensures
        match r {
            Ok(d) => decoded_as(data@, format) == Some((d.channels, d.bytes_per_pixel, d.width, d.height, d.bytes@, d.rgba@)),
            Err(_) => decoded_as(data@, format) is None,
        },
{
    let f = match format {
        ImageFormat::Png => image::ImageFormat::Png,
        ImageFormat::Jpeg => image::ImageFormat::Jpeg,
        ImageFormat::Gif => image::ImageFormat::Gif,
        ImageFormat::WebP => image::ImageFormat::WebP,
        ImageFormat::Bmp => image::ImageFormat::Bmp,
    };
    image::load_from_memory_with_format(data, f).map(|img| FormatDecoded {
        channels: img.color().channel_count(),
        bytes_per_pixel: img.color().bytes_per_pixel(),
        width: img.width(),
        height: img.height(),
        rgba: img.to_rgba8().into_raw(),
        bytes: img.into_bytes(),
    })
}

/// The RGBA texels, with the size, of an image decoded from a known
/// encoding.
pub(crate) fn rgba_image(d: FormatDecoded) -> (r: DecodedImage)
    ensures
        decoded_view(r) == (d.width, d.height, d.rgba@),
{
    DecodedImage { width: d.width, height: d.height, rgba: d.rgba }
}

/// Whether `image::guess_format` recognises the encoding of `data` from
/// its first bytes.
pub uninterp spec fn format_guessed(data: Seq<u8>) -> bool;

/// Recognises the encoding of `data` from its first bytes
/// (`image::guess_format`), giving the crate's error when it cannot. The
/// outcome is named, not stated: it is the crate's table of signatures.
#[verifier::external_body]
pub(crate) fn guess_format(data: &[u8]) -> (r: Result<(), image::ImageError>)
    ensures
        r is Ok <==> format_guessed(data@),
{
    image::guess_format(data).map(|_| ())
}

} // verus!
