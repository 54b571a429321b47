//! Decoding the image files that OBJ materials name: the encoding is the
//! one the file's extension names, else the one recognised from the
//! file's first bytes.
use vstd::prelude::*;

use crate::imaging::{
    decode_as, decode_guessed, decoded_view, format_guessed, guess_format, rgba_as_format, rgba_guessed, DecodedImage,
    ImageFormat, rgba_image,
};
use crate::text::{path_extension, path_extension_spec, str_eq};

verus! {

/// The encoding an extension names for OBJ textures: `png`, `jpg` or
/// `jpeg`, `bmp` and `gif` (compared as written).
pub open spec fn extension_format(ext: Option<Seq<char>>) -> Option<ImageFormat> {
    if ext == Some("png"@) {
        Some(ImageFormat::Png)
    } else if ext == Some("jpg"@) || ext == Some("jpeg"@) {
        Some(ImageFormat::Jpeg)
    } else if ext == Some("bmp"@) {
        Some(ImageFormat::Bmp)
    } else if ext == Some("gif"@) {
        Some(ImageFormat::Gif)
    } else {
        None
    }
}

/// An extension as text: empty when there is none.
pub open spec fn extension_text(ext: Option<Seq<char>>) -> Seq<char> {
    match ext {
        Some(e) => e,
        None => Seq::empty(),
    }
}

/// Why the image file of an OBJ material cannot be decoded.
#[derive(Debug)]
pub enum ObjTextureError {
    /// Neither the extension (given) nor the first bytes name an encoding.
    UnsupportedFileFormat(image::ImageError, String),
    /// The bytes cannot be decoded in the encoding chosen.
    ImageLoad(image::ImageError),
}

fn format_of_extension(ext: &Option<String>) -> (r: Option<ImageFormat>)
    ensures
        r == extension_format(match ext {
            Some(e) => Some(e@),
            None => None,
        }),
{
    match ext {
        None => None,
        Some(e) => {
            let e = e.as_str();
            if str_eq(e, "png") {
                Some(ImageFormat::Png)
            } else if str_eq(e, "jpg") || str_eq(e, "jpeg") {
                Some(ImageFormat::Jpeg)
            } else if str_eq(e, "bmp") {
                Some(ImageFormat::Bmp)
            } else if str_eq(e, "gif") {
                Some(ImageFormat::Gif)
            } else {
                None
            }
        },
    }
}

/// Decodes the bytes of the image file at `path`: in the encoding its
/// extension names (see `extension_format`), else in the one recognised
/// from its first bytes; when neither names one, the error carries the
/// extension.
pub fn decode_texture_file(path: &str, data: &Vec<u8>) -> (r: Result<DecodedImage, ObjTextureError>)
    ensures
        match extension_format(path_extension_spec(path@)) {
            Some(f) => match r {
                Ok(d) => rgba_as_format(data@, f) == Some(decoded_view(d)),
                Err(e) => e is ImageLoad && rgba_as_format(data@, f) is None,
            },
            None => match r {
                Ok(d) => format_guessed(data@) && rgba_guessed(data@) == Some(decoded_view(d)),
                Err(ObjTextureError::UnsupportedFileFormat(_, ext)) => {
                    &&& !format_guessed(data@)
                    &&& ext@ == extension_text(path_extension_spec(path@))
                },
                Err(ObjTextureError::ImageLoad(_)) => format_guessed(data@) && rgba_guessed(data@) is None,
            },
        },
{
    let ext = path_extension(path);
    match format_of_extension(&ext) {
        Some(f) => match decode_as(data.as_slice(), f) {
            Ok(d) => Ok(rgba_image(d)),
            Err(e) => Err(ObjTextureError::ImageLoad(e)),
        },
        None => match guess_format(data.as_slice()) {
            Err(e) => {
                let text = match ext {
                    Some(t) => t,
                    None => String::new(),
                };
                Err(ObjTextureError::UnsupportedFileFormat(e, text))
            },
            Ok(()) => match decode_guessed(data.as_slice()) {
                Ok(d) => Ok(d),
                Err(e) => Err(ObjTextureError::ImageLoad(e)),
            },
        },
    }
}

} // verus!
