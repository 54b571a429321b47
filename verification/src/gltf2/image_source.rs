//! Where a glTF 2.0 image comes from: an embedded `data:` URI, a file, or
//! a buffer view; and how its encoding is chosen and decoded.
use vstd::prelude::*;

use crate::imaging::{decode_as, native_decoded, ImageFormat};
use crate::dae::texture::{url_decode, url_decoded};
use crate::gltf2::material_export::opt_text;
use crate::gltf_v1::material_export::base64_encoded;
use crate::text::{joined_path, path_join, chars_of, decimal, decimal_chars, find_first, first_index, string_from_chars, sub_chars};

verus! {

/// The pixel layout of a decoded glTF image.
#[derive(Clone, Copy, Debug, PartialEq, Eq, Structural)]
pub enum PixelFormat {
    R8,
    R8G8,
    R8G8B8,
    R8G8B8A8,
    R16,
    R16G16,
    R16G16B16,
    R16G16B16A16,
    R32G32B32Float,
    R32G32B32A32Float,
}

/// A decoded glTF image: its pixel layout, its size and its pixel bytes.
#[derive(Debug)]
pub struct ImageData {
    pub format: PixelFormat,
    pub width: u32,
    pub height: u32,
    pub pixels: Vec<u8>,
}

/// Why an image could not be had.
#[derive(Clone, Copy, Debug, PartialEq, Eq, Structural)]
pub enum ImageSourceError {
    /// The URI has a scheme other than `data:`, `file:` and `file://`.
    UnsupportedScheme,
    /// The base64 payload of a `data:` URI does not decode.
    Base64,
    /// A file is referred to, but the document was not read from a file.
    ExternalReferenceInSliceImport,
    /// The encoding of the image cannot be determined.
    UnsupportedImageEncoding,
    /// The image data does not decode.
    Image,
    /// The image decodes to a pixel layout glTF has no name for.
    UnsupportedImageFormat,
}

/// The source of an image as a glTF document declares it.
pub enum ImageSource {
    /// A URI, with the MIME type the document gives, if any.
    Uri { uri: String, mime_type: Option<String> },
    /// The bytes of a buffer view, with the MIME type the document gives.
    View { bytes: Vec<u8>, mime_type: String },
}

/// The first position at which `pat` occurs in `s`.
pub open spec fn find_sub(s: Seq<char>, pat: Seq<char>) -> Option<int> {
    if exists|k: int| 0 <= k && k + pat.len() <= s.len() && #[trigger] s.subrange(k, k + pat.len()) == pat {
        Some(choose|k: int| 0 <= k && k + pat.len() <= s.len() && #[trigger] s.subrange(k, k + pat.len()) == pat
            && forall|j: int| 0 <= j < k ==> #[trigger] s.subrange(j, j + pat.len()) != pat)
    } else {
        None
    }
}

/// Finds the first position at which `pat` occurs in `s`.
pub fn find_pattern(s: &Vec<char>, pat: &Vec<char>) -> (r: Option<usize>)
    ensures
        match r {
            Some(k) => find_sub(s@, pat@) == Some(k as int) && k + pat.len() <= s.len(),
            None => find_sub(s@, pat@) is None,
        },
{
    if pat.len() > s.len() {
        return None;
    }
    if pat.len() == 0 {
        proof {
            assert(s@.subrange(0, 0int + pat@.len()) =~= pat@);
            let c = choose|c: int| 0 <= c && c + pat@.len() <= s@.len() && #[trigger] s@.subrange(c, c + pat@.len()) == pat@
                && forall|j: int| 0 <= j < c ==> #[trigger] s@.subrange(j, j + pat@.len()) != pat@;
            if c > 0 {
                assert(s@.subrange(0, 0int + pat@.len()) != pat@);
            }
            assert(c == 0);
        }
        return Some(0);
    }
    let last = s.len() - pat.len();
    let mut k: usize = 0;
    while k <= last
        invariant
            0 < pat.len() <= s.len(),
            last == s.len() - pat.len(),
            k <= last + 1,
            forall|j: int| 0 <= j < k ==> #[trigger] s@.subrange(j, j + pat.len()) != pat@,
        decreases last + 1 - k,
    {
        let window = sub_chars(s, k, k + pat.len());
        if crate::text::chars_eq(&window, pat) {
            proof {
                let c = choose|c: int| 0 <= c && c + pat@.len() <= s@.len() && #[trigger] s@.subrange(c, c + pat@.len()) == pat@
                    && forall|j: int| 0 <= j < c ==> #[trigger] s@.subrange(j, j + pat@.len()) != pat@;
                if c < k {
                    assert(s@.subrange(c, c + pat@.len()) != pat@);
                }
                assert(c == k);
            }
            return Some(k);
        }
        k = k + 1;
    }
    None
}

/// The MIME type and the base64 payload of the part of a `data:` URI
/// after the scheme: split at `;base64,`, the text before the first
/// marker is the MIME type and the text up to the next marker (or the end)
/// the payload; without a marker there is no MIME type and the whole text
/// is the payload.
pub open spec fn data_uri_parts(rest: Seq<char>) -> (Option<Seq<char>>, Seq<char>) {
    let marker = ";base64,"@;
    match find_sub(rest, marker) {
        Some(i) => {
            let after = rest.skip(i + marker.len());
            (Some(rest.take(i)), match find_sub(after, marker) { Some(j) => after.take(j), None => after })
        },
        None => (None, rest),
    }
}

/// The base64 payload of a `data:` URI, split off its MIME type.
pub fn split_data_uri(rest: &Vec<char>) -> (r: (Option<Vec<char>>, Vec<char>))
    ensures
        (match r.0 { Some(m) => Some(m@), None => None }, r.1@) == data_uri_parts(rest@),
{
    proof { reveal_strlit(";base64,"); }
    let marker = chars_of(";base64,");
    match find_pattern(rest, &marker) {
        Some(i) => {
            let head = sub_chars(rest, 0, i);
            let after = sub_chars(rest, i + marker.len(), rest.len());
            assert(head@ =~= rest@.take(i as int));
            assert(after@ =~= rest@.skip(i + marker@.len()));
            match find_pattern(&after, &marker) {
                Some(j) => {
                    let payload = sub_chars(&after, 0, j);
                    assert(payload@ =~= after@.take(j as int));
                    (Some(head), payload)
                },
                None => (Some(head), after),
            }
        },
        None => (None, sub_chars(rest, 0, rest.len())),
    }
}

/// Standard base64 with padding read back: the bytes whose encoding (see
/// `base64_encoded`) the text is, and none when it is no such encoding.
/// Encoding is one to one (`lemma_base64_injective`), so those bytes are
/// unique.
pub open spec fn base64_decoded(s: Seq<char>) -> Option<Seq<u8>> {
    if exists|b: Seq<u8>| base64_encoded(b) == s {
        Some(choose|b: Seq<u8>| base64_encoded(b) == s)
    } else {
        None
    }
}

/// Reading back the base64 encoding of bytes gives those bytes.
pub proof fn lemma_base64_roundtrip(b: Seq<u8>)
    ensures
        base64_decoded(base64_encoded(b)) == Some(b),
{
    let s = base64_encoded(b);
    assert(exists|x: Seq<u8>| base64_encoded(x) == s);
    let c = choose|x: Seq<u8>| base64_encoded(x) == s;
    crate::gltf_v1::material_export::lemma_base64_injective(c, b);
}

/// Decodes base64 with the standard alphabet and canonical padding
/// (`base64::decode`, the `STANDARD` engine, which refuses any other
/// character, misplaced or missing padding and set trailing bits): the
/// contract claims that it succeeds exactly on the encodings of some bytes,
/// and gives those bytes.
#[allow(deprecated)]
#[verifier::external_body]
fn base64_decode(s: &str) -> (r: Option<Vec<u8>>)
    ensures
        match r {
            Some(b) => base64_decoded(s@) == Some(b@),
            None => base64_decoded(s@) is None,
        },
{
    base64::decode(s).ok()
}

/// The encoding a MIME type names: PNG or JPEG; none for any other.
pub open spec fn mime_format(m: Seq<char>) -> Option<ImageFormat> {
    if m == "image/png"@ {
        Some(ImageFormat::Png)
    } else if m == "image/jpeg"@ {
        Some(ImageFormat::Jpeg)
    } else {
        None
    }
}

fn mime_format_of(m: &str) -> (r: Option<ImageFormat>)
    ensures
        r == mime_format(m@),
{
    if crate::text::str_eq(m, "image/png") {
        Some(ImageFormat::Png)
    } else if crate::text::str_eq(m, "image/jpeg") {
        Some(ImageFormat::Jpeg)
    } else {
        None
    }
}

/// The text after the last `.` of `s` (all of `s` when it has none).
pub open spec fn after_last_dot(s: Seq<char>) -> Seq<char> {
    if s.contains('.') {
        let k = choose|k: int| 0 <= k < s.len() && s[k] == '.' && forall|j: int| k < j < s.len() ==> s[j] != '.';
        s.skip(k + 1)
    } else {
        s
    }
}

fn text_after_last_dot(s: &Vec<char>) -> (r: Vec<char>)
    ensures
        r@ == after_last_dot(s@),
{
    let mut k: usize = s.len();
    while k > 0 && s[k - 1] != '.'
        invariant
            k <= s.len(),
            forall|j: int| k <= j < s.len() ==> s@[j] != '.',
        decreases k,
    {
        k = k - 1;
    }
    if k == 0 {
        assert(!s@.contains('.'));
        return sub_chars(s, 0, s.len());
    }
    proof {
        let c = choose|c: int| 0 <= c < s@.len() && s@[c] == '.' && forall|j: int| c < j < s@.len() ==> s@[j] != '.';
        assert(s@[k - 1] == '.');
        if c < k - 1 {
            assert(s@[k - 1] != '.');
        }
        if c > k - 1 {
            assert(s@[c] != '.');
        }
        assert(c == k - 1);
    }
    let r = sub_chars(s, k, s.len());
    assert(r@ =~= s@.skip(k as int));
    r
}

/// The encoding of a file's image: by its MIME type when one is given,
/// else by the extension of its URI (`png`, `jpg`, `jpeg`); none when
/// neither names PNG or JPEG (the encoding is not guessed from the data).
pub open spec fn file_format(mime: Option<Seq<char>>, uri: Seq<char>) -> Option<ImageFormat> {
    match mime {
        Some(m) => mime_format(m),
        None => {
            let ext = after_last_dot(uri);
            if ext == "png"@ {
                Some(ImageFormat::Png)
            } else if ext == "jpg"@ || ext == "jpeg"@ {
                Some(ImageFormat::Jpeg)
            } else {
                None
            }
        },
    }
}

/// The encoding of a file's image.
pub fn file_format_of(mime: &Option<String>, uri: &String) -> (r: Option<ImageFormat>)
    ensures
        r == file_format(match mime { Some(m) => Some(m@), None => None }, uri@),
{
    match mime {
        Some(m) => mime_format_of(m.as_str()),
        None => {
            let chars = chars_of(uri.as_str());
            let ext = text_after_last_dot(&chars);
            let e = string_from_chars(&ext);
            if crate::text::str_eq(e.as_str(), "png") {
                Some(ImageFormat::Png)
            } else if crate::text::str_eq(e.as_str(), "jpg") || crate::text::str_eq(e.as_str(), "jpeg") {
                Some(ImageFormat::Jpeg)
            } else {
                None
            }
        },
    }
}

/// The glTF pixel layout of a colour type, by channel count and bytes per
/// pixel: 8-bit grey, grey-alpha, RGB and RGBA; their 16-bit forms; and
/// 32-bit float RGB and RGBA. None for any other layout.
pub open spec fn pixel_format_spec(channels: u8, bpp: u8) -> Option<PixelFormat> {
    if channels == 1 && bpp == 1 { Some(PixelFormat::R8) }
    else if channels == 2 && bpp == 2 { Some(PixelFormat::R8G8) }
    else if channels == 3 && bpp == 3 { Some(PixelFormat::R8G8B8) }
    else if channels == 4 && bpp == 4 { Some(PixelFormat::R8G8B8A8) }
    else if channels == 1 && bpp == 2 { Some(PixelFormat::R16) }
    else if channels == 2 && bpp == 4 { Some(PixelFormat::R16G16) }
    else if channels == 3 && bpp == 6 { Some(PixelFormat::R16G16B16) }
    else if channels == 4 && bpp == 8 { Some(PixelFormat::R16G16B16A16) }
    else if channels == 3 && bpp == 12 { Some(PixelFormat::R32G32B32Float) }
    else if channels == 4 && bpp == 16 { Some(PixelFormat::R32G32B32A32Float) }
    else { None }
}

/// The glTF pixel layout of a colour type.
pub fn pixel_format(channels: u8, bpp: u8) -> (r: Option<PixelFormat>)
    ensures
        r == pixel_format_spec(channels, bpp),
{
    if channels == 1 && bpp == 1 { Some(PixelFormat::R8) }
    else if channels == 2 && bpp == 2 { Some(PixelFormat::R8G8) }
    else if channels == 3 && bpp == 3 { Some(PixelFormat::R8G8B8) }
    else if channels == 4 && bpp == 4 { Some(PixelFormat::R8G8B8A8) }
    else if channels == 1 && bpp == 2 { Some(PixelFormat::R16) }
    else if channels == 2 && bpp == 4 { Some(PixelFormat::R16G16) }
    else if channels == 3 && bpp == 6 { Some(PixelFormat::R16G16B16) }
    else if channels == 4 && bpp == 8 { Some(PixelFormat::R16G16B16A16) }
    else if channels == 3 && bpp == 12 { Some(PixelFormat::R32G32B32Float) }
    else if channels == 4 && bpp == 16 { Some(PixelFormat::R32G32B32A32Float) }
    else { None }
}

/// What decoding encoded image data gives.
pub open spec fn decode_spec(data: Seq<u8>, format: ImageFormat) -> Result<(PixelFormat, u32, u32, Seq<u8>), ImageSourceError> {
    match native_decoded(data, format) {
        None => Err(ImageSourceError::Image),
        Some((c, b, w, h, bytes)) => match pixel_format_spec(c, b) {
            None => Err(ImageSourceError::UnsupportedImageFormat),
            Some(pf) => Ok((pf, w, h, bytes)),
        },
    }
}

/// The decoded image, as a value.
pub open spec fn image_view(d: ImageData) -> (PixelFormat, u32, u32, Seq<u8>) {
    (d.format, d.width, d.height, d.pixels@)
}

/// Decodes encoded image data of the given encoding.
pub fn decode_image(data: &Vec<u8>, format: ImageFormat) -> (r: Result<ImageData, ImageSourceError>)
    ensures
        match r {
            Ok(d) => decode_spec(data@, format) == Ok::<(PixelFormat, u32, u32, Seq<u8>), ImageSourceError>(image_view(d)),
            Err(e) => decode_spec(data@, format) == Err::<(PixelFormat, u32, u32, Seq<u8>), ImageSourceError>(e),
        },
{
    match decode_as(data.as_slice(), format) {
        Err(_) => Err(ImageSourceError::Image),
        Ok(n) => match pixel_format(n.channels, n.bytes_per_pixel) {
            None => Err(ImageSourceError::UnsupportedImageFormat),
            Some(pf) => Ok(ImageData { format: pf, width: n.width, height: n.height, pixels: n.bytes }),
        },
    }
}

/// Where the bytes of an image are to be read from, before they are.
#[derive(Debug)]
pub enum ImageRequest {
    /// The image is decoded already.
    Ready(ImageData),
    /// The file at this path (relative to the document, percent-encoded)
    /// is to be read and decoded with this encoding.
    RelativeFile { path: String, format: Option<ImageFormat> },
    /// The file at this path (as the URI gives it after `file:` or
    /// `file://`) is to be read and decoded with this encoding.
    AbsoluteFile { path: String, format: Option<ImageFormat> },
}

/// Whether `s` starts with `p`.
pub open spec fn starts_with(s: Seq<char>, p: Seq<char>) -> bool {
    p.len() <= s.len() && s.take(p.len() as int) == p
}

fn strip_prefix(s: &Vec<char>, p: &str) -> (r: Option<Vec<char>>)
    ensures
        match r {
            Some(rest) => starts_with(s@, p@) && rest@ == s@.skip(p@.len() as int),
            None => !starts_with(s@, p@),
        },
{
    let pc = chars_of(p);
    if pc.len() > s.len() {
        return None;
    }
    let head = sub_chars(s, 0, pc.len());
    assert(head@ =~= s@.take(pc@.len() as int));
    if crate::text::chars_eq(&head, &pc) {
        let rest = sub_chars(s, pc.len(), s.len());
        assert(rest@ =~= s@.skip(pc@.len() as int));
        Some(rest)
    } else {
        None
    }
}

/// An image request, as a value.
pub enum RequestView {
    Ready((PixelFormat, u32, u32, Seq<u8>)),
    RelativeFile(Seq<char>, Option<ImageFormat>),
    AbsoluteFile(Seq<char>, Option<ImageFormat>),
}

impl View for ImageRequest {
    type V = RequestView;

    open spec fn view(&self) -> RequestView {
        match self {
            ImageRequest::Ready(d) => RequestView::Ready(image_view(*d)),
            ImageRequest::RelativeFile { path, format } => RequestView::RelativeFile(path@, *format),
            ImageRequest::AbsoluteFile { path, format } => RequestView::AbsoluteFile(path@, *format),
        }
    }
}

/// What a decoded image gives as a request.
pub open spec fn ready(r: Result<(PixelFormat, u32, u32, Seq<u8>), ImageSourceError>) -> Result<RequestView, ImageSourceError> {
    match r {
        Ok(d) => Ok(RequestView::Ready(d)),
        Err(e) => Err(e),
    }
}

/// Whether the URI of an image without a scheme percent-decodes to UTF-8
/// (always so for the other images).
pub open spec fn relative_uri_decodes(source: ImageSource) -> bool {
    match source {
        ImageSource::Uri { uri, mime_type: _ } => uri@.contains(':') || url_decoded(uri@) is Some,
        ImageSource::View { .. } => true,
    }
}

/// What an image source asks for: a `data:` URI is decoded at once (its
/// MIME type must name PNG or JPEG); a `file:` or `file://` URI names a
/// file to read, and a URI without a scheme, percent-decoded and joined to
/// the base path, does too (both only when there is a base path, that is
/// when the document was read from a file); any other scheme is refused;
/// a buffer view's bytes are decoded at once.
pub open spec fn plan_spec(source: ImageSource, base: Option<Seq<char>>) -> Result<RequestView, ImageSourceError> {
    let has_base = base is Some;
    match source {
        ImageSource::Uri { uri, mime_type } => {
            let u = uri@;
            let mime = match mime_type { Some(m) => Some(m@), None => None };
            if u.contains(':') {
                if starts_with(u, "data:"@) {
                    let (m, payload) = data_uri_parts(u.skip(5));
                    match base64_decoded(payload) {
                        None => Err(ImageSourceError::Base64),
                        Some(bytes) => match (match m { Some(x) => mime_format(x), None => None }) {
                            None => Err(ImageSourceError::UnsupportedImageEncoding),
                            Some(f) => ready(decode_spec(bytes, f)),
                        },
                    }
                } else if starts_with(u, "file://"@) || starts_with(u, "file:"@) {
                    if !has_base {
                        Err(ImageSourceError::ExternalReferenceInSliceImport)
                    } else {
                        Ok(RequestView::AbsoluteFile(
                            if starts_with(u, "file://"@) { u.skip(7) } else { u.skip(5) },
                            file_format(mime, u),
                        ))
                    }
                } else {
                    Err(ImageSourceError::UnsupportedScheme)
                }
            } else {
                match base {
                    None => Err(ImageSourceError::ExternalReferenceInSliceImport),
                    Some(b) => Ok(RequestView::RelativeFile(joined_path(b, url_decoded(u)->0), file_format(mime, u))),
                }
            }
        },
        ImageSource::View { bytes, mime_type } => match mime_format(mime_type@) {
            None => Err(ImageSourceError::UnsupportedImageEncoding),
            Some(f) => ready(decode_spec(bytes@, f)),
        },
    }
}

fn contains_colon(v: &Vec<char>) -> (b: bool)
    ensures
        b == v@.contains(':'),
{
    let mut i: usize = 0;
    while i < v.len()
        invariant
            i <= v.len(),
            forall|k: int| 0 <= k < i ==> v@[k] != ':',
        decreases v.len() - i,
    {
        if v[i] == ':' {
            assert(v@[i as int] == ':');
            return true;
        }
        i = i + 1;
    }
    false
}

fn ready_of(r: Result<ImageData, ImageSourceError>) -> (q: Result<ImageRequest, ImageSourceError>)
    ensures
        match r {
            Ok(d) => q is Ok && q->Ok_0@ == RequestView::Ready(image_view(d)),
            Err(e) => q == Err::<ImageRequest, ImageSourceError>(e),
        },
{
    match r {
        Ok(d) => Ok(ImageRequest::Ready(d)),
        Err(e) => Err(e),
    }
}

/// What an image source asks for (the decision part of loading a glTF
/// image: reading a file is left to the caller).
pub fn plan_image_source(source: &ImageSource, base: &Option<String>) -> (r: Result<ImageRequest, ImageSourceError>)
    requires
        relative_uri_decodes(*source),
    ensures
        match r {
            Ok(q) => plan_spec(*source, opt_text(*base)) == Ok::<RequestView, ImageSourceError>(q@),
            Err(e) => plan_spec(*source, opt_text(*base)) == Err::<RequestView, ImageSourceError>(e),
        },
{
    let has_base = base.is_some();
    match source {
        ImageSource::Uri { uri, mime_type } => {
            let u = chars_of(uri.as_str());
            proof {
                reveal_strlit("data:");
                reveal_strlit("file://");
                reveal_strlit("file:");
            }
            if contains_colon(&u) {
                match strip_prefix(&u, "data:") {
                    Some(rest) => {
                        let (m, payload) = split_data_uri(&rest);
                        let p = string_from_chars(&payload);
                        match base64_decode(p.as_str()) {
                            None => Err(ImageSourceError::Base64),
                            Some(bytes) => {
                                let f = match m {
                                    Some(x) => {
                                        let xs = string_from_chars(&x);
                                        mime_format_of(xs.as_str())
                                    },
                                    None => None,
                                };
                                match f {
                                    None => Err(ImageSourceError::UnsupportedImageEncoding),
                                    Some(f) => ready_of(decode_image(&bytes, f)),
                                }
                            },
                        }
                    },
                    None => {
                        let long = strip_prefix(&u, "file://");
                        let short = strip_prefix(&u, "file:");
                        let rest = match long {
                            Some(r) => Some(r),
                            None => short,
                        };
                        match rest {
                            None => Err(ImageSourceError::UnsupportedScheme),
                            Some(r) => if !has_base {
                                Err(ImageSourceError::ExternalReferenceInSliceImport)
                            } else {
                                Ok(ImageRequest::AbsoluteFile {
                                    path: string_from_chars(&r),
                                    format: file_format_of(mime_type, uri),
                                })
                            },
                        }
                    },
                }
            } else {
                let decoded = match url_decode(uri.as_str()) {
                    Some(d) => d,
                    None => uri.clone(),
                };
                match base {
                    None => Err(ImageSourceError::ExternalReferenceInSliceImport),
                    Some(b) => Ok(ImageRequest::RelativeFile {
                        path: path_join(b.as_str(), decoded.as_str()),
                        format: file_format_of(mime_type, uri),
                    }),
                }
            }
        },
        ImageSource::View { bytes, mime_type } => match mime_format_of(mime_type.as_str()) {
            None => Err(ImageSourceError::UnsupportedImageEncoding),
            Some(f) => ready_of(decode_image(bytes, f)),
        },
    }
}

/// Whether the URI of an image without a scheme percent-decodes to UTF-8.
pub fn relative_uri_decodable(source: &ImageSource) -> (b: bool)
    ensures
        b == relative_uri_decodes(*source),
{
    match source {
        ImageSource::Uri { uri, mime_type: _ } => {
            let u = chars_of(uri.as_str());
            contains_colon(&u) || url_decode(uri.as_str()).is_some()
        },
        ImageSource::View { .. } => true,
    }
}

/// What an image source asks for (see `plan_spec`), or nothing when the
/// URI of an image without a scheme does not percent-decode to UTF-8.
pub fn try_plan_image_source(source: &ImageSource, base: &Option<String>) -> (r: Option<Result<ImageRequest, ImageSourceError>>)
    ensures
        r is None <==> !relative_uri_decodes(*source),
        match r {
            Some(Ok(q)) => plan_spec(*source, opt_text(*base)) == Ok::<RequestView, ImageSourceError>(q@),
            Some(Err(e)) => plan_spec(*source, opt_text(*base)) == Err::<RequestView, ImageSourceError>(e),
            None => true,
        },
{
    if relative_uri_decodable(source) {
        Some(plan_image_source(source, base))
    } else {
        None
    }
}

/// Decodes the bytes read from an image file: an encoding that could not
/// be determined is refused.
pub fn finish_file_image(bytes: &Vec<u8>, format: Option<ImageFormat>) -> (r: Result<ImageData, ImageSourceError>)
    ensures
        match format {
            None => r == Err::<ImageData, ImageSourceError>(ImageSourceError::UnsupportedImageEncoding),
            Some(f) => match r {
                Ok(d) => decode_spec(bytes@, f) == Ok::<(PixelFormat, u32, u32, Seq<u8>), ImageSourceError>(image_view(d)),
                Err(e) => decode_spec(bytes@, f) == Err::<(PixelFormat, u32, u32, Seq<u8>), ImageSourceError>(e),
            },
        },
{
    match format {
        None => Err(ImageSourceError::UnsupportedImageEncoding),
        Some(f) => decode_image(bytes, f),
    }
}

/// The texture format an image's MIME type names for the imported
/// texture: JPEG, PNG or WebP; none for any other or when there is none.
pub open spec fn texture_format_spec(mime: Option<Seq<char>>) -> Option<ImageFormat> {
    match mime {
        Some(m) => if m == "image/jpeg"@ {
            Some(ImageFormat::Jpeg)
        } else if m == "image/png"@ {
            Some(ImageFormat::Png)
        } else if m == "image/webp"@ {
            Some(ImageFormat::WebP)
        } else {
            None
        },
        None => None,
    }
}

fn texture_format(mime: Option<&str>) -> (r: Option<ImageFormat>)
    ensures
        r == texture_format_spec(match mime { Some(m) => Some(m@), None => None }),
{
    match mime {
        Some(m) => if crate::text::str_eq(m, "image/jpeg") {
            Some(ImageFormat::Jpeg)
        } else if crate::text::str_eq(m, "image/png") {
            Some(ImageFormat::Png)
        } else if crate::text::str_eq(m, "image/webp") {
            Some(ImageFormat::WebP)
        } else {
            None
        },
        None => None,
    }
}

/// A text up to its first `.` (all of it when it has none).
pub open spec fn before_first_dot(s: Seq<char>) -> Seq<char> {
    match first_index(s, '.') {
        Some(k) => s.take(k),
        None => s,
    }
}

/// The file name and format hint an image of a document is imported
/// under: an image in a buffer view is named by its index (in decimal), an
/// image behind a URI by the URI up to its first `.`; the hint is the
/// format its MIME type names (see `texture_format_spec`).
pub fn embedded_texture_info(source: &ImageSource, index: usize) -> (r: (String, Option<ImageFormat>))
    ensures
        match source {
            ImageSource::Uri { uri, mime_type } => {
                &&& r.0@ == before_first_dot(uri@)
                &&& r.1 == texture_format_spec(match mime_type { Some(m) => Some(m@), None => None })
            },
            ImageSource::View { bytes: _, mime_type } => {
                &&& r.0@ == decimal(index as nat)
                &&& r.1 == texture_format_spec(Some(mime_type@))
            },
        },
{
    match source {
        ImageSource::Uri { uri, mime_type } => {
            let v = chars_of(uri.as_str());
            let name = match find_first(&v, '.') {
                Some(k) => {
                    let head = sub_chars(&v, 0, k);
                    assert(head@ =~= v@.take(k as int));
                    string_from_chars(&head)
                },
                None => string_from_chars(&v),
            };
            let hint = match mime_type {
                Some(m) => texture_format(Some(m.as_str())),
                None => texture_format(None),
            };
            (name, hint)
        },
        ImageSource::View { bytes: _, mime_type } => {
            let digits = decimal_chars(index);
            (string_from_chars(&digits), texture_format(Some(mime_type.as_str())))
        },
    }
}

/// The text after the last `.` of `stem.ext`, for an extension without a
/// `.`, is that extension.
proof fn lemma_after_last_dot_ext(stem: Seq<char>, ext: Seq<char>)
    requires
        !ext.contains('.'),
    ensures
        after_last_dot(stem + seq!['.'] + ext) == ext,
{
    let s = stem + seq!['.'] + ext;
    let d = stem.len() as int;
    assert(s[d] == '.');
    assert(s.contains('.'));
    let k = choose|k: int| 0 <= k < s.len() && s[k] == '.' && forall|j: int| k < j < s.len() ==> s[j] != '.';
    if k > d {
        assert(ext[k - d - 1] == s[k]);
        assert(ext.contains('.'));
    }
    if k < d {
        assert(s[d] != '.');
    }
    assert(s.skip(d + 1) =~= ext);
}

proof fn lemma_dotted(stem: Seq<char>, ext: Seq<char>, dotted: Seq<char>)
    requires
        dotted == seq!['.'] + ext,
        forall|j: int| 0 <= j < ext.len() ==> #[trigger] ext[j] != '.',
    ensures
        after_last_dot(stem + dotted) == ext,
{
    assert(!ext.contains('.'));
    assert(stem + dotted =~= stem + seq!['.'] + ext);
    lemma_after_last_dot_ext(stem, ext);
}

proof fn lemma_png_ext(stem: Seq<char>)
    ensures
        file_format(None, stem + ".png"@) == Some(ImageFormat::Png),
{
    assert(after_last_dot(stem + ".png"@) == "png"@) by {
        reveal_strlit(".png");
        reveal_strlit("png");
        assert(".png"@ =~= seq!['.'] + "png"@);
        lemma_dotted(stem, "png"@, ".png"@);
    }
}

proof fn lemma_jpg_ext(stem: Seq<char>)
    ensures
        file_format(None, stem + ".jpg"@) == Some(ImageFormat::Jpeg),
{
    assert(after_last_dot(stem + ".jpg"@) == "jpg"@) by {
        reveal_strlit(".jpg");
        reveal_strlit("jpg");
        assert(".jpg"@ =~= seq!['.'] + "jpg"@);
        lemma_dotted(stem, "jpg"@, ".jpg"@);
    }
    assert("jpg"@ != "png"@) by {
        reveal_strlit("jpg");
        reveal_strlit("png");
        assert("jpg"@[0] != "png"@[0]);
    }
}

proof fn lemma_jpeg_ext(stem: Seq<char>)
    ensures
        file_format(None, stem + ".jpeg"@) == Some(ImageFormat::Jpeg),
{
    assert(after_last_dot(stem + ".jpeg"@) == "jpeg"@) by {
        reveal_strlit(".jpeg");
        reveal_strlit("jpeg");
        assert(".jpeg"@ =~= seq!['.'] + "jpeg"@);
        lemma_dotted(stem, "jpeg"@, ".jpeg"@);
    }
    assert("jpeg"@ != "png"@) by {
        reveal_strlit("jpeg");
        reveal_strlit("png");
        assert("jpeg"@[0] != "png"@[0]);
    }
}

/// Without a MIME type, a file's encoding follows the extension of its
/// URI, whatever comes before it: `.png` is PNG, `.jpg` and `.jpeg` are
/// JPEG. With a MIME type, `image/png` is PNG and `image/jpeg` is JPEG,
/// whatever the URI.
pub proof fn lemma_file_format_by_extension(stem: Seq<char>, uri: Seq<char>)
    ensures
        file_format(None, stem + ".png"@) == Some(ImageFormat::Png),
        file_format(None, stem + ".jpg"@) == Some(ImageFormat::Jpeg),
        file_format(None, stem + ".jpeg"@) == Some(ImageFormat::Jpeg),
        file_format(Some("image/png"@), uri) == Some(ImageFormat::Png),
        file_format(Some("image/jpeg"@), uri) == Some(ImageFormat::Jpeg),
{
    lemma_png_ext(stem);
    lemma_jpg_ext(stem);
    lemma_jpeg_ext(stem);
    reveal_strlit("image/png");
    reveal_strlit("image/jpeg");
    assert("image/jpeg"@ != "image/png"@) by { assert("image/jpeg"@[6] != "image/png"@[6]); }
}

} // verus!
