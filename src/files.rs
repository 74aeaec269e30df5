//! Serving image files: path confinement, thumbnail widths and cache names, and
//! thumbnail rendering.
use vstd::prelude::*;
use vstd::string::StrSliceExecFns;

use crate::catalog::Catalog;
use crate::error::AppError;
use crate::sql::{decimal, decimal_text};

verus! {

/// The narrowest thumbnail served.
pub const MIN_THUMBNAIL_WIDTH: u32 = 50;

/// The widest thumbnail served.
pub const MAX_THUMBNAIL_WIDTH: u32 = 1920;

/// A requested width held within the served range.
pub open spec fn clamped(w: u32) -> u32 {
    if w < MIN_THUMBNAIL_WIDTH {
        MIN_THUMBNAIL_WIDTH
    } else if w > MAX_THUMBNAIL_WIDTH {
        MAX_THUMBNAIL_WIDTH
    } else {
        w
    }
}

/// The name of the cached thumbnail of an image at a width: `{uuid}_{width}.jpg`.
pub open spec fn cache_name(uuid: Seq<char>, w: u32) -> Seq<char> {
    uuid + "_"@ + decimal(w as nat) + ".jpg"@
}

/// Whether a path lies at or beneath a root, comparing whole path components.
pub open spec fn within_root(p: Seq<char>, root: Seq<char>) -> bool {
    &&& 0 < root.len() <= p.len()
    &&& p.subrange(0, root.len() as int) == root
    &&& (p.len() == root.len() || root.last() == '/' || p[root.len() as int] == '/')
}

/// Holds a requested thumbnail width within the served range.
pub fn clamp_width(w: u32) -> (r: u32)
    ensures
        r == clamped(w),
{
    if w < MIN_THUMBNAIL_WIDTH {
        MIN_THUMBNAIL_WIDTH
    } else if w > MAX_THUMBNAIL_WIDTH {
        MAX_THUMBNAIL_WIDTH
    } else {
        w
    }
}

/// The name of the cached thumbnail of an image at a width.
pub fn thumbnail_cache_name(uuid: &str, width: u32) -> (r: String)
    ensures
        r@ == cache_name(uuid@, width),
{
    let mut s = String::from_str(uuid);
    s.append("_");
    let d = decimal_text(width as usize);
    s.append(d.as_str());
    s.append(".jpg");
    s
}

/// Whether a canonical path lies at or beneath a canonical root.
pub fn is_within(path: &str, root: &str) -> (r: bool)
    ensures
        r == within_root(path@, root@),
{
    let n = root.unicode_len();
    let m = path.unicode_len();
    if n == 0 || n > m {
        return false;
    }
    let mut i: usize = 0;
    while i < n
        invariant
            n == root@.len(),
            m == path@.len(),
            n <= m,
            i <= n,
            forall|j: int| 0 <= j < i ==> path@[j] == root@[j],
        decreases n - i,
    {
        if path.get_char(i) != root.get_char(i) {
            return false;
        }
        i = i + 1;
    }
    proof {
        assert(path@.subrange(0, n as int) =~= root@);
    }
    n == m || root.get_char(n - 1) == '/' || path.get_char(n) == '/'
}

/// Checks that a resolved file stays beneath the galleries root.
pub fn check_confined(canonical: &str, root: &str) -> (r: Result<(), AppError>)
    ensures
        r is Ok <==> within_root(canonical@, root@),
        r matches Err(e) ==> e is BadRequest,
{
    if is_within(canonical, root) {
        Ok(())
    } else {
        Err(AppError::BadRequest(String::from_str("Invalid path")))
    }
}

/// A thumbnail to serve: its width and the name of its cache file.
pub struct ThumbnailPlan {
    pub width: u32,
    pub cache_name: String,
}

/// What a file request serves: the image's path relative to the galleries root, and
/// the thumbnail where a width was asked for.
pub struct FilePlan {
    pub relative_path: String,
    pub thumbnail: Option<ThumbnailPlan>,
}

impl Catalog {
    /// Resolves a file request: `NotFound` where no image has the uuid; otherwise the
    /// image's relative path and, where a width was given, the clamped width and the
    /// name of the cached thumbnail.
    pub fn plan_image_file(&self, uuid: &str, width: Option<u32>) -> (r: Result<FilePlan, AppError>)
        ensures
            r is Err <==> !self.has_image(uuid@),
            r matches Err(e) ==> e is NotFound,
            r matches Ok(p) ==> exists|k: int|
                0 <= k < self.images@.len() && (#[trigger] self.images@[k]).uuid@ == uuid@
                    && p.relative_path@ == self.images@[k].path@,
            r matches Ok(p) ==> (p.thumbnail is None <==> width is None),
            r matches Ok(p) ==> (width matches Some(w) ==> p.thumbnail matches Some(t) && t.width
                == clamped(w) && t.cache_name@ == cache_name(uuid@, clamped(w))),
    {
        let k = match self.find_image(uuid) {
            Some(k) => k,
            None => {
                return Err(AppError::NotFound(String::from_str("Image not found")));
            },
        };
        let thumbnail = match width {
            Some(w) => {
                let cw = clamp_width(w);
                Some(ThumbnailPlan { width: cw, cache_name: thumbnail_cache_name(uuid, cw) })
            },
            None => None,
        };
        Ok(FilePlan { relative_path: self.images[k].path.clone(), thumbnail })
    }
}

#[verifier::external_type_specification]
#[verifier::external_body]
pub struct ExDynamicImage(image::DynamicImage);

#[verifier::external_type_specification]
#[verifier::external_body]
pub struct ExImageError(image::ImageError);

/// What decoding these bytes yields: the width and height of the image, or nothing
/// where they do not decode.
pub uninterp spec fn decoded_size(b: Seq<u8>) -> Option<(u32, u32)>;

/// A decoded image with its width and height, as the image reports them.
pub struct Picture {
    image: image::DynamicImage,
    width: u32,
    height: u32,
}

impl Picture {
    pub closed spec fn spec_width(&self) -> u32 {
        self.width
    }

    pub closed spec fn spec_height(&self) -> u32 {
        self.height
    }
}

/// Relies on `image::load_from_memory`, which guesses the format from the bytes and
/// decodes them, a function of the bytes alone; and on `DynamicImage::width` and
/// `height` for the decoded size.
#[verifier::external_body]
fn decode_image(bytes: &[u8]) -> (r: Result<Picture, image::ImageError>)
    ensures
        r is Ok <==> decoded_size(bytes@) is Some,
        r matches Ok(p) ==> decoded_size(bytes@) == Some((p.spec_width(), p.spec_height())),
{
    image::load_from_memory(bytes).map(|image| {
        let (width, height) = (image.width(), image.height());
        Picture { image, width, height }
    })
}

/// Relies on `DynamicImage::thumbnail(nwidth, u32::MAX)`: the scale factor is the
/// smaller of `nwidth / width` and `u32::MAX / height`, and each side is rounded and
/// kept at least 1. The new width is at most `nwidth`. Where `nwidth` is below the
/// width the factor is `nwidth / width`: the new width is `nwidth`, and the new height
/// is the height scaled by that factor, rounded, so within 1 of it and not above the
/// height.
#[verifier::external_body]
fn shrink_to_width(p: &Picture, nwidth: u32) -> (r: Picture)
    requires
        nwidth >= 1,
    ensures
        1 <= r.spec_width() <= nwidth,
        1 <= r.spec_height(),
        1 <= p.spec_height() && nwidth < p.spec_width() ==> r.spec_height() <= p.spec_height(),
        nwidth < p.spec_width() ==> r.spec_width() == nwidth,
        nwidth < p.spec_width() ==> (r.spec_height() as int - 1) * (p.spec_width() as int) <= (
        p.spec_height() as int) * (nwidth as int) && (p.spec_height() as int) * (nwidth as int) <= (
        r.spec_height() as int + 1) * (p.spec_width() as int),
{
    let image = p.image.thumbnail(nwidth, u32::MAX);
    let (width, height) = (image.width(), image.height());
    Picture { image, width, height }
}

/// Relies on `DynamicImage::write_to` with `ImageFormat::Jpeg`: the image is turned
/// into a colour type the encoder takes, the encoder refuses only a side of 0 or
/// above 65535, writing into a `Vec` does not fail, and the output starts with the
/// start-of-image marker `FF D8` followed by the `FF E0` marker of the JFIF segment.
#[verifier::external_body]
fn encode_jpeg(p: &Picture) -> (r: Result<Vec<u8>, image::ImageError>)
    ensures
        r is Ok <==> (1 <= p.spec_width() && p.spec_width() <= 65535 && 1 <= p.spec_height()
            && p.spec_height() <= 65535),
        r matches Ok(b) ==> b@.len() >= 3 && b@[0] == 0xFFu8 && b@[1] == 0xD8u8 && b@[2] == 0xFFu8,
{
    let mut buf: Vec<u8> = Vec::new();
    p.image.write_to(&mut std::io::Cursor::new(&mut buf), image::ImageFormat::Jpeg).map(|_| buf)
}

/// Relies on `Display` for `ImageError`: a description of the failure.
#[verifier::external_body]
fn describe_image_error(e: &image::ImageError) -> (r: String) {
    e.to_string()
}

/// Whether bytes begin with the JPEG start-of-image marker and another marker.
pub open spec fn is_jpeg_start(b: Seq<u8>) -> bool {
    b.len() >= 3 && b[0] == 0xFFu8 && b[1] == 0xD8u8 && b[2] == 0xFFu8
}

/// A rendered thumbnail: JPEG bytes and the size of the image they encode.
pub struct Thumbnail {
    pub bytes: Vec<u8>,
    pub width: u32,
    pub height: u32,
}

/// Decodes an image, scales a wider one down to exactly `width` pixels wide keeping its
/// aspect ratio up to rounding (a narrower image is kept as it is) and encodes the
/// result as JPEG. Succeeds whenever the source decodes
/// to an image whose sides lie in 1..=65535; a failure to decode or encode is a
/// `BadRequest`.
pub fn render_thumbnail(source: &[u8], width: u32) -> (r: Result<Thumbnail, AppError>)
    requires
        width >= 1,
    ensures
        (decoded_size(source@) matches Some((w, h)) && 1 <= w <= 65535 && 1 <= h <= 65535) ==> r is Ok,
        r is Ok ==> decoded_size(source@) is Some,
        r matches Ok(t) ==> is_jpeg_start(t.bytes@) && 1 <= t.width <= width && 1 <= t.height,
        r matches Ok(t) ==> (decoded_size(source@) matches Some((w, h)) && (w <= width ==> t.width == w
            && t.height == h) && (w > width ==> t.height <= h || h == 0)),
        r matches Ok(t) ==> (decoded_size(source@) matches Some((w, h)) && (w > width ==> t.width == width
            && (t.height as int - 1) * (w as int) <= (h as int) * (width as int) && (h as int) * (
        width as int) <= (t.height as int + 1) * (w as int))),
        r matches Err(e) ==> e is BadRequest,
{
    let pic = match decode_image(source) {
        Ok(p) => p,
        Err(e) => {
            let mut msg = String::from_str("Failed to decode image: ");
            let d = describe_image_error(&e);
            msg.append(d.as_str());
            return Err(AppError::BadRequest(msg));
        },
    };
    let thumb = if pic.width > width {
        shrink_to_width(&pic, width)
    } else {
        pic
    };
    match encode_jpeg(&thumb) {
        Ok(bytes) => Ok(Thumbnail { bytes, width: thumb.width, height: thumb.height }),
        Err(e) => {
            let mut msg = String::from_str("Failed to encode thumbnail: ");
            let d = describe_image_error(&e);
            msg.append(d.as_str());
            Err(AppError::BadRequest(msg))
        },
    }
}

} // verus!
