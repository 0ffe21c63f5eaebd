//! Media metadata extraction.
//!
//! Given a staged file, the extractor reports its MIME type (a table
//! lookup on the extension), its original name, its byte size, and — for
//! images — the pixel dimensions the bytes decode to.  A decode failure
//! yields "no image metadata", never an error; a missing file is an error,
//! since the extractor is only ever pointed at files the caller staged.

use vstd::prelude::*;
use image::GenericImageView;
use crate::fsmodel::FsModel;
use crate::paths::{last_segment_of, get_file_name};
use crate::text::str_starts_with;
use crate::text::is_prefix_of;

verus! {

/// Everything the catalog stores about one media file.
#[derive(Debug, Clone)]
pub struct FileMetadata {
    pub content_type: String,
    pub original_name: String,
    pub size: u64,
    pub image_data: Option<ImageMetadata>,
    pub video_data: Option<VideoMetadata>,
}

/// Pixel dimensions of a decoded image.
#[derive(Debug, Clone, Copy, PartialEq, Eq, Structural)]
pub struct ImageMetadata {
    pub width: u32,
    pub height: u32,
}

impl ImageMetadata {
    /// The zero dimensions used when no image could be decoded.
    pub fn default() -> (r: Self)
        ensures
            r.width == 0,
            r.height == 0,
    {
        ImageMetadata { width: 0, height: 0 }
    }
}

/// Video metadata; thumbnailing is not implemented, so only the shape
/// exists.
#[derive(Debug, Clone)]
pub struct VideoMetadata {
    pub thumbnail: String,
    pub width: u32,
    pub height: u32,
}

impl VideoMetadata {
    /// The empty video metadata.
    pub fn default() -> (r: Self)
        ensures
            r.thumbnail@.len() == 0,
            r.width == 0,
            r.height == 0,
    {
        VideoMetadata { thumbnail: String::new(), width: 0, height: 0 }
    }
}

/// The MIME type the extension table assigns to a path.
pub uninterp spec fn mime_of(path: Seq<char>) -> Seq<char>;

/// Relies on `mime_guess::from_path` and
/// `MimeGuess::first_or_octet_stream`: a static table lookup on the
/// path's extension, case-insensitive, falling back to
/// `application/octet-stream` — a function of the path characters alone,
/// with no disk access.
#[verifier::external_body]
pub fn mime_from_path(path: &str) -> (r: String)
    ensures
        r@ == mime_of(path@),
{
    mime_guess::from_path(path).first_or_octet_stream().to_string()
}

/// The pixel dimensions the bytes decode to, when they are an image.
pub uninterp spec fn image_dims_of(bytes: Seq<u8>) -> Option<(u32, u32)>;

/// Relies on `image::load_from_memory` and
/// `GenericImageView::dimensions`: whether bytes decode as an image, and
/// at what pixel size, depend on the bytes alone.
#[verifier::external_body]
pub fn get_image_metadata(bytes: &Vec<u8>) -> (r: Option<ImageMetadata>)
    ensures
        r is Some <==> image_dims_of(bytes@) is Some,
        r matches Some(m) ==> image_dims_of(bytes@) == Some((m.width, m.height)),
{
    match image::load_from_memory(bytes) {
        Ok(img) => {
            let (width, height) = img.dimensions();
            Some(ImageMetadata { width, height })
        },
        Err(_) => None,
    }
}

/// What the extractor reports for the file at `path` in `fs`.
pub open spec fn metadata_spec_ok(fs: Map<Seq<char>, Seq<u8>>, path: Seq<char>, m: FileMetadata) -> bool {
    &&& m.content_type@ == mime_of(path)
    &&& m.original_name@ == last_segment_of(path, '/')
    &&& m.size == fs[path].len()
    &&& m.video_data is None
    &&& if is_prefix_of("image/"@, mime_of(path)) {
        match image_dims_of(fs[path]) {
            Some(d) => m.image_data matches Some(im) && im.width == d.0 && im.height == d.1,
            None => m.image_data is None,
        }
    } else {
        m.image_data is None
    }
}

/// Inspect the staged file at `file_path`: MIME type from the extension,
/// size from the stored bytes, pixel dimensions when the type says image
/// and the bytes decode.  A missing file is the one error.
pub fn get_file_metadata(fs: &FsModel, file_path: &str) -> (r: Option<FileMetadata>)
    requires
        fs.inv(),
    ensures
        r is Some <==> fs@.dom().contains(file_path@),
        r matches Some(m) ==> metadata_spec_ok(fs@, file_path@, m),
{
    let bytes = match fs.read_file(file_path) {
        Some(b) => b,
        None => {
            return None;
        },
    };
    let content_type = mime_from_path(file_path);
    let original_name = get_file_name(file_path);
    let size = bytes.len() as u64;
    let image_data = if str_starts_with(content_type.as_str(), "image/") {
        get_image_metadata(bytes)
    } else {
        None
    };
    Some(FileMetadata { content_type, original_name, size, image_data, video_data: None })
}

} // verus!
