use media_catalog::fsmodel::FsModel;
use media_catalog::metadata::{mime_from_path, get_file_metadata, get_image_metadata, ImageMetadata, VideoMetadata};

/// A valid one-by-one pixel PNG.
fn tiny_png() -> Vec<u8> {
    vec![
        0x89, 0x50, 0x4E, 0x47, 0x0D, 0x0A, 0x1A, 0x0A, 0x00, 0x00, 0x00, 0x0D, 0x49, 0x48,
        0x44, 0x52, 0x00, 0x00, 0x00, 0x01, 0x00, 0x00, 0x00, 0x01, 0x08, 0x06, 0x00, 0x00,
        0x00, 0x1F, 0x15, 0xC4, 0x89, 0x00, 0x00, 0x00, 0x0D, 0x49, 0x44, 0x41, 0x54, 0x78,
        0x9C, 0x63, 0x10, 0x32, 0x09, 0xFB, 0x0F, 0x00, 0x02, 0x94, 0x01, 0x9C, 0x1D, 0x5B,
        0x46, 0x5F, 0x00, 0x00, 0x00, 0x00, 0x49, 0x45, 0x4E, 0x44, 0xAE, 0x42, 0x60, 0x82,
    ]
}

#[test]
fn mime_lookup_uses_the_extension() {
    assert_eq!(mime_from_path("a/b/cover.png"), "image/png");
    assert_eq!(mime_from_path("a/b/cover.PNG"), "image/png");
    assert_eq!(mime_from_path("movie.mp4"), "video/mp4");
    assert_eq!(mime_from_path("strange.zzzz"), "application/octet-stream");
    assert_eq!(mime_from_path("noextension"), "application/octet-stream");
}

#[test]
fn metadata_of_a_staged_image_has_dimensions() {
    let mut fs = FsModel::new();
    let png = tiny_png();
    let size = png.len() as u64;
    fs.save_file_to_directory("proj/tmp/r/f0/pic.png", png);
    let m = get_file_metadata(&fs, "proj/tmp/r/f0/pic.png").expect("file is staged");
    assert_eq!(m.content_type, "image/png");
    assert_eq!(m.original_name, "pic.png");
    assert_eq!(m.size, size);
    assert_eq!(m.image_data, Some(ImageMetadata { width: 1, height: 1 }));
    assert!(m.video_data.is_none());
}

#[test]
fn undecodable_image_bytes_yield_no_dimensions() {
    let mut fs = FsModel::new();
    fs.save_file_to_directory("proj/tmp/r/f0/fake.png", b"not an image".to_vec());
    let m = get_file_metadata(&fs, "proj/tmp/r/f0/fake.png").expect("file is staged");
    assert_eq!(m.content_type, "image/png");
    assert_eq!(m.image_data, None);
}

#[test]
fn non_image_files_skip_decoding() {
    let mut fs = FsModel::new();
    fs.save_file_to_directory("proj/tmp/r/f0/notes.txt", b"hello".to_vec());
    let m = get_file_metadata(&fs, "proj/tmp/r/f0/notes.txt").expect("file is staged");
    assert_eq!(m.content_type, "text/plain");
    assert_eq!(m.size, 5);
    assert_eq!(m.image_data, None);
}

#[test]
fn missing_file_is_the_one_metadata_error() {
    let fs = FsModel::new();
    assert!(get_file_metadata(&fs, "proj/none.png").is_none());
}

#[test]
fn image_bytes_decode_directly() {
    assert_eq!(get_image_metadata(&tiny_png()), Some(ImageMetadata { width: 1, height: 1 }));
    assert_eq!(get_image_metadata(&b"junk".to_vec()), None);
}

#[test]
fn metadata_defaults_are_zeroed() {
    let i = ImageMetadata::default();
    assert_eq!(i.width, 0);
    assert_eq!(i.height, 0);
    let v = VideoMetadata::default();
    assert_eq!(v.thumbnail, "");
    assert_eq!(v.width, 0);
    assert_eq!(v.height, 0);
}
