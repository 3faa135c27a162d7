use batch_crop::errors::CropError;
use batch_crop::format::{get_image_format, ImageFormat};

#[test]
fn common_extensions_are_recognized() {
    assert_eq!(get_image_format(b"photo.jpg"), Ok(ImageFormat::Jpeg));
    assert_eq!(get_image_format(b"photo.jpeg"), Ok(ImageFormat::Jpeg));
    assert_eq!(get_image_format(b"photo.png"), Ok(ImageFormat::Png));
    assert_eq!(get_image_format(b"anim.gif"), Ok(ImageFormat::Gif));
    assert_eq!(get_image_format(b"pic.webp"), Ok(ImageFormat::WebP));
    assert_eq!(get_image_format(b"scan.tif"), Ok(ImageFormat::Tiff));
    assert_eq!(get_image_format(b"scan.tiff"), Ok(ImageFormat::Tiff));
    assert_eq!(get_image_format(b"tex.tga"), Ok(ImageFormat::Tga));
    assert_eq!(get_image_format(b"icon.bmp"), Ok(ImageFormat::Bmp));
    assert_eq!(get_image_format(b"fav.ico"), Ok(ImageFormat::Ico));
    assert_eq!(get_image_format(b"light.hdr"), Ok(ImageFormat::Hdr));
    assert_eq!(get_image_format(b"gray.pgm"), Ok(ImageFormat::Pnm));
    assert_eq!(get_image_format(b"bits.pbm"), Ok(ImageFormat::Pnm));
    assert_eq!(get_image_format(b"color.ppm"), Ok(ImageFormat::Pnm));
    assert_eq!(get_image_format(b"any.pam"), Ok(ImageFormat::Pnm));
}

#[test]
fn extension_match_ignores_ascii_case() {
    assert_eq!(get_image_format(b"photo.PNG"), Ok(ImageFormat::Png));
    assert_eq!(get_image_format(b"photo.JpEg"), Ok(ImageFormat::Jpeg));
    assert_eq!(get_image_format(b"scan.TIFF"), Ok(ImageFormat::Tiff));
}

#[test]
fn extension_comes_from_file_name_only() {
    assert_eq!(get_image_format(b"a/b/c/img.png"), Ok(ImageFormat::Png));
    // A dot in a directory name is not an extension.
    assert_eq!(get_image_format(b"dir.png/file"), Err(CropError::DecodeFailure));
    // The last dot of the file name decides.
    assert_eq!(get_image_format(b"archive.tar.png"), Ok(ImageFormat::Png));
}

#[test]
fn unsupported_or_missing_extension_is_rejected() {
    assert_eq!(get_image_format(b"notes.txt"), Err(CropError::DecodeFailure));
    assert_eq!(get_image_format(b"noextension"), Err(CropError::DecodeFailure));
    assert_eq!(get_image_format(b""), Err(CropError::DecodeFailure));
    // A leading dot alone names a hidden file, not an extension.
    assert_eq!(get_image_format(b".png"), Err(CropError::DecodeFailure));
    assert_eq!(get_image_format(b"dir/.png"), Err(CropError::DecodeFailure));
    // A trailing dot leaves an empty extension.
    assert_eq!(get_image_format(b"file."), Err(CropError::DecodeFailure));
}
