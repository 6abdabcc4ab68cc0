use base64::Engine;
use pdfmerge::imageops::{
    build_data_url, convert_image, crop_image, get_image_format, greet, image_file_to_data_url,
    parse_data_url, resize_image, ImageError, ImageKind,
};

fn png_data_url() -> (String, Vec<u8>) {
    let img = image::DynamicImage::ImageRgba8(image::RgbaImage::from_fn(4, 2, |x, y| {
        image::Rgba([(x * 60) as u8, (y * 90) as u8, 200, 255])
    }));
    let mut buf = std::io::Cursor::new(Vec::new());
    img.write_to(&mut buf, image::ImageFormat::Png).unwrap();
    let bytes = buf.into_inner();
    let url = format!(
        "data:image/png;base64,{}",
        base64::engine::general_purpose::STANDARD.encode(&bytes)
    );
    (url, bytes)
}

fn decode_url(url: &str) -> Vec<u8> {
    let payload = url.split(',').nth(1).unwrap();
    base64::engine::general_purpose::STANDARD.decode(payload).unwrap()
}

#[test]
fn convert_to_unknown_format_is_refused() {
    let (url, _) = png_data_url();
    match convert_image(&url, "bogus") {
        Err(ImageError::UnsupportedFormat { name }) => assert_eq!(name, "bogus"),
        other => panic!("expected UnsupportedFormat, got {:?}", other.map(|_| ())),
    }
}

#[test]
fn convert_round_trip_is_lossless_for_png_and_bmp() {
    let (url, _) = png_data_url();
    let original = image::load_from_memory(&decode_url(&url)).unwrap().to_rgba8();
    for fmt in ["png", "bmp", "tiff"] {
        let out = convert_image(&url, fmt).expect(fmt);
        let back = image::load_from_memory(&decode_url(&out)).unwrap().to_rgba8();
        assert_eq!(back.dimensions(), original.dimensions());
        assert_eq!(back.into_raw(), original.clone().into_raw(), "{} not lossless", fmt);
    }
}

#[test]
fn convert_to_jpeg_keeps_dimensions() {
    let (url, _) = png_data_url();
    let out = convert_image(&url, "jpeg").expect("jpeg");
    assert!(out.starts_with("data:image/jpeg;base64,"));
    let back = image::load_from_memory(&decode_url(&out)).unwrap();
    assert_eq!(back.width(), 4);
    assert_eq!(back.height(), 2);
}

#[test]
fn convert_rejects_malformed_input() {
    match convert_image("no url here", "png") {
        Err(ImageError::DecodeError { .. }) => {},
        other => panic!("expected DecodeError, got {:?}", other.map(|_| ())),
    }
    match convert_image("data:image/png;base64,", "png") {
        Err(ImageError::DecodeError { .. }) => {},
        other => panic!("expected DecodeError, got {:?}", other.map(|_| ())),
    }
}

#[test]
fn crop_cuts_the_rectangle() {
    let (url, _) = png_data_url();
    let out = crop_image(&url, 1, 0, 2, 2).expect("crop");
    assert!(out.starts_with("data:image/png;base64,"));
    let back = image::load_from_memory(&decode_url(&out)).unwrap();
    assert_eq!(back.width(), 2);
    assert_eq!(back.height(), 2);
}

#[test]
fn crop_outside_the_image_is_refused() {
    let (url, _) = png_data_url();
    match crop_image(&url, 3, 0, 2, 2) {
        Err(ImageError::CropOutOfBounds) => {},
        other => panic!("expected CropOutOfBounds, got {:?}", other.map(|_| ())),
    }
}

#[test]
fn resize_to_an_unallocatable_size_is_refused() {
    let (url, _) = png_data_url();
    match resize_image(&url, u32::MAX, u32::MAX) {
        Err(ImageError::SaveError { .. }) => {},
        other => panic!("expected SaveError, got {:?}", other.map(|_| ())),
    }
}

#[test]
fn resize_changes_the_dimensions() {
    let (url, _) = png_data_url();
    let out = resize_image(&url, 8, 6).expect("resize");
    let back = image::load_from_memory(&decode_url(&out)).unwrap();
    assert_eq!(back.width(), 8);
    assert_eq!(back.height(), 6);
}

#[test]
fn format_table_matches_the_mime_types() {
    assert_eq!(get_image_format("image/png"), Some(ImageKind::Png));
    assert_eq!(get_image_format("image/jpeg"), Some(ImageKind::Jpeg));
    assert_eq!(get_image_format("image/vnd.microsoft.icon"), Some(ImageKind::Ico));
    assert_eq!(get_image_format("image/x-icon"), Some(ImageKind::Ico));
    assert_eq!(get_image_format("image/x-tga"), Some(ImageKind::Tga));
    assert_eq!(get_image_format("text/plain"), None);
}

#[test]
fn data_url_parse_and_build() {
    let parsed = parse_data_url(b"data:image/png;base64,QUJD").expect("parse");
    assert_eq!(parsed.0, b"image/png".to_vec());
    assert_eq!(parsed.1, b"QUJD".to_vec());
    assert!(parse_data_url(b"data:image/png;QUJD").is_none());
    assert!(parse_data_url(b"image/png;base64,QUJD").is_none());
    let built = build_data_url(&b"image/gif".to_vec(), &b"QQ==".to_vec());
    assert_eq!(built, b"data:image/gif;base64,QQ==".to_vec());
}

#[test]
fn file_bytes_become_a_data_url() {
    let out = image_file_to_data_url("photo.png", &vec![1, 2, 3]).expect("wrap");
    assert_eq!(out, format!("data:image/png;base64,{}",
        base64::engine::general_purpose::STANDARD.encode([1u8, 2, 3])));
    let unknown = image_file_to_data_url("mystery.zzz9", &vec![9]).expect("wrap");
    assert!(unknown.starts_with("data:application/octet-stream;base64,"));
}

#[test]
fn greet_names_the_caller() {
    assert_eq!(greet("World"), "Hello, World! You've been greeted from Rust!");
}
