use golem_images::derived::{derive_thumbnail, parent_of, thumbnail_entity, THUMBNAIL_SIDE};
use golem_images::entity::StringAnnotation;
use golem_images::error::BlobError;
use golem_images::key::parse_key;
use std::io::Cursor;

const KEY: &str = "0x00112233445566778899aabbccddeeff00112233445566778899aabbccddeeff";

#[test]
fn key_text_round_trip() {
    let key = match parse_key(KEY) {
        Ok(k) => k,
        Err(_) => panic!("valid key"),
    };
    assert_eq!(key.bytes[1], 0x11);
    assert_eq!(key.bytes[15], 0xff);
    assert_eq!(key.to_text(), KEY);
}

#[test]
fn key_without_prefix_and_in_upper_case() {
    let key = match parse_key("00112233445566778899AABBCCDDEEFF00112233445566778899AABBCCDDEEFF") {
        Ok(k) => k,
        Err(_) => panic!("valid key"),
    };
    assert_eq!(key.to_text(), KEY);
}

#[test]
fn malformed_keys() {
    assert!(matches!(parse_key("0x1234"), Err(BlobError::MalformedKey)));
    assert!(matches!(parse_key(""), Err(BlobError::MalformedKey)));
    let bad = KEY.replace('f', "g");
    assert!(matches!(parse_key(&bad), Err(BlobError::MalformedKey)));
    let prefixed_twice = format!("0x{}", KEY);
    assert!(matches!(parse_key(&prefixed_twice), Err(BlobError::MalformedKey)));
}

#[test]
fn thumbnail_entity_annotations() {
    let e = thumbnail_entity(vec![1, 2], "0xroot", "cat.png", 100, 100);
    let get = |k: &str| e.string_annotations.iter().find(|a| a.key == k).map(|a| a.value.clone());
    assert_eq!(get("parent"), Some("0xroot".to_string()));
    assert_eq!(get("type"), Some("thumbnail".to_string()));
    assert_eq!(get("resize"), Some("100x100".to_string()));
    assert_eq!(get("filename"), Some("thumb_cat.png".to_string()));
    assert_eq!(get("mime-type"), Some("image/jpeg".to_string()));
    assert!(e.numeric_annotations.is_empty());
    assert_eq!(e.data, vec![1, 2]);
}

#[test]
fn thumbnail_of_garbage_fails() {
    assert!(matches!(
        derive_thumbnail(&vec![1, 2, 3], "0xroot", "x.png"),
        Err(BlobError::DerivedArtifactFailed)
    ));
}

#[test]
fn thumbnail_of_png_is_jpeg() {
    let img = image::RgbImage::from_pixel(300, 200, image::Rgb([10, 200, 30]));
    let mut png = Cursor::new(Vec::new());
    img.write_to(&mut png, image::ImageFormat::Png).unwrap();
    let png = png.into_inner();
    match derive_thumbnail(&png, "0xroot", "x.png") {
        Ok(e) => {
            assert_eq!(&e.data[..2], &[0xFF, 0xD8]);
            assert_ne!(e.data, png);
            let decoded = image::load_from_memory(&e.data).unwrap();
            assert_eq!(decoded.width(), THUMBNAIL_SIDE);
            assert_eq!(decoded.height(), THUMBNAIL_SIDE);
        }
        Err(_) => panic!("a PNG must give a thumbnail"),
    }
}

#[test]
fn parent_of_takes_the_first_parent_annotation() {
    let e = thumbnail_entity(vec![], "0xroot", "a.png", THUMBNAIL_SIDE, THUMBNAIL_SIDE);
    assert_eq!(parent_of(&e.string_annotations), Some("0xroot".to_string()));
    let strings = vec![
        StringAnnotation::new("type", "thumbnail"),
        StringAnnotation::new("parent", "0x1"),
        StringAnnotation::new("parent", "0x2"),
    ];
    assert_eq!(parent_of(&strings), Some("0x1".to_string()));
    assert_eq!(parent_of(&vec![StringAnnotation::new("type", "image")]), None);
}
