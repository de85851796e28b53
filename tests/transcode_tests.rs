use clipman::transcode::{
    create_thumbnail, decode_for_clipboard, image_to_bytes, process_full_image, thumbnail_dimensions,
    PixelBuffer, RAW_FALLBACK_LIMIT,
};

fn picture(width: usize, height: usize) -> PixelBuffer {
    let mut bytes = Vec::with_capacity(width * height * 4);
    for y in 0..height {
        for x in 0..width {
            bytes.extend_from_slice(&[(x % 256) as u8, (y % 256) as u8, 128, 255]);
        }
    }
    PixelBuffer { width, height, bytes }
}

#[test]
fn wide_picture_thumbnail_size() {
    assert_eq!(thumbnail_dimensions(4000, 2000, 256), (256, 128));
    assert_eq!(thumbnail_dimensions(2000, 4000, 256), (128, 256));
    assert_eq!(thumbnail_dimensions(300, 299, 256), (256, 255));
    assert_eq!(thumbnail_dimensions(10000, 1, 256), (256, 1));
    assert_eq!(thumbnail_dimensions(5000, 3000, 2048), (2048, 1229));
}

#[test]
fn thumbnail_keeps_aspect_ratio() {
    let png = image_to_bytes(&picture(800, 400));
    let thumb = create_thumbnail(&png);
    let (w, h, px) = decode_for_clipboard(&thumb).unwrap();
    assert_eq!((w, h), (256, 128));
    assert_eq!(px.len(), 256 * 128 * 4);
}

#[test]
fn canonical_encoding_is_png() {
    let png = image_to_bytes(&picture(3, 2));
    assert_eq!(&png[..8], &[0x89, b'P', b'N', b'G', 0x0d, 0x0a, 0x1a, 0x0a]);
    let (w, h, px) = decode_for_clipboard(&png).unwrap();
    assert_eq!((w, h), (3, 2));
    assert_eq!(px, picture(3, 2).bytes);
}

#[test]
fn short_pixel_buffer_keeps_raw_bytes() {
    let raw = PixelBuffer { width: 10, height: 10, bytes: vec![1, 2, 3] };
    assert_eq!(image_to_bytes(&raw), vec![1, 2, 3]);
}

#[test]
fn undecodable_bytes_fall_back() {
    assert_eq!(create_thumbnail(&b"garbage".to_vec()), b"garbage".to_vec());
    assert_eq!(process_full_image(&b"garbage".to_vec()), b"garbage".to_vec());
    let big = vec![7u8; RAW_FALLBACK_LIMIT + 10];
    assert_eq!(create_thumbnail(&big).len(), RAW_FALLBACK_LIMIT);
}

#[test]
fn full_quality_keeps_small_pictures() {
    let png = image_to_bytes(&picture(40, 30));
    let full = process_full_image(&png);
    let (w, h, px) = decode_for_clipboard(&full).unwrap();
    assert_eq!((w, h), (40, 30));
    assert_eq!(px, picture(40, 30).bytes);
}

#[test]
fn full_quality_scales_large_pictures() {
    let png = image_to_bytes(&picture(2100, 100));
    let full = process_full_image(&png);
    let (w, h, _) = decode_for_clipboard(&full).unwrap();
    assert_eq!((w, h), (2048, 98));
}
