use base64::Engine;
use olifm::bitmap::{bmp_rgb24_top_down, encode_bmp_from_rgb_or_rgba};
use olifm::codec::{encode_blurhash_and_aspect, get_base64_from_blurhash};

fn le4(n: u32) -> [u8; 4] {
    n.to_le_bytes()
}

#[test]
fn bitmap_header_is_exact_for_two_by_two() {
    // 2x2 RGB24: row stride 8 (6 bytes of pixels + 2 padding).
    let rgb = vec![
        1u8, 2, 3, 4, 5, 6, // top row: two pixels
        7, 8, 9, 10, 11, 12, // bottom row
    ];
    let bmp = bmp_rgb24_top_down(&rgb, 2, 2);
    assert_eq!(bmp.len(), 70);
    assert_eq!(&bmp[0..2], b"BM");
    assert_eq!(&bmp[2..6], &le4(70)); // file size
    assert_eq!(&bmp[6..10], &[0, 0, 0, 0]); // reserved
    assert_eq!(&bmp[10..14], &le4(54)); // pixel-data offset
    assert_eq!(&bmp[14..18], &le4(40)); // info header size
    assert_eq!(&bmp[18..22], &le4(2)); // width
    assert_eq!(&bmp[22..26], &(-2i32).to_le_bytes()); // negative height
    assert_eq!(&bmp[26..28], &1u16.to_le_bytes()); // planes
    assert_eq!(&bmp[28..30], &24u16.to_le_bytes()); // bits per pixel
    assert_eq!(&bmp[30..34], &le4(0)); // compression
    assert_eq!(&bmp[34..38], &le4(16)); // pixel data size
    // Pixels are written blue, green, red, rows padded to 4 bytes; a
    // reader recovers the original values.
    assert_eq!(&bmp[54..62], &[3, 2, 1, 6, 5, 4, 0, 0]);
    assert_eq!(&bmp[62..70], &[9, 8, 7, 12, 11, 10, 0, 0]);
}

#[test]
fn bitmap_of_wrong_length_is_empty() {
    let buf = vec![0u8; 5];
    assert_eq!(bmp_rgb24_top_down(&buf, 2, 2, ).len(), 0);
    assert_eq!(encode_bmp_from_rgb_or_rgba(&buf, 2, 2), "");
    let buf7 = vec![0u8; 7];
    assert_eq!(encode_bmp_from_rgb_or_rgba(&buf7, 1, 2), "");
}

#[test]
fn rgb_buffer_encodes_to_base64_bitmap() {
    let rgb = vec![10u8, 20, 30, 40, 50, 60, 70, 80, 90, 100, 110, 120];
    let expected_bmp = bmp_rgb24_top_down(&rgb, 2, 2);
    let expected = base64::engine::general_purpose::STANDARD.encode(&expected_bmp);
    assert_eq!(encode_bmp_from_rgb_or_rgba(&rgb, 2, 2), expected);
    assert!(!expected.is_empty());
}

#[test]
fn rgba_buffer_drops_alpha_then_encodes() {
    let rgba = vec![
        10u8, 20, 30, 255, 40, 50, 60, 0, //
        70, 80, 90, 128, 100, 110, 120, 7,
    ];
    let rgb = vec![10u8, 20, 30, 40, 50, 60, 70, 80, 90, 100, 110, 120];
    assert_eq!(
        encode_bmp_from_rgb_or_rgba(&rgba, 2, 2),
        encode_bmp_from_rgb_or_rgba(&rgb, 2, 2)
    );
}

#[test]
fn blurhash_encode_gives_hash_and_aspect() {
    let rgba = vec![127u8; 4 * 4 * 3];
    let r = encode_blurhash_and_aspect(4, 3, &rgba);
    let (hash, aspect) = r.expect("encoding a valid buffer succeeds");
    assert_eq!(aspect, "4/3");
    assert!(!hash.is_empty());
    // The hash decodes back into a non-empty bitmap preview.
    let preview = get_base64_from_blurhash(&hash);
    assert!(!preview.is_empty());
    // The preview is the base64 bitmap of the decoded 64x64 pixels.
    let bytes = base64::engine::general_purpose::STANDARD
        .decode(&preview)
        .expect("preview is valid base64");
    assert_eq!(&bytes[0..2], b"BM");
    assert_eq!(&bytes[10..14], &le4(54));
}

#[test]
fn blurhash_encode_fails_on_zero_height() {
    let rgba: Vec<u8> = Vec::new();
    assert!(encode_blurhash_and_aspect(4, 0, &rgba).is_none());
}

#[test]
fn invalid_blurhash_decodes_to_empty_preview() {
    assert_eq!(get_base64_from_blurhash(""), "");
    assert_eq!(get_base64_from_blurhash("!!"), "");
}
