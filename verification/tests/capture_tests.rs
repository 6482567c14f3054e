use testocr::capture::{
    capture_fits, capture_region, crop_bgra_region, encode_bmp, CAPTURE_HEIGHT, CAPTURE_WIDTH,
    CAPTURE_X, CAPTURE_Y,
};

#[test]
fn crop_swaps_channels_and_sets_alpha() {
    // A 3x2 frame, 4 bytes per pixel, rows 12 bytes apart: pixel (c, r) is [b, g, r, a].
    let mut frame = Vec::new();
    for r in 0..2u8 {
        for c in 0..3u8 {
            frame.extend([10 * r + c, 100 + c, 200 + r, 7]);
        }
    }
    let out = crop_bgra_region(&frame, 12, 1, 0, 2, 2);
    assert_eq!(
        out,
        vec![200, 101, 1, 255, 200, 102, 2, 255, 201, 101, 11, 255, 201, 102, 12, 255]
    );
}

#[test]
fn empty_region_is_empty() {
    assert_eq!(crop_bgra_region(&[], 0, 5, 5, 0, 3), Vec::<u8>::new());
}

#[test]
fn capture_of_a_full_screen_frame() {
    let width = 1920usize;
    let height = 1080usize;
    let mut frame = vec![0u8; width * height * 4];
    let p = (CAPTURE_Y * width + CAPTURE_X) * 4;
    frame[p] = 1;
    frame[p + 1] = 2;
    frame[p + 2] = 3;
    assert!(capture_fits(frame.len(), height));
    let out = capture_region(&frame, height);
    assert_eq!(out.len(), CAPTURE_WIDTH * CAPTURE_HEIGHT * 4);
    assert_eq!(&out[0..4], &[3, 2, 1, 255]);
    assert_eq!(&out[4..8], &[0, 0, 0, 255]);
}

#[test]
fn small_frames_are_refused() {
    assert!(!capture_fits(640 * 480 * 4, 480));
    assert!(!capture_fits(1920 * 1080 * 4, 0));
    assert!(!capture_fits(usize::MAX, 1));
}

#[test]
fn bmp_encoding_of_pixels() {
    let pixels = vec![1u8, 2, 3, 255, 4, 5, 6, 255];
    let bytes = encode_bmp(&pixels, 2, 1).unwrap();
    assert_eq!(&bytes[0..2], b"BM");
    assert_eq!(bytes.len(), 122 + pixels.len());
    let size = u32::from_le_bytes([bytes[2], bytes[3], bytes[4], bytes[5]]) as usize;
    assert_eq!(size, bytes.len());
}

#[test]
fn bmp_of_a_captured_region() {
    let pixels = vec![9u8; CAPTURE_WIDTH * CAPTURE_HEIGHT * 4];
    let bytes = encode_bmp(&pixels, CAPTURE_WIDTH as u32, CAPTURE_HEIGHT as u32).unwrap();
    assert_eq!(bytes.len(), 122 + CAPTURE_WIDTH * CAPTURE_HEIGHT * 4);
}

#[test]
fn oversized_bmp_is_refused() {
    assert!(encode_bmp(&vec![], 0x4000_0000, 0).is_err());
    assert!(encode_bmp(&vec![], 0, 0).is_ok());
}
