use skwd_paper::freeze::{bgra_ppm, rgb_ppm, rgba_ppm, FreezeError};

#[test]
fn freeze_frame_pixels() {
    assert_eq!(bgra_ppm(2, 1, 8, &[0, 0, 255, 0, 0, 255, 0, 0]), b"P6\n2 1\n255\n\xff\0\0\0\xff\0");
}

#[test]
fn ppm_atomic_row_padding() {
    let pixels = [255, 0, 0, 0, 255, 0, 9, 9, 9];
    let image = rgb_ppm(2, 1, &pixels, 9).unwrap();
    assert_eq!(image, b"P6\n2 1\n255\n\xff\0\0\0\xff\0");
}

#[test]
fn ppm_from_rgba() {
    let pixels = [255, 0, 0, 9, 0, 255, 0, 8];
    let image = rgba_ppm(2, 1, &pixels).unwrap();
    assert_eq!(image, b"P6\n2 1\n255\n\xff\0\0\0\xff\0");
}

#[test]
fn rgba_freeze_preserves_pixels_across_buffer_boundaries() {
    let pixels: Vec<u8> = (0..257 * 129).flat_map(|i| [i as u8, (i >> 8) as u8, 73, 19]).collect();
    let image = rgba_ppm(257, 129, &pixels).unwrap();
    let header = b"P6\n257 129\n255\n";
    assert_eq!(&image[..header.len()], header);
    let expected: Vec<u8> =
        pixels.chunks_exact(4).flat_map(|pixel| pixel[..3].iter().copied()).collect();
    assert_eq!(&image[header.len()..], expected.as_slice());
}

#[test]
fn truncated_rgba_freeze_publishes_nothing() {
    assert_eq!(rgba_ppm(2, 2, &[0; 15]), Err(FreezeError::Truncated));
}

#[test]
fn truncated_rgb_rows_are_refused() {
    assert_eq!(rgb_ppm(2, 2, &[0; 11], 6), Err(FreezeError::Truncated));
    assert_eq!(rgb_ppm(2, 1, &[0; 6], 5), Err(FreezeError::Truncated));
    assert_eq!(FreezeError::Truncated.message(), "freeze-frame payload is truncated");
}

#[test]
fn bgra_rows_skip_the_stride_padding() {
    let pixels = [1, 2, 3, 4, 0, 0, 0, 0, 5, 6, 7, 8, 0, 0, 0, 0];
    assert_eq!(bgra_ppm(1, 2, 8, &pixels), b"P6\n1 2\n255\n\x03\x02\x01\x07\x06\x05");
}
