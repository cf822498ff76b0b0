use skwd_paper::stream::stream_frame_fits;
use skwd_paper::stream::{compose_stream_frame, copy_pixel, copy_scaled, render_stream_frame, StreamLayout};

#[test]
fn stream_frame_scaling_and_channel_order() {
    let source = [0, 0, 255, 0, 0, 255, 0, 0];
    let frame = compose_stream_frame(&source, 2, 1, 4, 1, StreamLayout::stretch(2, 1, 4, 1));
    assert_eq!(frame, [255, 0, 0, 255, 255, 0, 0, 255, 0, 255, 0, 255, 0, 255, 0, 255,]);
}

#[test]
fn stream_fit_letterboxes() {
    let source = [255, 0, 0, 0];
    let frame = compose_stream_frame(&source, 1, 1, 3, 1, StreamLayout::fit(1, 1, 3, 1, (1, 1)));
    assert_eq!(frame, [0, 0, 0, 255, 0, 0, 255, 255, 0, 0, 0, 255]);
}

#[test]
fn tiling_repeats_from_the_top_left() {
    let source = [10, 20, 30, 0, 40, 50, 60, 0];
    let frame = compose_stream_frame(&source, 2, 1, 3, 2, StreamLayout::Tile);
    assert_eq!(
        frame,
        [
            30, 20, 10, 255, 60, 50, 40, 255, 30, 20, 10, 255, //
            30, 20, 10, 255, 60, 50, 40, 255, 30, 20, 10, 255,
        ]
    );
}

#[test]
fn centering_keeps_source_pixels_unscaled() {
    let source = [1, 2, 3, 0];
    let frame = compose_stream_frame(&source, 1, 1, 3, 3, StreamLayout::center(1, 1, 3, 3));
    let mut expected = vec![0u8; 36];
    for pixel in expected.chunks_exact_mut(4) {
        pixel[3] = 255;
    }
    expected[16..20].copy_from_slice(&[3, 2, 1, 255]);
    assert_eq!(frame, expected);
}

#[test]
fn fill_layout_scales_the_crop() {
    let source = [0, 0, 9, 0, 0, 0, 7, 0];
    let frame = compose_stream_frame(&source, 2, 1, 2, 1, StreamLayout::fill((1, 0, 1, 1), 2, 1));
    assert_eq!(frame, [7, 0, 0, 255, 7, 0, 0, 255]);
}

#[test]
fn rendering_reuses_the_output_buffer() {
    let source = [0, 0, 255, 0];
    let mut output = vec![1u8; 3];
    render_stream_frame(&mut output, &source, 1, 1, 2, 1, StreamLayout::stretch(1, 1, 2, 1));
    assert_eq!(output, [255, 0, 0, 255, 255, 0, 0, 255]);
}

#[test]
fn one_pixel_swaps_blue_and_red() {
    let source = [1, 2, 3, 4];
    let mut output = [0u8; 4];
    copy_pixel(&source, 1, 0, 0, &mut output, 1, 0, 0);
    assert_eq!(output, [3, 2, 1, 255]);
}

#[test]
fn scaled_copy_samples_nearest_pixels() {
    let source = [1, 1, 1, 0, 2, 2, 2, 0];
    let mut output = [0u8; 16];
    copy_scaled(&source, 2, 1, (0, 0, 2, 1), &mut output, 4, 1, (0, 0, 4, 1));
    assert_eq!(output, [1, 1, 1, 255, 1, 1, 1, 255, 2, 2, 2, 255, 2, 2, 2, 255]);
}

#[test]
fn layouts_are_checked_against_source_and_output() {
    assert!(stream_frame_fits(StreamLayout::stretch(2, 1, 4, 1), 8, 2, 1, 4, 1));
    assert!(stream_frame_fits(StreamLayout::stretch(2, 1, 4, 1), 7, 2, 1, 4, 1));
    assert!(!stream_frame_fits(StreamLayout::stretch(2, 1, 4, 1), 6, 2, 1, 4, 1));
    assert!(!stream_frame_fits(StreamLayout::fill((1, 0, 2, 1), 4, 1), 8, 2, 1, 4, 1));
    assert!(stream_frame_fits(StreamLayout::Tile, 8, 2, 1, 3, 3));
    assert!(!stream_frame_fits(StreamLayout::Tile, 8, 0, 1, 3, 3));
}

#[test]
fn copy_scaled_reads_only_the_sampled_bytes() {
    // The last sampled pixel starts at byte 4; its alpha byte is absent.
    let source = [1, 2, 3, 4, 10, 20, 30];
    let mut output = vec![7u8; 16];
    copy_scaled(&source, 2, 1, (0, 0, 2, 1), &mut output, 4, 1, (0, 0, 4, 1));
    assert_eq!(output, vec![3, 2, 1, 255, 3, 2, 1, 255, 30, 20, 10, 255, 30, 20, 10, 255]);
}

#[test]
fn copy_scaled_target_may_end_inside_the_last_row() {
    // A 1x1 target at (0, 1) of a 2-wide output needs 12 bytes, not the whole second row.
    let source = [9, 8, 7, 0];
    let mut output = vec![0u8; 12];
    copy_scaled(&source, 1, 1, (0, 0, 1, 1), &mut output, 2, 2, (0, 1, 1, 1));
    assert_eq!(&output[8..12], &[7, 8, 9, 255]);
    assert_eq!(&output[0..8], &[0u8; 8]);
}

#[test]
fn copy_pixel_needs_three_source_bytes() {
    let source = [5, 6, 7];
    let mut output = vec![0u8; 8];
    copy_pixel(&source, 1, 0, 0, &mut output, 1, 1, 0);
    assert_eq!(output, vec![0, 0, 0, 0, 7, 6, 5, 255]);
}

#[test]
fn rendering_twice_into_different_buffers_gives_the_same_bytes() {
    let source = [0, 0, 255, 0, 0, 255, 0, 0];
    let layout = StreamLayout::stretch(2, 1, 4, 4);
    let mut first = vec![1u8; 3];
    let mut second = vec![200u8; 100];
    render_stream_frame(&mut first, &source, 2, 1, 4, 4, layout);
    render_stream_frame(&mut second, &source, 2, 1, 4, 4, layout);
    assert_eq!(first, second);
    assert_eq!(first.len(), 64);
}
