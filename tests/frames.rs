use ring_frames::frame::{
    reports_progress, time_fraction, FrameBuffer, TimeFraction, FPS, FRAME_COUNT, SIZE,
};
use ring_frames::partition::{
    frames_per_worker, partition_frames, schedule, worker_budget, FrameRange,
};
use ring_frames::ppm::{frame_file_name, ppm_header, ppm_image, push_zero_padded};

fn pairs(ranges: &[FrameRange]) -> Vec<(usize, usize)> {
    ranges.iter().map(|r| (r.start, r.end)).collect()
}

fn assert_exact_cover(frame_count: usize, workers: usize) {
    let ranges = partition_frames(frame_count, workers);
    assert!(ranges.len() <= workers);
    let mut owners = vec![0usize; frame_count];
    let mut next = 0usize;
    for r in &ranges {
        assert!(r.start < r.end);
        assert_eq!(r.start, next);
        for f in r.start..r.end {
            owners[f] += 1;
        }
        next = r.end;
    }
    assert_eq!(next, frame_count);
    assert!(owners.iter().all(|&n| n == 1));
}

#[test]
fn sixty_frames_on_four_workers() {
    assert_eq!(frames_per_worker(60, 4), 15);
    let ranges = partition_frames(60, 4);
    assert_eq!(pairs(&ranges), vec![(0, 15), (15, 30), (30, 45), (45, 60)]);
}

#[test]
fn last_range_is_shorter() {
    assert_eq!(frames_per_worker(10, 3), 4);
    assert_eq!(pairs(&partition_frames(10, 3)), vec![(0, 4), (4, 8), (8, 10)]);
}

#[test]
fn ranges_past_the_end_are_not_scheduled() {
    assert_eq!(frames_per_worker(5, 4), 2);
    assert_eq!(pairs(&partition_frames(5, 4)), vec![(0, 2), (2, 4), (4, 5)]);
    assert_eq!(pairs(&partition_frames(9, 6)), vec![(0, 2), (2, 4), (4, 6), (6, 8), (8, 9)]);
}

#[test]
fn one_worker_takes_everything() {
    assert_eq!(pairs(&partition_frames(60, 1)), vec![(0, 60)]);
}

#[test]
fn no_frames_no_ranges() {
    assert_eq!(frames_per_worker(0, 3), 0);
    assert!(partition_frames(0, 3).is_empty());
}

#[test]
fn every_frame_is_rendered_exactly_once() {
    for frame_count in 0..40usize {
        for workers in 1..12usize {
            assert_exact_cover(frame_count, workers);
        }
    }
    assert_exact_cover(FRAME_COUNT, 7);
}

#[test]
fn ceiling_of_frames_per_worker() {
    assert_eq!(frames_per_worker(61, 4), 16);
    assert_eq!(frames_per_worker(1, 1), 1);
    assert_eq!(frames_per_worker(usize::MAX, 2), usize::MAX / 2 + 1);
    assert_eq!(frames_per_worker(usize::MAX, 1), usize::MAX);
}

#[test]
fn budget_is_bounded_by_frames_and_at_least_one() {
    assert_eq!(worker_budget(8, 60), 8);
    assert_eq!(worker_budget(16, 4), 4);
    assert_eq!(worker_budget(0, 5), 1);
    assert_eq!(worker_budget(3, 0), 1);
}

#[test]
fn schedule_uses_the_budget() {
    assert_eq!(pairs(&schedule(4, 60)), vec![(0, 15), (15, 30), (30, 45), (45, 60)]);
    assert_eq!(pairs(&schedule(64, 3)), vec![(0, 1), (1, 2), (2, 3)]);
}

#[test]
fn single_frame_run() {
    assert_eq!(worker_budget(12, 1), 1);
    assert_eq!(pairs(&schedule(12, 1)), vec![(0, 1)]);
    assert_eq!(time_fraction(0, 1), TimeFraction { num: 0, den: 1 });
    assert_eq!(frame_file_name(0), b"frames/frame_0000.ppm".to_vec());
}

#[test]
fn time_spans_the_whole_duration() {
    assert_eq!(time_fraction(0, 60), TimeFraction { num: 0, den: 59 });
    assert_eq!(time_fraction(30, 60), TimeFraction { num: 30, den: 59 });
    assert_eq!(time_fraction(59, 60), TimeFraction { num: 59, den: 59 });
    assert_eq!(time_fraction(3, 0), TimeFraction { num: 0, den: 1 });
}

#[test]
fn progress_every_tenth_frame() {
    assert!(reports_progress(0));
    assert!(reports_progress(10));
    assert!(reports_progress(50));
    assert!(!reports_progress(7));
    assert!(!reports_progress(59));
}

#[test]
fn header_bytes() {
    assert_eq!(ppm_header(SIZE), b"P6\n600 600\n255\n".to_vec());
    assert_eq!(ppm_header(0), b"P6\n0 0\n255\n".to_vec());
    assert_eq!(ppm_header(12), b"P6\n12 12\n255\n".to_vec());
}

#[test]
fn file_names_are_zero_padded() {
    assert_eq!(frame_file_name(7), b"frames/frame_0007.ppm".to_vec());
    assert_eq!(frame_file_name(42), b"frames/frame_0042.ppm".to_vec());
    assert_eq!(frame_file_name(9999), b"frames/frame_9999.ppm".to_vec());
    assert_eq!(frame_file_name(12345), b"frames/frame_12345.ppm".to_vec());
}

#[test]
fn zero_padding_appends() {
    let mut out = b"x".to_vec();
    push_zero_padded(&mut out, 5, 3);
    assert_eq!(out, b"x005".to_vec());
    push_zero_padded(&mut out, 1234, 2);
    assert_eq!(out, b"x0051234".to_vec());
}

#[test]
fn frame_buffer_has_three_bytes_per_pixel() {
    let frame = FrameBuffer::new(SIZE);
    assert_eq!(frame.len(), SIZE * SIZE * 3);
    assert_eq!(frame.as_bytes().len(), 1_080_000);
    assert!(frame.as_bytes().iter().all(|&b| b == 0));
}

#[test]
fn setting_pixels_keeps_the_length() {
    let mut frame = FrameBuffer::new(SIZE);
    frame.set_pixel(0, 0, 1, 2, 3);
    frame.set_pixel(SIZE - 1, SIZE - 1, 250, 251, 252);
    assert_eq!(frame.len(), SIZE * SIZE * 3);
    assert_eq!(frame.as_bytes()[0..3], [1, 2, 3]);
    let n = SIZE * SIZE * 3;
    assert_eq!(frame.as_bytes()[n - 3..n], [250, 251, 252]);
}

#[test]
fn pixels_are_row_major() {
    let mut frame = FrameBuffer::new(2);
    assert_eq!(frame.size(), 2);
    frame.set_pixel(1, 0, 10, 20, 30);
    frame.set_pixel(0, 1, 40, 50, 60);
    assert_eq!(
        frame.as_bytes().clone(),
        vec![0, 0, 0, 10, 20, 30, 40, 50, 60, 0, 0, 0]
    );
}

#[test]
fn image_is_header_then_pixels() {
    let mut frame = FrameBuffer::new(2);
    frame.set_pixel(1, 1, 255, 128, 7);
    let image = ppm_image(&frame);
    let mut expected = b"P6\n2 2\n255\n".to_vec();
    expected.extend_from_slice(&[0, 0, 0, 0, 0, 0, 0, 0, 0, 255, 128, 7]);
    assert_eq!(image, expected);
    let full = ppm_image(&FrameBuffer::new(SIZE));
    assert_eq!(full.len(), 15 + SIZE * SIZE * 3);
}

#[test]
fn playback_rate() {
    assert_eq!(FPS, 30);
    assert_eq!(FRAME_COUNT, 60);
}
