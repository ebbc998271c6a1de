//! Frame analytics: luminance, histograms, dominance, brightness, scene
//! changes, the visual-activity proxy, and the bounded timeline.

use screen_recorder::AnalyticsPipeline;
use screen_recorder::Frame;
use screen_recorder::brightness_micro_of;
use screen_recorder::compute_histogram;
use screen_recorder::dominance_micro_of;
use screen_recorder::dominant_bucket;
use screen_recorder::luma_of;

fn frame(data: Vec<u8>, width: u32, height: u32, timestamp: u64) -> Frame {
    Frame { data, width, height, timestamp }
}

fn solid_frame(r: u8, g: u8, b: u8, pixels: usize, timestamp: u64) -> Frame {
    let mut data = Vec::new();
    for _ in 0..pixels {
        data.push(r);
        data.push(g);
        data.push(b);
    }
    frame(data, pixels as u32, 1, timestamp)
}

#[test]
fn luma_weighting_is_exact() {
    assert_eq!(luma_of(255, 0, 0), 76);
    assert_eq!(luma_of(0, 255, 0), 149);
    assert_eq!(luma_of(0, 0, 255), 29);
    assert_eq!(luma_of(255, 255, 255), 255);
    assert_eq!(luma_of(0, 0, 0), 0);
    assert_eq!(luma_of(100, 100, 100), 100);
}

#[test]
fn histogram_counts_pixels_by_luma() {
    // Two pixels: one black, one white.
    let data = vec![0, 0, 0, 255, 255, 255];
    let hist = compute_histogram(&data, 2, 1);
    assert_eq!(hist.len(), 256);
    assert_eq!(hist[0], 1);
    assert_eq!(hist[255], 1);
    assert_eq!(hist[128], 0);
}

#[test]
fn histogram_of_short_buffer_is_empty() {
    let data = vec![1, 2];
    let hist = compute_histogram(&data, 1, 1);
    assert!(hist.iter().all(|&c| c == 0));
}

#[test]
fn dominant_bucket_tie_goes_to_lowest_index() {
    // Equal counts in buckets 0 and 255: the lowest index wins.
    let data = vec![0, 0, 0, 255, 255, 255];
    let hist = compute_histogram(&data, 2, 1);
    assert_eq!(dominant_bucket(&hist), 0);
    assert_eq!(dominance_micro_of(&data, 2, 1), 0);
}

#[test]
fn dominance_of_white_frame_is_full_scale() {
    let data = vec![255, 255, 255];
    assert_eq!(dominance_micro_of(&data, 1, 1), 1_000_000);
}

#[test]
fn brightness_is_mean_luma_over_full_scale() {
    assert_eq!(brightness_micro_of(&vec![255, 255, 255], 1, 1), 1_000_000);
    assert_eq!(brightness_micro_of(&vec![0, 0, 0], 1, 1), 0);
    // One white and one black pixel: exactly half scale.
    assert_eq!(brightness_micro_of(&vec![255, 255, 255, 0, 0, 0], 2, 1), 500_000);
}

#[test]
fn oversized_buffer_reads_only_the_claimed_pixels() {
    // The buffer holds two pixels but the dimensions claim one: the white
    // first pixel alone decides, so the frame reads as full brightness.
    let data = vec![255, 255, 255, 0, 0, 0];
    assert_eq!(brightness_micro_of(&data, 1, 1), 1_000_000);
}

#[test]
fn processing_same_frame_twice_gives_identical_color_metrics() {
    let mut p = AnalyticsPipeline::new();
    let f = solid_frame(10, 20, 30, 4, 1_000);
    p.process_frame(&f);
    p.process_frame(&f);
    let timeline = p.get_timeline_data();
    assert_eq!(timeline.len(), 2);
    assert_eq!(timeline[0].color_dominance_micro, timeline[1].color_dominance_micro);
    assert_eq!(timeline[0].brightness_micro, timeline[1].brightness_micro);
}

#[test]
fn first_frame_is_never_a_scene_change() {
    let mut p = AnalyticsPipeline::new();
    p.process_frame(&solid_frame(200, 200, 200, 8, 0));
    assert!(!p.get_timeline_data()[0].scene_change);
}

#[test]
fn identical_consecutive_frames_are_no_scene_change() {
    let mut p = AnalyticsPipeline::new();
    p.process_frame(&solid_frame(9, 9, 9, 16, 0));
    p.process_frame(&solid_frame(9, 9, 9, 16, 1));
    let timeline = p.get_timeline_data();
    assert!(!timeline[1].scene_change);
}

#[test]
fn large_histogram_shift_is_a_scene_change() {
    // Ten black pixels, then ten white: the histogram distance is 20, far
    // above a tenth of the pixel count.
    let mut p = AnalyticsPipeline::new();
    p.process_frame(&solid_frame(0, 0, 0, 10, 0));
    p.process_frame(&solid_frame(255, 255, 255, 10, 1));
    let timeline = p.get_timeline_data();
    assert!(timeline[1].scene_change);
}

#[test]
fn audio_proxy_is_brightness_delta() {
    let mut p = AnalyticsPipeline::new();
    p.process_frame(&solid_frame(0, 0, 0, 4, 0));
    p.process_frame(&solid_frame(255, 255, 255, 4, 1));
    let timeline = p.get_timeline_data();
    assert_eq!(timeline[0].audio_level_micro, 0);
    assert_eq!(timeline[1].audio_level_micro, 1_000_000);
}

#[test]
fn timeline_keeps_exactly_the_last_thousand_entries() {
    let mut p = AnalyticsPipeline::new();
    for t in 0..1005u64 {
        p.process_frame(&solid_frame(1, 1, 1, 1, t));
    }
    let timeline = p.get_timeline_data();
    assert_eq!(timeline.len(), 1000);
    assert_eq!(timeline[0].time_ns, 5);
    assert_eq!(timeline[999].time_ns, 1004);
    for (k, e) in timeline.iter().enumerate() {
        assert_eq!(e.time_ns, 5 + k as u64);
    }
}

#[test]
fn malformed_frame_reads_as_dark() {
    let mut p = AnalyticsPipeline::new();
    // Buffer far too short for the claimed size.
    p.process_frame(&frame(vec![7, 7], 4, 4, 0));
    let e = p.get_timeline_data()[0];
    assert_eq!(e.color_dominance_micro, 0);
    assert_eq!(e.brightness_micro, 0);
    assert!(!e.scene_change);
}

#[test]
fn frame_well_formedness_checks_the_buffer_length() {
    let ok = frame(vec![0; 12], 2, 2, 0);
    assert!(ok.is_well_formed());
    let short = frame(vec![0; 11], 2, 2, 0);
    assert!(!short.is_well_formed());
    let long = frame(vec![0; 13], 2, 2, 0);
    assert!(!long.is_well_formed());
}

#[test]
fn dominant_bucket_tie_at_higher_indices_takes_the_lower() {
    // One pixel of luma 100 and one of luma 200: equal counts, 100 wins.
    let data = vec![100, 100, 100, 200, 200, 200];
    let hist = compute_histogram(&data, 2, 1);
    assert_eq!(dominant_bucket(&hist), 100);
}
