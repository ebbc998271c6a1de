//! The recording state machine, duration accounting, rate and drop tracking,
//! loop decisions, and the metrics merge.

use screen_recorder::CaptureError;
use screen_recorder::CaptureSource;
use screen_recorder::CaptureTrait;
use screen_recorder::CaptureLoop;
use screen_recorder::Encoder;
use screen_recorder::EventLog;
use screen_recorder::Frame;
use screen_recorder::FpsCalculator;
use screen_recorder::LoopDirective;
use screen_recorder::RecordingState;
use screen_recorder::SessionError;
use screen_recorder::SessionManager;
use screen_recorder::SystemMetrics;
use screen_recorder::SystemSample;
use screen_recorder::WindowsCapture;
use screen_recorder::compute_report;
use screen_recorder::generate_output_path;
use screen_recorder::merge_metrics;
use screen_recorder::poll_directive;
use screen_recorder::record_event;

const SEC: u64 = 1_000_000_000;

fn started(now: u64) -> SessionManager {
    let mut m = SessionManager::new();
    let r = m.start_recording(
        Some(String::from("primary")),
        None,
        String::from("/tmp/out.mkv"),
        now,
    );
    assert!(r.is_ok());
    m
}

#[test]
fn start_resolves_the_selector() {
    let mut m = SessionManager::new();
    match m.start_recording(Some(String::from("mon-1")), None, String::from("/v.mkv"), 0) {
        Ok(CaptureSource::Monitor(id)) => assert_eq!(id, "mon-1"),
        _ => panic!("expected a monitor source"),
    }
    let mut m2 = SessionManager::new();
    match m2.start_recording(None, Some(String::from("win-7")), String::from("/v.mkv"), 0) {
        Ok(CaptureSource::Window(id)) => assert_eq!(id, "win-7"),
        _ => panic!("expected a window source"),
    }
}

#[test]
fn start_rejects_ambiguous_and_missing_selectors() {
    let mut m = SessionManager::new();
    let r = m.start_recording(None, None, String::from("/v.mkv"), 0);
    assert_eq!(r.unwrap_err(), SessionError::InvalidSource);
    let r = m.start_recording(
        Some(String::from("a")),
        Some(String::from("b")),
        String::from("/v.mkv"),
        1,
    );
    assert_eq!(r.unwrap_err(), SessionError::InvalidSource);
}

#[test]
fn start_twice_is_already_recording() {
    let mut m = started(0);
    let r = m.start_recording(Some(String::from("x")), None, String::from("/w.mkv"), 1);
    assert_eq!(r.unwrap_err(), SessionError::AlreadyRecording);
}

#[test]
fn stop_returns_the_output_path_and_stop_twice_fails() {
    let mut m = started(0);
    assert_eq!(m.stop_recording(SEC).unwrap(), "/tmp/out.mkv");
    assert_eq!(m.stop_recording(2 * SEC).unwrap_err(), SessionError::NotRecording);
}

#[test]
fn pause_on_stopped_is_not_recording() {
    let mut m = SessionManager::new();
    assert_eq!(m.pause_recording(0).unwrap_err(), SessionError::NotRecording);
}

#[test]
fn pause_twice_returns_to_recording() {
    let mut m = started(0);
    assert!(m.pause_recording(SEC).is_ok());
    assert!(m.get_recording_status(SEC).is_paused);
    assert!(m.pause_recording(2 * SEC).is_ok());
    let st = m.get_recording_status(2 * SEC);
    assert!(st.is_recording);
    assert!(!st.is_paused);
}

#[test]
fn paused_time_does_not_advance_the_duration() {
    let mut m = started(0);
    assert_eq!(m.get_recording_status(3 * SEC).duration_ns, 3 * SEC);
    assert!(m.pause_recording(3 * SEC).is_ok());
    // Two seconds pass while paused: the reported duration stays frozen.
    assert_eq!(m.get_recording_status(4 * SEC).duration_ns, 3 * SEC);
    assert_eq!(m.get_recording_status(5 * SEC).duration_ns, 3 * SEC);
    assert!(m.pause_recording(5 * SEC).is_ok());
    assert_eq!(m.get_recording_status(5 * SEC).duration_ns, 3 * SEC);
    assert_eq!(m.get_recording_status(6 * SEC).duration_ns, 4 * SEC);
}

#[test]
fn fps_over_three_instants_is_ten() {
    let mut c = FpsCalculator::new();
    assert_eq!(c.add_frame(0), 0);
    assert_eq!(c.add_frame(100_000_000), 10_000);
    // 0 ms, 100 ms, 200 ms: two intervals over 0.2 s give 10.0 fps.
    assert_eq!(c.add_frame(200_000_000), 10_000);
}

#[test]
fn fps_window_is_bounded() {
    let mut c = FpsCalculator::new();
    let mut fps = 0;
    for k in 0..100u64 {
        fps = c.add_frame(k * 100_000_000);
    }
    // Only the 60 newest samples count: 59 intervals over 5.9 s.
    assert_eq!(fps, 10_000);
}

#[test]
fn a_gap_of_two_hundred_ms_drops_five_frames() {
    let f = Frame { data: vec![0, 0, 0], width: 1, height: 1, timestamp: 0 };
    let mut e = Encoder::new(String::from("/tmp/out.mkv"));
    e.initialize();
    e.encode_frame(&f, 0, 0);
    e.encode_frame(&f, 200_000_000, 200_000_000);
    let m = e.get_metrics();
    assert_eq!(m.dropped_frames, 5);
    e.finalize();
}

#[test]
fn small_gaps_drop_nothing() {
    let f = Frame { data: vec![0, 0, 0], width: 1, height: 1, timestamp: 0 };
    let mut e = Encoder::new(String::from("/tmp/out.mkv"));
    e.encode_frame(&f, 0, 0);
    e.encode_frame(&f, 33_000_000, 33_000_000);
    e.encode_frame(&f, 66_000_000, 66_000_000);
    assert_eq!(e.get_metrics().dropped_frames, 0);
}

#[test]
fn encode_latency_and_rate_are_derived() {
    let f = Frame { data: vec![0, 0, 0], width: 1, height: 1, timestamp: 0 };
    let mut e = Encoder::new(String::from("/tmp/out.mkv"));
    // One frame that took 2 ms to encode.
    e.encode_frame(&f, 0, 2_000_000);
    let m = e.get_metrics();
    assert_eq!(m.encode_latency_milli_ms, 2_000);
    assert_eq!(m.encode_fps_milli, 500_000);
}

#[test]
fn loop_directive_follows_the_state() {
    assert_eq!(poll_directive(RecordingState::Stopped), LoopDirective::Exit);
    assert_eq!(poll_directive(RecordingState::Paused), LoopDirective::SleepPaused);
    assert_eq!(poll_directive(RecordingState::Recording), LoopDirective::CaptureFrame);
}

#[test]
fn emission_throttles_fire_at_their_intervals() {
    let mut l = CaptureLoop::new(0);
    assert!(!l.metrics_due(1_000_000_000));
    assert!(l.metrics_due(1_000_000_001));
    assert!(!l.metrics_due(1_500_000_000));
    assert!(!l.status_due(500_000_000));
    assert!(l.status_due(500_000_001));
    assert!(!l.status_due(900_000_000));
    l.note_frame();
    assert_eq!(l.frame_count(), 1);
}

#[test]
fn merged_metrics_carry_both_sides() {
    let f = Frame { data: vec![0, 0, 0], width: 1, height: 1, timestamp: 0 };
    let mut e = Encoder::new(String::from("/tmp/out.mkv"));
    e.encode_frame(&f, 0, 1_000_000);
    let ev = merge_metrics(e.get_metrics(), 4321, 512_000);
    assert_eq!(ev.encode_latency_milli_ms, 1_000);
    assert_eq!(ev.cpu_usage_centi_percent, 4321);
    assert_eq!(ev.memory_usage_mb_milli, 512_000);
    assert_eq!(ev.dropped_frames, 0);
}

#[test]
fn cpu_is_clamped_and_process_figures_win() {
    let s = SystemSample {
        process_cpu_centi: 25_000,
        process_memory_bytes: 1_048_576,
        process_found: true,
        global_cpu_centi_total: 100,
        cpu_count: 2,
        used_memory_bytes: 999,
    };
    let r = compute_report(&s);
    assert_eq!(r.cpu_usage_centi_percent, 10_000);
    assert_eq!(r.memory_usage_mb_milli, 1_000);
}

#[test]
fn sampler_falls_back_to_the_system_aggregate() {
    let s = SystemSample {
        process_cpu_centi: 0,
        process_memory_bytes: 0,
        process_found: false,
        global_cpu_centi_total: 3_000,
        cpu_count: 4,
        used_memory_bytes: 2 * 1_048_576,
    };
    let r = compute_report(&s);
    assert_eq!(r.cpu_usage_centi_percent, 750);
    assert_eq!(r.memory_usage_mb_milli, 2_000);
}

#[test]
fn sampler_refreshes_at_most_twice_a_second() {
    let mut s = SystemMetrics::new(0);
    assert!(!s.refresh_due(500_000_000));
    assert!(s.refresh_due(500_000_001));
    s.mark_refreshed(600_000_000);
    assert!(!s.refresh_due(900_000_000));
}

#[test]
fn capture_backend_rejects_polls_before_initialization() {
    let mut c = WindowsCapture::new(CaptureSource::Monitor(String::from("primary")));
    assert_eq!(c.capture_frame().unwrap_err(), CaptureError::NotInitialized);
    assert!(c.initialize().is_ok());
    assert!(c.capture_frame().unwrap().is_none());
    assert!(c.stop().is_ok());
    assert_eq!(c.capture_frame().unwrap_err(), CaptureError::NotInitialized);
}

#[test]
fn output_path_is_timestamp_derived() {
    let p = generate_output_path("/home/u/Videos", 2025, 1, 2, 3, 4, 5);
    assert_eq!(p, "/home/u/Videos/ScreenRecordings/recording_20250102_030405.mkv");
}

#[test]
fn events_are_recorded_in_order() {
    let mut log = EventLog::new();
    record_event(&mut log, "recording_started", Vec::new());
    record_event(
        &mut log,
        "recording_stopped",
        vec![(String::from("path"), String::from("/v.mkv"))],
    );
    assert_eq!(log.events.len(), 2);
    assert_eq!(log.events[0].name, "recording_started");
    assert_eq!(log.events[1].name, "recording_stopped");
    assert_eq!(log.events[1].attributes[0].1, "/v.mkv");
}

#[test]
fn equal_instants_give_a_zero_rate() {
    let mut c = FpsCalculator::new();
    assert_eq!(c.add_frame(5), 0);
    assert_eq!(c.add_frame(5), 0);
}

#[test]
fn stop_works_from_paused() {
    let mut m = started(0);
    assert!(m.pause_recording(SEC).is_ok());
    assert_eq!(m.stop_recording(2 * SEC).unwrap(), "/tmp/out.mkv");
    let st = m.get_recording_status(3 * SEC);
    assert!(!st.is_recording);
    assert!(!st.is_paused);
    assert_eq!(st.duration_ns, 0);
}

#[test]
fn a_new_session_can_start_after_stop() {
    let mut m = started(0);
    assert!(m.stop_recording(SEC).is_ok());
    let r = m.start_recording(Some(String::from("primary")), None, String::from("/b.mkv"), 2 * SEC);
    assert!(r.is_ok());
    assert_eq!(m.get_recording_status(3 * SEC).duration_ns, SEC);
    assert_eq!(m.stop_recording(4 * SEC).unwrap(), "/b.mkv");
}
