//! Verified core of a screen-recording pipeline: the recording-session state
//! machine, the per-frame analytics engine, the frame-rate and drop tracker,
//! and the sidecar metadata codec.

pub mod analytics;
pub mod capture;
pub mod encoder;
pub mod metadata;
pub mod observability;
pub mod session;
pub mod sysmon;
pub mod text;

pub use analytics::AnalyticsPipeline;
pub use analytics::HISTOGRAM_BUCKETS;
pub use analytics::MICRO_UNIT;
pub use analytics::TIMELINE_CAPACITY;
pub use analytics::brightness_micro_of;
pub use analytics::compute_histogram;
pub use analytics::dominance_micro_of;
pub use analytics::dominant_bucket;
pub use analytics::histogram_l1;
pub use analytics::luma_of;
pub use analytics::pixel_count;
pub use analytics::TimelineEntry;
pub use capture::CaptureError;
pub use capture::CaptureSource;
pub use capture::CaptureTrait;
pub use capture::Frame;
pub use capture::WindowsCapture;
pub use encoder::Encoder;
pub use encoder::FPS_SAMPLE_CAPACITY;
pub use encoder::NOMINAL_FRAME_INTERVAL_NS;
pub use encoder::EncoderMetrics;
pub use encoder::FpsCalculator;
pub use metadata::parse_sidecar;
pub use metadata::render_sidecar;
pub use metadata::sidecar_path;
pub use observability::Event;
pub use observability::EventLog;
pub use observability::record_event;
pub use session::CAPTURE_ERROR_SLEEP_MS;
pub use session::CaptureLoop;
pub use session::METRICS_EMIT_INTERVAL_NS;
pub use session::PAUSE_SLEEP_MS;
pub use session::POLL_IDLE_SLEEP_MS;
pub use session::STATUS_EMIT_INTERVAL_NS;
pub use session::merge_metrics;
pub use session::poll_directive;
pub use session::resolve_source;
pub use session::LoopDirective;
pub use session::MetricsEvent;
pub use session::RecordingState;
pub use session::RecordingStatus;
pub use session::SessionError;
pub use session::SessionManager;
pub use session::generate_output_path;
pub use sysmon::SystemMetrics;
pub use sysmon::SystemReport;
pub use sysmon::SystemSample;
pub use sysmon::compute_report;
