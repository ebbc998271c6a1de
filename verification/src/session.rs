//! The recording-session state machine: lifecycle transitions under explicit
//! instants, paused-time accounting, the derived status report, and the
//! decisions the background capture loop takes each iteration.

use vstd::prelude::*;
use crate::capture::CaptureSource;
use crate::encoder::EncoderMetrics;
use crate::text::append_dec_fixed_u64;
use crate::text::spec_dec_fixed;

verus! {

/// Lifecycle of a recording. Valid transitions: Stopped to Recording (start),
/// Recording to Stopped and Paused to Stopped (stop), and Recording and
/// Paused toggling (pause).
#[derive(Clone, Copy, PartialEq, Eq, Structural, Debug)]
pub enum RecordingState {
    Stopped,
    Recording,
    Paused,
}

/// Caller-facing failures of session operations.
#[derive(Clone, Copy, PartialEq, Eq, Structural, Debug)]
pub enum SessionError {
    /// `start` while a session is live.
    AlreadyRecording,
    /// `stop` or `pause` while no session is live.
    NotRecording,
    /// A capture-source selector naming zero or both of monitor and window.
    InvalidSource,
    /// No output directory could be resolved.
    IoSetupFailure,
}

/// How long the loop sleeps between polls while paused, in milliseconds.
pub const PAUSE_SLEEP_MS: u64 = 100;

/// How long the loop sleeps when no frame is available, in milliseconds.
pub const POLL_IDLE_SLEEP_MS: u64 = 16;

/// How long the loop sleeps after a transient capture error, in milliseconds.
pub const CAPTURE_ERROR_SLEEP_MS: u64 = 100;

/// Minimum spacing of metrics events, in nanoseconds (once per second).
pub const METRICS_EMIT_INTERVAL_NS: u64 = 1_000_000_000;

/// Minimum spacing of status events, in nanoseconds (twice per second).
pub const STATUS_EMIT_INTERVAL_NS: u64 = 500_000_000;

/// Mathematical state of a session manager.
#[verifier::ext_equal]
pub struct SessionModel {
    pub state: RecordingState,
    pub start_time_ns: u64,
    pub paused_duration_ns: u64,
    pub pause_start_ns: u64,
    pub last_event_ns: u64,
    pub output_path: Option<Seq<char>>,
}

/// Internal consistency of the session bookkeeping: instants never run ahead
/// of the last operation, paused time fits inside the elapsed time, and a
/// live session has an output path.
pub open spec fn model_wf(m: SessionModel) -> bool {
    &&& (m.state is Recording ==> m.start_time_ns + m.paused_duration_ns <= m.last_event_ns
        && m.output_path is Some)
    &&& (m.state is Paused ==> m.start_time_ns + m.paused_duration_ns <= m.pause_start_ns
        && m.pause_start_ns <= m.last_event_ns && m.output_path is Some)
}

/// The `start` transition: rejected while a session is live or when the
/// selector names zero or both sources; otherwise the session begins now with
/// no paused time and the given output path.
pub open spec fn spec_start(
    m: SessionModel,
    has_monitor: bool,
    has_window: bool,
    path: Seq<char>,
    now: u64,
) -> (SessionModel, Result<(), SessionError>) {
    if !(m.state is Stopped) {
        (m, Result::Err(SessionError::AlreadyRecording))
    } else if has_monitor == has_window {
        (m, Result::Err(SessionError::InvalidSource))
    } else {
        (
            SessionModel {
                state: RecordingState::Recording,
                start_time_ns: now,
                paused_duration_ns: 0,
                pause_start_ns: 0,
                last_event_ns: now,
                output_path: Option::Some(path),
            },
            Result::Ok(()),
        )
    }
}

/// The `stop` transition: rejected while no session is live; otherwise the
/// session ends, its bookkeeping is cleared, and the output path is handed
/// back.
pub open spec fn spec_stop(m: SessionModel, now: u64) -> (
    SessionModel,
    Result<Seq<char>, SessionError>,
) {
    if m.state is Stopped {
        (m, Result::Err(SessionError::NotRecording))
    } else {
        (
            SessionModel {
                state: RecordingState::Stopped,
                start_time_ns: 0,
                paused_duration_ns: 0,
                pause_start_ns: 0,
                last_event_ns: now,
                output_path: Option::None,
            },
            Result::Ok(m.output_path.unwrap()),
        )
    }
}

/// The `pause` transition: rejected while no session is live; otherwise it
/// toggles. Entering Paused records the pause instant; leaving it adds the
/// pause's length to the accumulated paused time.
pub open spec fn spec_pause(m: SessionModel, now: u64) -> (
    SessionModel,
    Result<(), SessionError>,
) {
    match m.state {
        RecordingState::Stopped => (m, Result::Err(SessionError::NotRecording)),
        RecordingState::Recording => (
            SessionModel { state: RecordingState::Paused, pause_start_ns: now, last_event_ns: now, ..m },
            Result::Ok(()),
        ),
        RecordingState::Paused => (
            SessionModel {
                state: RecordingState::Recording,
                paused_duration_ns: (m.paused_duration_ns + (now - m.pause_start_ns)) as u64,
                last_event_ns: now,
                ..m
            },
            Result::Ok(()),
        ),
    }
}

/// The reported duration: elapsed wall time since start minus accumulated
/// paused time; while paused, the clock reads as of the pause instant, so
/// paused time never counts.
pub open spec fn spec_duration_ns(m: SessionModel, now: u64) -> int {
    match m.state {
        RecordingState::Stopped => 0,
        RecordingState::Recording => now - m.start_time_ns - m.paused_duration_ns,
        RecordingState::Paused => m.pause_start_ns - m.start_time_ns - m.paused_duration_ns,
    }
}

/// One status report: the flags and the paused-time-corrected duration.
#[derive(Clone, Copy, PartialEq, Eq, Structural, Debug)]
pub struct RecordingStatus {
    pub is_recording: bool,
    pub is_paused: bool,
    pub duration_ns: u64,
}

/// Owns the recording lifecycle: the state shared between the caller and the
/// capture loop, with paused-time accounting and the output path of the live
/// session.
pub struct SessionManager {
    state: RecordingState,
    start_time_ns: u64,
    paused_duration_ns: u64,
    pause_start_ns: u64,
    last_event_ns: u64,
    output_path: Option<String>,
}

impl View for SessionManager {
    type V = SessionModel;

    closed spec fn view(&self) -> SessionModel {
        SessionModel {
            state: self.state,
            start_time_ns: self.start_time_ns,
            paused_duration_ns: self.paused_duration_ns,
            pause_start_ns: self.pause_start_ns,
            last_event_ns: self.last_event_ns,
            output_path: match self.output_path {
                Option::Some(p) => Option::Some(p@),
                Option::None => Option::None,
            },
        }
    }
}

/// Picks the capture source a selector names: exactly one of monitor or
/// window must be given.
pub fn resolve_source(monitor_id: Option<String>, window_id: Option<String>) -> (r: Result<
    CaptureSource,
    SessionError,
>)
    ensures
        match r {
            Result::Ok(src) => match src {
                CaptureSource::Monitor(m) => {
                    &&& monitor_id matches Option::Some(x) && m == x
                    &&& window_id is None
                },
                CaptureSource::Window(w) => {
                    &&& window_id matches Option::Some(y) && w == y
                    &&& monitor_id is None
                },
            },
            Result::Err(e) => {
                &&& e == SessionError::InvalidSource
                &&& (monitor_id is Some) == (window_id is Some)
            },
        },
{
    match (monitor_id, window_id) {
        (Option::Some(m), Option::None) => Result::Ok(CaptureSource::Monitor(m)),
        (Option::None, Option::Some(w)) => Result::Ok(CaptureSource::Window(w)),
        _ => Result::Err(SessionError::InvalidSource),
    }
}

impl SessionManager {
    /// A fresh manager with no live session.
    pub fn new() -> (s: SessionManager)
        ensures
            s@.state is Stopped,
            s@.output_path is None,
            s@.last_event_ns == 0,
            model_wf(s@),
    {
        SessionManager {
            state: RecordingState::Stopped,
            start_time_ns: 0,
            paused_duration_ns: 0,
            pause_start_ns: 0,
            last_event_ns: 0,
            output_path: Option::None,
        }
    }

    /// Begins a recording: the selector must name exactly one source and no
    /// session may be live. On success the returned source tells the caller
    /// what to capture, and the session starts now with the given output path.
    pub fn start_recording(
        &mut self,
        monitor_id: Option<String>,
        window_id: Option<String>,
        output_path: String,
        now_ns: u64,
    ) -> (r: Result<CaptureSource, SessionError>)
        requires
            model_wf(old(self)@),
            now_ns >= old(self)@.last_event_ns,
        ensures
            model_wf(final(self)@),
            final(self)@ == spec_start(
                old(self)@,
                monitor_id is Some,
                window_id is Some,
                output_path@,
                now_ns,
            ).0,
            (r is Ok) == (spec_start(
                old(self)@,
                monitor_id is Some,
                window_id is Some,
                output_path@,
                now_ns,
            ).1 is Ok),
            (spec_start(
                old(self)@,
                monitor_id is Some,
                window_id is Some,
                output_path@,
                now_ns,
            ).1 matches Result::Err(e) ==> r == Result::<CaptureSource, SessionError>::Err(e)),
            (r matches Result::Ok(src) ==> match src {
                CaptureSource::Monitor(m) => monitor_id matches Option::Some(x) && m == x,
                CaptureSource::Window(w) => window_id matches Option::Some(y) && w == y,
            }),
    {
        if !matches!(self.state, RecordingState::Stopped) {
            return Result::Err(SessionError::AlreadyRecording);
        }
        let has_monitor = monitor_id.is_some();
        let has_window = window_id.is_some();
        if has_monitor == has_window {
            return Result::Err(SessionError::InvalidSource);
        }
        let source = match resolve_source(monitor_id, window_id) {
            Result::Ok(src) => src,
            Result::Err(e) => {
                return Result::Err(e);
            },
        };
        self.state = RecordingState::Recording;
        self.start_time_ns = now_ns;
        self.paused_duration_ns = 0;
        self.pause_start_ns = 0;
        self.last_event_ns = now_ns;
        self.output_path = Option::Some(output_path);
        Result::Ok(source)
    }

    /// Ends the live session and hands back its output path; fails with
    /// NotRecording when no session is live. The caller must join the capture
    /// loop before releasing the capture and encoder handles.
    pub fn stop_recording(&mut self, now_ns: u64) -> (r: Result<String, SessionError>)
        requires
            model_wf(old(self)@),
            now_ns >= old(self)@.last_event_ns,
        ensures
            model_wf(final(self)@),
            final(self)@ == spec_stop(old(self)@, now_ns).0,
            match r {
                Result::Ok(p) => spec_stop(old(self)@, now_ns).1 matches Result::Ok(q) && p@ == q,
                Result::Err(e) => spec_stop(old(self)@, now_ns).1 == Result::<
                    Seq<char>,
                    SessionError,
                >::Err(e),
            },
    {
        if matches!(self.state, RecordingState::Stopped) {
            return Result::Err(SessionError::NotRecording);
        }
        let path = match self.output_path.take() {
            Option::Some(p) => p,
            Option::None => {
                proof {
                    assert(false);
                }
                String::new()
            },
        };
        self.state = RecordingState::Stopped;
        self.start_time_ns = 0;
        self.paused_duration_ns = 0;
        self.pause_start_ns = 0;
        self.last_event_ns = now_ns;
        Result::Ok(path)
    }

    /// Toggles between Recording and Paused; fails with NotRecording when no
    /// session is live. Time spent paused is accumulated on resume.
    pub fn pause_recording(&mut self, now_ns: u64) -> (r: Result<(), SessionError>)
        requires
            model_wf(old(self)@),
            now_ns >= old(self)@.last_event_ns,
        ensures
            model_wf(final(self)@),
            (final(self)@, r) == spec_pause(old(self)@, now_ns),
    {
        match self.state {
            RecordingState::Stopped => Result::Err(SessionError::NotRecording),
            RecordingState::Recording => {
                self.state = RecordingState::Paused;
                self.pause_start_ns = now_ns;
                self.last_event_ns = now_ns;
                Result::Ok(())
            },
            RecordingState::Paused => {
                self.state = RecordingState::Recording;
                self.paused_duration_ns = self.paused_duration_ns + (now_ns - self.pause_start_ns);
                self.last_event_ns = now_ns;
                Result::Ok(())
            },
        }
    }

    /// The current status: the lifecycle flags and the duration, which is the
    /// wall time since start minus all paused time, frozen while paused.
    pub fn get_recording_status(&self, now_ns: u64) -> (st: RecordingStatus)
        requires
            model_wf(self@),
            now_ns >= self@.last_event_ns,
        ensures
            st.is_recording == (self@.state is Recording),
            st.is_paused == (self@.state is Paused),
            st.duration_ns as int == spec_duration_ns(self@, now_ns),
    {
        let duration_ns: u64 = match self.state {
            RecordingState::Stopped => 0,
            RecordingState::Recording => now_ns - self.start_time_ns - self.paused_duration_ns,
            RecordingState::Paused => self.pause_start_ns - self.start_time_ns
                - self.paused_duration_ns,
        };
        RecordingStatus {
            is_recording: matches!(self.state, RecordingState::Recording),
            is_paused: matches!(self.state, RecordingState::Paused),
            duration_ns,
        }
    }

    /// The current lifecycle state.
    pub fn current_state(&self) -> (st: RecordingState)
        ensures
            st == self@.state,
    {
        self.state
    }
}

/// Law: starting while a session is live fails with AlreadyRecording and
/// leaves the session as it was.
pub proof fn lemma_start_after_start(
    m: SessionModel,
    a_mon: bool,
    a_win: bool,
    p1: Seq<char>,
    t1: u64,
    b_mon: bool,
    b_win: bool,
    p2: Seq<char>,
    t2: u64,
)
    requires
        spec_start(m, a_mon, a_win, p1, t1).1 is Ok,
    ensures
        spec_start(spec_start(m, a_mon, a_win, p1, t1).0, b_mon, b_win, p2, t2).1
            == Result::<(), SessionError>::Err(SessionError::AlreadyRecording),
        spec_start(spec_start(m, a_mon, a_win, p1, t1).0, b_mon, b_win, p2, t2).0 == spec_start(
            m,
            a_mon,
            a_win,
            p1,
            t1,
        ).0,
{
}

/// Law: stopping twice fails the second time with NotRecording.
pub proof fn lemma_stop_after_stop(m: SessionModel, t1: u64, t2: u64)
    requires
        spec_stop(m, t1).1 is Ok,
    ensures
        spec_stop(spec_stop(m, t1).0, t2).1 == Result::<Seq<char>, SessionError>::Err(
            SessionError::NotRecording,
        ),
        spec_stop(spec_stop(m, t1).0, t2).0 == spec_stop(m, t1).0,
{
}

/// Law: pausing while stopped fails with NotRecording and changes nothing.
pub proof fn lemma_pause_while_stopped(m: SessionModel, t: u64)
    requires
        m.state is Stopped,
    ensures
        spec_pause(m, t).1 == Result::<(), SessionError>::Err(SessionError::NotRecording),
        spec_pause(m, t).0 == m,
{
}

/// Law: pausing twice returns the session to Recording, both calls succeeding.
pub proof fn lemma_pause_twice_resumes(m: SessionModel, t1: u64, t2: u64)
    requires
        m.state is Recording,
    ensures
        spec_pause(m, t1).1 is Ok,
        spec_pause(spec_pause(m, t1).0, t2).1 is Ok,
        spec_pause(spec_pause(m, t1).0, t2).0.state is Recording,
{
}

/// Law: while a session is paused the reported duration does not advance,
/// whatever instant it is read at.
pub proof fn lemma_paused_duration_frozen(m: SessionModel, t1: u64, t2: u64)
    requires
        m.state is Paused,
    ensures
        spec_duration_ns(m, t1) == spec_duration_ns(m, t2),
{
}

/// Law: resuming charges exactly the paused interval, so the duration right
/// after a resume equals the duration frozen at the pause instant.
pub proof fn lemma_resume_duration_continuous(m: SessionModel, t: u64)
    requires
        m.state is Paused,
        model_wf(m),
        t >= m.last_event_ns,
    ensures
        spec_duration_ns(spec_pause(m, t).0, t) == spec_duration_ns(m, t),
{
}

/// What the capture loop does at the top of an iteration, from the shared
/// lifecycle state alone.
#[derive(Clone, Copy, PartialEq, Eq, Structural, Debug)]
pub enum LoopDirective {
    /// The session stopped: leave the loop.
    Exit,
    /// The session is paused: skip capture and sleep briefly.
    SleepPaused,
    /// The session is live: poll the capture source for one frame.
    CaptureFrame,
}

/// The capture loop's per-iteration decision from the observed state.
pub fn poll_directive(state: RecordingState) -> (d: LoopDirective)
    ensures
        d == (match state {
            RecordingState::Stopped => LoopDirective::Exit,
            RecordingState::Paused => LoopDirective::SleepPaused,
            RecordingState::Recording => LoopDirective::CaptureFrame,
        }),
{
    match state {
        RecordingState::Stopped => LoopDirective::Exit,
        RecordingState::Paused => LoopDirective::SleepPaused,
        RecordingState::Recording => LoopDirective::CaptureFrame,
    }
}

/// Loop-local bookkeeping: processed frames and the emission throttles.
pub struct CaptureLoop {
    frame_count: u64,
    last_metrics_emit_ns: u64,
    last_status_emit_ns: u64,
}

/// Mathematical state of the loop bookkeeping.
#[verifier::ext_equal]
pub struct CaptureLoopModel {
    pub frame_count: u64,
    pub last_metrics_emit_ns: u64,
    pub last_status_emit_ns: u64,
}

impl View for CaptureLoop {
    type V = CaptureLoopModel;

    closed spec fn view(&self) -> CaptureLoopModel {
        CaptureLoopModel {
            frame_count: self.frame_count,
            last_metrics_emit_ns: self.last_metrics_emit_ns,
            last_status_emit_ns: self.last_status_emit_ns,
        }
    }
}

impl CaptureLoop {
    /// Fresh bookkeeping as the loop starts: no frames yet, both throttles
    /// primed at the start instant.
    pub fn new(now_ns: u64) -> (c: CaptureLoop)
        ensures
            c@.frame_count == 0,
            c@.last_metrics_emit_ns == now_ns,
            c@.last_status_emit_ns == now_ns,
    {
        CaptureLoop {
            frame_count: 0,
            last_metrics_emit_ns: now_ns,
            last_status_emit_ns: now_ns,
        }
    }

    /// Counts one processed frame.
    pub fn note_frame(&mut self)
        requires
            old(self)@.frame_count < u64::MAX,
        ensures
            final(self)@ == (CaptureLoopModel {
                frame_count: (old(self)@.frame_count + 1) as u64,
                ..old(self)@
            }),
    {
        self.frame_count = self.frame_count + 1;
    }

    /// Total frames the loop processed.
    pub fn frame_count(&self) -> (n: u64)
        ensures
            n == self@.frame_count,
    {
        self.frame_count
    }

    /// Whether a metrics event is due: at most one per interval. A true
    /// answer re-arms the throttle at the given instant.
    pub fn metrics_due(&mut self, now_ns: u64) -> (due: bool)
        requires
            now_ns >= old(self)@.last_metrics_emit_ns,
        ensures
            due == (now_ns - old(self)@.last_metrics_emit_ns > METRICS_EMIT_INTERVAL_NS),
            due ==> final(self)@ == (CaptureLoopModel {
                last_metrics_emit_ns: now_ns,
                ..old(self)@
            }),
            !due ==> final(self)@ == old(self)@,
    {
        if now_ns - self.last_metrics_emit_ns > METRICS_EMIT_INTERVAL_NS {
            self.last_metrics_emit_ns = now_ns;
            true
        } else {
            false
        }
    }

    /// Whether a status event is due: at most two per second. A true answer
    /// re-arms the throttle at the given instant.
    pub fn status_due(&mut self, now_ns: u64) -> (due: bool)
        requires
            now_ns >= old(self)@.last_status_emit_ns,
        ensures
            due == (now_ns - old(self)@.last_status_emit_ns > STATUS_EMIT_INTERVAL_NS),
            due ==> final(self)@ == (CaptureLoopModel {
                last_status_emit_ns: now_ns,
                ..old(self)@
            }),
            !due ==> final(self)@ == old(self)@,
    {
        if now_ns - self.last_status_emit_ns > STATUS_EMIT_INTERVAL_NS {
            self.last_status_emit_ns = now_ns;
            true
        } else {
            false
        }
    }
}

/// One merged metrics event: the encoder's reading joined with the system
/// sampler's reading, exactly as both stand.
#[derive(Clone, Copy, PartialEq, Eq, Structural, Debug)]
pub struct MetricsEvent {
    pub capture_fps_milli: u64,
    pub encode_fps_milli: u64,
    pub dropped_frames: u64,
    pub encode_latency_milli_ms: u64,
    pub cpu_usage_centi_percent: u32,
    pub memory_usage_mb_milli: u64,
}

/// Merges the encoder metrics with the system sampler's reading.
pub fn merge_metrics(enc: EncoderMetrics, cpu_usage_centi_percent: u32, memory_usage_mb_milli: u64) -> (ev: MetricsEvent)
    ensures
        ev.capture_fps_milli == enc.capture_fps_milli,
        ev.encode_fps_milli == enc.encode_fps_milli,
        ev.dropped_frames == enc.dropped_frames,
        ev.encode_latency_milli_ms == enc.encode_latency_milli_ms,
        ev.cpu_usage_centi_percent == cpu_usage_centi_percent,
        ev.memory_usage_mb_milli == memory_usage_mb_milli,
{
    MetricsEvent {
        capture_fps_milli: enc.capture_fps_milli,
        encode_fps_milli: enc.encode_fps_milli,
        dropped_frames: enc.dropped_frames,
        encode_latency_milli_ms: enc.encode_latency_milli_ms,
        cpu_usage_centi_percent,
        memory_usage_mb_milli,
    }
}

/// The output file a recording started at the given local time is written to:
/// a collision-free, timestamp-derived name under the recordings directory.
pub open spec fn spec_output_path(
    base_dir: Seq<char>,
    year: u64,
    month: u64,
    day: u64,
    hour: u64,
    minute: u64,
    second: u64,
) -> Seq<char> {
    base_dir + "/ScreenRecordings/recording_"@ + spec_dec_fixed(year as int, 4) + spec_dec_fixed(
        month as int,
        2,
    ) + spec_dec_fixed(day as int, 2) + "_"@ + spec_dec_fixed(hour as int, 2) + spec_dec_fixed(
        minute as int,
        2,
    ) + spec_dec_fixed(second as int, 2) + ".mkv"@
}

/// Builds the output path for a recording started at the given local time.
pub fn generate_output_path(
    base_dir: &str,
    year: u64,
    month: u64,
    day: u64,
    hour: u64,
    minute: u64,
    second: u64,
) -> (r: String)
    requires
        year <= 9999,
        month <= 99,
        day <= 99,
        hour <= 99,
        minute <= 99,
        second <= 99,
    ensures
        r@ == spec_output_path(base_dir@, year, month, day, hour, minute, second),
{
    let mut r = String::from_str(base_dir);
    r.append("/ScreenRecordings/recording_");
    append_dec_fixed_u64(&mut r, year, 4);
    append_dec_fixed_u64(&mut r, month, 2);
    append_dec_fixed_u64(&mut r, day, 2);
    r.append("_");
    append_dec_fixed_u64(&mut r, hour, 2);
    append_dec_fixed_u64(&mut r, minute, 2);
    append_dec_fixed_u64(&mut r, second, 2);
    r.append(".mkv");
    proof {
        assert(r@ =~= spec_output_path(base_dir@, year, month, day, hour, minute, second));
    }
    r
}

} // verus!
