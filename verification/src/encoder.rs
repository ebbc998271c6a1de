//! Encoder-side bookkeeping: per-frame processing latency, a rolling capture
//! frame-rate estimate over the most recent arrival instants, and a monotonic
//! dropped-frame estimate inferred from arrival gaps.

use vstd::prelude::*;
use std::collections::VecDeque;
use crate::capture::Frame;

verus! {

/// The rate tracker keeps at most this many recent arrival instants.
pub const FPS_SAMPLE_CAPACITY: usize = 60;

/// Nominal interval between frames at 30 frames per second, in nanoseconds.
pub const NOMINAL_FRAME_INTERVAL_NS: u64 = 33_333_333;

/// A sequence of instants that never goes backwards.
pub open spec fn nondecreasing(s: Seq<u64>) -> bool {
    forall|i: int, j: int| 0 <= i <= j < s.len() ==> s[i] <= s[j]
}

/// Frames per second in thousandths, derived from a window of arrival
/// instants: (sample count - 1) / (span between oldest and newest, in
/// seconds); 0 with fewer than 2 samples or an empty span.
pub open spec fn spec_fps_milli(s: Seq<u64>) -> int {
    if s.len() >= 2 && s.last() > s.first() {
        (s.len() - 1) * 1_000_000_000_000 / (s.last() - s.first())
    } else {
        0
    }
}

/// How the sample window advances when an instant arrives: the instant is
/// appended and the oldest sample beyond the capacity is discarded.
pub open spec fn spec_observe(s: Seq<u64>, t: u64) -> Seq<u64> {
    if s.len() + 1 > FPS_SAMPLE_CAPACITY {
        s.push(t).drop_first()
    } else {
        s.push(t)
    }
}

/// How many frames an arrival gap says were missed: gaps above twice the
/// nominal interval count floor(gap / nominal - 1) missed frames.
pub open spec fn spec_drop_increment(s: Seq<u64>, now: u64) -> int {
    if s.len() > 0 && now - s.last() > 2 * NOMINAL_FRAME_INTERVAL_NS {
        (now - s.last()) / (NOMINAL_FRAME_INTERVAL_NS as int) - 1
    } else {
        0
    }
}

/// Floor division distributes subadditively over addition.
pub proof fn lemma_div_subadditive(a: int, b: int, d: int)
    requires
        a >= 0,
        b >= 0,
        d > 0,
    ensures
        a / d + b / d <= (a + b) / d,
{
    vstd::arithmetic::div_mod::lemma_fundamental_div_mod(a, d);
    vstd::arithmetic::div_mod::lemma_fundamental_div_mod(b, d);
    vstd::arithmetic::div_mod::lemma_mod_bound(a, d);
    vstd::arithmetic::div_mod::lemma_mod_bound(b, d);
    let q = a / d + b / d;
    let r = a % d + b % d;
    assert(a + b == q * d + r) by (nonlinear_arith)
        requires
            a == d * (a / d) + a % d,
            b == d * (b / d) + b % d,
            q == a / d + b / d,
            r == a % d + b % d,
    ;
    if r < d {
        vstd::arithmetic::div_mod::lemma_fundamental_div_mod_converse_div(a + b, d, q, r);
    } else {
        assert(a + b == (q + 1) * d + (r - d)) by (nonlinear_arith)
            requires
                a + b == q * d + r,
        ;
        vstd::arithmetic::div_mod::lemma_fundamental_div_mod_converse_div(a + b, d, q + 1, r - d);
    }
}

/// Rolling frame-rate estimator over the most recent arrival instants.
pub struct FpsCalculator {
    timestamps: VecDeque<u64>,
}

impl View for FpsCalculator {
    type V = Seq<u64>;

    closed spec fn view(&self) -> Seq<u64> {
        self.timestamps@
    }
}

impl FpsCalculator {
    /// The window is bounded by its capacity and instants never go backwards.
    pub open spec fn wf(&self) -> bool {
        &&& self@.len() <= FPS_SAMPLE_CAPACITY
        &&& nondecreasing(self@)
    }

    /// A fresh tracker with an empty sample window.
    pub fn new() -> (c: FpsCalculator)
        ensures
            c@ == Seq::<u64>::empty(),
            c.wf(),
    {
        FpsCalculator { timestamps: VecDeque::with_capacity(FPS_SAMPLE_CAPACITY) }
    }

    /// The current rate estimate over the retained window, in milli-fps.
    pub fn fps_milli(&self) -> (fps: u64)
        requires
            self.wf(),
        ensures
            fps as int == spec_fps_milli(self@),
    {
        let n = self.timestamps.len();
        if n >= 2 {
            let first = self.timestamps[0];
            let last = self.timestamps[n - 1];
            if last > first {
                let span = last - first;
                ((n as u64 - 1) * 1_000_000_000_000u64) / span
            } else {
                0
            }
        } else {
            0
        }
    }

    /// Observes one frame-arrival instant and returns the updated rate
    /// estimate: the instant joins the window, the oldest sample beyond the
    /// capacity leaves, and the estimate spans the retained window.
    pub fn add_frame(&mut self, timestamp: u64) -> (fps: u64)
        requires
            old(self).wf(),
            old(self)@.len() > 0 ==> old(self)@.last() <= timestamp,
        ensures
            final(self)@ == spec_observe(old(self)@, timestamp),
            fps as int == spec_fps_milli(final(self)@),
            final(self).wf(),
    {
        self.timestamps.push_back(timestamp);
        if self.timestamps.len() > FPS_SAMPLE_CAPACITY {
            let _ = self.timestamps.pop_front();
            proof {
                assert(self@ =~= spec_observe(old(self)@, timestamp));
            }
        }
        proof {
            assert(nondecreasing(old(self)@.push(timestamp)));
            assert(nondecreasing(self@));
        }
        self.fps_milli()
    }
}

/// One metrics reading of the encoder: rates in milli-fps, the average
/// per-frame latency in thousandths of a millisecond, and the cumulative
/// dropped-frame estimate.
#[derive(Clone, Copy, PartialEq, Eq, Structural, Debug)]
pub struct EncoderMetrics {
    pub capture_fps_milli: u64,
    pub encode_fps_milli: u64,
    pub dropped_frames: u64,
    pub encode_latency_milli_ms: u64,
}

/// Mathematical state of the encoder bookkeeping.
#[verifier::ext_equal]
pub struct EncoderModel {
    pub output_path: Seq<char>,
    pub width: u32,
    pub height: u32,
    pub frame_count: u64,
    pub encode_time_ns: u64,
    pub dropped_frames: u64,
    pub samples: Seq<u64>,
    pub last_instant_ns: u64,
}

/// Average per-frame latency in thousandths of a millisecond: whole
/// milliseconds of accumulated encode time, divided by the frame count.
pub open spec fn spec_avg_latency_milli_ms(m: EncoderModel) -> int {
    if m.frame_count > 0 {
        ((m.encode_time_ns as int) / 1_000_000) * 1000 / (m.frame_count as int)
    } else {
        0
    }
}

/// Encode rate in milli-fps: 1000 / (average latency in ms), or 0 when the
/// average latency is 0.
pub open spec fn spec_encode_fps_milli(m: EncoderModel) -> int {
    if spec_avg_latency_milli_ms(m) > 0 {
        1_000_000_000int / spec_avg_latency_milli_ms(m)
    } else {
        0
    }
}

/// Tracks what the encoding stage reports: frame count, accumulated encode
/// time, arrival-gap drop estimate, and the rolling capture rate.
pub struct Encoder {
    output_path: String,
    width: u32,
    height: u32,
    frame_count: u64,
    encode_time_ns: u64,
    dropped_frames: u64,
    fps_calculator: FpsCalculator,
    last_instant_ns: u64,
}

impl View for Encoder {
    type V = EncoderModel;

    closed spec fn view(&self) -> EncoderModel {
        EncoderModel {
            output_path: self.output_path@,
            width: self.width,
            height: self.height,
            frame_count: self.frame_count,
            encode_time_ns: self.encode_time_ns,
            dropped_frames: self.dropped_frames,
            samples: self.fps_calculator@,
            last_instant_ns: self.last_instant_ns,
        }
    }
}

impl Encoder {
    /// Bookkeeping stays consistent: accumulated time and samples never run
    /// ahead of the last seen instant, and the drop estimate is bounded by
    /// the last arrival.
    pub open spec fn wf(&self) -> bool {
        &&& self@.encode_time_ns <= self@.last_instant_ns
        &&& self@.samples.len() <= FPS_SAMPLE_CAPACITY
        &&& nondecreasing(self@.samples)
        &&& self@.samples.len() > 0 ==> self@.samples.last() <= self@.last_instant_ns
        &&& if self@.samples.len() == 0 {
            self@.dropped_frames == 0
        } else {
            self@.dropped_frames as int <= (self@.samples.last() as int) / (NOMINAL_FRAME_INTERVAL_NS as int)
        }
    }

    /// A fresh encoder bound to its output file; nothing observed yet.
    pub fn new(output_path: String) -> (e: Encoder)
        ensures
            e@.output_path == output_path@,
            e@.width == 0 && e@.height == 0,
            e@.frame_count == 0,
            e@.encode_time_ns == 0,
            e@.dropped_frames == 0,
            e@.samples == Seq::<u64>::empty(),
            e@.last_instant_ns == 0,
            e.wf(),
    {
        Encoder {
            output_path,
            width: 0,
            height: 0,
            frame_count: 0,
            encode_time_ns: 0,
            dropped_frames: 0,
            fps_calculator: FpsCalculator::new(),
            last_instant_ns: 0,
        }
    }

    /// Prepares the encoder; the backing writer is attached by the caller.
    pub fn initialize(&mut self)
        ensures
            final(self)@ == old(self)@,
    {
    }

    /// Accounts one encoded frame: adopts the dimensions of the first frame,
    /// raises the drop estimate when the arrival gap exceeds twice the nominal
    /// interval, and accumulates the encode latency. The drop estimate never
    /// decreases.
    pub fn encode_frame(&mut self, frame: &Frame, start_ns: u64, end_ns: u64)
        requires
            old(self).wf(),
            old(self)@.last_instant_ns <= start_ns,
            start_ns <= end_ns,
            old(self)@.frame_count < u64::MAX,
        ensures
            final(self).wf(),
            final(self)@.width == if old(self)@.width == 0 {
                frame.width
            } else {
                old(self)@.width
            },
            final(self)@.height == if old(self)@.width == 0 {
                frame.height
            } else {
                old(self)@.height
            },
            final(self)@.frame_count == old(self)@.frame_count + 1,
            final(self)@.encode_time_ns == old(self)@.encode_time_ns + (end_ns - start_ns),
            final(self)@.dropped_frames == old(self)@.dropped_frames + spec_drop_increment(
                old(self)@.samples,
                start_ns,
            ),
            final(self)@.dropped_frames >= old(self)@.dropped_frames,
            final(self)@.samples == spec_observe(old(self)@.samples, start_ns),
            final(self)@.last_instant_ns == end_ns,
            final(self)@.output_path == old(self)@.output_path,
    {
        if self.width == 0 {
            self.width = frame.width;
            self.height = frame.height;
        }
        let n = self.fps_calculator.timestamps_len();
        if n > 0 {
            let last = self.fps_calculator.last_sample();
            let gap = start_ns - last;
            if gap > 2 * NOMINAL_FRAME_INTERVAL_NS {
                let inc = gap / NOMINAL_FRAME_INTERVAL_NS - 1;
                proof {
                    lemma_div_subadditive(
                        last as int,
                        gap as int,
                        NOMINAL_FRAME_INTERVAL_NS as int,
                    );
                }
                self.dropped_frames = self.dropped_frames + inc;
            }
        }
        let _ = self.fps_calculator.add_frame(start_ns);
        self.frame_count = self.frame_count + 1;
        self.encode_time_ns = self.encode_time_ns + (end_ns - start_ns);
        self.last_instant_ns = end_ns;
    }

    /// Flushes and closes the output; bookkeeping is left as it stands.
    pub fn finalize(&mut self)
        ensures
            final(self)@ == old(self)@,
    {
    }

    /// The current metrics reading: capture rate over the retained window,
    /// average per-frame latency, the derived encode rate, and the cumulative
    /// drop estimate.
    pub fn get_metrics(&self) -> (m: EncoderMetrics)
        requires
            self.wf(),
        ensures
            m.capture_fps_milli as int == spec_fps_milli(self@.samples),
            m.encode_latency_milli_ms as int == spec_avg_latency_milli_ms(self@),
            m.encode_fps_milli as int == spec_encode_fps_milli(self@),
            m.dropped_frames == self@.dropped_frames,
    {
        let capture_fps_milli = self.fps_calculator.fps_milli();
        let total_ms: u64 = self.encode_time_ns / 1_000_000;
        let encode_latency_milli_ms: u64 = if self.frame_count > 0 {
            proof {
                assert(total_ms * 1000 <= 0xFFFF_FFFF_FFFF_FFFF) by (nonlinear_arith)
                    requires
                        total_ms <= 0xFFFF_FFFF_FFFF_FFFFu64 / 1_000_000,
                ;
            }
            (total_ms * 1000) / self.frame_count
        } else {
            0
        };
        let encode_fps_milli: u64 = if encode_latency_milli_ms > 0 {
            1_000_000_000 / encode_latency_milli_ms
        } else {
            0
        };
        EncoderMetrics {
            capture_fps_milli,
            encode_fps_milli,
            dropped_frames: self.dropped_frames,
            encode_latency_milli_ms,
        }
    }
}

impl FpsCalculator {
    /// Number of retained samples.
    pub fn timestamps_len(&self) -> (n: usize)
        ensures
            n == self@.len(),
    {
        self.timestamps.len()
    }

    /// The newest retained sample.
    pub fn last_sample(&self) -> (t: u64)
        requires
            self@.len() > 0,
        ensures
            t == self@.last(),
    {
        self.timestamps[self.timestamps.len() - 1]
    }
}

} // verus!
