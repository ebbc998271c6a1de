//! Per-frame visual analytics: a 256-bucket luminance histogram, the dominant
//! luminance bucket, mean brightness, scene-change detection from consecutive
//! histograms, a visual-activity proxy, and a bounded rolling timeline.

use vstd::prelude::*;
use std::collections::VecDeque;
use crate::capture::Frame;

verus! {

/// Fixed-point scale: all `[0, 1]` quantities are stored in millionths.
pub const MICRO_UNIT: u32 = 1_000_000;

/// Number of luminance buckets (8-bit luma).
pub const HISTOGRAM_BUCKETS: usize = 256;

/// The timeline keeps at most this many entries; the oldest is evicted first.
pub const TIMELINE_CAPACITY: usize = 1000;

/// Luminance of one pixel under the fixed weighting
/// Y = 0.299 R + 0.587 G + 0.114 B, truncated to an 8-bit bucket index.
/// Computed exactly over integers: (299 R + 587 G + 114 B) / 1000.
pub open spec fn spec_luma(r: u8, g: u8, b: u8) -> int {
    (299 * r + 587 * g + 114 * b) / 1000
}

/// A buffer carries frames of `width` x `height` RGB pixels when it holds at
/// least 3 bytes per pixel; analytics read only that prefix.
pub open spec fn buffer_fits(data: Seq<u8>, width: u32, height: u32) -> bool {
    3 * width * height <= data.len()
}

/// The luminance of pixel `i` of a row-major RGB buffer.
pub open spec fn pixel_luma(data: Seq<u8>, i: int) -> int {
    spec_luma(data[3 * i], data[3 * i + 1], data[3 * i + 2])
}

/// The luminances of the first `n` pixels of a buffer.
pub open spec fn pixel_lumas(data: Seq<u8>, n: int) -> Seq<int> {
    Seq::new(n as nat, |i: int| pixel_luma(data, i))
}

/// How many elements of `s` equal `v`.
pub open spec fn count_eq(s: Seq<int>, v: int) -> int
    decreases s.len(),
{
    if s.len() == 0 {
        0
    } else {
        count_eq(s.drop_last(), v) + if s.last() == v { 1int } else { 0int }
    }
}

/// Sum of a sequence of integers.
pub open spec fn sum_of(s: Seq<int>) -> int
    decreases s.len(),
{
    if s.len() == 0 {
        0
    } else {
        sum_of(s.drop_last()) + s.last()
    }
}

/// The luminance histogram of the first width*height pixels: bucket `b` counts
/// the pixels of luminance `b`.
pub open spec fn spec_histogram(data: Seq<u8>, width: u32, height: u32) -> Seq<int> {
    Seq::new(HISTOGRAM_BUCKETS as nat, |b: int| count_eq(pixel_lumas(data, width * height), b))
}

/// The histogram a buffer yields: all-zero buckets when the buffer is too
/// short for the claimed dimensions.
pub open spec fn spec_histogram_or_zero(data: Seq<u8>, width: u32, height: u32) -> Seq<int> {
    if buffer_fits(data, width, height) {
        spec_histogram(data, width, height)
    } else {
        Seq::new(HISTOGRAM_BUCKETS as nat, |b: int| 0int)
    }
}

/// Index of the bucket with the highest count; the lowest index wins a tie
/// (first-encountered maximum over ascending index order).
pub open spec fn first_max_index(h: Seq<int>) -> int
    decreases h.len(),
{
    if h.len() <= 1 {
        0
    } else {
        let r = first_max_index(h.drop_last());
        if h.last() > h[r] {
            h.len() - 1
        } else {
            r
        }
    }
}

/// Total luminance of the first width*height pixels, or 0 when the buffer is
/// too short.
pub open spec fn spec_total_luma_or_zero(data: Seq<u8>, width: u32, height: u32) -> int {
    if buffer_fits(data, width, height) {
        sum_of(pixel_lumas(data, width * height))
    } else {
        0
    }
}

/// Mean brightness of a frame, scaled to millionths of full scale:
/// (sum of per-pixel luminance) / (pixel count * 255). A buffer that is too
/// short, or has no pixels, reads as 0.
pub open spec fn spec_brightness_micro(data: Seq<u8>, width: u32, height: u32) -> int {
    if buffer_fits(data, width, height) && width * height > 0 {
        sum_of(pixel_lumas(data, width * height)) * MICRO_UNIT / (width * height * 255)
    } else {
        0
    }
}

/// Dominant-bucket index scaled to millionths: (first-max bucket) / 255.
pub open spec fn spec_dominance_micro(data: Seq<u8>, width: u32, height: u32) -> int {
    if buffer_fits(data, width, height) {
        first_max_index(spec_histogram(data, width, height)) * MICRO_UNIT / 255
    } else {
        0
    }
}

/// Sum of absolute per-bucket differences of two histograms.
pub open spec fn l1_distance(a: Seq<int>, b: Seq<int>) -> int {
    sum_of(Seq::new(a.len(), |i: int| if a[i] >= b[i] { a[i] - b[i] } else { b[i] - a[i] }))
}

/// First max over all buckets is a maximum, and the least index that attains it.
pub proof fn lemma_first_max_index_props(h: Seq<int>)
    requires
        h.len() >= 1,
    ensures
        0 <= first_max_index(h) < h.len(),
        forall|j: int| 0 <= j < h.len() ==> #[trigger] h[j] <= h[first_max_index(h)],
        forall|j: int| 0 <= j < first_max_index(h) ==> #[trigger] h[j] < h[first_max_index(h)],
    decreases h.len(),
{
    if h.len() > 1 {
        lemma_first_max_index_props(h.drop_last());
        assert(forall|j: int| 0 <= j < h.len() - 1 ==> h[j] == h.drop_last()[j]);
    }
}

/// A count of matches never exceeds the sequence length.
pub proof fn lemma_count_eq_le_len(s: Seq<int>, v: int)
    ensures
        0 <= count_eq(s, v) <= s.len(),
    decreases s.len(),
{
    if s.len() > 0 {
        lemma_count_eq_le_len(s.drop_last(), v);
    }
}

/// Appending one element adjusts the count of its value by one.
pub proof fn lemma_count_eq_push(s: Seq<int>, x: int, v: int)
    ensures
        count_eq(s.push(x), v) == count_eq(s, v) + if x == v { 1int } else { 0int },
{
    assert(s.push(x).drop_last() =~= s);
}

/// Appending one element adds it to the sum.
pub proof fn lemma_sum_of_push(s: Seq<int>, x: int)
    ensures
        sum_of(s.push(x)) == sum_of(s) + x,
{
    assert(s.push(x).drop_last() =~= s);
}

/// A sum of elements bounded by `c` is bounded by `c` times the length.
pub proof fn lemma_sum_of_bounded(s: Seq<int>, c: int)
    requires
        forall|i: int| 0 <= i < s.len() ==> 0 <= #[trigger] s[i] <= c,
        c >= 0,
    ensures
        0 <= sum_of(s) <= c * s.len(),
    decreases s.len(),
{
    if s.len() == 0 {
    } else {
        lemma_sum_of_bounded(s.drop_last(), c);
        assert(c * s.len() == c * (s.len() - 1) + c) by (nonlinear_arith);
    }
}

/// The L1 distance of a histogram to itself is zero.
pub proof fn lemma_l1_distance_self(a: Seq<int>)
    ensures
        l1_distance(a, a) == 0,
{
    let zeros = Seq::new(a.len(), |i: int| if a[i] >= a[i] { a[i] - a[i] } else { a[i] - a[i] });
    lemma_sum_of_bounded(zeros, 0);
}

/// A buffer that fits `width` x `height` pixels holds at least 3 (width * height)
/// bytes.
pub proof fn lemma_buffer_fits_bound(data: Seq<u8>, width: u32, height: u32)
    requires
        buffer_fits(data, width, height),
    ensures
        3 * ((width as int) * (height as int)) <= data.len(),
{
    assert(3 * (width as int) * (height as int) == 3 * ((width as int) * (height as int)))
        by (nonlinear_arith);
}

/// The number of pixels `width` x `height` describes; it always fits a u64.
pub fn pixel_count(width: u32, height: u32) -> (p: u64)
    ensures
        p == (width as int) * (height as int),
{
    proof {
        assert((width as int) * (height as int) <= 0xFFFF_FFFFint * 0xFFFF_FFFFint)
            by (nonlinear_arith)
            requires
                (width as int) <= 0xFFFF_FFFF,
                (height as int) <= 0xFFFF_FFFF,
        ;
    }
    (width as u64) * (height as u64)
}

/// Luminance of one pixel; always a bucket index below 256.
pub fn luma_of(r: u8, g: u8, b: u8) -> (l: u8)
    ensures
        l as int == spec_luma(r, g, b),
{
    (((299u32 * (r as u32)) + (587u32 * (g as u32)) + (114u32 * (b as u32))) / 1000u32) as u8
}

/// Relies on image::RgbImage::from_raw: it accepts a buffer exactly when the
/// buffer holds at least width * height RGB pixels of 3 bytes each.
#[verifier::external_body]
fn rgb_buffer_accepted(width: u32, height: u32, data: &Vec<u8>) -> (r: bool)
    ensures
        r == buffer_fits(data@, width, height),
{
    image::RgbImage::from_raw(width, height, data.clone()).is_some()
}

/// Computes the luminance histogram of a buffer; all-zero buckets when the
/// buffer is too short for the claimed dimensions.
pub fn compute_histogram(data: &Vec<u8>, width: u32, height: u32) -> (hist: Vec<u64>)
    ensures
        hist@.len() == HISTOGRAM_BUCKETS,
        forall|b: int|
            0 <= b < HISTOGRAM_BUCKETS ==> hist@[b] as int == spec_histogram_or_zero(
                data@,
                width,
                height,
            )[b],
{
    let mut hist: Vec<u64> = Vec::new();
    let mut b: usize = 0;
    while b < HISTOGRAM_BUCKETS
        invariant
            b <= HISTOGRAM_BUCKETS,
            hist@.len() == b,
            forall|j: int| 0 <= j < b ==> hist@[j] == 0,
        decreases HISTOGRAM_BUCKETS - b,
    {
        hist.push(0);
        b += 1;
    }
    if !rgb_buffer_accepted(width, height, data) {
        return hist;
    }
    let pixels: u64 = pixel_count(width, height);
    let mut i: u64 = 0;
    while i < pixels
        invariant
            i <= pixels,
            pixels == (width as int) * (height as int),
            buffer_fits(data@, width, height),
            hist@.len() == HISTOGRAM_BUCKETS,
            forall|j: int|
                0 <= j < HISTOGRAM_BUCKETS ==> hist@[j] as int == count_eq(
                    pixel_lumas(data@, i as int),
                    j,
                ),
        decreases pixels - i,
    {
        proof {
            lemma_buffer_fits_bound(data@, width, height);
            assert(data.len() == data@.len());
        }
        let idx: usize = 3 * (i as usize);
        let l: u8 = luma_of(data[idx], data[idx + 1], data[idx + 2]);
        proof {
            lemma_count_eq_le_len(pixel_lumas(data@, i as int), l as int);
            assert(pixel_lumas(data@, i as int + 1) =~= pixel_lumas(data@, i as int).push(
                pixel_luma(data@, i as int),
            ));
            assert forall|j: int| 0 <= j < HISTOGRAM_BUCKETS implies count_eq(
                pixel_lumas(data@, i as int + 1),
                j,
            ) == count_eq(pixel_lumas(data@, i as int), j) + if pixel_luma(data@, i as int) == j {
                1int
            } else {
                0int
            } by {
                lemma_count_eq_push(pixel_lumas(data@, i as int), pixel_luma(data@, i as int), j);
            }
        }
        let old_count = hist[l as usize];
        hist.set(l as usize, old_count + 1);
        i += 1;
    }
    hist
}

/// Total luminance of a buffer's pixels; 0 when the buffer is too short.
pub fn compute_total_luma(data: &Vec<u8>, width: u32, height: u32) -> (t: u128)
    ensures
        t as int == spec_total_luma_or_zero(data@, width, height),
{
    if !rgb_buffer_accepted(width, height, data) {
        return 0;
    }
    let pixels: u64 = pixel_count(width, height);
    let mut total: u128 = 0;
    let mut i: u64 = 0;
    while i < pixels
        invariant
            i <= pixels,
            pixels == (width as int) * (height as int),
            buffer_fits(data@, width, height),
            total as int == sum_of(pixel_lumas(data@, i as int)),
            total <= 255 * (i as int),
        decreases pixels - i,
    {
        proof {
            lemma_buffer_fits_bound(data@, width, height);
            assert(data.len() == data@.len());
        }
        let idx: usize = 3 * (i as usize);
        let l: u8 = luma_of(data[idx], data[idx + 1], data[idx + 2]);
        proof {
            assert(pixel_lumas(data@, i as int + 1) =~= pixel_lumas(data@, i as int).push(
                pixel_luma(data@, i as int),
            ));
            lemma_sum_of_push(pixel_lumas(data@, i as int), pixel_luma(data@, i as int));
        }
        total = total + (l as u128);
        i += 1;
    }
    total
}

/// Every pixel luminance is an 8-bit bucket index.
pub proof fn lemma_pixel_luma_bounds(data: Seq<u8>, i: int)
    ensures
        0 <= pixel_luma(data, i) <= 255,
{
}

/// The total luminance of `n` pixels is at most 255 n.
pub proof fn lemma_total_luma_bound(data: Seq<u8>, n: int)
    requires
        n >= 0,
    ensures
        0 <= sum_of(pixel_lumas(data, n)) <= 255 * n,
{
    assert forall|i: int| 0 <= i < pixel_lumas(data, n).len() implies 0 <= #[trigger] pixel_lumas(
        data,
        n,
    )[i] <= 255 by {
        lemma_pixel_luma_bounds(data, i);
    }
    lemma_sum_of_bounded(pixel_lumas(data, n), 255);
}

/// Index of the first-encountered maximum bucket of a histogram.
pub fn dominant_bucket(hist: &Vec<u64>) -> (idx: usize)
    requires
        hist@.len() == HISTOGRAM_BUCKETS,
    ensures
        idx as int == first_max_index(Seq::new(hist@.len(), |j: int| hist@[j] as int)),
        idx < HISTOGRAM_BUCKETS,
{
    let ghost hs = Seq::new(hist@.len(), |j: int| hist@[j] as int);
    let mut best: usize = 0;
    let mut i: usize = 1;
    while i < HISTOGRAM_BUCKETS
        invariant
            1 <= i <= HISTOGRAM_BUCKETS,
            best < i,
            hist@.len() == HISTOGRAM_BUCKETS,
            hs == Seq::new(hist@.len(), |j: int| hist@[j] as int),
            best as int == first_max_index(hs.take(i as int)),
        decreases HISTOGRAM_BUCKETS - i,
    {
        proof {
            assert(hs.take(i as int + 1).drop_last() =~= hs.take(i as int));
            lemma_first_max_index_props(hs.take(i as int));
        }
        if hist[i] > hist[best] {
            best = i;
        }
        i += 1;
    }
    proof {
        assert(hs.take(HISTOGRAM_BUCKETS as int) =~= hs);
    }
    best
}

/// Mean brightness of a buffer in millionths of full scale.
pub fn brightness_micro_of(data: &Vec<u8>, width: u32, height: u32) -> (b: u32)
    ensures
        b as int == spec_brightness_micro(data@, width, height),
        b <= MICRO_UNIT,
{
    if !rgb_buffer_accepted(width, height, data) {
        return 0;
    }
    let pixels: u64 = pixel_count(width, height);
    if pixels == 0 {
        return 0;
    }
    let total: u128 = compute_total_luma(data, width, height);
    let denom: u128 = (pixels as u128) * 255;
    proof {
        lemma_total_luma_bound(data@, pixels as int);
        vstd::arithmetic::mul::lemma_mul_inequality(
            total as int,
            255 * (pixels as int),
            MICRO_UNIT as int,
        );
        assert(255 * (pixels as int) * (MICRO_UNIT as int) == (MICRO_UNIT as int) * (denom as int))
            by (nonlinear_arith)
            requires
                denom == (pixels as int) * 255,
        ;
        vstd::arithmetic::div_mod::lemma_div_multiples_vanish(
            MICRO_UNIT as int,
            denom as int,
        );
        vstd::arithmetic::div_mod::lemma_div_is_ordered(
            (total * (MICRO_UNIT as u128)) as int,
            (MICRO_UNIT as int) * (denom as int),
            denom as int,
        );
        assert((width as int) * (height as int) * 255 == denom as int) by (nonlinear_arith)
            requires
                denom == (pixels as int) * 255,
                pixels == (width as int) * (height as int),
        ;
    }
    let val: u128 = total * (MICRO_UNIT as u128) / denom;
    val as u32
}

/// Dominant-bucket index of a buffer in millionths of full scale.
pub fn dominance_micro_of(data: &Vec<u8>, width: u32, height: u32) -> (d: u32)
    ensures
        d as int == spec_dominance_micro(data@, width, height),
        d <= MICRO_UNIT,
{
    if !rgb_buffer_accepted(width, height, data) {
        return 0;
    }
    let hist = compute_histogram(data, width, height);
    let idx = dominant_bucket(&hist);
    proof {
        assert(Seq::new(hist@.len(), |j: int| hist@[j] as int) =~= spec_histogram(
            data@,
            width,
            height,
        ));
    }
    proof {
        assert((idx as int) * (MICRO_UNIT as int) <= 255 * 1_000_000) by (nonlinear_arith)
            requires
                0 <= (idx as int) <= 255,
                MICRO_UNIT == 1_000_000u32,
        ;
    }
    ((idx as u64) * (MICRO_UNIT as u64) / 255) as u32
}

/// Sum of absolute per-bucket differences of two histograms.
pub fn histogram_l1(a: &Vec<u64>, b: &Vec<u64>) -> (d: u128)
    requires
        a@.len() == b@.len(),
    ensures
        d as int == l1_distance(
            Seq::new(a@.len(), |i: int| a@[i] as int),
            Seq::new(b@.len(), |i: int| b@[i] as int),
        ),
        d as int <= a@.len() * 0xFFFF_FFFF_FFFF_FFFFint,
{
    let ghost diffs = Seq::new(
        a@.len(),
        |i: int|
            if a@[i] as int >= b@[i] as int {
                a@[i] - b@[i]
            } else {
                b@[i] - a@[i]
            },
    );
    let mut d: u128 = 0;
    let mut i: usize = 0;
    while i < a.len()
        invariant
            i <= a@.len(),
            a@.len() == b@.len(),
            diffs == Seq::new(
                a@.len(),
                |j: int|
                    if a@[j] as int >= b@[j] as int {
                        a@[j] - b@[j]
                    } else {
                        b@[j] - a@[j]
                    },
            ),
            d as int == sum_of(diffs.take(i as int)),
            d <= i * 0xFFFF_FFFF_FFFF_FFFFu128,
        decreases a@.len() - i,
    {
        let ai = a[i];
        let bi = b[i];
        let step: u64 = if ai >= bi {
            ai - bi
        } else {
            bi - ai
        };
        proof {
            assert(diffs.take(i as int + 1).drop_last() =~= diffs.take(i as int));
            lemma_sum_of_push(diffs.take(i as int), diffs[i as int]);
            assert(diffs.take(i as int + 1) =~= diffs.take(i as int).push(diffs[i as int]));
            assert((i + 1) * 0xFFFF_FFFF_FFFF_FFFFint == i * 0xFFFF_FFFF_FFFF_FFFFint
                + 0xFFFF_FFFF_FFFF_FFFFint) by (nonlinear_arith);
        }
        d = d + (step as u128);
        i += 1;
    }
    proof {
        assert(diffs.take(a@.len() as int) =~= diffs);
        assert(l1_distance(
            Seq::new(a@.len(), |j: int| a@[j] as int),
            Seq::new(b@.len(), |j: int| b@[j] as int),
        ) == sum_of(diffs)) by {
            assert(Seq::new(
                Seq::new(a@.len(), |j: int| a@[j] as int).len(),
                |j: int|
                    if Seq::new(a@.len(), |k: int| a@[k] as int)[j] >= Seq::new(
                        b@.len(),
                        |k: int| b@[k] as int,
                    )[j] {
                        Seq::new(a@.len(), |k: int| a@[k] as int)[j] - Seq::new(
                            b@.len(),
                            |k: int| b@[k] as int,
                        )[j]
                    } else {
                        Seq::new(b@.len(), |k: int| b@[k] as int)[j] - Seq::new(
                            a@.len(),
                            |k: int| a@[k] as int,
                        )[j]
                    },
            ) =~= diffs);
        }
    }
    d
}

/// Whether a frame is flagged as a scene change against the retained previous
/// buffer: the L1 histogram distance must exceed a tenth of the pixel count.
/// The first frame is never a scene change.
pub open spec fn spec_scene_change(
    last: Option<Seq<u8>>,
    data: Seq<u8>,
    width: u32,
    height: u32,
) -> bool {
    match last {
        Option::None => false,
        Option::Some(prev) => 10 * l1_distance(
            spec_histogram_or_zero(data, width, height),
            spec_histogram_or_zero(prev, width, height),
        ) > width * height,
    }
}

/// Visual-activity proxy in millionths: the absolute difference of the mean
/// brightness of the frame and of the retained previous buffer, clamped to
/// full scale; 0 for the first frame. This stands in for audio until real
/// audio capture exists.
pub open spec fn spec_audio_micro(
    last: Option<Seq<u8>>,
    data: Seq<u8>,
    width: u32,
    height: u32,
) -> int {
    match last {
        Option::None => 0,
        Option::Some(prev) => {
            let cur = spec_brightness_micro(data, width, height);
            let before = spec_brightness_micro(prev, width, height);
            let diff = if cur >= before {
                cur - before
            } else {
                before - cur
            };
            if diff > MICRO_UNIT {
                MICRO_UNIT as int
            } else {
                diff
            }
        },
    }
}

/// One derived timeline record: capture instant and the per-frame signals,
/// each `[0, 1]` signal held in millionths.
#[derive(Clone, Copy, PartialEq, Eq, Structural, Debug)]
pub struct TimelineEntry {
    pub time_ns: u64,
    pub color_dominance_micro: u32,
    pub brightness_micro: u32,
    pub audio_level_micro: u32,
    pub scene_change: bool,
}

impl TimelineEntry {
    /// All scaled signals stay within full scale.
    pub open spec fn wf(&self) -> bool {
        &&& self.color_dominance_micro <= MICRO_UNIT
        &&& self.brightness_micro <= MICRO_UNIT
        &&& self.audio_level_micro <= MICRO_UNIT
    }
}

/// The timeline entry a frame yields against a retained previous buffer.
pub open spec fn spec_entry(
    last: Option<Seq<u8>>,
    data: Seq<u8>,
    width: u32,
    height: u32,
    timestamp: u64,
) -> TimelineEntry {
    TimelineEntry {
        time_ns: timestamp,
        color_dominance_micro: spec_dominance_micro(data, width, height) as u32,
        brightness_micro: spec_brightness_micro(data, width, height) as u32,
        audio_level_micro: spec_audio_micro(last, data, width, height) as u32,
        scene_change: spec_scene_change(last, data, width, height),
    }
}

/// Mathematical state of the analytics engine: the rolling timeline and the
/// retained previous frame buffer.
#[verifier::ext_equal]
pub struct PipelineModel {
    pub timeline: Seq<TimelineEntry>,
    pub last: Option<Seq<u8>>,
}

/// How one processed frame transforms the engine state: its entry is appended,
/// the oldest entry is evicted beyond the capacity, and the frame's buffer
/// becomes the retained previous buffer.
pub open spec fn spec_process(
    m: PipelineModel,
    data: Seq<u8>,
    width: u32,
    height: u32,
    timestamp: u64,
) -> PipelineModel {
    let e = spec_entry(m.last, data, width, height, timestamp);
    PipelineModel {
        timeline: if m.timeline.len() + 1 > TIMELINE_CAPACITY {
            m.timeline.push(e).drop_first()
        } else {
            m.timeline.push(e)
        },
        last: Option::Some(data),
    }
}

/// Derives per-frame analytics and keeps a bounded rolling timeline of them.
pub struct AnalyticsPipeline {
    timeline_data: VecDeque<TimelineEntry>,
    last_frame: Option<Vec<u8>>,
}

impl View for AnalyticsPipeline {
    type V = PipelineModel;

    closed spec fn view(&self) -> PipelineModel {
        PipelineModel {
            timeline: self.timeline_data@,
            last: match self.last_frame {
                Option::Some(v) => Option::Some(v@),
                Option::None => Option::None,
            },
        }
    }
}

/// Byte-for-byte copy of a pixel buffer.
fn copy_buffer(src: &Vec<u8>) -> (r: Vec<u8>)
    ensures
        r@ == src@,
{
    let mut out: Vec<u8> = Vec::new();
    let mut i: usize = 0;
    while i < src.len()
        invariant
            i <= src@.len(),
            out@ =~= src@.take(i as int),
        decreases src@.len() - i,
    {
        out.push(src[i]);
        i += 1;
    }
    proof {
        assert(src@.take(src@.len() as int) =~= src@);
    }
    out
}

impl AnalyticsPipeline {
    /// The timeline never exceeds its capacity and its entries are in range.
    pub open spec fn wf(&self) -> bool {
        &&& self@.timeline.len() <= TIMELINE_CAPACITY
        &&& forall|i: int| 0 <= i < self@.timeline.len() ==> (#[trigger] self@.timeline[i]).wf()
    }

    /// A fresh engine: empty timeline, no retained frame.
    pub fn new() -> (p: AnalyticsPipeline)
        ensures
            p@.timeline == Seq::<TimelineEntry>::empty(),
            p@.last is None,
            p.wf(),
    {
        AnalyticsPipeline { timeline_data: VecDeque::new(), last_frame: Option::None }
    }

    /// Consumes one frame: appends its timeline entry (evicting the oldest
    /// beyond capacity) and retains the frame's buffer for the next call.
    pub fn process_frame(&mut self, frame: &Frame)
        requires
            old(self).wf(),
        ensures
            final(self)@ == spec_process(
                old(self)@,
                frame.data@,
                frame.width,
                frame.height,
                frame.timestamp,
            ),
            final(self).wf(),
    {
        let width = frame.width;
        let height = frame.height;
        let dominance = dominance_micro_of(&frame.data, width, height);
        let brightness = brightness_micro_of(&frame.data, width, height);
        let scene_change: bool = match &self.last_frame {
            Option::None => false,
            Option::Some(prev) => {
                let cur_hist = compute_histogram(&frame.data, width, height);
                let prev_hist = compute_histogram(prev, width, height);
                let dist = histogram_l1(&cur_hist, &prev_hist);
                proof {
                    assert(Seq::new(cur_hist@.len(), |i: int| cur_hist@[i] as int)
                        =~= spec_histogram_or_zero(frame.data@, width, height));
                    assert(Seq::new(prev_hist@.len(), |i: int| prev_hist@[i] as int)
                        =~= spec_histogram_or_zero(prev@, width, height));
                }
                let pixels = pixel_count(width, height);
                10 * dist > (pixels as u128)
            },
        };
        let audio_level: u32 = match &self.last_frame {
            Option::None => 0,
            Option::Some(prev) => {
                let cur = brightness;
                let before = brightness_micro_of(prev, width, height);
                let diff = if cur >= before {
                    cur - before
                } else {
                    before - cur
                };
                if diff > MICRO_UNIT {
                    MICRO_UNIT
                } else {
                    diff
                }
            },
        };
        let entry = TimelineEntry {
            time_ns: frame.timestamp,
            color_dominance_micro: dominance,
            brightness_micro: brightness,
            audio_level_micro: audio_level,
            scene_change,
        };
        proof {
            assert(entry == spec_entry(
                old(self)@.last,
                frame.data@,
                frame.width,
                frame.height,
                frame.timestamp,
            ));
        }
        self.timeline_data.push_back(entry);
        if self.timeline_data.len() > TIMELINE_CAPACITY {
            let _ = self.timeline_data.pop_front();
        }
        self.last_frame = Option::Some(copy_buffer(&frame.data));
        proof {
            assert(self@ =~= spec_process(
                old(self)@,
                frame.data@,
                frame.width,
                frame.height,
                frame.timestamp,
            ));
        }
    }

    /// An ordered copy of the timeline, oldest entry first.
    pub fn get_timeline_data(&self) -> (v: Vec<TimelineEntry>)
        ensures
            v@ == self@.timeline,
    {
        let mut out: Vec<TimelineEntry> = Vec::new();
        let mut i: usize = 0;
        while i < self.timeline_data.len()
            invariant
                i <= self@.timeline.len(),
                out@ =~= self@.timeline.take(i as int),
            decreases self@.timeline.len() - i,
        {
            out.push(self.timeline_data[i]);
            i += 1;
        }
        proof {
            assert(self@.timeline.take(self@.timeline.len() as int) =~= self@.timeline);
        }
        out
    }
}

/// The engine state after a run of frames, in arrival order.
pub open spec fn spec_run(m: PipelineModel, frames: Seq<Frame>) -> PipelineModel
    decreases frames.len(),
{
    if frames.len() == 0 {
        m
    } else {
        let prev = spec_run(m, frames.drop_last());
        let f = frames.last();
        spec_process(prev, f.data@, f.width, f.height, f.timestamp)
    }
}

/// All entries a run of frames produces, in arrival order, before eviction.
pub open spec fn spec_entries(m: PipelineModel, frames: Seq<Frame>) -> Seq<TimelineEntry>
    decreases frames.len(),
{
    if frames.len() == 0 {
        Seq::empty()
    } else {
        let f = frames.last();
        spec_entries(m, frames.drop_last()).push(
            spec_entry(
                spec_run(m, frames.drop_last()).last,
                f.data@,
                f.width,
                f.height,
                f.timestamp,
            ),
        )
    }
}

/// The newest entries of a sequence, up to the timeline capacity.
pub open spec fn tail_capped(s: Seq<TimelineEntry>) -> Seq<TimelineEntry> {
    if s.len() <= TIMELINE_CAPACITY {
        s
    } else {
        s.skip(s.len() - TIMELINE_CAPACITY)
    }
}

/// A run produces one entry per frame.
pub proof fn lemma_spec_entries_len(m: PipelineModel, frames: Seq<Frame>)
    ensures
        spec_entries(m, frames).len() == frames.len(),
    decreases frames.len(),
{
    if frames.len() > 0 {
        lemma_spec_entries_len(m, frames.drop_last());
    }
}

/// Law: a run of the engine keeps exactly the newest entries, up to the
/// timeline capacity, of everything it produced after what it started with.
pub proof fn lemma_run_timeline(m: PipelineModel, frames: Seq<Frame>)
    requires
        m.timeline.len() <= TIMELINE_CAPACITY,
    ensures
        spec_run(m, frames).timeline == tail_capped(m.timeline + spec_entries(m, frames)),
    decreases frames.len(),
{
    if frames.len() == 0 {
        assert(m.timeline + Seq::<TimelineEntry>::empty() =~= m.timeline);
    } else {
        let fr = frames.drop_last();
        let f = frames.last();
        lemma_run_timeline(m, fr);
        lemma_spec_entries_len(m, fr);
        let s = m.timeline + spec_entries(m, fr);
        let e = spec_entry(spec_run(m, fr).last, f.data@, f.width, f.height, f.timestamp);
        assert(m.timeline + spec_entries(m, frames) =~= s.push(e));
        let kept = tail_capped(s);
        if s.len() < TIMELINE_CAPACITY {
            assert(spec_run(m, frames).timeline =~= tail_capped(s.push(e)));
        } else {
            assert(kept.len() == TIMELINE_CAPACITY);
            assert(kept.push(e).drop_first() =~= tail_capped(s.push(e)));
        }
        assert(spec_run(m, frames).timeline =~= tail_capped(m.timeline + spec_entries(m, frames)));
    }
}

/// Law: after more than the timeline capacity of processed frames, a fresh
/// engine's timeline holds exactly the most recent capacity-many entries, in
/// arrival order.
pub proof fn lemma_timeline_holds_last_entries(m: PipelineModel, frames: Seq<Frame>)
    requires
        m.timeline.len() == 0,
        frames.len() > TIMELINE_CAPACITY,
    ensures
        spec_run(m, frames).timeline == spec_entries(m, frames).skip(
            frames.len() - TIMELINE_CAPACITY,
        ),
        spec_run(m, frames).timeline.len() == TIMELINE_CAPACITY,
{
    lemma_run_timeline(m, frames);
    lemma_spec_entries_len(m, frames);
    assert(m.timeline + spec_entries(m, frames) =~= spec_entries(m, frames));
}

/// Law: processing the same frame twice yields identical color dominance and
/// identical brightness in the two produced entries.
pub proof fn lemma_reprocess_same_frame(m: PipelineModel, f: Frame)
    ensures
        ({
            let once = spec_process(m, f.data@, f.width, f.height, f.timestamp);
            let twice = spec_process(once, f.data@, f.width, f.height, f.timestamp);
            &&& once.timeline.len() > 0
            &&& twice.timeline.len() > 0
            &&& twice.timeline.last().color_dominance_micro
                == once.timeline.last().color_dominance_micro
            &&& twice.timeline.last().brightness_micro == once.timeline.last().brightness_micro
        }),
{
    let e1 = spec_entry(m.last, f.data@, f.width, f.height, f.timestamp);
    let once = spec_process(m, f.data@, f.width, f.height, f.timestamp);
    let e2 = spec_entry(once.last, f.data@, f.width, f.height, f.timestamp);
    assert(once.timeline.last() == e1);
    assert(spec_process(once, f.data@, f.width, f.height, f.timestamp).timeline.last() == e2);
}

/// Law: a frame whose pixels are identical to the frame processed just before
/// it is never flagged as a scene change.
pub proof fn lemma_identical_consecutive_frames_no_scene_change(
    m: PipelineModel,
    f: Frame,
    ts2: u64,
)
    ensures
        ({
            let once = spec_process(m, f.data@, f.width, f.height, f.timestamp);
            let twice = spec_process(once, f.data@, f.width, f.height, ts2);
            twice.timeline.last().scene_change == false
        }),
{
    lemma_l1_distance_self(spec_histogram_or_zero(f.data@, f.width, f.height));
    assert((f.width as int) * (f.height as int) >= 0) by (nonlinear_arith);
    let once = spec_process(m, f.data@, f.width, f.height, f.timestamp);
    let e2 = spec_entry(once.last, f.data@, f.width, f.height, ts2);
    assert(spec_process(once, f.data@, f.width, f.height, ts2).timeline.last() == e2);
}

} // verus!
