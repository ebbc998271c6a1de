//! The sidecar metadata document: a JSON rendering of the analytics timeline
//! beside the recorded file, a parser for it, and the proof that parsing a
//! rendered document gives back exactly what was rendered.
//!
//! Layout: `{"video_path":"<path>","entries":[<entry>,...]}` where each entry
//! is `{"time":S.NNNNNNNNN,"colorDominance":F,"brightness":F,"audioLevel":F,
//! "sceneChange":B}`; times carry nine fractional digits (nanoseconds), the
//! unit-interval signals six (millionths), quotes and backslashes in the path
//! are escaped with a backslash.

use vstd::prelude::*;
use crate::analytics::MICRO_UNIT;
use crate::analytics::TimelineEntry;
use crate::text::append_dec_fixed_u64;
use crate::text::append_dec_u64;
use crate::text::is_digit_char;
use crate::text::lemma_parse_digits_range;
use crate::text::spec_char_digit;
use crate::text::lemma_dec_fixed_value;
use crate::text::lemma_dec_value;
use crate::text::lemma_parse_digit_run;
use crate::text::pow10;
use crate::text::spec_dec;
use crate::text::spec_dec_fixed;
use crate::text::spec_parse_digits;

verus! {

/// The path with every quote and backslash preceded by a backslash.
pub open spec fn spec_escape(p: Seq<char>) -> Seq<char>
    decreases p.len(),
{
    if p.len() == 0 {
        Seq::empty()
    } else {
        let c = p.first();
        let rest = spec_escape(p.drop_first());
        if c == '"' || c == '\\' {
            seq!['\\', c] + rest
        } else {
            seq![c] + rest
        }
    }
}

/// A unit-interval signal in millionths, rendered with six fractional digits.
pub open spec fn spec_frac_json(micro: u32) -> Seq<char> {
    if micro >= MICRO_UNIT {
        "1.000000"@
    } else {
        "0."@ + spec_dec_fixed(micro as int, 6)
    }
}

/// A nanosecond instant rendered as seconds with nine fractional digits.
pub open spec fn spec_time_json(ns: u64) -> Seq<char> {
    spec_dec(ns as int / 1_000_000_000) + "."@ + spec_dec_fixed(ns as int % 1_000_000_000, 9)
}

/// One timeline entry as a JSON object.
pub open spec fn spec_entry_json(e: TimelineEntry) -> Seq<char> {
    "{\"time\":"@ + spec_time_json(e.time_ns) + ",\"colorDominance\":"@ + spec_frac_json(
        e.color_dominance_micro,
    ) + ",\"brightness\":"@ + spec_frac_json(e.brightness_micro) + ",\"audioLevel\":"@
        + spec_frac_json(e.audio_level_micro) + ",\"sceneChange\":"@ + (if e.scene_change {
        "true"@
    } else {
        "false"@
    }) + "}"@
}

/// The timeline entries as a comma-separated JSON list body.
pub open spec fn spec_entries_json(es: Seq<TimelineEntry>) -> Seq<char>
    decreases es.len(),
{
    if es.len() == 0 {
        Seq::empty()
    } else if es.len() == 1 {
        spec_entry_json(es[0])
    } else {
        spec_entries_json(es.drop_last()) + ","@ + spec_entry_json(es.last())
    }
}

/// The whole sidecar document.
pub open spec fn spec_sidecar_json(path: Seq<char>, es: Seq<TimelineEntry>) -> Seq<char> {
    "{\"video_path\":\""@ + spec_escape(path) + "\",\"entries\":["@ + spec_entries_json(es)
        + "]}"@
}

/// Appends the path with quotes and backslashes escaped.
fn append_escaped(s: &mut String, p: &str)
    ensures
        final(s)@ == old(s)@ + spec_escape(p@),
{
    let n = p.unicode_len();
    let mut i: usize = 0;
    while i < n
        invariant
            i <= n,
            n == p@.len(),
            s@ == old(s)@ + spec_escape(p@.take(i as int)),
        decreases n - i,
    {
        let c = p.get_char(i);
        if c == '"' {
            s.append("\\\"");
            proof {
                reveal_strlit("\\\"");
            }
        } else if c == '\\' {
            s.append("\\\\");
            proof {
                reveal_strlit("\\\\");
            }
        } else {
            let piece = p.substring_char(i, i + 1);
            s.append(piece);
        }
        proof {
            lemma_escape_push(p@.take(i as int), c);
            assert(p@.take(i as int).push(c) =~= p@.take(i as int + 1));
            assert(s@ =~= old(s)@ + spec_escape(p@.take(i as int + 1)));
        }
        i += 1;
    }
    proof {
        assert(p@.take(n as int) =~= p@);
    }
}

/// Escaping one more character appends its escaped form.
pub proof fn lemma_escape_push(p: Seq<char>, c: char)
    ensures
        spec_escape(p.push(c)) == spec_escape(p) + (if c == '"' || c == '\\' {
            seq!['\\', c]
        } else {
            seq![c]
        }),
    decreases p.len(),
{
    let tail = if c == '"' || c == '\\' {
        seq!['\\', c]
    } else {
        seq![c]
    };
    if p.len() == 0 {
        assert(p.push(c).first() == c);
        assert(p.push(c).drop_first() =~= Seq::<char>::empty());
        assert(spec_escape(Seq::<char>::empty()) =~= Seq::<char>::empty());
        assert(spec_escape(p.push(c)) == tail + spec_escape(Seq::<char>::empty()));
        assert(spec_escape(p.push(c)) =~= spec_escape(p) + tail);
    } else {
        assert(p.push(c).first() == p.first());
        assert(p.push(c).drop_first() =~= p.drop_first().push(c));
        lemma_escape_push(p.drop_first(), c);
        let head = if p.first() == '"' || p.first() == '\\' {
            seq!['\\', p.first()]
        } else {
            seq![p.first()]
        };
        assert(spec_escape(p.push(c)) == head + (spec_escape(p.drop_first()) + tail));
        assert(head + (spec_escape(p.drop_first()) + tail) =~= (head + spec_escape(p.drop_first()))
            + tail);
        assert(spec_escape(p) == head + spec_escape(p.drop_first()));
    }
}

/// Appends a unit-interval signal with six fractional digits.
fn append_frac(s: &mut String, micro: u32)
    ensures
        final(s)@ == old(s)@ + spec_frac_json(micro),
{
    if micro >= MICRO_UNIT {
        s.append("1.000000");
    } else {
        s.append("0.");
        append_dec_fixed_u64(s, micro as u64, 6);
        proof {
            assert((old(s)@ + "0."@) + spec_dec_fixed(micro as int, 6) =~= old(s)@ + ("0."@
                + spec_dec_fixed(micro as int, 6)));
        }
    }
}

/// Appends a nanosecond instant as seconds with nine fractional digits.
fn append_time(s: &mut String, ns: u64)
    ensures
        final(s)@ == old(s)@ + spec_time_json(ns),
{
    append_dec_u64(s, ns / 1_000_000_000);
    s.append(".");
    append_dec_fixed_u64(s, ns % 1_000_000_000, 9);
    proof {
        assert(((old(s)@ + spec_dec(ns as int / 1_000_000_000)) + "."@) + spec_dec_fixed(
            ns as int % 1_000_000_000,
            9,
        ) =~= old(s)@ + spec_time_json(ns));
    }
}

/// Appends one timeline entry as a JSON object.
fn append_entry(s: &mut String, e: &TimelineEntry)
    ensures
        final(s)@ == old(s)@ + spec_entry_json(*e),
{
    s.append("{\"time\":");
    append_time(s, e.time_ns);
    proof {
        assert(s@ =~= old(s)@ + ("{\"time\":"@ + spec_time_json(e.time_ns)));
    }
    let ghost g1 = "{\"time\":"@ + spec_time_json(e.time_ns);
    s.append(",\"colorDominance\":");
    append_frac(s, e.color_dominance_micro);
    proof {
        assert(s@ =~= old(s)@ + (g1 + ",\"colorDominance\":"@ + spec_frac_json(
            e.color_dominance_micro,
        )));
    }
    let ghost g2 = g1 + ",\"colorDominance\":"@ + spec_frac_json(e.color_dominance_micro);
    s.append(",\"brightness\":");
    append_frac(s, e.brightness_micro);
    proof {
        assert(s@ =~= old(s)@ + (g2 + ",\"brightness\":"@ + spec_frac_json(e.brightness_micro)));
    }
    let ghost g3 = g2 + ",\"brightness\":"@ + spec_frac_json(e.brightness_micro);
    s.append(",\"audioLevel\":");
    append_frac(s, e.audio_level_micro);
    proof {
        assert(s@ =~= old(s)@ + (g3 + ",\"audioLevel\":"@ + spec_frac_json(e.audio_level_micro)));
    }
    let ghost g4 = g3 + ",\"audioLevel\":"@ + spec_frac_json(e.audio_level_micro);
    s.append(",\"sceneChange\":");
    if e.scene_change {
        s.append("true");
    } else {
        s.append("false");
    }
    proof {
        assert(s@ =~= old(s)@ + (g4 + ",\"sceneChange\":"@ + (if e.scene_change {
            "true"@
        } else {
            "false"@
        })));
    }
    let ghost g5 = g4 + ",\"sceneChange\":"@ + (if e.scene_change {
        "true"@
    } else {
        "false"@
    });
    s.append("}");
    proof {
        assert(s@ =~= old(s)@ + (g5 + "}"@));
        assert(g5 + "}"@ =~= spec_entry_json(*e));
    }
}

/// Index of the last path separator, or -1 when there is none.
pub open spec fn spec_last_sep(p: Seq<char>) -> int
    decreases p.len(),
{
    if p.len() == 0 {
        -1
    } else if p.last() == '/' || p.last() == '\\' {
        p.len() - 1
    } else {
        spec_last_sep(p.drop_last())
    }
}

/// Index of the last dot, or -1 when there is none.
pub open spec fn spec_last_dot(p: Seq<char>) -> int
    decreases p.len(),
{
    if p.len() == 0 {
        -1
    } else if p.last() == '.' {
        p.len() - 1
    } else {
        spec_last_dot(p.drop_last())
    }
}

/// The sidecar path beside a video file: the extension of the final path
/// component is replaced with the metadata suffix; a component without an
/// extension gets the suffix appended. A leading dot alone (a hidden file)
/// does not count as an extension.
pub open spec fn spec_sidecar_path(p: Seq<char>) -> Seq<char> {
    let sep = spec_last_sep(p);
    let dot = spec_last_dot(p);
    if dot > sep + 1 {
        p.subrange(0, dot) + ".meta.json"@
    } else {
        p + ".meta.json"@
    }
}

/// Where the sidecar for a video path is written.
pub fn sidecar_path(video_path: &str) -> (r: String)
    ensures
        r@ == spec_sidecar_path(video_path@),
{
    let n = video_path.unicode_len();
    let mut sep_found = false;
    let mut sep: usize = 0;
    let mut dot_found = false;
    let mut dot: usize = 0;
    let mut i: usize = 0;
    while i < n
        invariant
            i <= n,
            n == video_path@.len(),
            spec_last_sep(video_path@.take(i as int)) == (if sep_found {
                sep as int
            } else {
                -1
            }),
            spec_last_dot(video_path@.take(i as int)) == (if dot_found {
                dot as int
            } else {
                -1
            }),
            sep_found ==> sep < i,
            dot_found ==> dot < i,
        decreases n - i,
    {
        let c = video_path.get_char(i);
        proof {
            assert(video_path@.take(i as int + 1).drop_last() =~= video_path@.take(i as int));
            assert(video_path@.take(i as int + 1).last() == video_path@[i as int]);
        }
        if c == '/' || c == '\\' {
            sep_found = true;
            sep = i;
        } else if c == '.' {
            dot_found = true;
            dot = i;
        }
        i += 1;
    }
    proof {
        assert(video_path@.take(n as int) =~= video_path@);
    }
    let has_ext = dot_found && (if sep_found {
        dot > sep + 1
    } else {
        dot > 0
    });
    if has_ext {
        let stem = video_path.substring_char(0, dot);
        let mut r = String::from_str(stem);
        r.append(".meta.json");
        proof {
            assert(r@ =~= spec_sidecar_path(video_path@));
        }
        r
    } else {
        let mut r = String::from_str(video_path);
        r.append(".meta.json");
        proof {
            assert(r@ =~= spec_sidecar_path(video_path@));
        }
        r
    }
}

/// Whether the literal `lit` stands in `s` at position `i`.
pub open spec fn match_lit(s: Seq<char>, i: int, lit: Seq<char>) -> bool {
    &&& 0 <= i
    &&& i + lit.len() <= s.len()
    &&& s.subrange(i, i + lit.len()) == lit
}

/// Reads a nonempty digit run at `i`: its value and the index past it.
pub open spec fn spec_parse_number(s: Seq<char>, i: int) -> Option<(int, int)> {
    let (v, j) = spec_parse_digits(s, i, 0);
    if j == i {
        Option::None
    } else {
        Option::Some((v, j))
    }
}

/// Reads seconds, a point, and exactly nine fractional digits: the instant in
/// nanoseconds, when it fits.
pub open spec fn spec_parse_time(s: Seq<char>, i: int) -> Option<(u64, int)> {
    match spec_parse_number(s, i) {
        Option::None => Option::None,
        Option::Some((secs, j)) => {
            if j < s.len() && s[j] == '.' {
                match spec_parse_number(s, j + 1) {
                    Option::None => Option::None,
                    Option::Some((frac, k)) => {
                        if k - (j + 1) == 9 && secs * 1_000_000_000 + frac <= u64::MAX {
                            Option::Some(((secs * 1_000_000_000 + frac) as u64, k))
                        } else {
                            Option::None
                        }
                    },
                }
            } else {
                Option::None
            }
        },
    }
}

/// Reads a unit-interval signal with exactly six fractional digits: its value
/// in millionths, when it fits.
pub open spec fn spec_parse_frac(s: Seq<char>, i: int) -> Option<(u32, int)> {
    match spec_parse_number(s, i) {
        Option::None => Option::None,
        Option::Some((whole, j)) => {
            if j < s.len() && s[j] == '.' {
                match spec_parse_number(s, j + 1) {
                    Option::None => Option::None,
                    Option::Some((frac, k)) => {
                        if k - (j + 1) == 6 && whole * 1_000_000 + frac <= u32::MAX {
                            Option::Some(((whole * 1_000_000 + frac) as u32, k))
                        } else {
                            Option::None
                        }
                    },
                }
            } else {
                Option::None
            }
        },
    }
}

/// Reads a string body up to its closing quote, undoing the escapes.
pub open spec fn spec_parse_jstring(s: Seq<char>, i: int) -> Option<(Seq<char>, int)>
    decreases s.len() - i,
{
    if i < 0 || i >= s.len() {
        Option::None
    } else if s[i] == '"' {
        Option::Some((Seq::empty(), i + 1))
    } else if s[i] == '\\' {
        if i + 1 < s.len() && (s[i + 1] == '"' || s[i + 1] == '\\') {
            match spec_parse_jstring(s, i + 2) {
                Option::None => Option::None,
                Option::Some((rest, j)) => Option::Some((seq![s[i + 1]] + rest, j)),
            }
        } else {
            Option::None
        }
    } else {
        match spec_parse_jstring(s, i + 1) {
            Option::None => Option::None,
            Option::Some((rest, j)) => Option::Some((seq![s[i]] + rest, j)),
        }
    }
}

/// Reads a boolean literal.
pub open spec fn spec_parse_bool(s: Seq<char>, i: int) -> Option<(bool, int)> {
    if match_lit(s, i, "true"@) {
        Option::Some((true, i + "true"@.len()))
    } else if match_lit(s, i, "false"@) {
        Option::Some((false, i + "false"@.len()))
    } else {
        Option::None
    }
}

/// Reads one timeline entry object.
pub open spec fn spec_parse_entry(s: Seq<char>, i: int) -> Option<(TimelineEntry, int)> {
    if !match_lit(s, i, "{\"time\":"@) {
        Option::None
    } else {
        match spec_parse_time(s, i + "{\"time\":"@.len()) {
            Option::None => Option::None,
            Option::Some((time_ns, i2)) => {
                if !match_lit(s, i2, ",\"colorDominance\":"@) {
                    Option::None
                } else {
                    match spec_parse_frac(s, i2 + ",\"colorDominance\":"@.len()) {
                        Option::None => Option::None,
                        Option::Some((cd, i3)) => {
                            if !match_lit(s, i3, ",\"brightness\":"@) {
                                Option::None
                            } else {
                                match spec_parse_frac(s, i3 + ",\"brightness\":"@.len()) {
                                    Option::None => Option::None,
                                    Option::Some((br, i4)) => {
                                        if !match_lit(s, i4, ",\"audioLevel\":"@) {
                                            Option::None
                                        } else {
                                            match spec_parse_frac(
                                                s,
                                                i4 + ",\"audioLevel\":"@.len(),
                                            ) {
                                                Option::None => Option::None,
                                                Option::Some((au, i5)) => {
                                                    if !match_lit(s, i5, ",\"sceneChange\":"@) {
                                                        Option::None
                                                    } else {
                                                        match spec_parse_bool(
                                                            s,
                                                            i5 + ",\"sceneChange\":"@.len(),
                                                        ) {
                                                            Option::None => Option::None,
                                                            Option::Some((sc, i6)) => {
                                                                if !match_lit(s, i6, "}"@) {
                                                                    Option::None
                                                                } else {
                                                                    Option::Some(
                                                                        (
                                                                            TimelineEntry {
                                                                                time_ns,
                                                                                color_dominance_micro: cd,
                                                                                brightness_micro: br,
                                                                                audio_level_micro: au,
                                                                                scene_change: sc,
                                                                            },
                                                                            i6 + "}"@.len(),
                                                                        ),
                                                                    )
                                                                }
                                                            },
                                                        }
                                                    }
                                                },
                                            }
                                        }
                                    },
                                }
                            }
                        },
                    }
                }
            },
        }
    }
}

/// Reads entry objects separated by commas, up to the closing bracket.
pub open spec fn spec_parse_entries_rest(s: Seq<char>, i: int) -> Option<
    (Seq<TimelineEntry>, int),
>
    decreases s.len() - i,
{
    match spec_parse_entry(s, i) {
        Option::None => Option::None,
        Option::Some((e, j)) => {
            if !(i < j <= s.len()) {
                Option::None
            } else if j < s.len() && s[j] == ',' {
                match spec_parse_entries_rest(s, j + 1) {
                    Option::None => Option::None,
                    Option::Some((rest, k)) => Option::Some((seq![e] + rest, k)),
                }
            } else if j < s.len() && s[j] == ']' {
                Option::Some((seq![e], j + 1))
            } else {
                Option::None
            }
        },
    }
}

/// Reads the entry list body after its opening bracket, consuming the closing
/// bracket.
pub open spec fn spec_parse_entries(s: Seq<char>, i: int) -> Option<(Seq<TimelineEntry>, int)> {
    if 0 <= i < s.len() && s[i] == ']' {
        Option::Some((Seq::empty(), i + 1))
    } else {
        spec_parse_entries_rest(s, i)
    }
}

/// Reads a whole sidecar document.
pub open spec fn spec_parse_sidecar(s: Seq<char>) -> Option<(Seq<char>, Seq<TimelineEntry>)> {
    if !match_lit(s, 0, "{\"video_path\":\""@) {
        Option::None
    } else {
        match spec_parse_jstring(s, "{\"video_path\":\""@.len() as int) {
            Option::None => Option::None,
            Option::Some((p, i2)) => {
                if !match_lit(s, i2, ",\"entries\":["@) {
                    Option::None
                } else {
                    match spec_parse_entries(s, i2 + ",\"entries\":["@.len()) {
                        Option::None => Option::None,
                        Option::Some((es, i3)) => {
                            if match_lit(s, i3, "}"@) && i3 + "}"@.len() == s.len() {
                                Option::Some((p, es))
                            } else {
                                Option::None
                            }
                        },
                    }
                }
            },
        }
    }
}

/// One character of an embedded piece, read out of the enclosing text.
pub proof fn lemma_piece_char(s: Seq<char>, i: int, piece: Seq<char>, k: int)
    requires
        0 <= i,
        i + piece.len() <= s.len(),
        s.subrange(i, i + piece.len()) == piece,
        0 <= k < piece.len(),
    ensures
        s[i + k] == piece[k],
{
    assert(s.subrange(i, i + piece.len())[k] == s[i + k]);
}

/// A slice of an embedded piece, read out of the enclosing text.
pub proof fn lemma_piece_sub(s: Seq<char>, i: int, piece: Seq<char>, a: int, b: int)
    requires
        0 <= i,
        i + piece.len() <= s.len(),
        s.subrange(i, i + piece.len()) == piece,
        0 <= a <= b <= piece.len(),
    ensures
        s.subrange(i + a, i + b) == piece.subrange(a, b),
{
    assert forall|k: int| 0 <= k < b - a implies s.subrange(i + a, i + b)[k] == piece.subrange(
        a,
        b,
    )[k] by {
        assert(s.subrange(i, i + piece.len())[a + k] == s[i + a + k]);
    }
    assert(s.subrange(i + a, i + b) =~= piece.subrange(a, b));
}

/// The concrete values of the small powers of ten the document formats use.
pub proof fn lemma_pow10_vals()
    ensures
        pow10(6) == 1_000_000,
        pow10(9) == 1_000_000_000,
{
    reveal_with_fuel(pow10, 11);
}

/// A digit run rendered without leading zeros parses back to its number.
pub proof fn lemma_parse_number_of_dec(s: Seq<char>, i: int, n: int)
    requires
        n >= 0,
        0 <= i,
        i + spec_dec(n).len() <= s.len(),
        s.subrange(i, i + spec_dec(n).len()) == spec_dec(n),
        i + spec_dec(n).len() == s.len() || !is_digit_char(s[i + spec_dec(n).len()]),
    ensures
        spec_parse_number(s, i) == Option::Some((n, i + spec_dec(n).len())),
{
    lemma_dec_value(n);
    lemma_parse_digit_run(s, i, spec_dec(n), 0);
    assert(0 * pow10(spec_dec(n).len()) == 0) by (nonlinear_arith);
}

/// A zero-padded digit run parses back to its number.
pub proof fn lemma_parse_number_of_dec_fixed(s: Seq<char>, i: int, n: int, w: nat)
    requires
        0 <= n < pow10(w),
        w >= 1,
        0 <= i,
        i + w <= s.len(),
        s.subrange(i, i + w as int) == spec_dec_fixed(n, w),
        i + w == s.len() || !is_digit_char(s[i + w]),
    ensures
        spec_parse_number(s, i) == Option::Some((n, i + w)),
{
    lemma_dec_fixed_value(n, w);
    lemma_parse_digit_run(s, i, spec_dec_fixed(n, w), 0);
    assert(0 * pow10(w) == 0) by (nonlinear_arith);
}

/// A rendered instant parses back to its nanosecond value.
pub proof fn lemma_parse_time_of_render(s: Seq<char>, i: int, ns: u64)
    requires
        0 <= i,
        i + spec_time_json(ns).len() <= s.len(),
        s.subrange(i, i + spec_time_json(ns).len()) == spec_time_json(ns),
        i + spec_time_json(ns).len() == s.len() || !is_digit_char(
            s[i + spec_time_json(ns).len()],
        ),
    ensures
        spec_parse_time(s, i) == Option::Some((ns, i + spec_time_json(ns).len())),
{
    reveal_strlit(".");
    lemma_pow10_vals();
    let secs = ns as int / 1_000_000_000;
    let frac = ns as int % 1_000_000_000;
    let a = spec_dec(secs);
    let b = spec_dec_fixed(frac, 9);
    let piece = spec_time_json(ns);
    lemma_dec_value(secs);
    lemma_dec_fixed_value(frac, 9);
    assert(piece.len() == a.len() + 1 + 9);
    lemma_piece_sub(s, i, piece, 0, a.len() as int);
    assert(piece.subrange(0, a.len() as int) =~= a);
    lemma_piece_char(s, i, piece, a.len() as int);
    assert(piece[a.len() as int] == '.');
    assert(!is_digit_char('.'));
    let j = i + a.len();
    lemma_piece_char(s, i, piece, a.len() as int + 1);
    assert(piece[a.len() as int + 1] == b[0]);
    lemma_parse_number_of_dec(s, i, secs);
    lemma_piece_sub(s, i, piece, a.len() as int + 1, piece.len() as int);
    assert(piece.subrange(a.len() as int + 1, piece.len() as int) =~= b);
    lemma_parse_number_of_dec_fixed(s, j + 1, frac, 9);
    assert(secs * 1_000_000_000 + frac == ns) by {
        vstd::arithmetic::div_mod::lemma_fundamental_div_mod(ns as int, 1_000_000_000);
    }
}

/// A rendered unit-interval signal parses back to its millionths value.
pub proof fn lemma_parse_frac_of_render(s: Seq<char>, i: int, micro: u32)
    requires
        micro <= MICRO_UNIT,
        0 <= i,
        i + spec_frac_json(micro).len() <= s.len(),
        s.subrange(i, i + spec_frac_json(micro).len()) == spec_frac_json(micro),
        i + spec_frac_json(micro).len() == s.len() || !is_digit_char(
            s[i + spec_frac_json(micro).len()],
        ),
    ensures
        spec_parse_frac(s, i) == Option::Some((micro, i + spec_frac_json(micro).len())),
{
    lemma_pow10_vals();
    let piece = spec_frac_json(micro);
    if micro >= MICRO_UNIT {
        reveal_strlit("1.000000");
        assert(piece.len() == 8);
        lemma_piece_sub(s, i, piece, 0, 1);
        assert(piece.subrange(0, 1) =~= spec_dec(1)) by {
            assert(spec_dec(1) =~= seq!['1']);
        }
        lemma_piece_char(s, i, piece, 1);
        assert(piece[1] == '.');
        assert(!is_digit_char('.'));
        lemma_piece_char(s, i, piece, 2);
        lemma_parse_number_of_dec(s, i, 1);
        reveal_with_fuel(spec_dec_fixed, 7);
        lemma_piece_sub(s, i, piece, 2, 8);
        assert(piece.subrange(2, 8) =~= spec_dec_fixed(0, 6)) by {
            assert(spec_dec_fixed(0, 6) =~= seq!['0', '0', '0', '0', '0', '0']);
        }
        lemma_parse_number_of_dec_fixed(s, i + 2, 0, 6);
        assert(1 * 1_000_000 + 0 == 1_000_000) by (nonlinear_arith);
    } else {
        reveal_strlit("0.");
        let b = spec_dec_fixed(micro as int, 6);
        lemma_dec_fixed_value(micro as int, 6);
        assert(piece.len() == 2 + 6);
        lemma_piece_sub(s, i, piece, 0, 1);
        assert(piece.subrange(0, 1) =~= spec_dec(0)) by {
            assert(spec_dec(0) =~= seq!['0']);
        }
        lemma_piece_char(s, i, piece, 1);
        assert(piece[1] == '.');
        assert(!is_digit_char('.'));
        lemma_piece_char(s, i, piece, 2);
        lemma_parse_number_of_dec(s, i, 0);
        lemma_piece_sub(s, i, piece, 2, 8);
        assert(piece.subrange(2, 8) =~= b);
        lemma_parse_number_of_dec_fixed(s, i + 2, micro as int, 6);
        assert(0 * 1_000_000 + micro == micro) by (nonlinear_arith);
    }
}

/// A rendered, escaped string body followed by its closing quote parses back
/// to the unescaped text.
pub proof fn lemma_parse_jstring_of_escape(s: Seq<char>, i: int, p: Seq<char>)
    requires
        0 <= i,
        i + spec_escape(p).len() < s.len(),
        s.subrange(i, i + spec_escape(p).len()) == spec_escape(p),
        s[i + spec_escape(p).len()] == '"',
    ensures
        spec_parse_jstring(s, i) == Option::Some((p, i + spec_escape(p).len() + 1)),
    decreases p.len(),
{
    if p.len() == 0 {
        assert(s[i] == '"');
    } else {
        let c = p.first();
        let rest = p.drop_first();
        let piece = spec_escape(p);
        if c == '"' || c == '\\' {
            assert(piece == seq!['\\', c] + spec_escape(rest));
            lemma_piece_char(s, i, piece, 0);
            lemma_piece_char(s, i, piece, 1);
            assert(s[i] == '\\');
            assert(s[i + 1] == c);
            lemma_piece_sub(s, i, piece, 2, piece.len() as int);
            assert(piece.subrange(2, piece.len() as int) =~= spec_escape(rest));
            lemma_parse_jstring_of_escape(s, i + 2, rest);
            assert(seq![c] + rest =~= p);
        } else {
            assert(piece == seq![c] + spec_escape(rest));
            lemma_piece_char(s, i, piece, 0);
            assert(s[i] == c);
            lemma_piece_sub(s, i, piece, 1, piece.len() as int);
            assert(piece.subrange(1, piece.len() as int) =~= spec_escape(rest));
            lemma_parse_jstring_of_escape(s, i + 1, rest);
            assert(seq![c] + rest =~= p);
        }
    }
}

/// A rendered boolean parses back to its value.
pub proof fn lemma_parse_bool_of_render(s: Seq<char>, i: int, b: bool)
    requires
        0 <= i,
        ({
            let lit = if b {
                "true"@
            } else {
                "false"@
            };
            i + lit.len() <= s.len() && s.subrange(i, i + lit.len()) == lit
        }),
    ensures
        spec_parse_bool(s, i) == Option::Some(
            (
                b,
                i + (if b {
                    "true"@.len() as int
                } else {
                    "false"@.len() as int
                }),
            ),
        ),
{
    reveal_strlit("true");
    reveal_strlit("false");
    if b {
    } else {
        lemma_piece_char(s, i, "false"@, 0);
        assert(s[i] == 'f');
        if match_lit(s, i, "true"@) {
            lemma_piece_char(s, i, "true"@, 0);
            assert(false);
        }
    }
}

/// A rendered entry object parses back to the entry.
#[verifier::rlimit(100)]
pub proof fn lemma_parse_entry_of_render(s: Seq<char>, i: int, e: TimelineEntry)
    requires
        e.wf(),
        0 <= i,
        i + spec_entry_json(e).len() <= s.len(),
        s.subrange(i, i + spec_entry_json(e).len()) == spec_entry_json(e),
    ensures
        spec_parse_entry(s, i) == Option::Some((e, i + spec_entry_json(e).len())),
{
    reveal_strlit(",\"colorDominance\":");
    reveal_strlit(",\"brightness\":");
    reveal_strlit(",\"audioLevel\":");
    reveal_strlit(",\"sceneChange\":");
    let piece = spec_entry_json(e);
    let l1 = "{\"time\":"@;
    let tj = spec_time_json(e.time_ns);
    let l2 = ",\"colorDominance\":"@;
    let f1 = spec_frac_json(e.color_dominance_micro);
    let l3 = ",\"brightness\":"@;
    let f2 = spec_frac_json(e.brightness_micro);
    let l4 = ",\"audioLevel\":"@;
    let f3 = spec_frac_json(e.audio_level_micro);
    let l5 = ",\"sceneChange\":"@;
    let bl = if e.scene_change {
        "true"@
    } else {
        "false"@
    };
    let l6 = "}"@;
    let o1 = l1.len() as int;
    let o2 = o1 + tj.len();
    let o3 = o2 + l2.len();
    let o4 = o3 + f1.len();
    let o5 = o4 + l3.len();
    let o6 = o5 + f2.len();
    let o7 = o6 + l4.len();
    let o8 = o7 + f3.len();
    let o9 = o8 + l5.len();
    let o10 = o9 + bl.len();
    let o11 = o10 + l6.len();
    assert(piece.len() == o11);
    lemma_piece_sub(s, i, piece, 0, o1);
    assert(piece.subrange(0, o1) =~= l1);
    assert(match_lit(s, i, l1));
    lemma_piece_sub(s, i, piece, o1, o2);
    assert(piece.subrange(o1, o2) =~= tj);
    lemma_piece_char(s, i, piece, o2);
    assert(piece[o2] == l2[0]);
    assert(!is_digit_char(','));
    lemma_parse_time_of_render(s, i + o1, e.time_ns);
    lemma_piece_sub(s, i, piece, o2, o3);
    assert(piece.subrange(o2, o3) =~= l2);
    assert(match_lit(s, i + o2, l2));
    lemma_piece_sub(s, i, piece, o3, o4);
    assert(piece.subrange(o3, o4) =~= f1);
    lemma_piece_char(s, i, piece, o4);
    assert(piece[o4] == l3[0]);
    lemma_parse_frac_of_render(s, i + o3, e.color_dominance_micro);
    lemma_piece_sub(s, i, piece, o4, o5);
    assert(piece.subrange(o4, o5) =~= l3);
    assert(match_lit(s, i + o4, l3));
    lemma_piece_sub(s, i, piece, o5, o6);
    assert(piece.subrange(o5, o6) =~= f2);
    lemma_piece_char(s, i, piece, o6);
    assert(piece[o6] == l4[0]);
    lemma_parse_frac_of_render(s, i + o5, e.brightness_micro);
    lemma_piece_sub(s, i, piece, o6, o7);
    assert(piece.subrange(o6, o7) =~= l4);
    assert(match_lit(s, i + o6, l4));
    lemma_piece_sub(s, i, piece, o7, o8);
    assert(piece.subrange(o7, o8) =~= f3);
    lemma_piece_char(s, i, piece, o8);
    assert(piece[o8] == l5[0]);
    lemma_parse_frac_of_render(s, i + o7, e.audio_level_micro);
    lemma_piece_sub(s, i, piece, o8, o9);
    assert(piece.subrange(o8, o9) =~= l5);
    assert(match_lit(s, i + o8, l5));
    lemma_piece_sub(s, i, piece, o9, o10);
    assert(piece.subrange(o9, o10) =~= bl);
    lemma_parse_bool_of_render(s, i + o9, e.scene_change);
    lemma_piece_sub(s, i, piece, o10, o11);
    assert(piece.subrange(o10, o11) =~= l6);
    assert(match_lit(s, i + o10, l6));
}

/// Splitting the rendered entry list at its first entry.
pub proof fn lemma_entries_json_front(es: Seq<TimelineEntry>)
    requires
        es.len() >= 2,
    ensures
        spec_entries_json(es) == spec_entry_json(es[0]) + ","@ + spec_entries_json(
            es.drop_first(),
        ),
    decreases es.len(),
{
    if es.len() == 2 {
        assert(es.drop_last().len() == 1);
        assert(es.drop_last()[0] == es[0]);
        assert(es.drop_first().len() == 1);
        assert(es.drop_first()[0] == es[1]);
        assert(es.last() == es[1]);
        assert(spec_entries_json(es.drop_last()) + ","@ + spec_entry_json(es.last())
            =~= spec_entry_json(es[0]) + ","@ + spec_entries_json(es.drop_first()));
    } else {
        lemma_entries_json_front(es.drop_last());
        assert(es.drop_last()[0] == es[0]);
        assert(es.drop_first().len() == es.len() - 1 >= 2);
        assert(es.drop_first().drop_last() =~= es.drop_last().drop_first());
        assert(es.drop_first().last() == es.last());
        assert(es.drop_first()[0] == es[1]);
        assert(spec_entries_json(es.drop_first()) == spec_entries_json(es.drop_first().drop_last())
            + ","@ + spec_entry_json(es.last()));
        assert(spec_entries_json(es.drop_last()) + ","@ + spec_entry_json(es.last())
            =~= spec_entry_json(es[0]) + ","@ + spec_entries_json(es.drop_first()));
    }
}

/// A rendered entry list followed by its closing bracket parses back to the
/// entries.
#[verifier::rlimit(100)]
pub proof fn lemma_parse_entries_of_render(s: Seq<char>, i: int, es: Seq<TimelineEntry>)
    requires
        forall|k: int| 0 <= k < es.len() ==> (#[trigger] es[k]).wf(),
        0 <= i,
        i + spec_entries_json(es).len() < s.len(),
        s.subrange(i, i + spec_entries_json(es).len()) == spec_entries_json(es),
        s[i + spec_entries_json(es).len()] == ']',
    ensures
        spec_parse_entries(s, i) == Option::Some((es, i + spec_entries_json(es).len() + 1)),
    decreases es.len(),
{
    reveal_strlit("{\"time\":");
    let body = spec_entries_json(es);
    if es.len() == 0 {
        assert(s[i] == ']');
    } else {
        let e0 = es[0];
        let ej = spec_entry_json(e0);
        assert(ej[0] == '{');
        if es.len() == 1 {
            assert(body == ej);
            lemma_parse_entry_of_render(s, i, e0);
            let j = i + ej.len();
            assert(s[i] == '{') by {
                lemma_piece_char(s, i, body, 0);
            }
            assert(s[j] == ']');
            assert(ej.len() >= 8);
            assert(seq![e0] =~= es);
        } else {
            lemma_entries_json_front(es);
            reveal_strlit(",");
            let rest_body = spec_entries_json(es.drop_first());
            assert(body.len() == ej.len() + 1 + rest_body.len());
            assert(s[i] == '{') by {
                lemma_piece_char(s, i, body, 0);
            }
            lemma_piece_sub(s, i, body, 0, ej.len() as int);
            assert(body.subrange(0, ej.len() as int) =~= ej);
            lemma_parse_entry_of_render(s, i, e0);
            let j = i + ej.len();
            lemma_piece_char(s, i, body, ej.len() as int);
            assert(body[ej.len() as int] == ","@[0]);
            assert(s[j] == ',');
            lemma_piece_sub(s, i, body, ej.len() as int + 1, body.len() as int);
            assert(body.subrange(ej.len() as int + 1, body.len() as int) =~= rest_body);
            assert(forall|k: int|
                0 <= k < es.drop_first().len() ==> (#[trigger] es.drop_first()[k]).wf());
            lemma_parse_entries_of_render(s, j + 1, es.drop_first());
            assert(es.drop_first().len() >= 1);
            assert(rest_body.len() >= 1);
            assert(s[j + 1] == '{') by {
                lemma_piece_char(s, j + 1, rest_body, 0);
                assert(rest_body[0] == '{') by {
                    if es.drop_first().len() == 1 {
                        assert(rest_body == spec_entry_json(es.drop_first()[0]));
                    } else {
                        lemma_entries_json_front(es.drop_first());
                    }
                }
            }
            assert(!(s[j + 1] == ']'));
            assert(spec_parse_entries_rest(s, j + 1) == Option::Some(
                (es.drop_first(), i + body.len() + 1),
            ));
            assert(ej.len() >= 8);
            assert(seq![e0] + es.drop_first() =~= es);
        }
    }
}

/// Where each of five concatenated pieces stands in the whole.
pub proof fn lemma_concat5(a: Seq<char>, b: Seq<char>, c: Seq<char>, d: Seq<char>, e: Seq<char>)
    ensures
        ({
            let s = a + b + c + d + e;
            &&& s.len() == a.len() + b.len() + c.len() + d.len() + e.len()
            &&& s.subrange(0, a.len() as int) == a
            &&& s.subrange(a.len() as int, (a.len() + b.len()) as int) == b
            &&& s.subrange((a.len() + b.len()) as int, (a.len() + b.len() + c.len()) as int) == c
            &&& s.subrange(
                (a.len() + b.len() + c.len()) as int,
                (a.len() + b.len() + c.len() + d.len()) as int,
            ) == d
            &&& s.subrange((a.len() + b.len() + c.len() + d.len()) as int, s.len() as int) == e
        }),
{
    let s = a + b + c + d + e;
    assert(s.subrange(0, a.len() as int) =~= a);
    assert(s.subrange(a.len() as int, (a.len() + b.len()) as int) =~= b);
    assert(s.subrange((a.len() + b.len()) as int, (a.len() + b.len() + c.len()) as int) =~= c);
    assert(s.subrange((a.len() + b.len() + c.len()) as int, (a.len() + b.len() + c.len() + d.len()) as int) =~= d);
    assert(s.subrange((a.len() + b.len() + c.len() + d.len()) as int, s.len() as int) =~= e);
}

/// Assembles the whole-document parse from the layout of its pieces.
proof fn lemma_sidecar_parse_steps(s: Seq<char>, path: Seq<char>, es: Seq<TimelineEntry>)
    requires
        forall|k: int| 0 <= k < es.len() ==> (#[trigger] es[k]).wf(),
        ({
            let h = "{\"video_path\":\""@;
            let esc = spec_escape(path);
            let lit2 = ",\"entries\":["@;
            let body = spec_entries_json(es);
            let i1 = h.len() as int;
            let i2 = i1 + esc.len() + 1;
            let i3 = i2 + lit2.len();
            let i4 = i3 + body.len() + 1;
            &&& s.len() == i4 + 1
            &&& match_lit(s, 0, h)
            &&& s.subrange(i1, i1 + esc.len()) == esc
            &&& s[i1 + esc.len()] == '"'
            &&& match_lit(s, i2, lit2)
            &&& s.subrange(i3, i3 + body.len()) == body
            &&& s[i3 + body.len()] == ']'
            &&& match_lit(s, i4, "}"@)
        }),
    ensures
        spec_parse_sidecar(s) == Option::Some((path, es)),
{
    let h = "{\"video_path\":\""@;
    let esc = spec_escape(path);
    let lit2 = ",\"entries\":["@;
    let body = spec_entries_json(es);
    let i1 = h.len() as int;
    let i2 = i1 + esc.len() + 1;
    let i3 = i2 + lit2.len();
    let i4 = i3 + body.len() + 1;
    assert("}"@.len() == 1) by {
        reveal_strlit("}");
    }
    lemma_parse_jstring_of_escape(s, i1, path);
    lemma_parse_entries_of_render(s, i3, es);
}

/// Law: parsing a rendered sidecar document gives back exactly the path and
/// the timeline entries that were rendered.
#[verifier::rlimit(100)]
pub proof fn lemma_sidecar_round_trip(path: Seq<char>, es: Seq<TimelineEntry>)
    requires
        forall|k: int| 0 <= k < es.len() ==> (#[trigger] es[k]).wf(),
    ensures
        spec_parse_sidecar(spec_sidecar_json(path, es)) == Option::Some((path, es)),
{
    let s = spec_sidecar_json(path, es);
    let h = "{\"video_path\":\""@;
    let esc = spec_escape(path);
    let mid = "\",\"entries\":["@;
    let body = spec_entries_json(es);
    let tail = "]}"@;
    let lit2 = ",\"entries\":["@;
    lemma_concat5(h, esc, mid, body, tail);
    assert(mid.len() == 13 && lit2.len() == 12 && mid[0] == '"') by {
        reveal_strlit("\",\"entries\":[");
        reveal_strlit(",\"entries\":[");
    }
    assert(tail.len() == 2 && tail[0] == ']') by {
        reveal_strlit("]}");
    }
    assert("}"@.len() == 1) by {
        reveal_strlit("}");
    }
    let i1 = h.len() as int;
    let i2 = i1 + esc.len() + 1;
    let i3 = i2 + lit2.len();
    let i4 = i3 + body.len() + 1;
    assert(match_lit(s, 0, h));
    lemma_piece_char(s, i1 + esc.len(), mid, 0);
    lemma_piece_sub(s, i1 + esc.len(), mid, 1, mid.len() as int);
    assert(mid.subrange(1, mid.len() as int) =~= lit2) by {
        reveal_strlit("\",\"entries\":[");
        reveal_strlit(",\"entries\":[");
    }
    assert(match_lit(s, i2, lit2));
    assert(s.subrange(i3, i3 + body.len()) == body);
    lemma_piece_char(s, i3 + body.len(), tail, 0);
    lemma_piece_sub(s, i3 + body.len(), tail, 1, 2);
    assert(tail.subrange(1, 2) =~= "}"@) by {
        reveal_strlit("]}");
        reveal_strlit("}");
    }
    assert(match_lit(s, i4, "}"@));
    assert(s.len() == i4 + 1);
    lemma_sidecar_parse_steps(s, path, es);
}

/// Renders the sidecar document for a recording and its timeline.
pub fn render_sidecar(video_path: &str, entries: &Vec<TimelineEntry>) -> (s: String)
    ensures
        s@ == spec_sidecar_json(video_path@, entries@),
{
    let mut s = String::from_str("");
    proof {
        reveal_strlit("");
        assert(s@ =~= Seq::<char>::empty());
    }
    s.append("{\"video_path\":\"");
    append_escaped(&mut s, video_path);
    s.append("\",\"entries\":[");
    let ghost header = "{\"video_path\":\""@ + spec_escape(video_path@) + "\",\"entries\":["@;
    proof {
        assert(s@ =~= header);
    }
    let mut i: usize = 0;
    while i < entries.len()
        invariant
            i <= entries@.len(),
            header == "{\"video_path\":\""@ + spec_escape(video_path@) + "\",\"entries\":["@,
            s@ == header + spec_entries_json(entries@.take(i as int)),
        decreases entries@.len() - i,
    {
        if i > 0 {
            s.append(",");
        }
        append_entry(&mut s, &entries[i]);
        proof {
            let pre = entries@.take(i as int);
            let cur = entries@.take(i as int + 1);
            assert(cur.drop_last() =~= pre);
            assert(cur.last() == entries@[i as int]);
            if i == 0 {
                assert(spec_entries_json(cur) == spec_entry_json(entries@[0]));
                assert(s@ =~= header + spec_entries_json(cur));
            } else {
                assert(spec_entries_json(cur) == spec_entries_json(pre) + ","@ + spec_entry_json(
                    entries@[i as int],
                ));
                assert(s@ =~= header + spec_entries_json(cur));
            }
        }
        i += 1;
    }
    s.append("]}");
    proof {
        assert(entries@.take(entries@.len() as int) =~= entries@);
        assert(s@ =~= spec_sidecar_json(video_path@, entries@));
    }
    s
}

/// The numeric value of a digit character.
fn digit_of(c: char) -> (r: Option<u8>)
    ensures
        match r {
            Option::Some(d) => spec_char_digit(c) == d as int && d < 10,
            Option::None => spec_char_digit(c) == -1,
        },
{
    match c {
        '0' => Option::Some(0),
        '1' => Option::Some(1),
        '2' => Option::Some(2),
        '3' => Option::Some(3),
        '4' => Option::Some(4),
        '5' => Option::Some(5),
        '6' => Option::Some(6),
        '7' => Option::Some(7),
        '8' => Option::Some(8),
        '9' => Option::Some(9),
        _ => Option::None,
    }
}

/// Reads a digit run; the value is handed back only when it fits a u64.
fn scan_number(s: &str, start: usize) -> (r: (Option<u64>, usize))
    requires
        start <= s@.len(),
    ensures
        ({
            let (v, j) = spec_parse_digits(s@, start as int, 0);
            &&& r.1 == j
            &&& start <= r.1 <= s@.len()
            &&& match r.0 {
                Option::Some(x) => x as int == v,
                Option::None => v > u64::MAX,
            }
        }),
{
    let n = s.unicode_len();
    let mut j = start;
    let mut acc: u64 = 0;
    let mut over = false;
    let ghost mut gacc: int = 0;
    loop
        invariant
            start <= j <= n,
            n == s@.len(),
            gacc >= 0,
            spec_parse_digits(s@, start as int, 0) == spec_parse_digits(s@, j as int, gacc),
            !over ==> acc as int == gacc,
            over ==> gacc > u64::MAX,
        ensures
            start <= j <= n,
            n == s@.len(),
            spec_parse_digits(s@, start as int, 0) == (gacc, j as int),
            !over ==> acc as int == gacc,
            over ==> gacc > u64::MAX,
        decreases n - j,
    {
        if j >= n {
            break ;
        }
        let c = s.get_char(j);
        let d = match digit_of(c) {
            Option::None => { break ; },
            Option::Some(d) => d,
        };
        if !over && acc <= (u64::MAX - (d as u64)) / 10 {
            proof {
                vstd::arithmetic::div_mod::lemma_fundamental_div_mod(
                    (u64::MAX - (d as u64)) as int,
                    10,
                );
                assert(acc * 10 <= ((u64::MAX - (d as u64)) as int / 10) * 10) by (nonlinear_arith)
                    requires
                        acc as int <= (u64::MAX - (d as u64)) as int / 10,
                ;
            }
            acc = acc * 10 + (d as u64);
        } else {
            proof {
                if !over {
                    vstd::arithmetic::div_mod::lemma_fundamental_div_mod(
                        (u64::MAX - (d as u64)) as int,
                        10,
                    );
                    vstd::arithmetic::div_mod::lemma_mod_bound(
                        (u64::MAX - (d as u64)) as int,
                        10,
                    );
                    assert(acc as int >= (u64::MAX - (d as u64)) as int / 10 + 1);
                    assert(acc * 10 >= ((u64::MAX - (d as u64)) as int / 10 + 1) * 10)
                        by (nonlinear_arith)
                        requires
                            acc as int >= (u64::MAX - (d as u64)) as int / 10 + 1,
                    ;
                    assert(gacc * 10 + d > u64::MAX);
                } else {
                    assert(gacc * 10 + d > u64::MAX);
                }
            }
            over = true;
        }
        proof {
            gacc = gacc * 10 + spec_char_digit(s@[j as int]);
        }
        j += 1;
    }
    (
        if over {
            Option::None
        } else {
            Option::Some(acc)
        },
        j,
    )
}

/// Reads an instant in seconds with nine fractional digits.
fn parse_time_at(s: &str, start: usize) -> (r: Option<(u64, usize)>)
    requires
        start <= s@.len(),
    ensures
        match r {
            Option::Some((v, j)) => {
                &&& spec_parse_time(s@, start as int) == Option::Some((v, j as int))
                &&& start < j <= s@.len()
            },
            Option::None => spec_parse_time(s@, start as int) is None,
        },
{
    let n = s.unicode_len();
    let (secs_opt, j) = scan_number(s, start);
    if j == start {
        return Option::None;
    }
    if j >= n || s.get_char(j) != '.' {
        return Option::None;
    }
    let (frac_opt, k) = scan_number(s, j + 1);
    if k - (j + 1) != 9 {
        return Option::None;
    }
    proof {
        lemma_parse_digits_range(s@, j as int + 1, 0);
        lemma_pow10_vals();
        assert(1 * pow10(9) == pow10(9)) by (nonlinear_arith);
    }
    let frac = frac_opt.unwrap();
    match secs_opt {
        Option::None => {
            proof {
                let secs = spec_parse_digits(s@, start as int, 0).0;
                assert(secs * 1_000_000_000 >= secs) by (nonlinear_arith)
                    requires
                        secs > u64::MAX,
                ;
            }
            Option::None
        },
        Option::Some(secs) => {
            let total: u128 = (secs as u128) * 1_000_000_000 + (frac as u128);
            if total > u64::MAX as u128 {
                Option::None
            } else {
                Option::Some((total as u64, k))
            }
        },
    }
}

/// Reads a unit-interval signal with six fractional digits.
fn parse_frac_at(s: &str, start: usize) -> (r: Option<(u32, usize)>)
    requires
        start <= s@.len(),
    ensures
        match r {
            Option::Some((v, j)) => {
                &&& spec_parse_frac(s@, start as int) == Option::Some((v, j as int))
                &&& start < j <= s@.len()
            },
            Option::None => spec_parse_frac(s@, start as int) is None,
        },
{
    let n = s.unicode_len();
    let (whole_opt, j) = scan_number(s, start);
    if j == start {
        return Option::None;
    }
    if j >= n || s.get_char(j) != '.' {
        return Option::None;
    }
    let (frac_opt, k) = scan_number(s, j + 1);
    if k - (j + 1) != 6 {
        return Option::None;
    }
    proof {
        lemma_parse_digits_range(s@, j as int + 1, 0);
        lemma_pow10_vals();
        assert(1 * pow10(6) == pow10(6)) by (nonlinear_arith);
    }
    let frac = frac_opt.unwrap();
    match whole_opt {
        Option::None => {
            proof {
                let whole = spec_parse_digits(s@, start as int, 0).0;
                assert(whole * 1_000_000 >= whole) by (nonlinear_arith)
                    requires
                        whole > u64::MAX,
                ;
            }
            Option::None
        },
        Option::Some(whole) => {
            let total: u128 = (whole as u128) * 1_000_000 + (frac as u128);
            if total > u32::MAX as u128 {
                Option::None
            } else {
                Option::Some((total as u32, k))
            }
        },
    }
}

/// Matches a literal at a position; the index just past it on success.
fn expect_lit(s: &str, start: usize, lit: &str) -> (r: Option<usize>)
    ensures
        match r {
            Option::Some(j) => {
                &&& match_lit(s@, start as int, lit@)
                &&& j == start + lit@.len()
                &&& j <= s@.len()
            },
            Option::None => !match_lit(s@, start as int, lit@),
        },
{
    let n = s.unicode_len();
    let m = lit.unicode_len();
    if m > n || start > n - m {
        return Option::None;
    }
    let mut k: usize = 0;
    while k < m
        invariant
            k <= m,
            m == lit@.len(),
            n == s@.len(),
            start + m <= n,
            forall|t: int| 0 <= t < k ==> s@[start + t] == lit@[t],
        decreases m - k,
    {
        if s.get_char(start + k) != lit.get_char(k) {
            proof {
                if match_lit(s@, start as int, lit@) {
                    lemma_piece_char(s@, start as int, lit@, k as int);
                    assert(false);
                }
            }
            return Option::None;
        }
        k += 1;
    }
    proof {
        assert(s@.subrange(start as int, start + lit@.len()) =~= lit@);
    }
    Option::Some(start + m)
}

/// Reads a boolean literal.
fn parse_bool_at(s: &str, start: usize) -> (r: Option<(bool, usize)>)
    ensures
        match r {
            Option::Some((b, j)) => {
                &&& spec_parse_bool(s@, start as int) == Option::Some((b, j as int))
                &&& start < j <= s@.len()
            },
            Option::None => spec_parse_bool(s@, start as int) is None,
        },
{
    match expect_lit(s, start, "true") {
        Option::Some(j) => {
            proof {
                reveal_strlit("true");
            }
            Option::Some((true, j))
        },
        Option::None => {
            match expect_lit(s, start, "false") {
                Option::Some(j) => {
                    proof {
                        reveal_strlit("false");
                    }
                    Option::Some((false, j))
                },
                Option::None => Option::None,
            }
        },
    }
}

/// Reads one timeline entry object.
fn parse_entry_at(s: &str, start: usize) -> (r: Option<(TimelineEntry, usize)>)
    requires
        start <= s@.len(),
    ensures
        match r {
            Option::Some((e, j)) => {
                &&& spec_parse_entry(s@, start as int) == Option::Some((e, j as int))
                &&& start < j <= s@.len()
            },
            Option::None => spec_parse_entry(s@, start as int) is None,
        },
{
    let i1 = match expect_lit(s, start, "{\"time\":") {
        Option::Some(j) => j,
        Option::None => {
            return Option::None;
        },
    };
    proof {
        reveal_strlit("{\"time\":");
    }
    let (time_ns, i2) = match parse_time_at(s, i1) {
        Option::Some(p) => p,
        Option::None => {
            return Option::None;
        },
    };
    let i3 = match expect_lit(s, i2, ",\"colorDominance\":") {
        Option::Some(j) => j,
        Option::None => {
            return Option::None;
        },
    };
    let (cd, i4) = match parse_frac_at(s, i3) {
        Option::Some(p) => p,
        Option::None => {
            return Option::None;
        },
    };
    let i5 = match expect_lit(s, i4, ",\"brightness\":") {
        Option::Some(j) => j,
        Option::None => {
            return Option::None;
        },
    };
    let (br, i6) = match parse_frac_at(s, i5) {
        Option::Some(p) => p,
        Option::None => {
            return Option::None;
        },
    };
    let i7 = match expect_lit(s, i6, ",\"audioLevel\":") {
        Option::Some(j) => j,
        Option::None => {
            return Option::None;
        },
    };
    let (au, i8) = match parse_frac_at(s, i7) {
        Option::Some(p) => p,
        Option::None => {
            return Option::None;
        },
    };
    let i9 = match expect_lit(s, i8, ",\"sceneChange\":") {
        Option::Some(j) => j,
        Option::None => {
            return Option::None;
        },
    };
    let (sc, i10) = match parse_bool_at(s, i9) {
        Option::Some(p) => p,
        Option::None => {
            return Option::None;
        },
    };
    let i11 = match expect_lit(s, i10, "}") {
        Option::Some(j) => j,
        Option::None => {
            return Option::None;
        },
    };
    Option::Some(
        (
            TimelineEntry {
                time_ns,
                color_dominance_micro: cd,
                brightness_micro: br,
                audio_level_micro: au,
                scene_change: sc,
            },
            i11,
        ),
    )
}

/// Whether the whole-list parse is pinned down by what remains at `cur` after
/// the entries in `done` were read.
pub open spec fn entries_parse_links(
    s: Seq<char>,
    start: int,
    done: Seq<TimelineEntry>,
    cur: int,
) -> bool {
    match spec_parse_entries_rest(s, cur) {
        Option::Some((rest, k)) => spec_parse_entries(s, start) == Option::Some((done + rest, k)),
        Option::None => spec_parse_entries(s, start) is None,
    }
}

/// Reads the entry list body after its opening bracket.
fn parse_entries_at(s: &str, start: usize) -> (r: Option<(Vec<TimelineEntry>, usize)>)
    requires
        start <= s@.len(),
    ensures
        match r {
            Option::Some((es, j)) => {
                &&& spec_parse_entries(s@, start as int) == Option::Some((es@, j as int))
                &&& j <= s@.len()
            },
            Option::None => spec_parse_entries(s@, start as int) is None,
        },
{
    let n = s.unicode_len();
    if start < n && s.get_char(start) == ']' {
        return Option::Some((Vec::new(), start + 1));
    }
    let mut out: Vec<TimelineEntry> = Vec::new();
    let mut cur = start;
    proof {
        assert(entries_parse_links(s@, start as int, out@, start as int)) by {
            if spec_parse_entries_rest(s@, start as int) is Some {
                let (r2, k) = spec_parse_entries_rest(s@, start as int).unwrap();
                assert(Seq::<TimelineEntry>::empty() + r2 =~= r2);
            }
        }
    }
    loop
        invariant
            start <= cur <= n,
            n == s@.len(),
            entries_parse_links(s@, start as int, out@, cur as int),
        decreases n - cur,
    {
        let (e, j) = match parse_entry_at(s, cur) {
            Option::Some(p) => p,
            Option::None => {
                return Option::None;
            },
        };
        let ghost prev = out@;
        if j < n && s.get_char(j) == ',' {
            out.push(e);
            proof {
                assert(entries_parse_links(s@, start as int, out@, j as int + 1)) by {
                    if spec_parse_entries_rest(s@, j as int + 1) is Some {
                        let (r2, k) = spec_parse_entries_rest(s@, j as int + 1).unwrap();
                        assert(spec_parse_entries_rest(s@, cur as int) == Option::Some(
                            (seq![e] + r2, k),
                        ));
                        assert(prev + (seq![e] + r2) =~= out@ + r2);
                    } else {
                        assert(spec_parse_entries_rest(s@, cur as int) is None);
                    }
                }
            }
            cur = j + 1;
        } else if j < n && s.get_char(j) == ']' {
            out.push(e);
            proof {
                assert(spec_parse_entries_rest(s@, cur as int) == Option::Some(
                    (seq![e], j as int + 1),
                ));
                assert(prev + seq![e] =~= out@);
            }
            return Option::Some((out, j + 1));
        } else {
            return Option::None;
        }
    }
}

/// Reads a string body up to its closing quote, undoing the escapes.
fn parse_jstring_at(s: &str, start: usize) -> (r: Option<(String, usize)>)
    requires
        start <= s@.len(),
    ensures
        match r {
            Option::Some((p, j)) => {
                &&& spec_parse_jstring(s@, start as int) == Option::Some((p@, j as int))
                &&& j <= s@.len()
            },
            Option::None => spec_parse_jstring(s@, start as int) is None,
        },
{
    let n = s.unicode_len();
    let mut out = String::from_str("");
    proof {
        reveal_strlit("");
        assert(out@ =~= Seq::<char>::empty());
    }
    let mut cur = start;
    loop
        invariant
            start <= cur <= n,
            n == s@.len(),
            ({
                match spec_parse_jstring(s@, cur as int) {
                    Option::Some((rest, j)) => spec_parse_jstring(s@, start as int)
                        == Option::Some((out@ + rest, j)),
                    Option::None => spec_parse_jstring(s@, start as int) is None,
                }
            }),
        decreases n - cur,
    {
        if cur >= n {
            return Option::None;
        }
        let c = s.get_char(cur);
        if c == '"' {
            proof {
                assert(out@ + Seq::<char>::empty() =~= out@);
            }
            return Option::Some((out, cur + 1));
        } else if c == '\\' {
            if cur + 1 < n {
                let c2 = s.get_char(cur + 1);
                if c2 == '"' || c2 == '\\' {
                    let piece = s.substring_char(cur + 1, cur + 2);
                    out.append(piece);
                    proof {
                        assert(piece@ =~= seq![s@[cur as int + 1]]);
                        assert forall|rest: Seq<char>|
                            true implies ((out@.subrange(0, out@.len() - 1) + (seq![
                            s@[cur as int + 1],
                        ] + rest)) =~= (out@ + rest)) by {}
                    }
                    cur = cur + 2;
                } else {
                    return Option::None;
                }
            } else {
                return Option::None;
            }
        } else {
            let piece = s.substring_char(cur, cur + 1);
            out.append(piece);
            proof {
                assert(piece@ =~= seq![s@[cur as int]]);
            }
            cur = cur + 1;
        }
    }
}

/// Parses a sidecar document: the recorded file's path and the timeline
/// entries, exactly when the text has the sidecar layout.
pub fn parse_sidecar(s: &str) -> (r: Option<(String, Vec<TimelineEntry>)>)
    ensures
        match r {
            Option::Some((p, es)) => spec_parse_sidecar(s@) == Option::Some((p@, es@)),
            Option::None => spec_parse_sidecar(s@) is None,
        },
{
    let n = s.unicode_len();
    let i1 = match expect_lit(s, 0, "{\"video_path\":\"") {
        Option::Some(j) => j,
        Option::None => {
            return Option::None;
        },
    };
    let (p, i2) = match parse_jstring_at(s, i1) {
        Option::Some(v) => v,
        Option::None => {
            return Option::None;
        },
    };
    let i3 = match expect_lit(s, i2, ",\"entries\":[") {
        Option::Some(j) => j,
        Option::None => {
            return Option::None;
        },
    };
    let (es, i4) = match parse_entries_at(s, i3) {
        Option::Some(v) => v,
        Option::None => {
            return Option::None;
        },
    };
    let i5 = match expect_lit(s, i4, "}") {
        Option::Some(j) => j,
        Option::None => {
            return Option::None;
        },
    };
    if i5 == n {
        Option::Some((p, es))
    } else {
        Option::None
    }
}

} // verus!
