//! The per-property record mappers: each consumes one arity-checked group
//! of field spans and yields a fully populated record, or nothing when a
//! mandatory field fails to decode.

use vstd::prelude::*;

use crate::common::ParseError;
use crate::common::ParseErrorCode;
use crate::decimal::{clamp_i64, dec_scaled};
use crate::lexer::{same_scan_fields, StepmaniaParser};
use crate::numbers::{
    i32_of_string,
    number_value,
    parse_i32_range,
    parse_u16_range,
    parse_u32_range,
    parse_u8_range,
    u16_of_string,
    u32_of_string,
    u8_of_string,
};
use crate::records::{
    StepmaniaColor,
    StepmaniaInstrumentTrack,
    StepmaniaTimedBPM,
    StepmaniaTimedComboChange,
    StepmaniaTimedDuration,
    StepmaniaTimedLabel,
    StepmaniaTimedNumber,
    StepmaniaTimedScrollSpeedChange,
    StepmaniaTimedSpeedChange,
    StepmaniaTimedTimeSignature,
    StepmaniaTimedVisualChange,
};
use crate::span::{SpanG, UnparsedPropertyValue};
use crate::text::{chars_string, str_chars, trim_bounds, trim_seq};
use crate::values::{bool_errors, bool_value, color_errors, color_value_of, number_errors};

verus! {

/// Times are decimal numbers scaled to milliseconds: three fractional
/// digits.
pub const PRECISION_TIME: u8 = 3;

/// What decoding a rate-like field yields: the decimal value scaled by
/// `10^p`, truncated towards zero and saturated at the `i64` bounds.
pub open spec fn rate_value(text: Seq<char>, p: nat) -> Option<i64> {
    match dec_scaled(text, p) {
        Some(x) => Some(clamp_i64(x)),
        None => None,
    }
}

/// Decodes a span as a rate-like decimal scaled by `10^precision`.
fn parse_rate(v: &UnparsedPropertyValue, precision: u8) -> (r: Option<i64>)
    requires
        precision <= 9,
    ensures
        r == rate_value(v@.text, precision as nat),
{
    let chars = str_chars(v.raw.as_str());
    let r = crate::decimal::parse_dec_scaled_chars(chars.as_slice(), 0, chars.len(), precision);
    proof {
        assert(chars@.subrange(0, chars@.len() as int) =~= chars@);
    }
    r
}

/// Decodes the trimmed span as a `u8` numeral.
fn parse_trimmed_u8(v: &UnparsedPropertyValue) -> (r: Option<u8>)
    ensures
        r == u8_of_string(trim_seq(v@.text)),
{
    let chars = str_chars(v.raw.as_str());
    let (lo, hi) = trim_bounds(chars.as_slice(), 0, chars.len());
    proof {
        assert(chars@.subrange(0, chars@.len() as int) =~= chars@);
    }
    parse_u8_range(chars.as_slice(), lo, hi)
}

/// Decodes the trimmed span as a `u16` numeral.
pub fn parse_trimmed_u16(v: &UnparsedPropertyValue) -> (r: Option<u16>)
    ensures
        r == u16_of_string(trim_seq(v@.text)),
{
    let chars = str_chars(v.raw.as_str());
    let (lo, hi) = trim_bounds(chars.as_slice(), 0, chars.len());
    proof {
        assert(chars@.subrange(0, chars@.len() as int) =~= chars@);
    }
    parse_u16_range(chars.as_slice(), lo, hi)
}

/// Decodes the trimmed span as a `u32` numeral.
pub fn parse_trimmed_u32(v: &UnparsedPropertyValue) -> (r: Option<u32>)
    ensures
        r == u32_of_string(trim_seq(v@.text)),
{
    let chars = str_chars(v.raw.as_str());
    let (lo, hi) = trim_bounds(chars.as_slice(), 0, chars.len());
    proof {
        assert(chars@.subrange(0, chars@.len() as int) =~= chars@);
    }
    parse_u32_range(chars.as_slice(), lo, hi)
}

/// Decodes the trimmed span as an `i32` numeral.
fn parse_trimmed_i32(v: &UnparsedPropertyValue) -> (r: Option<i32>)
    ensures
        r == i32_of_string(trim_seq(v@.text)),
{
    let chars = str_chars(v.raw.as_str());
    let (lo, hi) = trim_bounds(chars.as_slice(), 0, chars.len());
    proof {
        assert(chars@.subrange(0, chars@.len() as int) =~= chars@);
    }
    parse_i32_range(chars.as_slice(), lo, hi)
}

/// The trimmed text of a span, as a `String`.
pub fn trimmed_string(v: &UnparsedPropertyValue) -> (r: String)
    ensures
        r@ == trim_seq(v@.text),
{
    let chars = str_chars(v.raw.as_str());
    let (lo, hi) = trim_bounds(chars.as_slice(), 0, chars.len());
    proof {
        assert(chars@.subrange(0, chars@.len() as int) =~= chars@);
    }
    chars_string(chars.as_slice(), lo, hi)
}

/// What the timed-duration mapper yields from `beat(time) duration(time)`.
pub open spec fn timed_duration_value(g: Seq<SpanG>) -> Option<StepmaniaTimedDuration> {
    let beat = number_value(g[0].text, PRECISION_TIME as nat);
    let dur = number_value(g[1].text, PRECISION_TIME as nat);
    if beat is Some && dur is Some {
        Some(StepmaniaTimedDuration { beat: beat->Some_0, duration: dur->Some_0 })
    } else {
        None
    }
}

/// The diagnostics of the timed-duration mapper.
pub open spec fn timed_duration_errors(g: Seq<SpanG>) -> Seq<ParseError> {
    number_errors(g[0], PRECISION_TIME as nat) + number_errors(g[1], PRECISION_TIME as nat)
}

/// What the timed-BPM mapper yields from `beat(time) bpm(time)`.
pub open spec fn timed_bpm_value(g: Seq<SpanG>) -> Option<StepmaniaTimedBPM> {
    let beat = number_value(g[0].text, PRECISION_TIME as nat);
    let bpm = number_value(g[1].text, PRECISION_TIME as nat);
    if beat is Some && bpm is Some {
        Some(StepmaniaTimedBPM { beat: beat->Some_0, bpm: bpm->Some_0 })
    } else {
        None
    }
}

/// The diagnostics of the timed-BPM mapper.
pub open spec fn timed_bpm_errors(g: Seq<SpanG>) -> Seq<ParseError> {
    number_errors(g[0], PRECISION_TIME as nat) + number_errors(g[1], PRECISION_TIME as nat)
}

/// What the time-signature mapper yields from
/// `beat(time) numerator(u8) denominator(u8)`; the two integers record no
/// diagnostics on failure.
pub open spec fn time_signature_value(g: Seq<SpanG>) -> Option<StepmaniaTimedTimeSignature> {
    let beat = number_value(g[0].text, PRECISION_TIME as nat);
    let num = u8_of_string(trim_seq(g[1].text));
    let den = u8_of_string(trim_seq(g[2].text));
    if beat is Some && num is Some && den is Some {
        Some(
            StepmaniaTimedTimeSignature {
                beat: beat->Some_0,
                numerator: num->Some_0,
                denominator: den->Some_0,
            },
        )
    } else {
        None
    }
}

/// The diagnostics of the time-signature mapper.
pub open spec fn time_signature_errors(g: Seq<SpanG>) -> Seq<ParseError> {
    number_errors(g[0], PRECISION_TIME as nat)
}

/// What the timed-number mapper yields from `beat(time) value(i32)`.
pub open spec fn timed_number_value(g: Seq<SpanG>) -> Option<StepmaniaTimedNumber> {
    let beat = number_value(g[0].text, PRECISION_TIME as nat);
    let val = i32_of_string(trim_seq(g[1].text));
    if beat is Some && val is Some {
        Some(StepmaniaTimedNumber { beat: beat->Some_0, value: val->Some_0 })
    } else {
        None
    }
}

/// The diagnostics of the timed-number mapper.
pub open spec fn timed_number_errors(g: Seq<SpanG>) -> Seq<ParseError> {
    number_errors(g[0], PRECISION_TIME as nat)
}

/// What the combo-change mapper yields from `beat(time) hit(u32) miss(u32)`.
pub open spec fn combo_change_value(g: Seq<SpanG>) -> Option<StepmaniaTimedComboChange> {
    let beat = number_value(g[0].text, PRECISION_TIME as nat);
    let hit = u32_of_string(trim_seq(g[1].text));
    let miss = u32_of_string(trim_seq(g[2].text));
    if beat is Some && hit is Some && miss is Some {
        Some(
            StepmaniaTimedComboChange {
                beat: beat->Some_0,
                hit: hit->Some_0,
                miss: miss->Some_0,
            },
        )
    } else {
        None
    }
}

/// The diagnostics of the combo-change mapper.
pub open spec fn combo_change_errors(g: Seq<SpanG>) -> Seq<ParseError> {
    number_errors(g[0], PRECISION_TIME as nat)
}

/// What the speed-change mapper yields from
/// `beat(time) ratio(rate) duration(time) in-seconds(u32 flag)`; the ratio
/// and the flag record no diagnostics on failure.
pub open spec fn speed_change_value(g: Seq<SpanG>) -> Option<StepmaniaTimedSpeedChange> {
    let beat = number_value(g[0].text, PRECISION_TIME as nat);
    let ratio = rate_value(g[1].text, PRECISION_TIME as nat);
    let dur = number_value(g[2].text, PRECISION_TIME as nat);
    let flag = u32_of_string(trim_seq(g[3].text));
    if beat is Some && ratio is Some && dur is Some && flag is Some {
        Some(
            StepmaniaTimedSpeedChange {
                beat: beat->Some_0,
                ratio: ratio->Some_0,
                duration: dur->Some_0,
                in_seconds: flag->Some_0 == 1u32,
            },
        )
    } else {
        None
    }
}

/// The diagnostics of the speed-change mapper.
pub open spec fn speed_change_errors(g: Seq<SpanG>) -> Seq<ParseError> {
    number_errors(g[0], PRECISION_TIME as nat) + number_errors(g[2], PRECISION_TIME as nat)
}

/// What the scroll-speed mapper yields from `beat(time) factor(rate)`; the
/// factor records no diagnostics on failure.
pub open spec fn scroll_speed_value(g: Seq<SpanG>) -> Option<StepmaniaTimedScrollSpeedChange> {
    let beat = number_value(g[0].text, PRECISION_TIME as nat);
    let factor = rate_value(g[1].text, PRECISION_TIME as nat);
    if beat is Some && factor is Some {
        Some(StepmaniaTimedScrollSpeedChange { beat: beat->Some_0, factor: factor->Some_0 })
    } else {
        None
    }
}

/// The diagnostics of the scroll-speed mapper.
pub open spec fn scroll_speed_errors(g: Seq<SpanG>) -> Seq<ParseError> {
    number_errors(g[0], PRECISION_TIME as nat)
}

/// The beat of the label mapper; its text is the trimmed second field.
pub open spec fn timed_label_beat(g: Seq<SpanG>) -> Option<i64> {
    number_value(g[0].text, PRECISION_TIME as nat)
}

/// The diagnostics of the label mapper.
pub open spec fn timed_label_errors(g: Seq<SpanG>) -> Seq<ParseError> {
    number_errors(g[0], PRECISION_TIME as nat)
}

/// The beat of a visual change: the first field as a time, or 0 when it
/// fails to decode.
pub open spec fn visual_beat(g: Seq<SpanG>) -> i64 {
    if g.len() > 0 {
        match number_value(g[0].text, PRECISION_TIME as nat) {
            Some(b) => b,
            None => 0,
        }
    } else {
        0
    }
}

/// The play rate of a visual change: the third field truncated to a whole
/// rate, or 0 when absent or failing.
pub open spec fn visual_play_rate(g: Seq<SpanG>) -> i64 {
    if g.len() > 2 {
        match rate_value(g[2].text, 0) {
            Some(x) => x,
            None => 0,
        }
    } else {
        0
    }
}

/// A positional text field of a visual change, untrimmed; empty when
/// absent.
pub open spec fn visual_text(g: Seq<SpanG>, k: int) -> Seq<char> {
    if g.len() > k {
        g[k].text
    } else {
        Seq::empty()
    }
}

/// A positional boolean field of a visual change; false when absent or
/// failing.
pub open spec fn visual_flag(g: Seq<SpanG>, k: int) -> bool {
    g.len() > k && bool_value(g[k].text) == Some(true)
}

/// A positional color field of a visual change; default when absent.
pub open spec fn visual_color(g: Seq<SpanG>, k: int) -> StepmaniaColor {
    if g.len() > k {
        color_value_of(g[k])
    } else {
        StepmaniaColor { red: 0, green: 0, blue: 0, alpha: 255 }
    }
}

/// The diagnostic of the play-rate field, when it is present and fails.
pub open spec fn visual_rate_errors(g: Seq<SpanG>) -> Seq<ParseError> {
    if g.len() > 2 && rate_value(g[2].text, 0) is None {
        seq![
            ParseError {
                code: ParseErrorCode::StepmaniaInvalidNumber,
                line: g[2].line,
                column: g[2].column,
                len: g[2].len,
            },
        ]
    } else {
        Seq::empty()
    }
}

/// A positional boolean field's diagnostics, when it is present.
pub open spec fn visual_flag_errors(g: Seq<SpanG>, k: int) -> Seq<ParseError> {
    if g.len() > k {
        bool_errors(g[k])
    } else {
        Seq::empty()
    }
}

/// A positional color field's diagnostics, when it is present.
pub open spec fn visual_color_errors(g: Seq<SpanG>, k: int) -> Seq<ParseError> {
    if g.len() > k {
        color_errors(g[k])
    } else {
        Seq::empty()
    }
}

/// The diagnostics of the visual-change mapper, in field order.
pub open spec fn visual_change_errors(g: Seq<SpanG>) -> Seq<ParseError> {
    (if g.len() > 0 {
        number_errors(g[0], PRECISION_TIME as nat)
    } else {
        Seq::empty()
    }) + visual_rate_errors(g) + visual_flag_errors(g, 3) + visual_flag_errors(g, 4)
        + visual_flag_errors(g, 5) + visual_color_errors(g, 9) + visual_color_errors(g, 10)
}

/// Whether a visual-change record holds exactly the decoded fields of the
/// group.
pub open spec fn visual_matches(t: StepmaniaTimedVisualChange, g: Seq<SpanG>) -> bool {
    &&& t.beat == visual_beat(g)
    &&& t.path@ == visual_text(g, 1)
    &&& t.play_rate == visual_play_rate(g)
    &&& t.crossfade == visual_flag(g, 3)
    &&& t.stretch_rewind == visual_flag(g, 4)
    &&& t.stretch_no_loop == visual_flag(g, 5)
    &&& t.effect@ == visual_text(g, 6)
    &&& t.file2@ == visual_text(g, 7)
    &&& t.transition@ == visual_text(g, 8)
    &&& t.color1 == visual_color(g, 9)
    &&& t.color2 == visual_color(g, 10)
}

impl StepmaniaParser {
    /// Maps a group to a timed duration (stop, delay, fake section): both
    /// fields must decode or the record is dropped; each failing field
    /// records `InvalidNumber`.
    pub fn parse_to_timed_duration(&mut self, entry: Vec<UnparsedPropertyValue>) -> (r: Option<
        StepmaniaTimedDuration,
    >)
        requires
            entry@.len() >= 2,
        ensures
            r == timed_duration_value(crate::values::fields_view(entry@)),
            final (self).errors@ == old(self).errors@ + timed_duration_errors(
                crate::values::fields_view(entry@),
            ),
            final (self).latest_errors@ == old(self).latest_errors@,
            same_scan_fields(*final (self), *old(self)),
    {
        let mut entry = entry;
        let first = entry.remove(0);
        let second = entry.remove(0);
        let beat = self.parse_to_number(first, PRECISION_TIME);
        let duration = self.parse_to_number(second, PRECISION_TIME);
        if beat.is_none() || duration.is_none() {
            return None;
        }
        Some(StepmaniaTimedDuration { beat: beat.unwrap(), duration: duration.unwrap() })
    }

    /// Maps a group to a timed BPM change: both fields must decode or the
    /// record is dropped; each failing field records `InvalidNumber`.
    pub fn parse_to_timed_bpm(&mut self, entry: Vec<UnparsedPropertyValue>) -> (r: Option<
        StepmaniaTimedBPM,
    >)
        requires
            entry@.len() >= 2,
        ensures
            r == timed_bpm_value(crate::values::fields_view(entry@)),
            final (self).errors@ == old(self).errors@ + timed_bpm_errors(
                crate::values::fields_view(entry@),
            ),
            final (self).latest_errors@ == old(self).latest_errors@,
            same_scan_fields(*final (self), *old(self)),
    {
        let mut entry = entry;
        let first = entry.remove(0);
        let second = entry.remove(0);
        let beat = self.parse_to_number(first, PRECISION_TIME);
        let bpm = self.parse_to_number(second, PRECISION_TIME);
        if beat.is_none() || bpm.is_none() {
            return None;
        }
        Some(StepmaniaTimedBPM { beat: beat.unwrap(), bpm: bpm.unwrap() })
    }

    /// Maps a group to a time-signature change: the beat must decode
    /// (recording `InvalidNumber` otherwise); the numerator and denominator
    /// must parse as bytes, silently dropping the record otherwise.
    pub fn parse_to_timed_time_signature(&mut self, entry: Vec<UnparsedPropertyValue>) -> (r:
        Option<StepmaniaTimedTimeSignature>)
        requires
            entry@.len() >= 3,
        ensures
            r == time_signature_value(crate::values::fields_view(entry@)),
            final (self).errors@ == old(self).errors@ + time_signature_errors(
                crate::values::fields_view(entry@),
            ),
            final (self).latest_errors@ == old(self).latest_errors@,
            same_scan_fields(*final (self), *old(self)),
    {
        let mut entry = entry;
        let first = entry.remove(0);
        let second = entry.remove(0);
        let third = entry.remove(0);
        let beat = self.parse_to_number(first, PRECISION_TIME);
        let numerator = parse_trimmed_u8(&second);
        let denominator = parse_trimmed_u8(&third);
        if beat.is_none() || numerator.is_none() || denominator.is_none() {
            return None;
        }
        Some(
            StepmaniaTimedTimeSignature {
                beat: beat.unwrap(),
                numerator: numerator.unwrap(),
                denominator: denominator.unwrap(),
            },
        )
    }

    /// Maps a group to a timed number (tick count): the beat must decode
    /// (recording `InvalidNumber` otherwise); the value must parse as an
    /// `i32`, silently dropping the record otherwise.
    pub fn parse_to_timed_number(&mut self, entry: Vec<UnparsedPropertyValue>) -> (r: Option<
        StepmaniaTimedNumber,
    >)
        requires
            entry@.len() >= 2,
        ensures
            r == timed_number_value(crate::values::fields_view(entry@)),
            final (self).errors@ == old(self).errors@ + timed_number_errors(
                crate::values::fields_view(entry@),
            ),
            final (self).latest_errors@ == old(self).latest_errors@,
            same_scan_fields(*final (self), *old(self)),
    {
        let mut entry = entry;
        let first = entry.remove(0);
        let second = entry.remove(0);
        let beat = self.parse_to_number(first, PRECISION_TIME);
        let value = parse_trimmed_i32(&second);
        if beat.is_none() || value.is_none() {
            return None;
        }
        Some(StepmaniaTimedNumber { beat: beat.unwrap(), value: value.unwrap() })
    }

    /// Maps a group to a combo change: the beat must decode (recording
    /// `InvalidNumber` otherwise); hit and miss must parse as `u32`,
    /// silently dropping the record otherwise.
    pub fn parse_to_timed_combo_change(&mut self, entry: Vec<UnparsedPropertyValue>) -> (r: Option<
        StepmaniaTimedComboChange,
    >)
        requires
            entry@.len() >= 3,
        ensures
            r == combo_change_value(crate::values::fields_view(entry@)),
            final (self).errors@ == old(self).errors@ + combo_change_errors(
                crate::values::fields_view(entry@),
            ),
            final (self).latest_errors@ == old(self).latest_errors@,
            same_scan_fields(*final (self), *old(self)),
    {
        let mut entry = entry;
        let first = entry.remove(0);
        let second = entry.remove(0);
        let third = entry.remove(0);
        let beat = self.parse_to_number(first, PRECISION_TIME);
        let hit = parse_trimmed_u32(&second);
        let miss = parse_trimmed_u32(&third);
        if beat.is_none() || hit.is_none() || miss.is_none() {
            return None;
        }
        Some(
            StepmaniaTimedComboChange {
                beat: beat.unwrap(),
                hit: hit.unwrap(),
                miss: miss.unwrap(),
            },
        )
    }

    /// Maps a group to a speed change: the beat and duration must decode
    /// (each recording `InvalidNumber` otherwise); the ratio and the
    /// in-seconds flag must parse, silently dropping the record otherwise.
    pub fn parse_to_timed_speed_change(&mut self, entry: Vec<UnparsedPropertyValue>) -> (r: Option<
        StepmaniaTimedSpeedChange,
    >)
        requires
            entry@.len() >= 4,
        ensures
            r == speed_change_value(crate::values::fields_view(entry@)),
            final (self).errors@ == old(self).errors@ + speed_change_errors(
                crate::values::fields_view(entry@),
            ),
            final (self).latest_errors@ == old(self).latest_errors@,
            same_scan_fields(*final (self), *old(self)),
    {
        let mut entry = entry;
        let first = entry.remove(0);
        let second = entry.remove(0);
        let third = entry.remove(0);
        let fourth = entry.remove(0);
        let beat = self.parse_to_number(first, PRECISION_TIME);
        let ratio = parse_rate(&second, PRECISION_TIME);
        let duration = self.parse_to_number(third, PRECISION_TIME);
        let in_seconds = parse_trimmed_u32(&fourth);
        if beat.is_none() || ratio.is_none() || duration.is_none() || in_seconds.is_none() {
            return None;
        }
        Some(
            StepmaniaTimedSpeedChange {
                beat: beat.unwrap(),
                ratio: ratio.unwrap(),
                duration: duration.unwrap(),
                in_seconds: in_seconds.unwrap() == 1,
            },
        )
    }

    /// Maps a group to a scroll-speed change: the beat must decode
    /// (recording `InvalidNumber` otherwise); the factor must parse,
    /// silently dropping the record otherwise.
    pub fn parse_to_timed_scroll_speed_change(&mut self, entry: Vec<UnparsedPropertyValue>) -> (r:
        Option<StepmaniaTimedScrollSpeedChange>)
        requires
            entry@.len() >= 2,
        ensures
            r == scroll_speed_value(crate::values::fields_view(entry@)),
            final (self).errors@ == old(self).errors@ + scroll_speed_errors(
                crate::values::fields_view(entry@),
            ),
            final (self).latest_errors@ == old(self).latest_errors@,
            same_scan_fields(*final (self), *old(self)),
    {
        let mut entry = entry;
        let first = entry.remove(0);
        let second = entry.remove(0);
        let beat = self.parse_to_number(first, PRECISION_TIME);
        let factor = parse_rate(&second, PRECISION_TIME);
        if beat.is_none() || factor.is_none() {
            return None;
        }
        Some(StepmaniaTimedScrollSpeedChange { beat: beat.unwrap(), factor: factor.unwrap() })
    }

    /// Maps a group to a timed label: the beat must decode (recording
    /// `InvalidNumber` otherwise); the label is the trimmed second field.
    pub fn parse_to_timed_label(&mut self, entry: Vec<UnparsedPropertyValue>) -> (r: Option<
        StepmaniaTimedLabel,
    >)
        requires
            entry@.len() >= 2,
        ensures
            ({
                let g = crate::values::fields_view(entry@);
                match r {
                    Some(t) => timed_label_beat(g) == Some(t.beat) && t.label@ == trim_seq(
                        g[1].text,
                    ),
                    None => timed_label_beat(g) is None,
                }
            }),
            final (self).errors@ == old(self).errors@ + timed_label_errors(
                crate::values::fields_view(entry@),
            ),
            final (self).latest_errors@ == old(self).latest_errors@,
            same_scan_fields(*final (self), *old(self)),
    {
        let mut entry = entry;
        let first = entry.remove(0);
        let second = entry.remove(0);
        let beat = self.parse_to_number(first, PRECISION_TIME);
        if beat.is_none() {
            return None;
        }
        Some(StepmaniaTimedLabel { beat: beat.unwrap(), label: trimmed_string(&second) })
    }

    /// Maps a group to an instrument track: the trimmed first field is the
    /// instrument, the trimmed second field its file.  Never fails.
    pub fn parse_to_instrument_track(&mut self, group: Vec<UnparsedPropertyValue>) -> (r: Option<
        StepmaniaInstrumentTrack,
    >)
        requires
            group@.len() >= 2,
        ensures
            ({
                let g = crate::values::fields_view(group@);
                match r {
                    Some(t) => t.instrument@ == trim_seq(g[0].text) && t.file@ == trim_seq(
                        g[1].text,
                    ),
                    None => false,
                }
            }),
            final (self).errors@ == old(self).errors@,
            final (self).latest_errors@ == old(self).latest_errors@,
            same_scan_fields(*final (self), *old(self)),
    {
        Some(
            StepmaniaInstrumentTrack {
                instrument: trimmed_string(&group[0]),
                file: trimmed_string(&group[1]),
            },
        )
    }

    /// Maps a group to a visual change: fields are consumed positionally;
    /// a failing optional field keeps its default while its diagnostic is
    /// recorded; fields beyond the group keep their defaults.  Never
    /// fails.
    #[verifier::spinoff_prover]
    #[verifier::rlimit(100)]
    pub fn parse_to_visual_change(&mut self, entry: Vec<UnparsedPropertyValue>) -> (r: Option<
        StepmaniaTimedVisualChange,
    >)
        requires
            entry@.len() >= 1,
        ensures
            ({
                let g = crate::values::fields_view(entry@);
                match r {
                    Some(t) => visual_matches(t, g),
                    None => false,
                }
            }),
            final (self).errors@ == old(self).errors@ + visual_change_errors(
                crate::values::fields_view(entry@),
            ),
            final (self).latest_errors@ == old(self).latest_errors@,
            same_scan_fields(*final (self), *old(self)),
    {
        let ghost g = crate::values::fields_view(entry@);
        let len = entry.len();
        let mut bg = StepmaniaTimedVisualChange {
            beat: 0,
            path: String::new(),
            play_rate: 0,
            crossfade: false,
            stretch_rewind: false,
            stretch_no_loop: false,
            effect: String::new(),
            file2: String::new(),
            transition: String::new(),
            color1: StepmaniaColor { red: 0, green: 0, blue: 0, alpha: 255 },
            color2: StepmaniaColor { red: 0, green: 0, blue: 0, alpha: 255 },
        };
        let mut entry = entry;
        let first = entry.remove(0);
        if let Some(beat) = self.parse_to_number(first, PRECISION_TIME) {
            bg.beat = beat;
        }
        let ghost e1 = if g.len() > 0 {
            number_errors(g[0], PRECISION_TIME as nat)
        } else {
            Seq::<ParseError>::empty()
        };
        assert(self.errors@ == old(self).errors@ + e1);
        assert(bg.beat == visual_beat(g));
        if len > 1 {
            bg.path = entry.remove(0).raw;
        }
        assert(bg.path@ == visual_text(g, 1));
        if len > 2 {
            let fp = entry.remove(0);
            proof {
                assert(fp@ == g[2]);
            }
            match parse_rate(&fp, 0) {
                Some(x) => {
                    bg.play_rate = x;
                },
                None => {
                    self.errors.push(
                        ParseError {
                            code: ParseErrorCode::StepmaniaInvalidNumber,
                            line: fp.line,
                            column: fp.column,
                            len: fp.len,
                        },
                    );
                },
            }
        }
        let ghost e2 = e1 + visual_rate_errors(g);
        assert(self.errors@ =~= old(self).errors@ + e2);
        assert(bg.play_rate == visual_play_rate(g));
        if len > 3 {
            let field = entry.remove(0);
            proof {
                assert(field@ == g[3]);
            }
            bg.crossfade = self.parse_to_bool(field);
        }
        let ghost e3 = e2 + visual_flag_errors(g, 3);
        assert(self.errors@ =~= old(self).errors@ + e3);
        assert(bg.crossfade == visual_flag(g, 3));
        if len > 4 {
            let field = entry.remove(0);
            proof {
                assert(field@ == g[4]);
            }
            bg.stretch_rewind = self.parse_to_bool(field);
        }
        let ghost e4 = e3 + visual_flag_errors(g, 4);
        assert(self.errors@ =~= old(self).errors@ + e4);
        assert(bg.stretch_rewind == visual_flag(g, 4));
        if len > 5 {
            let field = entry.remove(0);
            proof {
                assert(field@ == g[5]);
            }
            bg.stretch_no_loop = self.parse_to_bool(field);
        }
        let ghost e5 = e4 + visual_flag_errors(g, 5);
        assert(self.errors@ =~= old(self).errors@ + e5);
        assert(bg.stretch_no_loop == visual_flag(g, 5));
        if len > 6 {
            bg.effect = entry.remove(0).raw;
        }
        if len > 7 {
            bg.file2 = entry.remove(0).raw;
        }
        if len > 8 {
            bg.transition = entry.remove(0).raw;
        }
        assert(bg.effect@ == visual_text(g, 6));
        assert(bg.file2@ == visual_text(g, 7));
        assert(bg.transition@ == visual_text(g, 8));
        if len > 9 {
            let field = entry.remove(0);
            proof {
                assert(field@ == g[9]);
            }
            bg.color1 = self.parse_to_color(field);
        }
        let ghost e6 = e5 + visual_color_errors(g, 9);
        assert(self.errors@ =~= old(self).errors@ + e6);
        assert(bg.color1 == visual_color(g, 9));
        if len > 10 {
            let field = entry.remove(0);
            proof {
                assert(field@ == g[10]);
            }
            bg.color2 = self.parse_to_color(field);
        }
        let ghost e7 = e6 + visual_color_errors(g, 10);
        assert(self.errors@ =~= old(self).errors@ + e7);
        assert(bg.color2 == visual_color(g, 10));
        proof {
            assert(e7 =~= visual_change_errors(g));
        }
        Some(bg)
    }
}

} // verus!
