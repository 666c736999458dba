//! The value decoding library: per-call decoders that turn one raw value
//! span (or sub-span) into a typed value, recording positioned diagnostics
//! on failure.

use vstd::prelude::*;

use crate::common::{inc_sat, inc_sat_usize, ParseError, ParseErrorCode};
use crate::decimal::{channel_value, parse_channel_chars};
use crate::lexer::{same_scan_fields, StepmaniaParser};
use crate::numbers::{find_char, number_value, parse_number_chars};
use crate::records::{StepmaniaColor, StepmaniaNumberRange};
use crate::span::{SpanG, UnparsedPropertyValue};
use crate::text::str_chars;

verus! {

/// The diagnostics the fixed-precision number decoder records on a span:
/// one `InvalidNumber` at the span's own position when the text does not
/// decode.
pub open spec fn number_errors(v: SpanG, p: nat) -> Seq<ParseError> {
    if number_value(v.text, p) is None {
        seq![
            ParseError {
                code: ParseErrorCode::StepmaniaInvalidNumber,
                line: v.line,
                column: v.column,
                len: v.len,
            },
        ]
    } else {
        Seq::empty()
    }
}

/// What the range decoder yields: the span split at its first `-`, both
/// halves decoded at the same precision — or the whole span decoded once
/// and used as both bounds.  The range exists only when every involved
/// number decodes.
pub open spec fn range_value(text: Seq<char>, p: nat) -> Option<StepmaniaNumberRange> {
    match find_char(text, '-') {
        None => match number_value(text, p) {
            Some(x) => Some(StepmaniaNumberRange { min: x, max: x }),
            None => None,
        },
        Some(ix) => {
            let minv = number_value(text.take(ix), p);
            let maxv = number_value(text.skip(ix + 1), p);
            if minv is Some && maxv is Some {
                Some(StepmaniaNumberRange { min: minv->Some_0, max: maxv->Some_0 })
            } else {
                None
            }
        },
    }
}

/// The diagnostics of the range decoder: each failing half records one
/// `InvalidNumber` at the half's own first character, with the half's own
/// length.
pub open spec fn range_errors(v: SpanG, p: nat) -> Seq<ParseError> {
    match find_char(v.text, '-') {
        None => number_errors(v, p),
        Some(ix) => {
            let minspan = SpanG {
                text: v.text.take(ix),
                line: v.line,
                column: v.column,
                len: ix as usize,
            };
            let maxpos = crate::common::pos_after(v.line, v.column, v.text.take(ix + 1));
            let maxspan = SpanG {
                text: v.text.skip(ix + 1),
                line: maxpos.0,
                column: maxpos.1,
                len: (v.text.len() - ix - 1) as usize,
            };
            number_errors(minspan, p) + number_errors(maxspan, p)
        },
    }
}

/// What the boolean decoder yields: exactly `"0"` and `"1"` decode.
pub open spec fn bool_value(text: Seq<char>) -> Option<bool> {
    if text == seq!['0'] {
        Some(false)
    } else if text == seq!['1'] {
        Some(true)
    } else {
        None
    }
}

/// The diagnostics of the boolean decoder.
pub open spec fn bool_errors(v: SpanG) -> Seq<ParseError> {
    if bool_value(v.text) is None {
        seq![
            ParseError {
                code: ParseErrorCode::StepmaniaInvalidBoolean,
                line: v.line,
                column: v.column,
                len: v.len,
            },
        ]
    } else {
        Seq::empty()
    }
}

/// The diagnostics of the color-channel decoder on a sub-span.
pub open spec fn channel_errors(v: SpanG) -> Seq<ParseError> {
    if channel_value(v.text) is None {
        seq![
            ParseError {
                code: ParseErrorCode::StepmaniaInvalidColorValue,
                line: v.line,
                column: v.column,
                len: v.len,
            },
        ]
    } else {
        Seq::empty()
    }
}

/// A color channel by its index: red, green, blue, alpha; later indices
/// leave the color unchanged.
pub open spec fn set_channel(c: StepmaniaColor, cpos: int, cv: u8) -> StepmaniaColor {
    if cpos == 0 {
        StepmaniaColor { red: cv, ..c }
    } else if cpos == 1 {
        StepmaniaColor { green: cv, ..c }
    } else if cpos == 2 {
        StepmaniaColor { blue: cv, ..c }
    } else if cpos == 3 {
        StepmaniaColor { alpha: cv, ..c }
    } else {
        c
    }
}

/// The color scanner's state: the current sub-span start and the position
/// of its first character, the position of the character being scanned,
/// the channel index, and what has been decoded so far.
pub ghost struct ColorSt {
    pub start: usize,
    pub line: usize,
    pub col: usize,
    pub sline: usize,
    pub scol: usize,
    pub cpos: usize,
    pub color: StepmaniaColor,
    pub errors: Seq<ParseError>,
}

/// One step of the color scanner on character `text[i]`.  A `^` closes the
/// current channel sub-span, which carries the position of its first
/// character.
pub open spec fn color_step(st: ColorSt, text: Seq<char>, i: int) -> ColorSt {
    let c = text[i];
    if c != '^' {
        if c == '\n' {
            ColorSt { line: inc_sat(st.line), col: 0, ..st }
        } else {
            ColorSt { col: inc_sat(st.col), ..st }
        }
    } else {
        let sub = SpanG {
            text: text.subrange(st.start as int, i),
            line: st.sline,
            column: st.scol,
            len: (i - st.start) as usize,
        };
        let color1 = match channel_value(sub.text) {
            Some(cv) => set_channel(st.color, st.cpos as int, cv),
            None => st.color,
        };
        ColorSt {
            start: (i + 1) as usize,
            col: inc_sat(st.col),
            sline: st.line,
            scol: inc_sat(st.col),
            cpos: inc_sat(st.cpos),
            color: color1,
            errors: st.errors + channel_errors(sub),
            ..st
        }
    }
}

/// The color scanner's state after the first `n` characters of the span.
pub open spec fn color_run(v: SpanG, n: int) -> ColorSt
    decreases n,
{
    if n <= 0 {
        ColorSt {
            start: 0,
            line: v.line,
            col: v.column,
            sline: v.line,
            scol: v.column,
            cpos: 0,
            color: StepmaniaColor { red: 0, green: 0, blue: 0, alpha: 255 },
            errors: Seq::empty(),
        }
    } else {
        color_step(color_run(v, n - 1), v.text, n - 1)
    }
}

/// The end of the color scan: the trailing channel sub-span is decoded
/// whenever the span holds one — that is, unless the whole span is empty.
pub open spec fn color_finish(st: ColorSt, text: Seq<char>) -> ColorSt {
    if st.start > 0 || text.len() > 0 {
        let sub = SpanG {
            text: text.subrange(st.start as int, text.len() as int),
            line: st.sline,
            column: st.scol,
            len: (text.len() - st.start) as usize,
        };
        let color1 = match channel_value(sub.text) {
            Some(cv) => set_channel(st.color, st.cpos as int, cv),
            None => st.color,
        };
        ColorSt { color: color1, errors: st.errors + channel_errors(sub), ..st }
    } else {
        st
    }
}

/// The color a span decodes to.
#[verifier::opaque]
pub open spec fn color_value_of(v: SpanG) -> StepmaniaColor {
    color_finish(color_run(v, v.text.len() as int), v.text).color
}

/// The diagnostics the color decoder records on a span.
#[verifier::opaque]
pub open spec fn color_errors(v: SpanG) -> Seq<ParseError> {
    color_finish(color_run(v, v.text.len() as int), v.text).errors
}

/// The views of a group's field spans.
pub open spec fn fields_view(g: Seq<UnparsedPropertyValue>) -> Seq<SpanG> {
    g.map(|i: int, u: UnparsedPropertyValue| u@)
}

/// The views of a list of groups.
pub open spec fn groups_view(gs: Seq<Vec<UnparsedPropertyValue>>) -> Seq<Seq<SpanG>> {
    gs.map(|i: int, v: Vec<UnparsedPropertyValue>| fields_view(v@))
}

/// The views of a list of strings.
pub open spec fn strings_view(s: Seq<String>) -> Seq<Seq<char>> {
    s.map(|i: int, x: String| x@)
}

/// The group splitter's state: completed groups, the group being built,
/// whether that group saw a field separator, the current sub-span's start
/// and the position of its first character, and the position of the
/// character being scanned.
pub ghost struct EntSt {
    pub list: Seq<Seq<SpanG>>,
    pub cur: Seq<SpanG>,
    pub has: bool,
    pub line: usize,
    pub col: usize,
    pub fline: usize,
    pub fcol: usize,
    pub start: usize,
}

/// One step of the group splitter on character `text[i]`: `=` ends a field
/// (when field splitting is on), `,` ends a group, a line break recomputes
/// the position, anything else is content.  Every field sub-span carries
/// the position of its first character.
pub open spec fn ent_step(st: EntSt, text: Seq<char>, groups: bool, i: int) -> EntSt {
    let c = text[i];
    if c == '=' && groups {
        let field = SpanG {
            text: text.subrange(st.start as int, i),
            line: st.fline,
            column: st.fcol,
            len: (i - st.start) as usize,
        };
        EntSt {
            cur: st.cur.push(field),
            col: inc_sat(st.col),
            fline: st.line,
            fcol: inc_sat(st.col),
            has: true,
            start: (i + 1) as usize,
            ..st
        }
    } else if c == ',' {
        let cur1 = if i - st.start > 0 {
            st.cur.push(
                SpanG {
                    text: text.subrange(st.start as int, i),
                    line: st.fline,
                    column: st.fcol,
                    len: (i - st.start) as usize,
                },
            )
        } else {
            st.cur
        };
        EntSt {
            list: st.list.push(cur1),
            cur: Seq::empty(),
            has: false,
            col: inc_sat(st.col),
            fline: st.line,
            fcol: inc_sat(st.col),
            start: (i + 1) as usize,
            ..st
        }
    } else if c == '\n' {
        EntSt { line: inc_sat(st.line), col: 0, ..st }
    } else {
        EntSt { col: inc_sat(st.col), ..st }
    }
}

/// The splitter's state after the first `n` characters of the span.
pub open spec fn ent_run(v: SpanG, groups: bool, n: int) -> EntSt
    decreases n,
{
    if n <= 0 {
        EntSt {
            list: Seq::empty(),
            cur: Seq::empty(),
            has: false,
            line: v.line,
            col: v.column,
            fline: v.line,
            fcol: v.column,
            start: 0,
        }
    } else {
        ent_step(ent_run(v, groups, n - 1), v.text, groups, n - 1)
    }
}

/// The end of the split: a non-empty trailing group (fields pending or
/// text remaining) is still included; a trailing empty group is dropped.
pub open spec fn ent_finish(st: EntSt, text: Seq<char>) -> Seq<Seq<SpanG>> {
    let cur1 = if text.len() - st.start > 0 {
        st.cur.push(
            SpanG {
                text: text.subrange(st.start as int, text.len() as int),
                line: st.fline,
                column: st.fcol,
                len: (text.len() - st.start) as usize,
            },
        )
    } else {
        st.cur
    };
    if st.has || text.len() - st.start > 0 {
        st.list.push(cur1)
    } else {
        st.list
    }
}

/// What the group splitter yields on a span.
pub open spec fn value_entries(v: SpanG, groups: bool) -> Seq<Seq<SpanG>> {
    ent_finish(ent_run(v, groups, v.text.len() as int), v.text)
}

/// The recorded length of a short group's diagnostic after `k` fields: the
/// separator count plus the field lengths, saturating.
pub open spec fn count_len_rec(g: Seq<SpanG>, k: int) -> usize
    decreases k,
{
    if k <= 0 {
        (g.len() - 1) as usize
    } else {
        crate::common::sat_add(count_len_rec(g, k - 1), g[k - 1].len)
    }
}

/// The diagnostic recorded for a group with too few fields: positioned at
/// the group's first field, spanning all fields plus separators.
pub open spec fn count_error(g: Seq<SpanG>) -> ParseError {
    ParseError {
        code: ParseErrorCode::StepmaniaInvalidValueCount,
        line: g[0].line,
        column: g[0].column,
        len: count_len_rec(g, g.len() as int),
    }
}

/// The groups that survive the arity check: those with at least `min`
/// fields, in order.
pub open spec fn arity_keep(gs: Seq<Seq<SpanG>>, min: nat) -> Seq<Seq<SpanG>>
    decreases gs.len(),
{
    if gs.len() == 0 {
        Seq::empty()
    } else {
        arity_keep(gs.drop_last(), min) + if gs.last().len() >= min {
            seq![gs.last()]
        } else {
            Seq::empty()
        }
    }
}

/// The diagnostics of the arity check: one `InvalidValueCount` per group
/// whose field count lies in `[min, max)`; groups below `min` are dropped
/// silently.
pub open spec fn arity_errors(gs: Seq<Seq<SpanG>>, min: nat, max: nat) -> Seq<ParseError>
    decreases gs.len(),
{
    if gs.len() == 0 {
        Seq::empty()
    } else {
        arity_errors(gs.drop_last(), min, max) + if min <= gs.last().len() && gs.last().len()
            < max {
            seq![count_error(gs.last())]
        } else {
            Seq::empty()
        }
    }
}

/// Every group that survives the arity check has at least `min` fields.
pub proof fn lemma_arity_keep_min(gs: Seq<Seq<SpanG>>, min: nat)
    ensures
        forall|k: int|
            0 <= k < arity_keep(gs, min).len() ==> (#[trigger] arity_keep(gs, min)[k]).len()
                >= min,
    decreases gs.len(),
{
    if gs.len() > 0 {
        lemma_arity_keep_min(gs.drop_last(), min);
        let prev = arity_keep(gs.drop_last(), min);
        assert forall|k: int|
            0 <= k < arity_keep(gs, min).len() implies (#[trigger] arity_keep(gs, min)[k]).len()
            >= min by {
            if k < prev.len() {
                assert(arity_keep(gs, min)[k] == prev[k]);
            } else {
                assert(arity_keep(gs, min)[k] == gs.last());
            }
        }
    }
}

/// The trimmed first fields of the groups that have one.
pub open spec fn string_list(gs: Seq<Seq<SpanG>>) -> Seq<Seq<char>>
    decreases gs.len(),
{
    if gs.len() == 0 {
        Seq::empty()
    } else {
        string_list(gs.drop_last()) + if gs.last().len() > 0 {
            seq![crate::text::trim_seq(gs.last()[0].text)]
        } else {
            Seq::empty()
        }
    }
}

impl StepmaniaParser {
    /// Decodes a span as a fixed-precision number, as [`number_value`]
    /// describes; a failure records one `InvalidNumber` at the span's own
    /// position and yields nothing.
    pub fn parse_to_number(&mut self, value: UnparsedPropertyValue, precision: u8) -> (r: Option<
        i64,
    >)
        ensures
            r == number_value(value@.text, precision as nat),
            final (self).errors@ == old(self).errors@ + number_errors(value@, precision as nat),
            final (self).latest_errors@ == old(self).latest_errors@,
            same_scan_fields(*final (self), *old(self)),
    {
        let chars = str_chars(value.raw.as_str());
        let r = parse_number_chars(chars.as_slice(), 0, chars.len(), precision);
        proof {
            assert(chars@.subrange(0, chars@.len() as int) =~= chars@);
        }
        match r {
            Some(x) => Some(x),
            None => {
                self.errors.push(
                    ParseError {
                        code: ParseErrorCode::StepmaniaInvalidNumber,
                        line: value.line,
                        column: value.column,
                        len: value.len,
                    },
                );
                None
            },
        }
    }

    /// Decodes a span as a numeric range, as [`range_value`] describes; each
    /// failing half records one `InvalidNumber`.
    pub fn parse_to_number_range(&mut self, value: UnparsedPropertyValue, precision: u8) -> (r:
        Option<StepmaniaNumberRange>)
        ensures
            r == range_value(value@.text, precision as nat),
            final (self).errors@ == old(self).errors@ + range_errors(value@, precision as nat),
            final (self).latest_errors@ == old(self).latest_errors@,
            same_scan_fields(*final (self), *old(self)),
    {
        let chars = str_chars(value.raw.as_str());
        let n = chars.len();
        let ghost text = value@.text;

        // Locate the first `-`, if any, tracking the position of the
        // character after it.
        let mut split: Option<usize> = None;
        let mut pline = value.line;
        let mut pcol = value.column;
        let mut max_line = value.line;
        let mut max_col = value.column;
        let mut i: usize = 0;
        proof {
            assert(text.take(0) =~= Seq::<char>::empty());
        }
        while i < n
            invariant
                0 <= i <= n,
                n == chars@.len(),
                chars@ == text,
                match split {
                    None => (forall|j: int| 0 <= j < i ==> text[j] != '-') && (pline, pcol)
                        == crate::common::pos_after(value@.line, value@.column, text.take(i as int)),
                    Some(ix) => 0 <= ix < i && text[ix as int] == '-' && (forall|j: int|
                        0 <= j < ix ==> text[j] != '-') && (max_line, max_col)
                        == crate::common::pos_after(value@.line, value@.column, text.take(ix + 1)),
                },
            decreases n - i,
        {
            let c = chars[i];
            proof {
                assert(text.take(i + 1).drop_last() =~= text.take(i as int));
                assert(text.take(i + 1).last() == text[i as int]);
            }
            if split.is_none() {
                if c == '-' {
                    max_line = pline;
                    max_col = crate::common::inc_sat_usize(pcol);
                    split = Some(i);
                } else if c == '\n' {
                    pline = crate::common::inc_sat_usize(pline);
                    pcol = 0;
                } else {
                    pcol = crate::common::inc_sat_usize(pcol);
                }
            }
            i = i + 1;
        }
        proof {
            match split {
                Some(ix) => crate::numbers::lemma_find_char_at(text, '-', ix as int),
                None => crate::numbers::lemma_find_char_none(text, '-'),
            }
        }

        match split {
            None => {
                match self.parse_to_number(value, precision) {
                    Some(x) => Some(StepmaniaNumberRange { min: x, max: x }),
                    None => None,
                }
            },
            Some(ix) => {
                let min_raw = crate::text::chars_string(chars.as_slice(), 0, ix);
                let max_raw = crate::text::chars_string(chars.as_slice(), ix + 1, n);
                let minspan = UnparsedPropertyValue {
                    len: ix,
                    raw: min_raw,
                    line: value.line,
                    column: value.column,
                };
                let maxspan = UnparsedPropertyValue {
                    len: n - ix - 1,
                    raw: max_raw,
                    line: max_line,
                    column: max_col,
                };
                proof {
                    assert(minspan@.text =~= text.take(ix as int));
                    assert(maxspan@.text =~= text.skip(ix + 1));
                }
                let minv = self.parse_to_number(minspan, precision);
                let maxv = self.parse_to_number(maxspan, precision);
                if minv.is_some() && maxv.is_some() {
                    Some(StepmaniaNumberRange { min: minv.unwrap(), max: maxv.unwrap() })
                } else {
                    None
                }
            },
        }
    }

    /// Decodes a span as a boolean: exactly `"0"` is false and `"1"` is
    /// true; any other text records one `InvalidBoolean` and falls back to
    /// false (the fallback is not a successful decode).
    pub fn parse_to_bool(&mut self, val: UnparsedPropertyValue) -> (r: bool)
        ensures
            r == (bool_value(val@.text) == Some(true)),
            final (self).errors@ == old(self).errors@ + bool_errors(val@),
            final (self).latest_errors@ == old(self).latest_errors@,
            same_scan_fields(*final (self), *old(self)),
    {
        let chars = str_chars(val.raw.as_str());
        if chars.len() == 1 {
            let c = chars[0];
            proof {
                assert(val@.text =~= seq![val@.text[0]]);
            }
            if c == '0' {
                return false;
            }
            if c == '1' {
                return true;
            }
        }
        proof {
            assert(bool_value(val@.text) is None);
        }
        self.errors.push(
            ParseError {
                code: ParseErrorCode::StepmaniaInvalidBoolean,
                line: val.line,
                column: val.column,
                len: val.len,
            },
        );
        false
    }

    /// Decodes a span as one color channel, as [`channel_value`] describes;
    /// a failure records one `InvalidColorValue` and yields nothing.
    pub fn parse_to_color_channel(&mut self, value: UnparsedPropertyValue) -> (r: Option<u8>)
        ensures
            r == channel_value(value@.text),
            final (self).errors@ == old(self).errors@ + channel_errors(value@),
            final (self).latest_errors@ == old(self).latest_errors@,
            same_scan_fields(*final (self), *old(self)),
    {
        let chars = str_chars(value.raw.as_str());
        let r = parse_channel_chars(chars.as_slice(), 0, chars.len());
        proof {
            assert(chars@.subrange(0, chars@.len() as int) =~= chars@);
        }
        match r {
            Some(cv) => Some(cv),
            None => {
                self.errors.push(
                    ParseError {
                        code: ParseErrorCode::StepmaniaInvalidColorValue,
                        line: value.line,
                        column: value.column,
                        len: value.len,
                    },
                );
                None
            },
        }
    }

    /// Decodes a span as an RGBA color, as [`color_value_of`] describes:
    /// `^`-separated channels are decoded independently with recomputed
    /// positions; a failing channel keeps its default while its diagnostic
    /// is recorded.
    #[verifier::loop_isolation(false)]
    pub fn parse_to_color(&mut self, value: UnparsedPropertyValue) -> (r: StepmaniaColor)
        ensures
            r == color_value_of(value@),
            final (self).errors@ == old(self).errors@ + color_errors(value@),
            final (self).latest_errors@ == old(self).latest_errors@,
            same_scan_fields(*final (self), *old(self)),
    {
        proof {
            reveal(color_value_of);
            reveal(color_errors);
        }
        let ghost v = value@;
        let chars = str_chars(value.raw.as_str());
        let n = chars.len();
        let mut start: usize = 0;
        let mut line = value.line;
        let mut column = value.column;
        let mut sub_line = value.line;
        let mut sub_column = value.column;
        let mut color = StepmaniaColor { red: 0, green: 0, blue: 0, alpha: 255 };
        let mut color_pos: usize = 0;
        let mut i: usize = 0;
        while i < n
            invariant
                0 <= i <= n,
                ({
                    let st = color_run(v, i as int);
                    &&& start == st.start
                    &&& line == st.line
                    &&& column == st.col
                    &&& sub_line == st.sline
                    &&& sub_column == st.scol
                    &&& color_pos == st.cpos
                    &&& color == st.color
                    &&& self.errors@ == old(self).errors@ + st.errors
                    &&& st.start <= i
                }),
                self.latest_errors@ == old(self).latest_errors@,
                same_scan_fields(*self, *old(self)),
            decreases n - i,
        {
            let ghost st = color_run(v, i as int);
            proof {
                assert(color_run(v, i + 1) == color_step(st, v.text, i as int));
            }
            let c = chars[i];
            if c != '^' {
                if c == '\n' {
                    line = inc_sat_usize(line);
                    column = 0;
                } else {
                    column = inc_sat_usize(column);
                }
            } else {
                let len = i - start;
                let sub = UnparsedPropertyValue {
                    raw: crate::text::chars_string(chars.as_slice(), start, i),
                    line: sub_line,
                    column: sub_column,
                    len,
                };
                match self.parse_to_color_channel(sub) {
                    Some(cv) => {
                        if color_pos == 0 {
                            color.red = cv;
                        } else if color_pos == 1 {
                            color.green = cv;
                        } else if color_pos == 2 {
                            color.blue = cv;
                        } else if color_pos == 3 {
                            color.alpha = cv;
                        }
                    },
                    None => {},
                }
                start = i + 1;
                sub_line = line;
                sub_column = inc_sat_usize(column);
                color_pos = inc_sat_usize(color_pos);
                column = inc_sat_usize(column);
            }
            i = i + 1;
        }
        let ghost stn = color_run(v, n as int);
        if start > 0 || n > 0 {
            let len = n - start;
            let sub = UnparsedPropertyValue {
                raw: crate::text::chars_string(chars.as_slice(), start, n),
                line: sub_line,
                column: sub_column,
                len,
            };
            match self.parse_to_color_channel(sub) {
                Some(cv) => {
                    if color_pos == 0 {
                        color.red = cv;
                    } else if color_pos == 1 {
                        color.green = cv;
                    } else if color_pos == 2 {
                        color.blue = cv;
                    } else if color_pos == 3 {
                        color.alpha = cv;
                    }
                },
                None => {},
            }
        }
        color
    }

    /// Splits a span into `,`-separated groups, each further split on `=`
    /// into ordered field sub-spans when `groups` is on, with positions
    /// recomputed across embedded line breaks — exactly as
    /// [`value_entries`] describes.  Records no diagnostics.
    #[verifier::loop_isolation(false)]
    pub fn parse_to_value_entries(&mut self, value: &UnparsedPropertyValue, groups: bool) -> (r:
        Vec<Vec<UnparsedPropertyValue>>)
        ensures
            groups_view(r@) == value_entries(value@, groups),
            final (self).errors@ == old(self).errors@,
            final (self).latest_errors@ == old(self).latest_errors@,
            same_scan_fields(*final (self), *old(self)),
    {
        let ghost v = value@;
        let chars = str_chars(value.raw.as_str());
        let n = chars.len();
        let mut list: Vec<Vec<UnparsedPropertyValue>> = Vec::new();
        let mut latest_obj: Vec<UnparsedPropertyValue> = Vec::new();
        let mut has_latest = false;
        let mut line = value.line;
        let mut column = value.column;
        let mut field_line = value.line;
        let mut field_column = value.column;
        let mut start: usize = 0;
        proof {
            assert(groups_view(list@) =~= Seq::<Seq<SpanG>>::empty());
            assert(fields_view(latest_obj@) =~= Seq::<SpanG>::empty());
        }
        let mut i: usize = 0;
        while i < n
            invariant
                0 <= i <= n,
                ({
                    let st = ent_run(v, groups, i as int);
                    &&& groups_view(list@) == st.list
                    &&& fields_view(latest_obj@) == st.cur
                    &&& has_latest == st.has
                    &&& line == st.line
                    &&& column == st.col
                    &&& field_line == st.fline
                    &&& field_column == st.fcol
                    &&& start == st.start
                    &&& st.start <= i
                }),
            decreases n - i,
        {
            let ghost st = ent_run(v, groups, i as int);
            proof {
                assert(ent_run(v, groups, i + 1) == ent_step(st, v.text, groups, i as int));
            }
            let c = chars[i];
            if c == '=' && groups {
                let len = i - start;
                let field = UnparsedPropertyValue {
                    raw: crate::text::chars_string(chars.as_slice(), start, i),
                    line: field_line,
                    column: field_column,
                    len,
                };
                proof {
                    assert(fields_view(latest_obj@.push(field)) =~= fields_view(latest_obj@).push(
                        field@,
                    ));
                }
                latest_obj.push(field);
                field_line = line;
                field_column = inc_sat_usize(column);
                column = inc_sat_usize(column);
                has_latest = true;
                start = i + 1;
            } else if c == ',' {
                let len = i - start;
                if len > 0 {
                    let field = UnparsedPropertyValue {
                        raw: crate::text::chars_string(chars.as_slice(), start, i),
                        line: field_line,
                        column: field_column,
                        len,
                    };
                    proof {
                        assert(fields_view(latest_obj@.push(field)) =~= fields_view(
                            latest_obj@,
                        ).push(field@));
                    }
                    latest_obj.push(field);
                }
                proof {
                    assert(groups_view(list@.push(latest_obj)) =~= groups_view(list@).push(
                        fields_view(latest_obj@),
                    ));
                }
                list.push(latest_obj);
                latest_obj = Vec::new();
                has_latest = false;
                field_line = line;
                field_column = inc_sat_usize(column);
                column = inc_sat_usize(column);
                start = i + 1;
                proof {
                    assert(fields_view(latest_obj@) =~= Seq::<SpanG>::empty());
                }
            } else if c == '\n' {
                line = inc_sat_usize(line);
                column = 0;
            } else {
                column = inc_sat_usize(column);
            }
            i = i + 1;
        }
        let ghost stn = ent_run(v, groups, n as int);
        let len = n - start;
        if len > 0 {
            let field = UnparsedPropertyValue {
                raw: crate::text::chars_string(chars.as_slice(), start, n),
                line: field_line,
                column: field_column,
                len,
            };
            proof {
                assert(fields_view(latest_obj@.push(field)) =~= fields_view(latest_obj@).push(
                    field@,
                ));
            }
            latest_obj.push(field);
        }
        if has_latest || len > 0 {
            proof {
                assert(groups_view(list@.push(latest_obj)) =~= groups_view(list@).push(
                    fields_view(latest_obj@),
                ));
            }
            list.push(latest_obj);
        }
        list
    }

    /// Records one `InvalidValueCount` diagnostic for a short group,
    /// positioned at its first field and spanning all fields plus the
    /// separators between them.
    pub fn add_value_count_error(&mut self, entry: &Vec<UnparsedPropertyValue>)
        requires
            entry@.len() >= 1,
        ensures
            final (self).errors@ == old(self).errors@ + seq![count_error(fields_view(entry@))],
            final (self).latest_errors@ == old(self).latest_errors@,
            same_scan_fields(*final (self), *old(self)),
    {
        let ghost g = fields_view(entry@);
        let mut total_len: usize = entry.len() - 1;
        let mut k: usize = 0;
        while k < entry.len()
            invariant
                0 <= k <= entry@.len(),
                g == fields_view(entry@),
                total_len == count_len_rec(g, k as int),
            decreases entry@.len() - k,
        {
            proof {
                assert(g.len() == entry@.len());
                assert(g[k as int] == entry@[k as int]@);
                assert(count_len_rec(g, k + 1) == crate::common::sat_add(
                    count_len_rec(g, k as int),
                    g[k as int].len,
                ));
            }
            total_len = crate::common::sat_add_usize(total_len, entry[k].len);
            k = k + 1;
        }
        let e = ParseError {
            code: ParseErrorCode::StepmaniaInvalidValueCount,
            line: entry[0].line,
            column: entry[0].column,
            len: total_len,
        };
        self.errors.push(e);
        proof {
            assert(old(self).errors@.push(e) =~= old(self).errors@ + seq![
                count_error(fields_view(entry@)),
            ]);
        }
    }

    /// Splits a span into field groups and applies the arity check: groups
    /// with fewer than `min` fields are dropped silently; groups with at
    /// least `min` but fewer than `max` fields record one
    /// `InvalidValueCount` diagnostic each and are still returned for
    /// best-effort decoding.
    #[verifier::loop_isolation(false)]
    pub fn parse_value_group(&mut self, value: &UnparsedPropertyValue, min: usize, max: usize) -> (
        r: Vec<Vec<UnparsedPropertyValue>>)
        requires
            min >= 1,
        ensures
            groups_view(r@) == arity_keep(value_entries(value@, true), min as nat),
            final (self).errors@ == old(self).errors@ + arity_errors(
                value_entries(value@, true),
                min as nat,
                max as nat,
            ),
            final (self).latest_errors@ == old(self).latest_errors@,
            same_scan_fields(*final (self), *old(self)),
    {
        let mut entries = self.parse_to_value_entries(value, true);
        let ghost all = value_entries(value@, true);
        let mut out: Vec<Vec<UnparsedPropertyValue>> = Vec::new();
        let ghost mut k: int = 0;
        proof {
            assert(groups_view(out@) =~= Seq::<Seq<SpanG>>::empty());
            assert(arity_keep(all.take(0), min as nat) =~= Seq::<Seq<SpanG>>::empty());
            assert(arity_errors(all.take(0), min as nat, max as nat) =~= Seq::<
                ParseError,
            >::empty());
            assert(groups_view(entries@) =~= all.skip(0));
        }
        while entries.len() > 0
            invariant
                0 <= k <= all.len(),
                groups_view(entries@) == all.skip(k),
                entries@.len() == all.len() - k,
                groups_view(out@) == arity_keep(all.take(k), min as nat),
                self.errors@ == old(self).errors@ + arity_errors(
                    all.take(k),
                    min as nat,
                    max as nat,
                ),
                self.latest_errors@ == old(self).latest_errors@,
                same_scan_fields(*self, *old(self)),
            decreases entries@.len(),
        {
            let ghost entries_pre = entries@;
            let g = entries.remove(0);
            proof {
                assert(fields_view(g@) == groups_view(entries_pre)[0]);
                assert(groups_view(entries_pre)[0] == all[k]);
                assert(groups_view(entries@) =~= groups_view(entries_pre).drop_first());
                assert(groups_view(entries@) =~= all.skip(k + 1));
                assert(all.take(k + 1).drop_last() =~= all.take(k));
                assert(all.take(k + 1).last() == all[k]);
            }
            let glen = g.len();
            if glen >= min {
                if glen < max {
                    self.add_value_count_error(&g);
                }
                proof {
                    assert(groups_view(out@.push(g)) =~= groups_view(out@).push(fields_view(g@)));
                    assert(arity_keep(all.take(k), min as nat).push(all[k]) =~= arity_keep(
                        all.take(k),
                        min as nat,
                    ) + seq![all[k]]);
                }
                out.push(g);
            }
            proof {
                if min <= all[k].len() && all[k].len() < max {
                    assert(self.errors@ =~= old(self).errors@ + arity_errors(
                        all.take(k + 1),
                        min as nat,
                        max as nat,
                    ));
                } else {
                    assert(arity_errors(all.take(k + 1), min as nat, max as nat) =~= arity_errors(
                        all.take(k),
                        min as nat,
                        max as nat,
                    ));
                    assert(arity_keep(all.take(k + 1), min as nat) =~= arity_keep(
                        all.take(k),
                        min as nat,
                    ) + if all[k].len() >= min {
                        seq![all[k]]
                    } else {
                        Seq::<Seq<SpanG>>::empty()
                    });
                }
                if all[k].len() >= min {
                } else {
                    assert(arity_keep(all.take(k + 1), min as nat) =~= arity_keep(
                        all.take(k),
                        min as nat,
                    ));
                }
            }
            proof {
                k = k + 1;
            }
        }
        proof {
            assert(all.take(k) =~= all);
        }
        out
    }

    /// Splits a span on `,` and returns the trimmed text of each non-empty
    /// entry, as [`string_list`] describes.  Records no diagnostics.
    #[verifier::loop_isolation(false)]
    pub fn parse_to_string_list(&mut self, value: UnparsedPropertyValue) -> (r: Vec<String>)
        ensures
            strings_view(r@) == string_list(value_entries(value@, false)),
            final (self).errors@ == old(self).errors@,
            final (self).latest_errors@ == old(self).latest_errors@,
            same_scan_fields(*final (self), *old(self)),
    {
        let mut entries = self.parse_to_value_entries(&value, false);
        let ghost all = value_entries(value@, false);
        let mut out: Vec<String> = Vec::new();
        let ghost mut k: int = 0;
        proof {
            assert(strings_view(out@) =~= Seq::<Seq<char>>::empty());
            assert(string_list(all.take(0)) =~= Seq::<Seq<char>>::empty());
            assert(groups_view(entries@) =~= all.skip(0));
        }
        while entries.len() > 0
            invariant
                0 <= k <= all.len(),
                groups_view(entries@) == all.skip(k),
                entries@.len() == all.len() - k,
                strings_view(out@) == string_list(all.take(k)),
            decreases entries@.len(),
        {
            let ghost entries_pre = entries@;
            let g = entries.remove(0);
            proof {
                assert(fields_view(g@) == groups_view(entries_pre)[0]);
                assert(groups_view(entries_pre)[0] == all[k]);
                assert(groups_view(entries@) =~= groups_view(entries_pre).drop_first());
                assert(groups_view(entries@) =~= all.skip(k + 1));
                assert(all.take(k + 1).drop_last() =~= all.take(k));
                assert(all.take(k + 1).last() == all[k]);
            }
            if g.len() > 0 {
                let first = &g[0];
                let chars = str_chars(first.raw.as_str());
                let (lo, hi) = crate::text::trim_bounds(chars.as_slice(), 0, chars.len());
                let s = crate::text::chars_string(chars.as_slice(), lo, hi);
                proof {
                    assert(first@ == all[k][0]);
                    assert(chars@.subrange(0, chars@.len() as int) =~= chars@);
                    assert(s@ == crate::text::trim_seq(all[k][0].text));
                    assert(strings_view(out@.push(s)) =~= strings_view(out@).push(s@));
                    assert(string_list(all.take(k + 1)) =~= string_list(all.take(k)) + seq![s@]);
                    assert(string_list(all.take(k)).push(s@) =~= string_list(all.take(k)) + seq![
                        s@,
                    ]);
                }
                out.push(s);
            } else {
                proof {
                    assert(string_list(all.take(k + 1)) =~= string_list(all.take(k)));
                }
            }
            proof {
                k = k + 1;
            }
        }
        proof {
            assert(all.take(k) =~= all);
        }
        out
    }
}

} // verus!
