//! The attack mini-language parser: `key=value` segments separated by `:`,
//! with the keys cycling through `time`, `end`/`len`, `mods`; every third
//! segment closes one attack record.

use vstd::prelude::*;

use crate::common::{inc_sat, inc_sat_usize, ParseError, ParseErrorCode};
use crate::lexer::{same_scan_fields, StepmaniaParser};
use crate::mappers::PRECISION_TIME;
use crate::numbers::number_value;
use crate::records::{StepmaniaAttack, StepmaniaAttackModifier};
use crate::span::{SpanG, UnparsedPropertyValue};
use crate::text::{chars_string, chars_string_lower, lower_seq, str_chars, trim_bounds, trim_seq};
use crate::values::number_errors;

verus! {

/// `a - b` saturated at the `i64` bounds.
pub open spec fn sat_sub(a: i64, b: i64) -> i64 {
    crate::decimal::clamp_i64(a - b)
}

/// Executable saturating subtraction matching [`sat_sub`].
pub fn sat_sub_i64(a: i64, b: i64) -> (r: i64)
    ensures
        r == sat_sub(a, b),
{
    let d: i128 = (a as i128) - (b as i128);
    if d > i64::MAX as i128 {
        i64::MAX
    } else if d < i64::MIN as i128 {
        i64::MIN
    } else {
        d as i64
    }
}

/// The attack scanner's state: the accumulated records (start and duration
/// of each; the modifier list of every record is empty), the segment key
/// last read, the record being accumulated, the key-rotation slot, the
/// position of the character being scanned, and the start offset and
/// first-character position of the current segment.
pub ghost struct AtkSt {
    pub list: Seq<(i64, i64)>,
    pub seg: Seq<char>,
    pub start_val: i64,
    pub len_val: i64,
    pub idx: int,
    pub cur_line: usize,
    pub cur_col: usize,
    pub start_line: usize,
    pub start_col: usize,
    pub start_pos: usize,
    pub errors: Seq<ParseError>,
}

/// Processing one completed `key=value` segment whose value ends at
/// `endpos`.  Diagnostic positions carry the position of the segment's
/// first character.
pub open spec fn seg_process(st: AtkSt, text: Seq<char>, endpos: int) -> AtkSt {
    let segtext = text.subrange(st.start_pos as int, endpos);
    let len = (endpos - st.start_pos) as usize;
    let span = SpanG { text: segtext, line: st.start_line, column: st.start_col, len };
    if st.seg == "time"@ {
        let st1 = if st.idx != 0 {
            AtkSt {
                errors: st.errors.push(
                    ParseError {
                        code: ParseErrorCode::StepmaniaInvalidAttackValueOrder,
                        line: st.start_line,
                        column: st.start_col,
                        len,
                    },
                ),
                idx: 0,
                ..st
            }
        } else {
            st
        };
        match number_value(segtext, PRECISION_TIME as nat) {
            Some(t) => AtkSt { start_val: t, ..st1 },
            None => AtkSt {
                errors: st1.errors + number_errors(span, PRECISION_TIME as nat),
                ..st1
            },
        }
    } else if st.idx == 1 && (st.seg == "end"@ || st.seg == "len"@) {
        match number_value(segtext, PRECISION_TIME as nat) {
            Some(v) => AtkSt {
                len_val: if st.seg == "len"@ {
                    v
                } else {
                    sat_sub(v, st.start_val)
                },
                ..st
            },
            None => AtkSt { errors: st.errors + number_errors(span, PRECISION_TIME as nat), ..st },
        }
    } else if st.idx == 2 && st.seg == "mods"@ {
        AtkSt { list: st.list.push((st.start_val, st.len_val)), start_val: 0, len_val: 0, ..st }
    } else {
        AtkSt {
            errors: st.errors.push(
                ParseError {
                    code: ParseErrorCode::StepmaniaInvalidAttackValue,
                    line: st.start_line,
                    column: st.start_col,
                    len,
                },
            ),
            ..st
        }
    }
}

/// One step of the attack scanner on character `text[i]`: `=` ends a key
/// (trimmed, lower-cased), `:` ends a value and processes the segment, and
/// a line break advances the line counter.
pub open spec fn atk_step(st: AtkSt, text: Seq<char>, i: int) -> AtkSt {
    let c = text[i];
    let st1 = if c == '=' {
        AtkSt {
            seg: lower_seq(trim_seq(text.subrange(st.start_pos as int, i))),
            start_line: st.cur_line,
            start_col: inc_sat(st.cur_col),
            start_pos: (i + 1) as usize,
            ..st
        }
    } else if c == ':' {
        let stp = seg_process(st, text, i);
        AtkSt {
            start_line: st.cur_line,
            start_col: inc_sat(st.cur_col),
            start_pos: (i + 1) as usize,
            idx: (stp.idx + 1) % 3,
            ..stp
        }
    } else {
        st
    };
    if c == '\n' {
        AtkSt { cur_line: inc_sat(st1.cur_line), cur_col: 0, ..st1 }
    } else {
        AtkSt { cur_col: inc_sat(st1.cur_col), ..st1 }
    }
}

/// The attack scanner's state after the first `n` characters of the span.
pub open spec fn atk_run(v: SpanG, n: int) -> AtkSt
    decreases n,
{
    if n <= 0 {
        AtkSt {
            list: Seq::empty(),
            seg: Seq::empty(),
            start_val: 0,
            len_val: 0,
            idx: 0,
            cur_line: v.line,
            cur_col: v.column,
            start_line: v.line,
            start_col: v.column,
            start_pos: 0,
            errors: Seq::empty(),
        }
    } else {
        atk_step(atk_run(v, n - 1), v.text, n - 1)
    }
}

/// The end of the scan: the trailing segment (the grammar has no outer
/// terminator) is processed like any other.
pub open spec fn atk_finish(v: SpanG) -> AtkSt {
    seg_process(atk_run(v, v.text.len() as int), v.text, v.text.len() as int)
}

/// The start and duration of each accumulated attack record.
pub open spec fn attacks_view(s: Seq<StepmaniaAttack>) -> Seq<(i64, i64)> {
    s.map(|i: int, a: StepmaniaAttack| (a.start, a.duration))
}

impl StepmaniaParser {
    /// Decodes the modifier list of one attack.  The modifier grammar is
    /// not decoded: the list is always empty.
    pub fn parse_attack_modifiers(&mut self, value: UnparsedPropertyValue) -> (r: Vec<
        StepmaniaAttackModifier,
    >)
        ensures
            r@.len() == 0,
            final (self).errors@ == old(self).errors@,
            final (self).latest_errors@ == old(self).latest_errors@,
            same_scan_fields(*final (self), *old(self)),
    {
        Vec::new()
    }

    /// Decodes a span in the attack mini-language, as [`atk_finish`]
    /// describes: each completed `time`/`end`-or-`len`/`mods` rotation
    /// yields one attack; keys out of order record
    /// `InvalidAttackValueOrder` or `InvalidAttackValue`; number failures
    /// record `InvalidNumber`.
    #[verifier::loop_isolation(false)]
    pub fn parse_attacks(&mut self, value: UnparsedPropertyValue) -> (r: Vec<StepmaniaAttack>)
        ensures
            attacks_view(r@) == atk_finish(value@).list,
            forall|k: int| 0 <= k < r@.len() ==> (#[trigger] r@[k]).modifiers@.len() == 0,
            final (self).errors@ == old(self).errors@ + atk_finish(value@).errors,
            final (self).latest_errors@ == old(self).latest_errors@,
            same_scan_fields(*final (self), *old(self)),
    {
        let ghost v = value@;
        let chars = str_chars(value.raw.as_str());
        let n = chars.len();
        let mut list: Vec<StepmaniaAttack> = Vec::new();
        let mut segment_name = String::new();
        let mut start_val: i64 = 0;
        let mut len_val: i64 = 0;
        let mut element_idx: usize = 0;
        let mut current_line = value.line;
        let mut current_col = value.column;
        let mut start_line = value.line;
        let mut start_col = value.column;
        let mut start_pos: usize = 0;
        proof {
            assert(attacks_view(list@) =~= Seq::<(i64, i64)>::empty());
        }
        let mut i: usize = 0;
        while i < n
            invariant
                0 <= i <= n,
                ({
                    let st = atk_run(v, i as int);
                    &&& attacks_view(list@) == st.list
                    &&& segment_name@ == st.seg
                    &&& start_val == st.start_val
                    &&& len_val == st.len_val
                    &&& element_idx as int == st.idx
                    &&& 0 <= st.idx < 3
                    &&& current_line == st.cur_line
                    &&& current_col == st.cur_col
                    &&& start_line == st.start_line
                    &&& start_col == st.start_col
                    &&& start_pos == st.start_pos
                    &&& st.start_pos <= i
                    &&& self.errors@ == old(self).errors@ + st.errors
                }),
                forall|k: int| 0 <= k < list@.len() ==> (#[trigger] list@[k]).modifiers@.len() == 0,
                self.latest_errors@ == old(self).latest_errors@,
                same_scan_fields(*self, *old(self)),
            decreases n - i,
        {
            let ghost st = atk_run(v, i as int);
            proof {
                assert(atk_run(v, i + 1) == atk_step(st, v.text, i as int));
            }
            let c = chars[i];
            if c == '=' {
                let (lo, hi) = trim_bounds(chars.as_slice(), start_pos, i);
                segment_name = chars_string_lower(chars.as_slice(), lo, hi);
                start_line = current_line;
                start_col = inc_sat_usize(current_col);
                start_pos = i + 1;
            } else if c == ':' {
                let ghost stp = seg_process(st, v.text, i as int);
                let len = i - start_pos;
                let seg_raw = chars_string(chars.as_slice(), start_pos, i);
                let tmp_unparsed = UnparsedPropertyValue {
                    line: start_line,
                    column: start_col,
                    len,
                    raw: seg_raw,
                };
                if crate::text::string_eq_str(&segment_name, "time") {
                    if element_idx != 0 {
                        self.errors.push(
                            ParseError {
                                code: ParseErrorCode::StepmaniaInvalidAttackValueOrder,
                                line: start_line,
                                column: start_col,
                                len,
                            },
                        );
                        element_idx = 0;
                    }
                    if let Some(time) = self.parse_to_number(tmp_unparsed, PRECISION_TIME) {
                        start_val = time;
                    }
                } else if element_idx == 1 && (crate::text::string_eq_str(&segment_name, "end")
                    || crate::text::string_eq_str(&segment_name, "len")) {
                    let is_len = crate::text::string_eq_str(&segment_name, "len");
                    if let Some(val) = self.parse_to_number(tmp_unparsed, PRECISION_TIME) {
                        len_val = if is_len {
                            val
                        } else {
                            sat_sub_i64(val, start_val)
                        };
                    }
                } else if element_idx == 2 && crate::text::string_eq_str(&segment_name, "mods") {
                    let modifiers = self.parse_attack_modifiers(tmp_unparsed);
                    let attack = StepmaniaAttack { start: start_val, duration: len_val, modifiers };
                    proof {
                        assert(attacks_view(list@.push(attack)) =~= attacks_view(list@).push(
                            (attack.start, attack.duration),
                        ));
                    }
                    list.push(attack);
                    start_val = 0;
                    len_val = 0;
                } else {
                    self.errors.push(
                        ParseError {
                            code: ParseErrorCode::StepmaniaInvalidAttackValue,
                            line: start_line,
                            column: start_col,
                            len,
                        },
                    );
                }
                start_line = current_line;
                start_col = inc_sat_usize(current_col);
                start_pos = i + 1;
                element_idx = (element_idx + 1) % 3;
            }
            if c == '\n' {
                current_line = inc_sat_usize(current_line);
                current_col = 0;
            } else {
                current_col = inc_sat_usize(current_col);
            }
            i = i + 1;
        }

        // The trailing segment is processed like an in-loop one.
        let ghost stn = atk_run(v, n as int);
        let ghost stf = seg_process(stn, v.text, n as int);
        let len = n - start_pos;
        let seg_raw = chars_string(chars.as_slice(), start_pos, n);
        let tmp_unparsed = UnparsedPropertyValue {
            line: start_line,
            column: start_col,
            len,
            raw: seg_raw,
        };
        if crate::text::string_eq_str(&segment_name, "time") {
            if element_idx != 0 {
                self.errors.push(
                    ParseError {
                        code: ParseErrorCode::StepmaniaInvalidAttackValueOrder,
                        line: start_line,
                        column: start_col,
                        len,
                    },
                );
                element_idx = 0;
            }
            if let Some(time) = self.parse_to_number(tmp_unparsed, PRECISION_TIME) {
                start_val = time;
            }
        } else if element_idx == 1 && (crate::text::string_eq_str(&segment_name, "end")
            || crate::text::string_eq_str(&segment_name, "len")) {
            let is_len = crate::text::string_eq_str(&segment_name, "len");
            if let Some(val) = self.parse_to_number(tmp_unparsed, PRECISION_TIME) {
                len_val = if is_len {
                    val
                } else {
                    sat_sub_i64(val, start_val)
                };
            }
        } else if element_idx == 2 && crate::text::string_eq_str(&segment_name, "mods") {
            let modifiers = self.parse_attack_modifiers(tmp_unparsed);
            let attack = StepmaniaAttack { start: start_val, duration: len_val, modifiers };
            proof {
                assert(attacks_view(list@.push(attack)) =~= attacks_view(list@).push(
                    (attack.start, attack.duration),
                ));
            }
            list.push(attack);
        } else {
            self.errors.push(
                ParseError {
                    code: ParseErrorCode::StepmaniaInvalidAttackValue,
                    line: start_line,
                    column: start_col,
                    len,
                },
            );
        }
        list
    }
}

} // verus!
