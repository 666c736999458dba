//! The note-chart parser: five `:`-separated metadata fields followed by
//! the note grid, with inline `{...}` attack and `[...]` keysound
//! sub-grammars.

use vstd::prelude::*;

use crate::attacks::atk_finish;
use crate::common::{inc_sat, inc_sat_usize, ParseError, ParseErrorCode};
use crate::lexer::{same_scan_fields, StepmaniaParser};
use crate::numbers::{u16_of_string, u32_of_string};
use crate::records::{StepmaniaNoteAttack, StepmaniaRadarValues};
use crate::span::{SpanG, UnparsedPropertyValue};
use crate::text::{chars_string, chars_string_lower, lower_seq, str_chars, trim_bounds, trim_seq};

verus! {

/// The type of one note cell.
#[derive(Debug, Clone, Copy, PartialEq, Eq, Structural)]
pub enum StepmaniaNoteType {
    Empty,
    Tap,
    HoldHead,
    RollHead,
    Tail,
    Mine,
    Keysound,
    Lift,
    Fake,
}

impl Default for StepmaniaNoteType {
    fn default() -> (r: Self)
        ensures
            r == StepmaniaNoteType::Empty,
    {
        StepmaniaNoteType::Empty
    }
}

/// The note type a grid character denotes; unrecognized characters map to
/// an empty cell.
pub open spec fn note_type_of(c: char) -> StepmaniaNoteType {
    if c == '0' {
        StepmaniaNoteType::Empty
    } else if c == '1' {
        StepmaniaNoteType::Tap
    } else if c == '2' {
        StepmaniaNoteType::HoldHead
    } else if c == '4' {
        StepmaniaNoteType::RollHead
    } else if c == '3' {
        StepmaniaNoteType::Tail
    } else if c == 'M' {
        StepmaniaNoteType::Mine
    } else if c == 'K' {
        StepmaniaNoteType::Keysound
    } else if c == 'L' {
        StepmaniaNoteType::Lift
    } else if c == 'F' {
        StepmaniaNoteType::Fake
    } else {
        StepmaniaNoteType::Empty
    }
}

impl StepmaniaNoteType {
    /// The note type for a grid character, as [`note_type_of`] describes.
    pub fn from_char(c: char) -> (r: Self)
        ensures
            r == note_type_of(c),
    {
        if c == '0' {
            StepmaniaNoteType::Empty
        } else if c == '1' {
            StepmaniaNoteType::Tap
        } else if c == '2' {
            StepmaniaNoteType::HoldHead
        } else if c == '4' {
            StepmaniaNoteType::RollHead
        } else if c == '3' {
            StepmaniaNoteType::Tail
        } else if c == 'M' {
            StepmaniaNoteType::Mine
        } else if c == 'K' {
            StepmaniaNoteType::Keysound
        } else if c == 'L' {
            StepmaniaNoteType::Lift
        } else if c == 'F' {
            StepmaniaNoteType::Fake
        } else {
            StepmaniaNoteType::Empty
        }
    }
}

/// A chart's difficulty slot.
#[derive(Debug, Clone, Copy, PartialEq, Eq, Structural)]
pub enum StepmaniaDifficulty {
    Beginner,
    Easy,
    Medium,
    Hard,
    Challenge,
    Edit,
}

impl Default for StepmaniaDifficulty {
    fn default() -> (r: Self)
        ensures
            r == StepmaniaDifficulty::Edit,
    {
        StepmaniaDifficulty::Edit
    }
}

/// The difficulty a (case-folded) name denotes; unknown names map to
/// `Edit`.  The format spells the challenge slot `challange`.
pub open spec fn difficulty_of(s: Seq<char>) -> StepmaniaDifficulty {
    let l = lower_seq(s);
    if l == "beginner"@ {
        StepmaniaDifficulty::Beginner
    } else if l == "easy"@ {
        StepmaniaDifficulty::Easy
    } else if l == "medium"@ {
        StepmaniaDifficulty::Medium
    } else if l == "hard"@ {
        StepmaniaDifficulty::Hard
    } else if l == "challange"@ {
        StepmaniaDifficulty::Challenge
    } else {
        StepmaniaDifficulty::Edit
    }
}

impl StepmaniaDifficulty {
    /// The difficulty for a name, as [`difficulty_of`] describes.
    pub fn from_str(str: &str) -> (r: Self)
        ensures
            r == difficulty_of(str@),
    {
        let chars = str_chars(str);
        let lowered = chars_string_lower(chars.as_slice(), 0, chars.len());
        proof {
            assert(chars@.subrange(0, chars@.len() as int) =~= chars@);
        }
        if crate::text::string_eq_str(&lowered, "beginner") {
            StepmaniaDifficulty::Beginner
        } else if crate::text::string_eq_str(&lowered, "easy") {
            StepmaniaDifficulty::Easy
        } else if crate::text::string_eq_str(&lowered, "medium") {
            StepmaniaDifficulty::Medium
        } else if crate::text::string_eq_str(&lowered, "hard") {
            StepmaniaDifficulty::Hard
        } else if crate::text::string_eq_str(&lowered, "challange") {
            StepmaniaDifficulty::Challenge
        } else {
            StepmaniaDifficulty::Edit
        }
    }
}

/// The chart parser's states: five sequential metadata fields, then the
/// note grid with its two inline sub-states.
#[derive(Debug, Clone, Copy)]
pub enum ChartParserState {
    Type,
    Credits,
    Difficulty,
    Rating,
    RadioValues,
    Notes,
    InlineKeysound,
    InlineAttack,
}

/// The state that follows each metadata state; everything at or past the
/// grid stays in the grid.
pub open spec fn next_state(s: ChartParserState) -> ChartParserState {
    match s {
        ChartParserState::Type => ChartParserState::Credits,
        ChartParserState::Credits => ChartParserState::Difficulty,
        ChartParserState::Difficulty => ChartParserState::Rating,
        ChartParserState::Rating => ChartParserState::RadioValues,
        _ => ChartParserState::Notes,
    }
}

impl ChartParserState {
    /// The next layer-1 state, as [`next_state`] describes.
    pub fn next(&self) -> (r: ChartParserState)
        ensures
            r == next_state(*self),
    {
        match self {
            ChartParserState::Type => ChartParserState::Credits,
            ChartParserState::Credits => ChartParserState::Difficulty,
            ChartParserState::Difficulty => ChartParserState::Rating,
            ChartParserState::Rating => ChartParserState::RadioValues,
            _ => ChartParserState::Notes,
        }
    }
}

/// One cell of the note grid.
#[derive(Debug, Default)]
pub struct StepmaniaNote {
    pub note_type: StepmaniaNoteType,
    pub keysound: Option<u32>,
    pub actions: Vec<StepmaniaNoteAttack>,
}

/// The decoded note grid: the inferred lane count and the beat-rows.
#[derive(Debug, Default)]
pub struct StepmaniaNoteData {
    pub column_count: u8,
    pub notes: Vec<Vec<StepmaniaNote>>,
}

/// One decoded chart.
#[derive(Debug, Default)]
pub struct StepmaniaChart {
    /// Name of the chart.
    pub name: Option<String>,
    /// The type of the game mode (dance-single, dance-double, ...).
    pub step_style: String,
    /// Custom name for the step-style.
    pub chart_style: Option<String>,
    /// The charter/creator.
    pub credit: String,
    /// Difficulty of the chart.
    pub difficulty: StepmaniaDifficulty,
    /// The rating of the chart as a number.
    pub meter: u16,
    /// Radar values describing the skillsets.
    pub radar_values: StepmaniaRadarValues,
    /// The note data.
    pub data: StepmaniaNoteData,
}

/// A note cell as mathematics: its type, keysound, and the durations of
/// its inline attacks.
pub ghost struct CellG {
    pub t: StepmaniaNoteType,
    pub ks: Option<u32>,
    pub acts: Seq<i64>,
}

pub open spec fn note_view(n: StepmaniaNote) -> CellG {
    CellG { t: n.note_type, ks: n.keysound, acts: n.actions@.map(|i: int, a: StepmaniaNoteAttack| a.duration) }
}

pub open spec fn row_view(r: Seq<StepmaniaNote>) -> Seq<CellG> {
    r.map(|i: int, n: StepmaniaNote| note_view(n))
}

pub open spec fn rows_view(rs: Seq<Vec<StepmaniaNote>>) -> Seq<Seq<CellG>> {
    rs.map(|i: int, r: Vec<StepmaniaNote>| row_view(r@))
}

/// The chart scanner's state.
pub ghost struct ChSt {
    pub mode: ChartParserState,
    pub start_idx: usize,
    pub line: usize,
    pub col: usize,
    pub step_style: Seq<char>,
    pub credit: Seq<char>,
    pub difficulty: StepmaniaDifficulty,
    pub meter: u16,
    pub radar: StepmaniaRadarValues,
    pub colcount: u8,
    pub rows: Seq<Seq<CellG>>,
    pub cur: Seq<CellG>,
    pub sub_start: usize,
    pub sub_line: usize,
    pub sub_col: usize,
    pub errors: Seq<ParseError>,
}

/// The all-zero radar record the stub decoder yields.
pub open spec fn radar_zero() -> StepmaniaRadarValues {
    StepmaniaRadarValues { stream: 0, voltage: 0, air: 0, freeze: 0, chaos: 0 }
}

/// Whether a chart state is still in a layer-1 metadata field.
pub open spec fn is_meta(s: ChartParserState) -> bool {
    match s {
        ChartParserState::Type => true,
        ChartParserState::Credits => true,
        ChartParserState::Difficulty => true,
        ChartParserState::Rating => true,
        ChartParserState::RadioValues => true,
        _ => false,
    }
}

/// One step of the chart scanner on character `text[i]`.
pub open spec fn ch_step(st: ChSt, text: Seq<char>, i: int) -> ChSt {
    let c = text[i];
    match st.mode {
        ChartParserState::Type
        | ChartParserState::Credits
        | ChartParserState::Difficulty
        | ChartParserState::Rating
        | ChartParserState::RadioValues => {
            if c != ':' {
                if c == '\n' {
                    ChSt { col: 1, line: inc_sat(st.line), ..st }
                } else {
                    ChSt { col: inc_sat(st.col), ..st }
                }
            } else {
                let strv = trim_seq(text.subrange(st.start_idx as int, i));
                let st1 = match st.mode {
                    ChartParserState::Type => ChSt { step_style: strv, ..st },
                    ChartParserState::Credits => ChSt { credit: strv, ..st },
                    ChartParserState::Difficulty => ChSt { difficulty: difficulty_of(strv), ..st },
                    ChartParserState::Rating => match u16_of_string(strv) {
                        Some(m) => ChSt { meter: m, ..st },
                        None => ChSt {
                            errors: st.errors.push(
                                ParseError {
                                    code: ParseErrorCode::StepmaniaInvalidNumber,
                                    line: st.line,
                                    column: st.col,
                                    len: strv.len() as usize,
                                },
                            ),
                            ..st
                        },
                    },
                    _ => ChSt { radar: radar_zero(), ..st },
                };
                ChSt {
                    col: inc_sat(st.col),
                    start_idx: (i + 1) as usize,
                    mode: next_state(st.mode),
                    ..st1
                }
            }
        },
        ChartParserState::InlineAttack => {
            if c == '}' {
                let body = SpanG {
                    text: text.subrange(st.sub_start as int, i),
                    line: st.sub_line,
                    column: st.sub_col,
                    len: (i - st.sub_start) as usize,
                };
                let fin = atk_finish(body);
                let cur1 = if st.cur.len() > 0 {
                    let last = st.cur.last();
                    st.cur.update(
                        st.cur.len() - 1,
                        CellG { acts: last.acts + fin.list.map(|j: int, p: (i64, i64)| p.1), ..last },
                    )
                } else {
                    st.cur
                };
                ChSt {
                    mode: ChartParserState::Notes,
                    cur: cur1,
                    errors: st.errors + fin.errors,
                    ..st
                }
            } else {
                st
            }
        },
        ChartParserState::InlineKeysound => {
            if c == ']' {
                let body = text.subrange(st.sub_start as int, i);
                let cur1 = match u32_of_string(trim_seq(body)) {
                    Some(k) => if st.cur.len() > 0 {
                        let last = st.cur.last();
                        st.cur.update(st.cur.len() - 1, CellG { ks: Some(k), ..last })
                    } else {
                        st.cur
                    },
                    None => st.cur,
                };
                ChSt { mode: ChartParserState::Notes, cur: cur1, col: inc_sat(st.col), ..st }
            } else {
                st
            }
        },
        _ => {
            if c == '{' {
                ChSt {
                    mode: ChartParserState::InlineAttack,
                    col: inc_sat(st.col),
                    sub_start: (i + 1) as usize,
                    sub_line: st.line,
                    sub_col: inc_sat(st.col),
                    ..st
                }
            } else if c == '[' {
                ChSt {
                    mode: ChartParserState::InlineKeysound,
                    col: inc_sat(st.col),
                    sub_start: (i + 1) as usize,
                    sub_line: st.line,
                    sub_col: inc_sat(st.col),
                    ..st
                }
            } else if c == ',' {
                ChSt {
                    rows: st.rows.push(st.cur),
                    cur: Seq::empty(),
                    col: inc_sat(st.col),
                    ..st
                }
            } else if c == '0' || c == '1' || c == '2' || c == '4' || c == '3' || c == 'M' || c
                == 'K' || c == 'L' || c == 'F' {
                ChSt {
                    cur: st.cur.push(CellG { t: note_type_of(c), ks: None, acts: Seq::empty() }),
                    col: inc_sat(st.col),
                    ..st
                }
            } else if c == '\n' {
                let cc = if st.colcount == 0 && st.cur.len() > 0 && st.cur.len() <= 255 {
                    st.cur.len() as u8
                } else {
                    st.colcount
                };
                ChSt { colcount: cc, col: 1, line: inc_sat(st.line), ..st }
            } else {
                ChSt { col: inc_sat(st.col), ..st }
            }
        },
    }
}

/// The chart scanner's state after the first `n` characters of the span.
pub open spec fn ch_run(v: SpanG, n: int) -> ChSt
    decreases n,
{
    if n <= 0 {
        ChSt {
            mode: ChartParserState::Type,
            start_idx: 0,
            line: v.line,
            col: v.column,
            step_style: Seq::empty(),
            credit: Seq::empty(),
            difficulty: StepmaniaDifficulty::Edit,
            meter: 0,
            radar: radar_zero(),
            colcount: 0,
            rows: Seq::empty(),
            cur: Seq::empty(),
            sub_start: 0,
            sub_line: 0,
            sub_col: 0,
            errors: Seq::empty(),
        }
    } else {
        ch_step(ch_run(v, n - 1), v.text, n - 1)
    }
}

/// The end of the scan: a non-empty in-progress row is flushed into the
/// grid.
pub open spec fn ch_rows_final(st: ChSt) -> Seq<Seq<CellG>> {
    if st.cur.len() > 0 {
        st.rows.push(st.cur)
    } else {
        st.rows
    }
}

impl StepmaniaParser {
    /// Decodes the radar-values field.  The radar grammar is not decoded:
    /// every rating is zero.
    pub fn parse_to_radio_values(&mut self, input: UnparsedPropertyValue) -> (r: Option<
        StepmaniaRadarValues,
    >)
        ensures
            r == Some(radar_zero()),
            final (self).errors@ == old(self).errors@,
            final (self).latest_errors@ == old(self).latest_errors@,
            same_scan_fields(*final (self), *old(self)),
    {
        Some(StepmaniaRadarValues { stream: 0, voltage: 0, air: 0, freeze: 0, chaos: 0 })
    }

    /// Decodes the `NOTES` property: five `:`-separated metadata fields
    /// (style, credit, difficulty, rating, radar values), then the note
    /// grid, as [`ch_run`] describes.  `{...}` bodies are decoded by the
    /// attack parser and attached to the preceding cell; `[...]` bodies
    /// resolve to the preceding cell's keysound index.
    #[verifier::spinoff_prover]
    #[verifier::rlimit(100)]
    #[verifier::loop_isolation(false)]
    pub fn parse_to_chart(&mut self, input: UnparsedPropertyValue) -> (r: Option<StepmaniaChart>)
        ensures
            ({
                let fin = ch_run(input@, input@.text.len() as int);
                match r {
                    Some(chart) => {
                        &&& chart.name is None
                        &&& chart.chart_style is None
                        &&& chart.step_style@ == fin.step_style
                        &&& chart.credit@ == fin.credit
                        &&& chart.difficulty == fin.difficulty
                        &&& chart.meter == fin.meter
                        &&& chart.radar_values == fin.radar
                        &&& chart.data.column_count == fin.colcount
                        &&& rows_view(chart.data.notes@) == ch_rows_final(fin)
                    },
                    None => false,
                }
            }),
            final (self).errors@ == old(self).errors@ + ch_run(
                input@,
                input@.text.len() as int,
            ).errors,
            final (self).latest_errors@ == old(self).latest_errors@,
            same_scan_fields(*final (self), *old(self)),
    {
        let ghost v = input@;
        let chars = str_chars(input.raw.as_str());
        let n = chars.len();
        let mut state = ChartParserState::Type;
        let mut start_idx: usize = 0;
        let mut line = input.line;
        let mut col = input.column;
        let mut step_style = String::new();
        let mut credit = String::new();
        let mut difficulty = StepmaniaDifficulty::Edit;
        let mut meter: u16 = 0;
        let mut radar = StepmaniaRadarValues { stream: 0, voltage: 0, air: 0, freeze: 0, chaos: 0 };
        let mut column_count: u8 = 0;
        let mut rows: Vec<Vec<StepmaniaNote>> = Vec::new();
        let mut cur: Vec<StepmaniaNote> = Vec::new();
        let mut sub_start: usize = 0;
        let mut sub_line: usize = 0;
        let mut sub_col: usize = 0;
        proof {
            assert(rows_view(rows@) =~= Seq::<Seq<CellG>>::empty());
            assert(row_view(cur@) =~= Seq::<CellG>::empty());
        }
        let mut i: usize = 0;
        while i < n
            invariant
                0 <= i <= n,
                ({
                    let st = ch_run(v, i as int);
                    &&& state is Type ==> st.mode is Type
                    &&& state is Credits ==> st.mode is Credits
                    &&& state is Difficulty ==> st.mode is Difficulty
                    &&& state is Rating ==> st.mode is Rating
                    &&& state is RadioValues ==> st.mode is RadioValues
                    &&& state is Notes ==> st.mode is Notes
                    &&& state is InlineKeysound ==> st.mode is InlineKeysound
                    &&& state is InlineAttack ==> st.mode is InlineAttack
                    &&& st.mode is Type ==> state is Type
                    &&& st.mode is Credits ==> state is Credits
                    &&& st.mode is Difficulty ==> state is Difficulty
                    &&& st.mode is Rating ==> state is Rating
                    &&& st.mode is RadioValues ==> state is RadioValues
                    &&& st.mode is Notes ==> state is Notes
                    &&& st.mode is InlineKeysound ==> state is InlineKeysound
                    &&& st.mode is InlineAttack ==> state is InlineAttack
                    &&& start_idx == st.start_idx
                    &&& st.start_idx <= i
                    &&& line == st.line
                    &&& col == st.col
                    &&& step_style@ == st.step_style
                    &&& credit@ == st.credit
                    &&& difficulty == st.difficulty
                    &&& meter == st.meter
                    &&& radar == st.radar
                    &&& column_count == st.colcount
                    &&& rows_view(rows@) == st.rows
                    &&& row_view(cur@) == st.cur
                    &&& sub_start == st.sub_start
                    &&& (state is InlineAttack || state is InlineKeysound) ==> st.sub_start <= i
                    &&& sub_line == st.sub_line
                    &&& sub_col == st.sub_col
                    &&& self.errors@ == old(self).errors@ + st.errors
                }),
                self.latest_errors@ == old(self).latest_errors@,
                same_scan_fields(*self, *old(self)),
            decreases n - i,
        {
            let ghost st = ch_run(v, i as int);
            proof {
                assert(ch_run(v, i + 1) == ch_step(st, v.text, i as int));
            }
            let c = chars[i];
            match state {
                ChartParserState::Type
                | ChartParserState::Credits
                | ChartParserState::Difficulty
                | ChartParserState::Rating
                | ChartParserState::RadioValues => {
                    if c != ':' {
                        if c == '\n' {
                            col = 1;
                            line = inc_sat_usize(line);
                        } else {
                            col = inc_sat_usize(col);
                        }
                    } else {
                        let (lo, hi) = trim_bounds(chars.as_slice(), start_idx, i);
                        let captured = chars_string(chars.as_slice(), lo, hi);
                        match state {
                            ChartParserState::Type => {
                                step_style = captured;
                            },
                            ChartParserState::Credits => {
                                credit = captured;
                            },
                            ChartParserState::Difficulty => {
                                difficulty = StepmaniaDifficulty::from_str(captured.as_str());
                            },
                            ChartParserState::Rating => {
                                let trimmed_span = UnparsedPropertyValue {
                                    raw: captured,
                                    line,
                                    column: col,
                                    len: hi - lo,
                                };
                                match crate::mappers::parse_trimmed_u16(&trimmed_span) {
                                    Some(rating) => {
                                        meter = rating;
                                    },
                                    None => {
                                        proof {
                                            let strv = trim_seq(
                                                v.text.subrange(st.start_idx as int, i as int),
                                            );
                                            crate::text::lemma_trim_idempotent(
                                                v.text.subrange(st.start_idx as int, i as int),
                                            );
                                            assert(trim_seq(strv) =~= strv);
                                        }
                                        self.errors.push(
                                            ParseError {
                                                code: ParseErrorCode::StepmaniaInvalidNumber,
                                                column: col,
                                                line,
                                                len: hi - lo,
                                            },
                                        );
                                    },
                                }
                            },
                            _ => {
                                let span = UnparsedPropertyValue {
                                    len: hi - lo,
                                    raw: captured,
                                    column: col,
                                    line,
                                };
                                if let Some(val) = self.parse_to_radio_values(span) {
                                    radar = val;
                                }
                            },
                        }
                        proof {
                            if state is Rating {
                                let strv = trim_seq(v.text.subrange(st.start_idx as int, i as int));
                                crate::text::lemma_trim_idempotent(
                                    v.text.subrange(st.start_idx as int, i as int),
                                );
                                assert(trim_seq(strv) =~= strv);
                            }
                        }
                        col = inc_sat_usize(col);
                        start_idx = i + 1;
                        state = state.next();
                    }
                },
                ChartParserState::InlineAttack => {
                    if c == '}' {
                        let len = i - sub_start;
                        let body = UnparsedPropertyValue {
                            raw: chars_string(chars.as_slice(), sub_start, i),
                            line: sub_line,
                            column: sub_col,
                            len,
                        };
                        let attacks = self.parse_attacks(body);
                        if cur.len() > 0 {
                            let ghost cur_pre = cur@;
                            let mut lastn = cur.pop().unwrap();
                            let ghost acts_pre = note_view(lastn).acts;
                            let ghost alist = atk_finish(
                                SpanG {
                                    text: v.text.subrange(st.sub_start as int, i as int),
                                    line: st.sub_line,
                                    column: st.sub_col,
                                    len: (i - st.sub_start) as usize,
                                },
                            ).list;
                            let mut attacks = attacks;
                            let ghost mut aj: int = 0;
                            proof {
                                assert(crate::attacks::attacks_view(attacks@) == alist);
                                assert(acts_pre + alist.map(|j: int, p: (i64, i64)| p.1).take(0)
                                    =~= acts_pre);
                                assert(crate::attacks::attacks_view(attacks@) =~= alist.skip(0));
                            }
                            while attacks.len() > 0
                                invariant
                                    0 <= aj <= alist.len(),
                                    crate::attacks::attacks_view(attacks@) == alist.skip(aj),
                                    attacks@.len() == alist.len() - aj,
                                    forall|k: int|
                                        0 <= k < attacks@.len() ==> (#[trigger] attacks@[k]).modifiers@.len()
                                            == 0,
                                    note_view(lastn).acts == acts_pre + alist.map(
                                        |j: int, p: (i64, i64)| p.1,
                                    ).take(aj),
                                    lastn.note_type == note_view(lastn).t,
                                    note_view(lastn).t == st.cur.last().t,
                                    note_view(lastn).ks == st.cur.last().ks,
                                decreases attacks@.len(),
                            {
                                let ghost attacks_pre = attacks@;
                                let a = attacks.remove(0);
                                let na = StepmaniaNoteAttack {
                                    duration: a.duration,
                                    modifiers: a.modifiers,
                                };
                                proof {
                                    assert(crate::attacks::attacks_view(attacks_pre)[0]
                                        == alist[aj]);
                                    assert(crate::attacks::attacks_view(attacks@)
                                        =~= crate::attacks::attacks_view(attacks_pre).drop_first());
                                    assert(crate::attacks::attacks_view(attacks@) =~= alist.skip(
                                        aj + 1,
                                    ));
                                    assert(note_view(lastn).acts.push(na.duration) =~= acts_pre
                                        + alist.map(|j: int, p: (i64, i64)| p.1).take(aj + 1));
                                    assert((lastn.actions@.push(na)).map(
                                        |i: int, x: StepmaniaNoteAttack| x.duration,
                                    ) =~= lastn.actions@.map(
                                        |i: int, x: StepmaniaNoteAttack| x.duration,
                                    ).push(na.duration));
                                }
                                lastn.actions.push(na);
                                proof {
                                    aj = aj + 1;
                                }
                            }
                            proof {
                                assert(alist.map(|j: int, p: (i64, i64)| p.1).take(aj) =~= alist.map(
                                    |j: int, p: (i64, i64)| p.1,
                                ));
                            }
                            cur.push(lastn);
                            proof {
                                assert(row_view(cur@) =~= row_view(cur_pre).update(
                                    cur_pre.len() - 1,
                                    note_view(lastn),
                                ));
                            }
                        }
                        state = ChartParserState::Notes;
                    }
                },
                ChartParserState::InlineKeysound => {
                    if c == ']' {
                        let len = i - sub_start;
                        let body = UnparsedPropertyValue {
                            raw: chars_string(chars.as_slice(), sub_start, i),
                            line: sub_line,
                            column: sub_col,
                            len,
                        };
                        match crate::mappers::parse_trimmed_u32(&body) {
                            Some(k) => {
                                if cur.len() > 0 {
                                    let ghost cur_pre = cur@;
                                    let mut lastn = cur.pop().unwrap();
                                    lastn.keysound = Some(k);
                                    cur.push(lastn);
                                    proof {
                                        assert(row_view(cur@) =~= row_view(cur_pre).update(
                                            cur_pre.len() - 1,
                                            note_view(lastn),
                                        ));
                                    }
                                }
                            },
                            None => {},
                        }
                        state = ChartParserState::Notes;
                        col = inc_sat_usize(col);
                    }
                },
                _ => {
                    if c == '{' {
                        state = ChartParserState::InlineAttack;
                        col = inc_sat_usize(col);
                        sub_start = i + 1;
                        sub_line = line;
                        sub_col = col;
                    } else if c == '[' {
                        state = ChartParserState::InlineKeysound;
                        col = inc_sat_usize(col);
                        sub_start = i + 1;
                        sub_line = line;
                        sub_col = col;
                    } else if c == ',' {
                        proof {
                            assert(rows_view(rows@.push(cur)) =~= rows_view(rows@).push(
                                row_view(cur@),
                            ));
                        }
                        rows.push(cur);
                        cur = Vec::new();
                        proof {
                            assert(row_view(cur@) =~= Seq::<CellG>::empty());
                        }
                        col = inc_sat_usize(col);
                    } else if c == '0' || c == '1' || c == '2' || c == '4' || c == '3' || c == 'M'
                        || c == 'K' || c == 'L' || c == 'F' {
                        let note = StepmaniaNote {
                            note_type: StepmaniaNoteType::from_char(c),
                            actions: Vec::new(),
                            keysound: None,
                        };
                        proof {
                            assert(note_view(note).acts =~= Seq::<i64>::empty());
                            assert(row_view(cur@.push(note)) =~= row_view(cur@).push(
                                note_view(note),
                            ));
                        }
                        cur.push(note);
                        col = inc_sat_usize(col);
                    } else if c == '\n' {
                        if column_count == 0 && cur.len() > 0 && cur.len() <= 255 {
                            column_count = cur.len() as u8;
                        }
                        col = 1;
                        line = inc_sat_usize(line);
                    } else {
                        col = inc_sat_usize(col);
                    }
                },
            }
            i = i + 1;
        }
        let ghost fin = ch_run(v, n as int);
        if cur.len() > 0 {
            proof {
                assert(rows_view(rows@.push(cur)) =~= rows_view(rows@).push(row_view(cur@)));
            }
            rows.push(cur);
        }
        Some(
            StepmaniaChart {
                name: None,
                step_style,
                chart_style: None,
                credit,
                difficulty,
                meter,
                radar_values: radar,
                data: StepmaniaNoteData { column_count, notes: rows },
            },
        )
    }
}

} // verus!
