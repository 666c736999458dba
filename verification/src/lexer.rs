//! The property lexer: a state machine that splits raw chart text into
//! `#NAME:VALUE;` properties, tracking line/column positions and coalescing
//! runs of offending characters into single diagnostics.

use vstd::prelude::*;

use crate::common::{
    coalesce_close_errors,
    coalesce_close_open,
    coalesce_open,
    closed_error,
    inc_sat_usize,
    lemma_open_index_at,
    lemma_open_index_none,
    lemma_open_index_props,
    next_col,
    next_line,
    open_index,
    ParseError,
    ParseErrorCode,
};
use crate::span::{
    find_prop,
    insert_prop,
    props_has,
    props_insert,
    props_view,
    PropEntry,
    SpanG,
    UnparsedPropertyValue,
};
use crate::text::{chars_string, chars_string_lower, is_space, is_space_char, lower_seq, str_chars};

verus! {

/// The scanning state shared by the lexer and the value decoders: position
/// counters, the accumulated diagnostics, and the per-kind open diagnostics
/// used to coalesce runs.
#[derive(Debug)]
pub struct StepmaniaParser {
    /// The line the scanner is on (first line is 1).
    pub line: usize,
    /// The column the scanner is on (first column is 0).
    pub col: usize,
    /// The start offset of the name or value being scanned.
    pub start_pos: usize,
    /// All diagnostics for the parse result.
    pub errors: Vec<ParseError>,
    /// The open diagnostics, one per kind at most, holding their start
    /// offset in `len` until they are closed.
    pub latest_errors: Vec<ParseError>,
    /// The lower-cased name of the property being scanned.
    pub latest_name: String,
    /// The position of the first character of the current property name.
    pub name_line: usize,
    /// See `name_line`.
    pub name_col: usize,
    /// The position of the first character of the current property value.
    pub value_line: usize,
    /// See `value_line`.
    pub value_col: usize,
}

/// The lexer's states.  The two quoted states are reserved by the format but
/// not exercised by its grammar.
#[derive(Debug, Clone, Copy)]
pub enum ParserState {
    Clean,
    Name,
    Value,
    DoubleQuoteValue,
    SingleQuoteValue,
}

/// The lexer modes the grammar exercises.
pub ghost enum LexMode {
    Clean,
    Name,
    Value,
}

pub open spec fn mode_of(s: ParserState) -> LexMode {
    match s {
        ParserState::Clean => LexMode::Clean,
        ParserState::Name => LexMode::Name,
        ParserState::Value => LexMode::Value,
        _ => LexMode::Clean,
    }
}

/// The complete state of the lexer while scanning.
pub ghost struct LexState {
    pub mode: LexMode,
    pub line: usize,
    pub col: usize,
    pub start: usize,
    pub name: Seq<char>,
    pub nline: usize,
    pub ncol: usize,
    pub vline: usize,
    pub vcol: usize,
    pub props: Seq<(Seq<char>, SpanG)>,
    pub open: Seq<ParseError>,
    pub errors: Seq<ParseError>,
}

/// The lexer state a fresh scan starts from, given the scanning fields of
/// the parser.
pub open spec fn lex_init(p: StepmaniaParser) -> LexState {
    LexState {
        mode: LexMode::Clean,
        line: p.line,
        col: p.col,
        start: p.start_pos,
        name: p.latest_name@,
        nline: p.name_line,
        ncol: p.name_col,
        vline: p.value_line,
        vcol: p.value_col,
        props: Seq::empty(),
        open: p.latest_errors@,
        errors: p.errors@,
    }
}

/// One step of the lexer on character `input[i]`.
pub open spec fn lex_step(st: LexState, input: Seq<char>, i: int) -> LexState {
    let c = input[i];
    let line1 = next_line(st.line, c);
    let col1 = next_col(st.col, c);
    match st.mode {
        LexMode::Clean => {
            if is_space(c) {
                LexState { line: line1, col: col1, ..st }
            } else if c != '#' {
                LexState {
                    line: line1,
                    col: col1,
                    open: coalesce_open(
                        st.open,
                        ParseErrorCode::StepmaniaExpectedPropertyStart,
                        st.line,
                        st.col,
                        i as usize,
                    ),
                    ..st
                }
            } else {
                LexState {
                    mode: LexMode::Name,
                    line: line1,
                    col: col1,
                    start: (i + 1) as usize,
                    nline: line1,
                    ncol: col1,
                    open: coalesce_close_open(
                        st.open,
                        ParseErrorCode::StepmaniaExpectedPropertyStart,
                    ),
                    errors: coalesce_close_errors(
                        st.open,
                        st.errors,
                        ParseErrorCode::StepmaniaExpectedPropertyStart,
                        i as usize,
                    ),
                    ..st
                }
            }
        },
        LexMode::Name => {
            if is_space(c) {
                LexState {
                    line: line1,
                    col: col1,
                    open: coalesce_open(
                        st.open,
                        ParseErrorCode::StepmaniaInvalidPropertyName,
                        st.line,
                        st.col,
                        i as usize,
                    ),
                    ..st
                }
            } else if c != ':' {
                LexState {
                    line: line1,
                    col: col1,
                    open: coalesce_close_open(st.open, ParseErrorCode::StepmaniaInvalidPropertyName),
                    errors: coalesce_close_errors(
                        st.open,
                        st.errors,
                        ParseErrorCode::StepmaniaInvalidPropertyName,
                        i as usize,
                    ),
                    ..st
                }
            } else {
                let name1 = lower_seq(input.subrange(st.start as int, i));
                let errors1 = coalesce_close_errors(
                    st.open,
                    st.errors,
                    ParseErrorCode::StepmaniaInvalidPropertyName,
                    i as usize,
                );
                let errors2 = if props_has(st.props, name1) {
                    errors1.push(
                        ParseError {
                            code: ParseErrorCode::StepmaniaDuplicatePropertyName,
                            line: st.nline,
                            column: st.ncol,
                            len: (i - st.start) as usize,
                        },
                    )
                } else {
                    errors1
                };
                LexState {
                    mode: LexMode::Value,
                    line: line1,
                    col: col1,
                    start: (i + 1) as usize,
                    name: name1,
                    vline: line1,
                    vcol: col1,
                    open: coalesce_close_open(st.open, ParseErrorCode::StepmaniaInvalidPropertyName),
                    errors: errors2,
                    ..st
                }
            }
        },
        LexMode::Value => {
            if c == ':' {
                LexState {
                    line: line1,
                    col: col1,
                    open: coalesce_open(
                        st.open,
                        ParseErrorCode::StepmaniaExpectedValueEnd,
                        st.line,
                        st.col,
                        i as usize,
                    ),
                    ..st
                }
            } else if c != ';' {
                LexState { line: line1, col: col1, ..st }
            } else {
                let span = SpanG {
                    text: input.subrange(st.start as int, i),
                    line: st.line,
                    column: st.col,
                    len: (i - st.start) as usize,
                };
                LexState {
                    mode: LexMode::Clean,
                    line: line1,
                    col: col1,
                    props: props_insert(st.props, st.name, span),
                    open: coalesce_close_open(st.open, ParseErrorCode::StepmaniaExpectedValueEnd),
                    errors: coalesce_close_errors(
                        st.open,
                        st.errors,
                        ParseErrorCode::StepmaniaExpectedValueEnd,
                        i as usize,
                    ),
                    ..st
                }
            }
        },
    }
}

/// The lexer state after the first `n` characters.
pub open spec fn lex_run(init: LexState, input: Seq<char>, n: int) -> LexState
    decreases n,
{
    if n <= 0 {
        init
    } else {
        lex_step(lex_run(init, input, n - 1), input, n - 1)
    }
}

/// The end of the scan: every open diagnostic run is closed at the end of
/// the input, and a value left unterminated gets one final diagnostic
/// spanning from the value's start to the end of the input.
pub open spec fn lex_finish(st: LexState, n: usize) -> LexState {
    let closed = LexState {
        open: Seq::empty(),
        errors: st.errors + st.open.map(|j: int, e: ParseError| closed_error(e, n)),
        ..st
    };
    if st.mode is Value {
        LexState {
            errors: closed.errors.push(
                ParseError {
                    code: ParseErrorCode::StepmaniaExpectedValueEnd,
                    line: st.vline,
                    column: st.vcol,
                    len: (n - st.start) as usize,
                },
            ),
            ..closed
        }
    } else {
        closed
    }
}

/// Scan-position sanity: the current span start and every open diagnostic's
/// start offset lie at or before position `i`.
pub open spec fn lex_wf(st: LexState, i: int) -> bool {
    &&& st.start <= i
    &&& forall|j: int| 0 <= j < st.open.len() ==> (#[trigger] st.open[j]).len <= i
}

/// One lexer step preserves scan-position sanity.
pub proof fn lemma_lex_wf_step(st: LexState, input: Seq<char>, i: int)
    requires
        lex_wf(st, i),
        0 <= i,
    ensures
        lex_wf(lex_step(st, input, i), i + 1),
{
    let st1 = lex_step(st, input, i);
    assert forall|j: int| 0 <= j < st1.open.len() implies (#[trigger] st1.open[j]).len <= i + 1 by {
        lemma_wf_close(st.open, ParseErrorCode::StepmaniaExpectedPropertyStart, i, j);
        lemma_wf_close(st.open, ParseErrorCode::StepmaniaInvalidPropertyName, i, j);
        lemma_wf_close(st.open, ParseErrorCode::StepmaniaExpectedValueEnd, i, j);
    }
}

/// An entry of a closed-run open list keeps a start offset at or before `i`.
proof fn lemma_wf_close(open: Seq<ParseError>, code: ParseErrorCode, i: int, j: int)
    requires
        forall|l: int| 0 <= l < open.len() ==> (#[trigger] open[l]).len <= i,
    ensures
        0 <= j < coalesce_close_open(open, code).len() ==> coalesce_close_open(open, code)[j].len
            <= i,
{
    match open_index(open, code) {
        Some(k) => {
            lemma_open_index_props(open, code);
            open.remove_ensures(k);
            let r = open.remove(k);
            if 0 <= j < r.len() {
                if j < k {
                    assert(r[j] == open[j]);
                } else {
                    assert(r[j] == open[j + 1]);
                }
            }
        },
        None => {},
    }
}

/// The correspondence between the executable scanner and the lexer state.
pub open spec fn lex_rel(
    p: StepmaniaParser,
    map: Seq<PropEntry>,
    state: ParserState,
    st: LexState,
) -> bool {
    &&& p.line == st.line
    &&& p.col == st.col
    &&& p.start_pos == st.start
    &&& p.latest_name@ == st.name
    &&& p.name_line == st.nline
    &&& p.name_col == st.ncol
    &&& p.value_line == st.vline
    &&& p.value_col == st.vcol
    &&& p.errors@ == st.errors
    &&& p.latest_errors@ == st.open
    &&& props_view(map) == st.props
    &&& mode_of(state) == st.mode
    &&& (state is Clean || state is Name || state is Value)
}

/// The fields of the parser that the diagnostic helpers never touch.
pub open spec fn same_scan_fields(a: StepmaniaParser, b: StepmaniaParser) -> bool {
    &&& a.line == b.line
    &&& a.col == b.col
    &&& a.start_pos == b.start_pos
    &&& a.latest_name@ == b.latest_name@
    &&& a.name_line == b.name_line
    &&& a.name_col == b.name_col
    &&& a.value_line == b.value_line
    &&& a.value_col == b.value_col
}

/// Finds the open diagnostic of the given kind.
fn find_open(open: &Vec<ParseError>, code: ParseErrorCode) -> (r: Option<usize>)
    ensures
        match r {
            Some(ix) => ix < open@.len() && open_index(open@, code) == Some(ix as int),
            None => open_index(open@, code) is None,
        },
{
    let n = open.len();
    let mut j: usize = 0;
    while j < n
        invariant
            0 <= j <= n,
            n == open@.len(),
            forall|l: int| 0 <= l < j ==> open@[l].code != code,
        decreases n - j,
    {
        if open[j].code == code {
            proof {
                lemma_open_index_at(open@, code, j as int);
            }
            return Some(j);
        }
        j = j + 1;
    }
    proof {
        lemma_open_index_none(open@, code);
    }
    None
}

impl StepmaniaParser {
    /// A fresh parser: position at line 1, column 0, with no diagnostics.
    pub fn new() -> (p: StepmaniaParser)
        ensures
            p.line == 1,
            p.col == 0,
            p.start_pos == 0,
            p.errors@ == Seq::<ParseError>::empty(),
            p.latest_errors@ == Seq::<ParseError>::empty(),
            p.latest_name@ == Seq::<char>::empty(),
            p.name_line == 0,
            p.name_col == 0,
            p.value_line == 0,
            p.value_col == 0,
    {
        StepmaniaParser {
            line: 1,
            col: 0,
            start_pos: 0,
            errors: Vec::new(),
            latest_errors: Vec::new(),
            latest_name: String::new(),
            name_line: 0,
            name_col: 0,
            value_line: 0,
            value_col: 0,
        }
    }

    /// Advances the position trackers over one consumed character: a line
    /// break moves to the next line's column 0, anything else moves one
    /// column right.
    pub fn update_read(&mut self, c: char)
        ensures
            final (self).line == next_line(old(self).line, c),
            final (self).col == next_col(old(self).col, c),
            final (self).start_pos == old(self).start_pos,
            final (self).errors@ == old(self).errors@,
            final (self).latest_errors@ == old(self).latest_errors@,
            final (self).latest_name@ == old(self).latest_name@,
            final (self).name_line == old(self).name_line,
            final (self).name_col == old(self).name_col,
            final (self).value_line == old(self).value_line,
            final (self).value_col == old(self).value_col,
    {
        if c == '\n' {
            self.line = inc_sat_usize(self.line);
            self.col = 0;
        } else {
            self.col = inc_sat_usize(self.col);
        }
    }

    /// A diagnostic of the given kind at the parser's current position,
    /// with `pos` stored in the length field (an open diagnostic keeps its
    /// start offset there until it is closed).
    pub fn create_error(&self, code: ParseErrorCode, pos: usize) -> (e: ParseError)
        ensures
            e == (ParseError { code, line: self.line, column: self.col, len: pos }),
    {
        ParseError { code, column: self.col, line: self.line, len: pos }
    }

    /// Opens a diagnostic run of the given kind at offset `pos` unless one
    /// is already open.
    pub fn create_and_push_error(&mut self, code: ParseErrorCode, pos: usize)
        ensures
            final (self).latest_errors@ == coalesce_open(
                old(self).latest_errors@,
                code,
                old(self).line,
                old(self).col,
                pos,
            ),
            final (self).errors@ == old(self).errors@,
            same_scan_fields(*final (self), *old(self)),
    {
        if find_open(&self.latest_errors, code).is_none() {
            let e = self.create_error(code, pos);
            self.latest_errors.push(e);
        }
    }

    /// Closes the open diagnostic run of the given kind, if any: its length
    /// becomes `pos` minus its start offset and it moves to the diagnostics
    /// list.
    pub fn cleanup_error(&mut self, code: ParseErrorCode, pos: usize)
        requires
            forall|j: int|
                0 <= j < old(self).latest_errors@.len() ==> ((#[trigger] old(
                    self,
                ).latest_errors@[j]).code == code ==> old(self).latest_errors@[j].len <= pos),
        ensures
            final (self).latest_errors@ == coalesce_close_open(old(self).latest_errors@, code),
            final (self).errors@ == coalesce_close_errors(
                old(self).latest_errors@,
                old(self).errors@,
                code,
                pos,
            ),
            same_scan_fields(*final (self), *old(self)),
    {
        proof {
            lemma_open_index_props(old(self).latest_errors@, code);
        }
        match find_open(&self.latest_errors, code) {
            Some(ix) => {
                let e = self.latest_errors[ix];
                self.latest_errors.remove(ix);
                self.errors.push(
                    ParseError { code: e.code, line: e.line, column: e.column, len: pos - e.len },
                );
            },
            None => {},
        }
    }

    /// Scans the whole input into a name-keyed list of raw value spans, as
    /// [`lex_run`] and [`lex_finish`] describe: the returned list holds the
    /// properties (last value wins for a repeated name), the parser's
    /// diagnostics list grows by the runs closed during the scan, and no
    /// diagnostic run is left open.
    #[verifier::loop_isolation(false)]
    pub fn parse_to_property_map(&mut self, input: &String) -> (map: Vec<PropEntry>)
        requires
            // A parser is constructed fresh per parse: no scan is in
            // progress and no diagnostic run is open.
            old(self).start_pos == 0,
            old(self).latest_errors@ == Seq::<ParseError>::empty(),
        ensures
            ({
                let fin = lex_finish(
                    lex_run(lex_init(*old(self)), input@, input@.len() as int),
                    input@.len() as usize,
                );
                &&& props_view(map@) == fin.props
                &&& final (self).errors@ == fin.errors
                &&& final (self).latest_errors@ == fin.open
                &&& final (self).latest_errors@ == Seq::<ParseError>::empty()
                &&& final (self).line == fin.line
                &&& final (self).col == fin.col
                &&& final (self).start_pos == fin.start
                &&& final (self).latest_name@ == fin.name
            }),
    {
        let ghost init = lex_init(*self);
        let ghost inp = input@;
        let chars = str_chars(input.as_str());
        let n = chars.len();
        let mut map: Vec<PropEntry> = Vec::new();
        let mut state = ParserState::Clean;
        proof {
            assert(props_view(map@) =~= Seq::<(Seq<char>, SpanG)>::empty());
        }
        let mut i: usize = 0;
        while i < n
            invariant
                0 <= i <= n,
                lex_wf(lex_run(init, inp, i as int), i as int),
                lex_rel(*self, map@, state, lex_run(init, inp, i as int)),
            decreases n - i,
        {
            let ghost st = lex_run(init, inp, i as int);
            proof {
                assert(lex_run(init, inp, i + 1) == lex_step(st, inp, i as int));
                lemma_lex_wf_step(st, inp, i as int);
            }
            let c = chars[i];
            match state {
                ParserState::Clean => {
                    if is_space_char(c) {
                        self.update_read(c);
                    } else if c != '#' {
                        self.create_and_push_error(
                            ParseErrorCode::StepmaniaExpectedPropertyStart,
                            i,
                        );
                        self.update_read(c);
                    } else {
                        self.cleanup_error(ParseErrorCode::StepmaniaExpectedPropertyStart, i);
                        state = ParserState::Name;
                        self.start_pos = i + 1;
                        self.update_read(c);
                        self.name_line = self.line;
                        self.name_col = self.col;
                    }
                },
                ParserState::Name => {
                    if is_space_char(c) {
                        self.create_and_push_error(ParseErrorCode::StepmaniaInvalidPropertyName, i);
                        self.update_read(c);
                    } else if c != ':' {
                        self.cleanup_error(ParseErrorCode::StepmaniaInvalidPropertyName, i);
                        self.update_read(c);
                    } else {
                        self.cleanup_error(ParseErrorCode::StepmaniaInvalidPropertyName, i);
                        let name = chars_string_lower(chars.as_slice(), self.start_pos, i);
                        if find_prop(&map, &name).is_some() {
                            let len = i - self.start_pos;
                            self.errors.push(
                                ParseError {
                                    code: ParseErrorCode::StepmaniaDuplicatePropertyName,
                                    line: self.name_line,
                                    column: self.name_col,
                                    len,
                                },
                            );
                        }
                        self.latest_name = name;
                        state = ParserState::Value;
                        self.start_pos = i + 1;
                        self.update_read(c);
                        self.value_line = self.line;
                        self.value_col = self.col;
                    }
                },
                ParserState::Value => {
                    if c == ':' {
                        self.create_and_push_error(ParseErrorCode::StepmaniaExpectedValueEnd, i);
                        self.update_read(c);
                    } else if c != ';' {
                        self.update_read(c);
                    } else {
                        self.cleanup_error(ParseErrorCode::StepmaniaExpectedValueEnd, i);
                        let raw = chars_string(chars.as_slice(), self.start_pos, i);
                        let len = i - self.start_pos;
                        let value = UnparsedPropertyValue {
                            raw,
                            line: self.line,
                            column: self.col,
                            len,
                        };
                        insert_prop(&mut map, &self.latest_name, value);
                        state = ParserState::Clean;
                        self.update_read(c);
                    }
                },
                _ => {
                    // The quoted states are reserved: the grammar never
                    // enters them.
                    proof {
                        assert(false);
                    }
                },
            }
            i = i + 1;
        }
        let ghost stn = lex_run(init, inp, n as int);

        // Close every open diagnostic run at the end of the input.
        let open_count = self.latest_errors.len();
        let mut j: usize = 0;
        while j < open_count
            invariant
                0 <= j <= open_count,
                open_count == stn.open.len(),
                self.latest_errors@ == stn.open,
                self.errors@ == stn.errors + stn.open.take(j as int).map(
                    |l: int, e: ParseError| closed_error(e, n as usize),
                ),
                self.line == stn.line,
                self.col == stn.col,
                self.start_pos == stn.start,
                self.latest_name@ == stn.name,
                self.value_line == stn.vline,
                self.value_col == stn.vcol,
            decreases open_count - j,
        {
            let e = self.latest_errors[j];
            self.errors.push(
                ParseError { code: e.code, line: e.line, column: e.column, len: n - e.len },
            );
            proof {
                let f = |l: int, e: ParseError| closed_error(e, n as usize);
                assert(stn.open.take(j as int).map(f).push(f(j as int, stn.open[j as int]))
                    =~= stn.open.take(j + 1).map(f));
            }
            j = j + 1;
        }
        self.latest_errors.clear();
        proof {
            assert(stn.open.take(stn.open.len() as int) =~= stn.open);
        }

        // A value left unterminated spans to the end of the input.
        if matches!(state, ParserState::Value) {
            let len = n - self.start_pos;
            self.errors.push(
                ParseError {
                    code: ParseErrorCode::StepmaniaExpectedValueEnd,
                    line: self.value_line,
                    column: self.value_col,
                    len,
                },
            );
        }
        map
    }
}

} // verus!
