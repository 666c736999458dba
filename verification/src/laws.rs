//! Laws of the parser, stated and proved over the specification machines:
//! a well-formed property lexes without diagnostics and parses to exactly
//! one routed field, an unterminated value yields exactly one diagnostic
//! and no property, and the inferred lane count of a note grid never
//! changes once fixed.

use vstd::prelude::*;

use crate::chart::{ch_run, ch_step, ChSt};
use crate::common::{ParseError, ParseErrorCode};
use crate::file::{disp_errors, disp_run, disp_step, file_init, prop_errors};
use crate::lexer::{lex_finish, lex_init, lex_run, lex_step, LexState, StepmaniaParser};
use crate::span::SpanG;
use crate::text::{is_space, lower_seq};

verus! {

/// A character that may stand in a property name: no whitespace (which
/// would be flagged), no `:` (which ends the name), and no line break.
pub open spec fn plain_name_char(c: char) -> bool {
    !is_space(c) && c != ':'
}

/// A character that may stand in a property value without ending or
/// flagging it: no `:`, no `;`, and no line break.
pub open spec fn plain_value_char(c: char) -> bool {
    c != ':' && c != ';' && c != '\n'
}

/// Scanning a stretch of plain name characters keeps the lexer in the
/// name state and only advances the column.
proof fn lemma_lex_name_phase(init: LexState, input: Seq<char>, a: int, b: int)
    requires
        0 <= a <= b <= input.len(),
        lex_run(init, input, a).mode is Name,
        lex_run(init, input, a).open == Seq::<ParseError>::empty(),
        lex_run(init, input, a).col + (b - a) <= usize::MAX,
        forall|j: int| a <= j < b ==> plain_name_char(#[trigger] input[j]) && input[j] != '\n',
    ensures
        lex_run(init, input, b) == (LexState {
            col: (lex_run(init, input, a).col + (b - a)) as usize,
            ..lex_run(init, input, a)
        }),
    decreases b - a,
{
    if a == b {
        let st = lex_run(init, input, a);
        assert(lex_run(init, input, b) == (LexState { col: (st.col + 0) as usize, ..st }));
    } else {
        lemma_lex_name_phase(init, input, a, b - 1);
        let st = lex_run(init, input, b - 1);
        assert(lex_run(init, input, b) == lex_step(st, input, b - 1));
    }
}

/// Scanning a stretch of plain value characters keeps the lexer in the
/// value state and only advances the column.
proof fn lemma_lex_value_phase(init: LexState, input: Seq<char>, a: int, b: int)
    requires
        0 <= a <= b <= input.len(),
        lex_run(init, input, a).mode is Value,
        lex_run(init, input, a).open == Seq::<ParseError>::empty(),
        lex_run(init, input, a).col + (b - a) <= usize::MAX,
        forall|j: int| a <= j < b ==> plain_value_char(#[trigger] input[j]),
    ensures
        lex_run(init, input, b) == (LexState {
            col: (lex_run(init, input, a).col + (b - a)) as usize,
            ..lex_run(init, input, a)
        }),
    decreases b - a,
{
    if a == b {
        let st = lex_run(init, input, a);
        assert(lex_run(init, input, b) == (LexState { col: (st.col + 0) as usize, ..st }));
    } else {
        lemma_lex_value_phase(init, input, a, b - 1);
        let st = lex_run(init, input, b - 1);
        assert(lex_run(init, input, b) == lex_step(st, input, b - 1));
    }
}

/// The lexer state after `#`, a plain name, and `:`: the value state, with
/// the lower-cased name captured and nothing flagged.
proof fn lemma_lex_header(p: StepmaniaParser, input: Seq<char>, name: Seq<char>)
    requires
        p.start_pos == 0,
        p.latest_errors@ == Seq::<ParseError>::empty(),
        p.line == 1,
        p.col == 0,
        name.len() + 2 <= input.len(),
        name.len() + 2 <= usize::MAX,
        input[0] == '#',
        input.subrange(1, name.len() as int + 1) == name,
        input[name.len() as int + 1] == ':',
        forall|j: int| 0 <= j < name.len() ==> plain_name_char(#[trigger] name[j]) && name[j]
            != '\n',
    ensures
        ({
            let st = lex_run(lex_init(p), input, name.len() as int + 2);
            &&& st.mode is Value
            &&& st.open == Seq::<ParseError>::empty()
            &&& st.errors == p.errors@
            &&& st.props == Seq::<(Seq<char>, SpanG)>::empty()
            &&& st.name == lower_seq(name)
            &&& st.start == (name.len() + 2) as usize
            &&& st.line == 1
            &&& st.col == (name.len() + 2) as usize
            &&& st.vline == 1
            &&& st.vcol == (name.len() + 2) as usize
        }),
{
    let init = lex_init(p);
    let n = name.len() as int;
    assert(forall|j: int| 1 <= j < n + 1 ==> #[trigger] input[j] == name[j - 1]);

    // `#` opens the name.
    assert(lex_run(init, input, 0) == init);
    assert(lex_run(init, input, 1) == lex_step(init, input, 0));
    let st1 = lex_run(init, input, 1);
    assert(st1.mode is Name && st1.start == 1 && st1.col == 1 && st1.line == 1);
    assert(st1.open =~= Seq::<ParseError>::empty());

    // The name characters advance the column.
    lemma_lex_name_phase(init, input, 1, n + 1);
    let st2 = lex_run(init, input, n + 1);
    assert(st2.col == n + 1);

    // `:` captures the name and opens the value.
    assert(lex_run(init, input, n + 2) == lex_step(st2, input, n + 1));
    let st3 = lex_run(init, input, n + 2);
    assert(input.subrange(st2.start as int, n + 1) =~= name);
    crate::span::lemma_key_index_none(st2.props, lower_seq(name));
    assert(st3.name == lower_seq(name));
    assert(st3.errors == p.errors@);
    assert(st3.open =~= Seq::<ParseError>::empty());
}

/// LAW — well-formed properties lex cleanly.  For every input of the exact
/// shape `#NAME:VALUE;` (a plain name, a value free of `:`, `;` and line
/// breaks), a fresh parse yields exactly one property — the lower-cased
/// name mapped to the value's span — and not a single diagnostic.  The
/// value decoders state separately, in their own contracts, that a span
/// whose text their grammar accepts decodes without diagnostics.
pub proof fn lemma_single_property_lexes_cleanly(
    p: StepmaniaParser,
    input: Seq<char>,
    name: Seq<char>,
    value: Seq<char>,
)
    requires
        p.start_pos == 0,
        p.latest_errors@ == Seq::<ParseError>::empty(),
        p.line == 1,
        p.col == 0,
        input =~= seq!['#'] + name + seq![':'] + value + seq![';'],
        name.len() + value.len() + 3 <= usize::MAX,
        forall|j: int| 0 <= j < name.len() ==> plain_name_char(#[trigger] name[j]) && name[j]
            != '\n',
        forall|j: int| 0 <= j < value.len() ==> plain_value_char(#[trigger] value[j]),
    ensures
        ({
            let fin = lex_finish(
                lex_run(lex_init(p), input, input.len() as int),
                input.len() as usize,
            );
            &&& fin.props == seq![
                (
                    lower_seq(name),
                    SpanG {
                        text: value,
                        line: 1,
                        column: (name.len() + value.len() + 2) as usize,
                        len: value.len() as usize,
                    },
                ),
            ]
            &&& fin.errors == p.errors@
            &&& fin.open == Seq::<ParseError>::empty()
        }),
{
    let init = lex_init(p);
    let n = name.len() as int;
    let m = value.len() as int;
    assert(input.len() == n + m + 3);
    assert(input[0] == '#');
    assert(input.subrange(1, n + 1) =~= name);
    assert(input[n + 1] == ':');
    assert(forall|j: int| n + 2 <= j < n + 2 + m ==> #[trigger] input[j] == value[j - n - 2]);
    assert(input[n + 2 + m] == ';');

    lemma_lex_header(p, input, name);
    let st3 = lex_run(init, input, n + 2);

    // The value characters advance the column.
    lemma_lex_value_phase(init, input, n + 2, n + 2 + m);
    let st4 = lex_run(init, input, n + 2 + m);
    assert(st4.col == n + 2 + m);

    // `;` closes the property.
    assert(lex_run(init, input, n + 3 + m) == lex_step(st4, input, n + 2 + m));
    let st5 = lex_run(init, input, n + 3 + m);
    assert(input.subrange(st4.start as int, n + 2 + m) =~= value);
    crate::span::lemma_key_index_none(st4.props, st4.name);
    assert(st5.props =~= seq![
        (
            lower_seq(name),
            SpanG {
                text: value,
                line: 1,
                column: (n + m + 2) as usize,
                len: value.len() as usize,
            },
        ),
    ]);
    assert(st5.mode is Clean);
    assert(st5.open =~= Seq::<ParseError>::empty());

    // Nothing is open at the end of the input, so finishing adds nothing.
    let fin = lex_finish(st5, input.len() as usize);
    assert(st5.open.map(|j: int, e: ParseError| crate::common::closed_error(e, input.len() as usize))
        =~= Seq::<ParseError>::empty());
    assert(fin.errors =~= st5.errors);
}

/// LAW — a single well-formed property parses to exactly one routed
/// field.  For every input of the exact shape `#NAME:VALUE;`, the property
/// routing that `parse_from_string`'s contract constrains the result by is
/// the empty routing with only the field for the lower-cased name holding
/// the value's span (every other field keeps its default), and the
/// diagnostics are exactly that one property's decode diagnostics — which
/// each decoder's error specification makes empty exactly when the value
/// is one its grammar accepts.
pub proof fn lemma_single_property_parses_to_one_field(
    p: StepmaniaParser,
    input: Seq<char>,
    name: Seq<char>,
    value: Seq<char>,
)
    requires
        p.start_pos == 0,
        p.latest_errors@ == Seq::<ParseError>::empty(),
        p.line == 1,
        p.col == 0,
        input =~= seq!['#'] + name + seq![':'] + value + seq![';'],
        name.len() + value.len() + 3 <= usize::MAX,
        forall|j: int| 0 <= j < name.len() ==> plain_name_char(#[trigger] name[j]) && name[j]
            != '\n',
        forall|j: int| 0 <= j < value.len() ==> plain_value_char(#[trigger] value[j]),
    ensures
        ({
            let fin = lex_finish(
                lex_run(lex_init(p), input, input.len() as int),
                input.len() as usize,
            );
            let sp = SpanG {
                text: value,
                line: 1,
                column: (name.len() + value.len() + 2) as usize,
                len: value.len() as usize,
            };
            &&& disp_run(fin.props, fin.props.len() as int) == disp_step(
                file_init(),
                lower_seq(name),
                sp,
            )
            &&& fin.errors + disp_errors(fin.props, fin.props.len() as int) == p.errors@
                + prop_errors(lower_seq(name), sp)
        }),
{
    lemma_single_property_lexes_cleanly(p, input, name, value);
    let fin = lex_finish(lex_run(lex_init(p), input, input.len() as int), input.len() as usize);
    let sp = SpanG {
        text: value,
        line: 1,
        column: (name.len() + value.len() + 2) as usize,
        len: value.len() as usize,
    };
    assert(fin.props.len() == 1);
    assert(fin.props[0] == (lower_seq(name), sp));
    assert(disp_run(fin.props, 0) == file_init());
    assert(disp_errors(fin.props, 0) =~= Seq::<ParseError>::empty());
    assert(fin.errors + disp_errors(fin.props, 1) =~= p.errors@ + prop_errors(
        lower_seq(name),
        sp,
    ));
}

/// LAW — an unterminated value is one diagnostic and no property.  For
/// every input of the exact shape `#NAME:VALUE` with no closing `;`, a
/// fresh parse yields no property at all and exactly one
/// `ExpectedValueEnd` diagnostic, positioned at the value's first
/// character and spanning to the end of the input.
pub proof fn lemma_unterminated_value(
    p: StepmaniaParser,
    input: Seq<char>,
    name: Seq<char>,
    value: Seq<char>,
)
    requires
        p.start_pos == 0,
        p.latest_errors@ == Seq::<ParseError>::empty(),
        p.line == 1,
        p.col == 0,
        input =~= seq!['#'] + name + seq![':'] + value,
        name.len() + value.len() + 2 <= usize::MAX,
        forall|j: int| 0 <= j < name.len() ==> plain_name_char(#[trigger] name[j]) && name[j]
            != '\n',
        forall|j: int| 0 <= j < value.len() ==> plain_value_char(#[trigger] value[j]),
    ensures
        ({
            let fin = lex_finish(
                lex_run(lex_init(p), input, input.len() as int),
                input.len() as usize,
            );
            &&& fin.props == Seq::<(Seq<char>, SpanG)>::empty()
            &&& fin.errors == p.errors@ + seq![
                ParseError {
                    code: ParseErrorCode::StepmaniaExpectedValueEnd,
                    line: 1,
                    column: (name.len() + 2) as usize,
                    len: value.len() as usize,
                },
            ]
            &&& fin.open == Seq::<ParseError>::empty()
        }),
{
    let init = lex_init(p);
    let n = name.len() as int;
    let m = value.len() as int;
    assert(input.len() == n + m + 2);
    assert(input[0] == '#');
    assert(input.subrange(1, n + 1) =~= name);
    assert(input[n + 1] == ':');
    assert(forall|j: int| n + 2 <= j < n + 2 + m ==> #[trigger] input[j] == value[j - n - 2]);

    lemma_lex_header(p, input, name);
    lemma_lex_value_phase(init, input, n + 2, n + 2 + m);
    let st4 = lex_run(init, input, n + 2 + m);
    assert(st4.mode is Value);
    assert(st4.vcol == n + 2 && st4.vline == 1 && st4.start == n + 2);

    let fin = lex_finish(st4, input.len() as usize);
    assert(st4.open.map(|j: int, e: ParseError| crate::common::closed_error(e, input.len() as usize))
        =~= Seq::<ParseError>::empty());
    assert(fin.errors =~= p.errors@ + seq![
        ParseError {
            code: ParseErrorCode::StepmaniaExpectedValueEnd,
            line: 1,
            column: (n + 2) as usize,
            len: m as usize,
        },
    ]);
}

/// LAW — the first non-empty row fixes the lane count: while no count is
/// fixed and a line break ends a non-empty row of the grid, the count
/// becomes that row's cell count.
pub proof fn lemma_column_count_fixed_at_first_row(v: SpanG, i: int)
    requires
        0 <= i < v.text.len(),
        ch_run(v, i).mode is Notes,
        ch_run(v, i).colcount == 0,
        0 < ch_run(v, i).cur.len() <= 255,
        v.text[i] == '\n',
    ensures
        ch_run(v, i + 1).colcount == ch_run(v, i).cur.len() as u8,
{
    assert(ch_run(v, i + 1) == ch_step(ch_run(v, i), v.text, i));
}

/// LAW — the inferred lane count never changes once fixed.  One step of
/// the chart scanner keeps a non-zero column count.
pub proof fn lemma_column_count_step_stable(st: ChSt, text: Seq<char>, i: int)
    requires
        st.colcount != 0,
    ensures
        ch_step(st, text, i).colcount == st.colcount,
{
}

/// LAW — the inferred lane count never changes once fixed, over a whole
/// scan: if the column count is non-zero after `m` characters, every later
/// point of the scan (and so the decoded chart) keeps that count, whatever
/// the widths of the later rows are.
pub proof fn lemma_column_count_stable(v: SpanG, m: int, n: int)
    requires
        0 <= m <= n,
        ch_run(v, m).colcount != 0,
    ensures
        ch_run(v, n).colcount == ch_run(v, m).colcount,
    decreases n - m,
{
    if m < n {
        lemma_column_count_stable(v, m, n - 1);
        lemma_column_count_step_stable(ch_run(v, n - 1), v.text, n - 1);
    }
}

} // verus!
