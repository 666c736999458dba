//! Diagnostic kinds and positioned diagnostics shared by every stage of the
//! parser.

use vstd::prelude::*;

verus! {

/// The closed set of diagnostic kinds the parser can report.
#[derive(Debug, Eq, PartialEq, Structural, Hash, Clone, Copy)]
pub enum ParseErrorCode {
    /// Free floating content which is not associated with any property.
    StepmaniaExpectedPropertyStart,
    /// An invalid character inside a property-name definition.
    StepmaniaInvalidPropertyName,
    /// A property-name that is not recognised and therefore is not parsed.
    StepmaniaUnknownPropertyName,
    /// A property-name that occurs more than once.
    StepmaniaDuplicatePropertyName,
    /// A property-end `;` was expected but has not been found.
    StepmaniaExpectedValueEnd,
    /// The end of the input was reached unexpectedly.
    StepmaniaUnexpectedEOF,
    /// A property-value that is an invalid number.
    StepmaniaInvalidNumber,
    /// A property-value that is an invalid string.
    StepmaniaInvalidString,
    /// A property-value that is an invalid number-range.
    StepmaniaInvalidNumberRange,
    /// A property-value that is an invalid boolean.
    StepmaniaInvalidBoolean,
    /// A property-value that is an invalid color-value.
    StepmaniaInvalidColorValue,
    /// A group whose field count is not valid for its property.
    StepmaniaInvalidValueCount,
    /// An attack segment key that is not known at its position.
    StepmaniaInvalidAttackValue,
    /// An attack segment key that occurs out of order.
    StepmaniaInvalidAttackValueOrder,
}

/// One positioned diagnostic: a kind plus the line, column and length of the
/// offending source span.  Immutable once emitted.
#[derive(Debug, Eq, PartialEq, Structural, Clone, Copy)]
pub struct ParseError {
    pub code: ParseErrorCode,
    pub line: usize,
    pub column: usize,
    pub len: usize,
}

/// A saturating increment: position counters never wrap.
pub open spec fn inc_sat(x: usize) -> usize {
    if x == usize::MAX {
        x
    } else {
        (x + 1) as usize
    }
}

/// Executable saturating increment matching [`inc_sat`].
pub fn inc_sat_usize(x: usize) -> (r: usize)
    ensures
        r == inc_sat(x),
{
    if x == usize::MAX {
        x
    } else {
        x + 1
    }
}

/// A saturating addition: span lengths never wrap.
pub open spec fn sat_add(a: usize, b: usize) -> usize {
    if a + b > usize::MAX {
        usize::MAX
    } else {
        (a + b) as usize
    }
}

/// Executable saturating addition matching [`sat_add`].
pub fn sat_add_usize(a: usize, b: usize) -> (r: usize)
    ensures
        r == sat_add(a, b),
{
    if a > usize::MAX - b {
        usize::MAX
    } else {
        a + b
    }
}

/// The line counter after consuming one character.
pub open spec fn next_line(line: usize, c: char) -> usize {
    if c == '\n' {
        inc_sat(line)
    } else {
        line
    }
}

/// The column counter after consuming one character.
pub open spec fn next_col(col: usize, c: char) -> usize {
    if c == '\n' {
        0
    } else {
        inc_sat(col)
    }
}

/// The position reached after consuming every character of `s`, starting
/// from `(line, col)`: line breaks advance the line and reset the column.
pub open spec fn pos_after(line: usize, col: usize, s: Seq<char>) -> (usize, usize)
    decreases s.len(),
{
    if s.len() == 0 {
        (line, col)
    } else {
        let p = pos_after(line, col, s.drop_last());
        (next_line(p.0, s.last()), next_col(p.1, s.last()))
    }
}

/// The position of the open diagnostic of the given kind, if any.
pub open spec fn open_index(open: Seq<ParseError>, code: ParseErrorCode) -> Option<int>
    decreases open.len(),
{
    if open.len() == 0 {
        None
    } else if open[0].code == code {
        Some(0)
    } else {
        match open_index(open.drop_first(), code) {
            Some(i) => Some(i + 1),
            None => None,
        }
    }
}

/// Opening a diagnostic run: records the kind at the current position and
/// start offset unless a run of that kind is already open.
pub open spec fn coalesce_open(
    open: Seq<ParseError>,
    code: ParseErrorCode,
    line: usize,
    col: usize,
    pos: usize,
) -> Seq<ParseError> {
    if open_index(open, code) is Some {
        open
    } else {
        open.push(ParseError { code, line, column: col, len: pos })
    }
}

/// An open diagnostic finalized at `pos`: its recorded start offset (held in
/// `len` while open) becomes the length of the run.
pub open spec fn closed_error(e: ParseError, pos: usize) -> ParseError {
    ParseError { code: e.code, line: e.line, column: e.column, len: (pos - e.len) as usize }
}

/// Closing a diagnostic run: what remains open afterwards.
pub open spec fn coalesce_close_open(
    open: Seq<ParseError>,
    code: ParseErrorCode,
) -> Seq<ParseError> {
    match open_index(open, code) {
        Some(i) => open.remove(i),
        None => open,
    }
}

/// Closing a diagnostic run: the diagnostics list afterwards.
pub open spec fn coalesce_close_errors(
    open: Seq<ParseError>,
    errors: Seq<ParseError>,
    code: ParseErrorCode,
    pos: usize,
) -> Seq<ParseError> {
    match open_index(open, code) {
        Some(i) => errors.push(closed_error(open[i], pos)),
        None => errors,
    }
}

pub proof fn lemma_open_index_at(open: Seq<ParseError>, code: ParseErrorCode, i: int)
    requires
        0 <= i < open.len(),
        open[i].code == code,
        forall|j: int| 0 <= j < i ==> open[j].code != code,
    ensures
        open_index(open, code) == Some(i),
    decreases i,
{
    if i == 0 {
    } else {
        assert(open[0].code != code);
        let t = open.drop_first();
        assert(t[i - 1].code == code);
        assert(forall|j: int| 0 <= j < i - 1 ==> t[j].code != code);
        lemma_open_index_at(t, code, i - 1);
    }
}

pub proof fn lemma_open_index_none(open: Seq<ParseError>, code: ParseErrorCode)
    requires
        forall|j: int| 0 <= j < open.len() ==> open[j].code != code,
    ensures
        open_index(open, code) is None,
    decreases open.len(),
{
    if open.len() > 0 {
        lemma_open_index_none(open.drop_first(), code);
    }
}

/// The index found by `open_index` indeed carries the kind.
pub proof fn lemma_open_index_props(open: Seq<ParseError>, code: ParseErrorCode)
    ensures
        match open_index(open, code) {
            Some(i) => 0 <= i < open.len() && open[i].code == code,
            None => forall|j: int| 0 <= j < open.len() ==> open[j].code != code,
        },
    decreases open.len(),
{
    if open.len() > 0 && !(open[0].code == code) {
        lemma_open_index_props(open.drop_first(), code);
        let t = open.drop_first();
        assert(forall|j: int| 0 <= j < t.len() ==> t[j] == open[j + 1]);
        match open_index(t, code) {
            Some(i) => {
                assert(open[i + 1] == t[i]);
            },
            None => {
                assert forall|j: int| 0 <= j < open.len() implies open[j].code != code by {
                    if j > 0 {
                        assert(t[j - 1] == open[j]);
                    }
                }
            },
        }
    }
}

} // verus!
