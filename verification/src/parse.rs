//! The line parser: from a listing line to a record.

use crate::record::{empty_model, Line, LineModel, INDENT_WIDTH};
use crate::text::{
    decimal_i64, find_first, first_pos, is_first, lemma_first_pos_is, lemma_first_pos_none,
    read_decimal, trim, trim_bounds,
};
use vstd::prelude::*;
use vstd::string::*;

verus! {

/// Why a line with an opening bracket is no listing line.
#[derive(Debug, Clone, Copy, PartialEq, Eq, Structural)]
pub enum ParseError {
    /// There is an opening bracket and no closing one.
    MissingClose,
    /// The opening bracket stands at a column that is no multiple of four.
    MisalignedIndent { offset: usize },
    /// The first closing bracket stands before the first opening one.
    CloseBeforeOpen,
    /// The text between the brackets, which runs from character `from` up to
    /// character `to`, is no signed 64-bit decimal number once trimmed.
    InvalidSize { from: usize, to: usize },
}

/// What a line parses to: `Ok(Some(..))` for a listing line, `Ok(None)` for a
/// line without an opening bracket, and the error otherwise. Positions count
/// characters.
pub open spec fn parse_spec(s: Seq<char>) -> Result<Option<LineModel>, ParseError> {
    match first_pos(s, '[') {
        None => Ok(None),
        Some(open) => match first_pos(s, ']') {
            None => Err(ParseError::MissingClose),
            Some(close) => if open % 4 != 0 {
                Err(ParseError::MisalignedIndent { offset: open as usize })
            } else if close < open {
                Err(ParseError::CloseBeforeOpen)
            } else {
                match decimal_i64(trim(s.subrange(open + 1, close))) {
                    None => Err(
                        ParseError::InvalidSize { from: (open + 1) as usize, to: close as usize },
                    ),
                    Some(size) => Ok(
                        Some(
                            LineModel {
                                path: trim(s.subrange(close + 1, s.len() as int)),
                                size,
                                indent: (open / 4) as nat,
                            },
                        ),
                    ),
                }
            },
        },
    }
}

/// The record that a line contributes to a listing: the parsed one, or the
/// empty record for a line without an opening bracket.
pub open spec fn record_spec(s: Seq<char>) -> Result<LineModel, ParseError> {
    match parse_spec(s) {
        Ok(Some(m)) => Ok(m),
        Ok(None) => Ok(empty_model()),
        Err(e) => Err(e),
    }
}

/// A line without an opening bracket is skipped, whatever else it holds,
/// and stands in a listing as the empty record.
pub proof fn lemma_no_open_is_skipped(s: Seq<char>)
    requires
        forall|i: int| 0 <= i < s.len() ==> s[i] != '[',
    ensures
        parse_spec(s) == Ok::<Option<LineModel>, ParseError>(None),
        record_spec(s) == Ok::<LineModel, ParseError>(empty_model()),
{
    lemma_first_pos_none(s, '[');
}

/// A line whose first opening bracket stands at a column that is no multiple
/// of four is in error, whatever follows the bracket.
pub proof fn lemma_misaligned_is_error(s: Seq<char>, open: int)
    requires
        is_first(s, '[', open),
        open % 4 != 0,
    ensures
        parse_spec(s) is Err,
        record_spec(s) is Err,
{
    lemma_first_pos_is(s, '[', open);
}

/// Parses one line of a listing.
pub fn parse_line(raw: &str) -> (r: Result<Option<Line>, ParseError>)
    ensures
        match r {
            Ok(Some(line)) => parse_spec(raw@) == Ok::<Option<LineModel>, ParseError>(
                Some(line@),
            ),
            Ok(None) => parse_spec(raw@) == Ok::<Option<LineModel>, ParseError>(None),
            Err(e) => parse_spec(raw@) == Err::<Option<LineModel>, ParseError>(e),
        },
{
    let open: usize = match find_first(raw, '[') {
        None => {
            return Ok(None);
        },
        Some(i) => i,
    };
    let close: usize = match find_first(raw, ']') {
        None => {
            return Err(ParseError::MissingClose);
        },
        Some(i) => i,
    };
    if open % INDENT_WIDTH != 0 {
        return Err(ParseError::MisalignedIndent { offset: open });
    }
    if close < open {
        return Err(ParseError::CloseBeforeOpen);
    }
    let total: usize = raw.unicode_len();
    let (size_lo, size_hi) = trim_bounds(raw, open + 1, close);
    let size: i64 = match read_decimal(raw, size_lo, size_hi) {
        None => {
            return Err(ParseError::InvalidSize { from: open + 1, to: close });
        },
        Some(v) => v,
    };
    let (path_lo, path_hi) = trim_bounds(raw, close + 1, total);
    let path: String = raw.substring_char(path_lo, path_hi).to_owned();
    Ok(Some(Line { path, size, indent: open / INDENT_WIDTH }))
}

/// Parses one line, with the empty record for a line that has no opening
/// bracket.
pub fn parse_or_empty(raw: &str) -> (r: Result<Line, ParseError>)
    ensures
        match r {
            Ok(line) => record_spec(raw@) == Ok::<LineModel, ParseError>(line@),
            Err(e) => record_spec(raw@) == Err::<LineModel, ParseError>(e),
        },
{
    match parse_line(raw) {
        Ok(Some(line)) => Ok(line),
        Ok(None) => Ok(Line::empty()),
        Err(e) => Err(e),
    }
}

/// Parses a whole listing, line by line and in order. The first line that is
/// in error ends the run: its index and its error come back. A line without
/// an opening bracket does not: it gives the empty record, and the lines
/// after it are parsed as usual.
pub fn parse_all(lines: &Vec<String>) -> (r: Result<Vec<Line>, (usize, ParseError)>)
    ensures
        match r {
            Ok(records) => {
                &&& records.len() == lines.len()
                &&& forall|i: int|
                    0 <= i < lines.len() ==> record_spec(#[trigger] lines[i]@) == Ok::<
                        LineModel,
                        ParseError,
                    >(records[i]@)
            },
            Err((at, e)) => {
                &&& at < lines.len()
                &&& record_spec(lines[at as int]@) == Err::<LineModel, ParseError>(e)
                &&& forall|i: int| 0 <= i < at ==> (#[trigger] record_spec(lines[i]@)) is Ok
            },
        },
{
    let mut records: Vec<Line> = Vec::new();
    let mut i: usize = 0;
    while i < lines.len()
        invariant
            i <= lines.len(),
            records.len() == i,
            forall|k: int|
                0 <= k < i ==> record_spec(#[trigger] lines[k]@) == Ok::<LineModel, ParseError>(
                    records[k]@,
                ),
        decreases lines.len() - i,
    {
        match parse_or_empty(lines[i].as_str()) {
            Ok(line) => {
                records.push(line);
            },
            Err(e) => {
                return Err((i, e));
            },
        }
        i += 1;
    }
    Ok(records)
}

} // verus!
