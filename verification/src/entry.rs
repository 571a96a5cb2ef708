//! The entry points: each reads a whole text as one production of the
//! grammar, with blanks and comments allowed before and behind it.

use vstd::prelude::*;
use crate::construct::{construct, construct_object};
use crate::error::{error_at, locate, Failure, ParseError, ParseErrorKind};
use crate::grammar::{
    opens_heredoc, pair_at, pairs_in, parse_pair, parse_pairs, parse_segment, parse_value,
    segment_at, value_at, MAX_DEPTH,
};
use crate::json::{json_value_at, lemma_json_reads_alike, parse_json_value};
use crate::keys::{Key, Path};
use crate::scan::{heredoc, lemma_skip_bounds, read_heredoc, skip, skip_blank, Step};
use crate::text::chars_of;
use crate::tree::{Tree, Value};

verus! {

/// Whether a function returned what the grammar says.
pub open spec fn outcome<T: View>(r: Result<T, ParseError>, expected: Result<T::V, ParseError>) -> bool {
    match r {
        Ok(value) => expected == Ok::<T::V, ParseError>(value@),
        Err(error) => expected == Err::<T::V, ParseError>(error),
    }
}

/// What a production that was read from the start of the text comes
/// to: its result where nothing but blanks and comments follows it.
pub open spec fn finished<T>(s: Seq<char>, step: Step<T>) -> Result<T, ParseError> {
    match step {
        Step::Done(value, q) => match skip_blank(s, q) {
            Step::Done(_, end) => if end >= s.len() {
                Ok(value)
            } else {
                Err(error_at(s, ParseErrorKind::UnexpectedToken, end))
            },
            Step::Fail(kind, at) => Err(error_at(s, kind, at)),
        },
        Step::Fail(kind, at) => Err(error_at(s, kind, at)),
    }
}

/// The error for a text that does not start with what is asked for.
pub open spec fn misplaced(s: Seq<char>, p: int) -> ParseError {
    error_at(
        s,
        if p >= s.len() {
            ParseErrorKind::UnexpectedEnd
        } else {
            ParseErrorKind::UnexpectedToken
        },
        p,
    )
}

/// A whole document: the pairs of an object, with the braces around
/// them or without.
pub open spec fn document(s: Seq<char>) -> Result<Tree, ParseError> {
    match skip_blank(s, 0) {
        Step::Done(_, p) => if p < s.len() && s[p] == '{' {
            finished(s, value_at(s, p, MAX_DEPTH as nat))
        } else {
            match pairs_in(s, p, MAX_DEPTH as nat, false, Seq::empty()) {
                Step::Done(pairs, _) => Ok(Tree::Object(construct(pairs))),
                Step::Fail(kind, at) => Err(error_at(s, kind, at)),
            }
        },
        Step::Fail(kind, at) => Err(error_at(s, kind, at)),
    }
}

/// A text that is one value.
pub open spec fn value_of_text(s: Seq<char>) -> Result<Tree, ParseError> {
    match skip_blank(s, 0) {
        Step::Done(_, p) => finished(s, value_at(s, p, MAX_DEPTH as nat)),
        Step::Fail(kind, at) => Err(error_at(s, kind, at)),
    }
}

/// A text that is one value and opens with `opener`.
pub open spec fn bracketed(s: Seq<char>, opener: char) -> Result<Tree, ParseError> {
    match skip_blank(s, 0) {
        Step::Done(_, p) => if p < s.len() && s[p] == opener {
            finished(s, value_at(s, p, MAX_DEPTH as nat))
        } else {
            Err(misplaced(s, p))
        },
        Step::Fail(kind, at) => Err(error_at(s, kind, at)),
    }
}

/// A text that is one key segment.
pub open spec fn key_of_text(s: Seq<char>) -> Result<Seq<char>, ParseError> {
    match skip_blank(s, 0) {
        Step::Done(_, p) => finished(s, segment_at(s, p)),
        Step::Fail(kind, at) => Err(error_at(s, kind, at)),
    }
}

/// A text that is one pair, with or without a semicolon or comma
/// behind it.
pub open spec fn pair_of_text(s: Seq<char>) -> Result<(Path, Tree), ParseError> {
    match skip_blank(s, 0) {
        Step::Done(_, p) => match pair_at(s, p, MAX_DEPTH as nat) {
            Step::Done(pair, q) => match skip_blank(s, q) {
                Step::Done(_, there) => finished(
                    s,
                    Step::Done(
                        pair,
                        if there < s.len() && (s[there] == ';' || s[there] == ',') {
                            there + 1
                        } else {
                            there
                        },
                    ),
                ),
                Step::Fail(kind, at) => Err(error_at(s, kind, at)),
            },
            Step::Fail(kind, at) => Err(error_at(s, kind, at)),
        },
        Step::Fail(kind, at) => Err(error_at(s, kind, at)),
    }
}

/// A text that is one heredoc.
pub open spec fn heredoc_of_text(s: Seq<char>) -> Result<Seq<char>, ParseError> {
    match skip_blank(s, 0) {
        Step::Done(_, p) => if opens_heredoc(s, p) {
            finished(s, heredoc(s, p))
        } else {
            Err(misplaced(s, p))
        },
        Step::Fail(kind, at) => Err(error_at(s, kind, at)),
    }
}

/// A text that is one JSON value.
pub open spec fn json_of_text(s: Seq<char>) -> Result<Tree, ParseError> {
    match skip_blank(s, 0) {
        Step::Done(_, p) => finished(s, json_value_at(s, p, MAX_DEPTH as nat)),
        Step::Fail(kind, at) => Err(error_at(s, kind, at)),
    }
}

/// A text that is one JSON array.
pub open spec fn json_array_of_text(s: Seq<char>) -> Result<Tree, ParseError> {
    match skip_blank(s, 0) {
        Step::Done(_, p) => if p < s.len() && s[p] == '[' {
            finished(s, json_value_at(s, p, MAX_DEPTH as nat))
        } else {
            Err(misplaced(s, p))
        },
        Step::Fail(kind, at) => Err(error_at(s, kind, at)),
    }
}

/// Sees a production to the end of the text.
fn conclude<T>(text: &[char], r: Result<(T, usize), Failure>) -> (out: Result<T, ParseError>)
    requires
        r matches Ok((_, q)) ==> q <= text@.len(),
        r matches Err(failure) ==> failure.offset <= text@.len(),
    ensures
        match r {
            Ok((value, q)) => match skip_blank(text@, q as int) {
                Step::Done(_, end) => out == if end >= text@.len() {
                    Ok::<T, ParseError>(value)
                } else {
                    Err::<T, ParseError>(error_at(text@, ParseErrorKind::UnexpectedToken, end))
                },
                Step::Fail(kind, at) => out == Err::<T, ParseError>(error_at(text@, kind, at)),
            },
            Err(failure) => out == Err::<T, ParseError>(
                error_at(text@, failure.kind, failure.offset as int),
            ),
        },
{
    match r {
        Ok((value, q)) => match skip(text, q) {
            Ok(end) => if end >= text.len() {
                Ok(value)
            } else {
                Err(locate(text, Failure { kind: ParseErrorKind::UnexpectedToken, offset: end }))
            },
            Err(failure) => Err(locate(text, failure)),
        },
        Err(failure) => Err(locate(text, failure)),
    }
}

/// The error for a text that does not start with what is asked for.
fn misplace(text: &[char], p: usize) -> (r: ParseError)
    requires
        p <= text@.len(),
    ensures
        r == misplaced(text@, p as int),
{
    let kind = if p >= text.len() {
        ParseErrorKind::UnexpectedEnd
    } else {
        ParseErrorKind::UnexpectedToken
    };
    locate(text, Failure { kind, offset: p })
}

/// Parses a document.
pub fn parse(s: &str) -> (r: Result<Value, ParseError>)
    ensures
        outcome(r, document(s@)),
{
    let chars = chars_of(s);
    let text = chars.as_slice();
    match skip(text, 0) {
        Ok(p) => if p < text.len() && text[p] == '{' {
            conclude(text, parse_value(text, p, MAX_DEPTH))
        } else {
            match parse_pairs(text, p, MAX_DEPTH, false) {
                Ok((pairs, _)) => Ok(Value::Object(construct_object(pairs))),
                Err(failure) => Err(locate(text, failure)),
            }
        },
        Err(failure) => Err(locate(text, failure)),
    }
}

/// Parses a text that is one value.
pub fn value(s: &str) -> (r: Result<Value, ParseError>)
    ensures
        outcome(r, value_of_text(s@)),
{
    let chars = chars_of(s);
    let text = chars.as_slice();
    match skip(text, 0) {
        Ok(p) => conclude(text, parse_value(text, p, MAX_DEPTH)),
        Err(failure) => Err(locate(text, failure)),
    }
}

/// Parses a text that is one object in braces.
pub fn object(s: &str) -> (r: Result<Value, ParseError>)
    ensures
        outcome(r, bracketed(s@, '{')),
{
    let chars = chars_of(s);
    let text = chars.as_slice();
    match skip(text, 0) {
        Ok(p) => if p < text.len() && text[p] == '{' {
            conclude(text, parse_value(text, p, MAX_DEPTH))
        } else {
            Err(misplace(text, p))
        },
        Err(failure) => Err(locate(text, failure)),
    }
}

/// Parses a text that is one array in brackets.
pub fn array(s: &str) -> (r: Result<Value, ParseError>)
    ensures
        outcome(r, bracketed(s@, '[')),
{
    let chars = chars_of(s);
    let text = chars.as_slice();
    match skip(text, 0) {
        Ok(p) => if p < text.len() && text[p] == '[' {
            conclude(text, parse_value(text, p, MAX_DEPTH))
        } else {
            Err(misplace(text, p))
        },
        Err(failure) => Err(locate(text, failure)),
    }
}

/// Parses a text that is one segment of a key: a bare word without a
/// dot, or a quoted string.
pub fn key(s: &str) -> (r: Result<String, ParseError>)
    ensures
        outcome(r, key_of_text(s@)),
{
    let chars = chars_of(s);
    let text = chars.as_slice();
    match skip(text, 0) {
        Ok(p) => conclude(text, parse_segment(text, p)),
        Err(failure) => Err(locate(text, failure)),
    }
}

/// Parses a text that is one pair: a key with its value, or a section.
pub fn key_value(s: &str) -> (r: Result<(Key, Value), ParseError>)
    ensures
        outcome(r, pair_of_text(s@)),
{
    let chars = chars_of(s);
    let text = chars.as_slice();
    match skip(text, 0) {
        Ok(p) => match parse_pair(text, p, MAX_DEPTH) {
            Ok((pair, q)) => match skip(text, q) {
                Ok(there) => {
                    let onward = if there < text.len() && (text[there] == ';' || text[there] == ',') {
                        there + 1
                    } else {
                        there
                    };
                    conclude(text, Ok((pair, onward)))
                },
                Err(failure) => Err(locate(text, failure)),
            },
            Err(failure) => Err(locate(text, failure)),
        },
        Err(failure) => Err(locate(text, failure)),
    }
}

/// Parses a text that is one heredoc.
pub fn multi_line_string(s: &str) -> (r: Result<String, ParseError>)
    ensures
        outcome(r, heredoc_of_text(s@)),
{
    let chars = chars_of(s);
    let text = chars.as_slice();
    match skip(text, 0) {
        Ok(p) => if text.len() - p > 1 && text[p] == '<' && text[p + 1] == '<' {
            conclude(text, read_heredoc(text, p))
        } else {
            Err(misplace(text, p))
        },
        Err(failure) => Err(locate(text, failure)),
    }
}

/// Parses a text that is one value in canonical JSON.
pub fn json_value(s: &str) -> (r: Result<Value, ParseError>)
    ensures
        outcome(r, json_of_text(s@)),
{
    let chars = chars_of(s);
    let text = chars.as_slice();
    match skip(text, 0) {
        Ok(p) => conclude(text, parse_json_value(text, p, MAX_DEPTH)),
        Err(failure) => Err(locate(text, failure)),
    }
}

/// Parses a text that is one array in canonical JSON.
pub fn json_array(s: &str) -> (r: Result<Value, ParseError>)
    ensures
        outcome(r, json_array_of_text(s@)),
{
    let chars = chars_of(s);
    let text = chars.as_slice();
    match skip(text, 0) {
        Ok(p) => if p < text.len() && text[p] == '[' {
            conclude(text, parse_json_value(text, p, MAX_DEPTH))
        } else {
            Err(misplace(text, p))
        },
        Err(failure) => Err(locate(text, failure)),
    }
}

/// A text that is one value in canonical JSON is one value of the
/// general grammar too, and the same one.
pub proof fn lemma_json_text_reads_alike(s: Seq<char>)
    requires
        json_of_text(s) is Ok,
    ensures
        value_of_text(s) == json_of_text(s),
{
    lemma_skip_bounds(s, 0);
    lemma_json_reads_alike(s, skip_blank(s, 0)->Done_1, MAX_DEPTH as nat);
}

/// A text that is one array in canonical JSON is one array of the
/// general grammar too, and the same one.
pub proof fn lemma_json_array_reads_alike(s: Seq<char>)
    requires
        json_array_of_text(s) is Ok,
    ensures
        bracketed(s, '[') == json_array_of_text(s),
{
    lemma_skip_bounds(s, 0);
    lemma_json_reads_alike(s, skip_blank(s, 0)->Done_1, MAX_DEPTH as nat);
}

/// Parsing is a function of the text: two runs of `parse` on texts of
/// the same characters end alike, with equal trees or with the same
/// error.
pub proof fn lemma_parse_is_deterministic(
    s: Seq<char>,
    t: Seq<char>,
    first: Result<Value, ParseError>,
    second: Result<Value, ParseError>,
)
    requires
        s == t,
        outcome(first, document(s)),
        outcome(second, document(t)),
    ensures
        match (first, second) {
            (Ok(a), Ok(b)) => a@ == b@,
            (Err(e), Err(f)) => e == f,
            _ => false,
        },
{
}

} // verus!
