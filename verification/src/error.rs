//! What can go wrong, and where in the text it did.

use vstd::prelude::*;
use vstd::std_specs::convert::FromSpecImpl;

verus! {

/// The kinds of syntax error.
#[derive(Clone, Copy, Debug, PartialEq, Eq, Structural)]
pub enum ParseErrorKind {
    /// A character stands where the grammar has no use for it.
    UnexpectedToken,
    /// The text ends where more is needed.
    UnexpectedEnd,
    /// A numeric literal whose value does not fit.
    InvalidNumber,
    /// A backslash in a quoted string that starts no known escape.
    InvalidEscape,
    /// A quoted string without its closing quote.
    UnterminatedString,
    /// A heredoc without its terminator line.
    UnterminatedHeredoc,
    /// A block comment without its end.
    UnterminatedComment,
    /// An object or array without its closing bracket.
    UnterminatedBlock,
    /// Objects and arrays nested deeper than the parser follows.
    TooDeep,
}

/// A syntax error: its kind, and the place of the character at which
/// parsing stopped.
#[derive(Clone, Copy, Debug, PartialEq, Eq, Structural)]
pub struct ParseError {
    pub kind: ParseErrorKind,
    /// How many characters precede the place.
    pub offset: usize,
    /// How many line feeds precede the place.
    pub line: usize,
    /// How many characters precede the place on its own line.
    pub column: usize,
}

/// A failure inside one production: a kind and an offset.
#[derive(Clone, Copy, Debug, PartialEq, Eq, Structural)]
pub struct Failure {
    pub kind: ParseErrorKind,
    pub offset: usize,
}

/// `std::io::Error`, the failure of reading a text. Nothing is known
/// of what is inside one; the library only carries it.
#[verifier::external_type_specification]
#[verifier::external_body]
pub struct ExIoError(std::io::Error);

/// The failure of loading a document: the text could not be read, or
/// it could not be parsed.
#[derive(Debug)]
pub enum UclError {
    Io(std::io::Error),
    Parse(ParseError),
}

impl FromSpecImpl<std::io::Error> for UclError {
    open spec fn obeys_from_spec() -> bool {
        true
    }

    open spec fn from_spec(err: std::io::Error) -> UclError {
        UclError::Io(err)
    }
}

impl From<std::io::Error> for UclError {
    fn from(err: std::io::Error) -> (r: UclError) {
        UclError::Io(err)
    }
}

impl FromSpecImpl<ParseError> for UclError {
    open spec fn obeys_from_spec() -> bool {
        true
    }

    open spec fn from_spec(err: ParseError) -> UclError {
        UclError::Parse(err)
    }
}

impl From<ParseError> for UclError {
    fn from(err: ParseError) -> (r: UclError) {
        UclError::Parse(err)
    }
}

/// The number of line feeds among the first `offset` characters.
pub open spec fn line_of(text: Seq<char>, offset: int) -> int
    decreases offset,
{
    if offset <= 0 {
        0
    } else if text[offset - 1] == '\n' {
        line_of(text, offset - 1) + 1
    } else {
        line_of(text, offset - 1)
    }
}

/// The number of characters between the last line feed before `offset`
/// and `offset`.
pub open spec fn column_of(text: Seq<char>, offset: int) -> int
    decreases offset,
{
    if offset <= 0 {
        0
    } else if text[offset - 1] == '\n' {
        0
    } else {
        column_of(text, offset - 1) + 1
    }
}

/// The error of `kind` at `offset` in `text`.
pub open spec fn error_at(text: Seq<char>, kind: ParseErrorKind, offset: int) -> ParseError {
    ParseError {
        kind,
        offset: offset as usize,
        line: line_of(text, offset) as usize,
        column: column_of(text, offset) as usize,
    }
}

/// Finds the line and column of a failure.
pub(crate) fn locate(text: &[char], failure: Failure) -> (r: ParseError)
    requires
        failure.offset <= text@.len(),
    ensures
        r == error_at(text@, failure.kind, failure.offset as int),
{
    let mut line: usize = 0;
    let mut column: usize = 0;
    let mut i: usize = 0;
    while i < failure.offset
        invariant
            i <= failure.offset <= text@.len(),
            line == line_of(text@, i as int),
            column == column_of(text@, i as int),
            line <= i,
            column <= i,
        decreases failure.offset - i,
    {
        if text[i] == '\n' {
            line += 1;
            column = 0;
        } else {
            column += 1;
        }
        i += 1;
    }
    ParseError { kind: failure.kind, offset: failure.offset, line, column }
}

impl ParseErrorKind {
    /// A few words on the kind, for a message.
    pub fn describe(&self) -> (r: &'static str)
        ensures
            r@ == match self {
                ParseErrorKind::UnexpectedToken => "unexpected character"@,
                ParseErrorKind::UnexpectedEnd => "unexpected end of input"@,
                ParseErrorKind::InvalidNumber => "numeric literal out of range"@,
                ParseErrorKind::InvalidEscape => "invalid escape sequence"@,
                ParseErrorKind::UnterminatedString => "unterminated string"@,
                ParseErrorKind::UnterminatedHeredoc => "unterminated heredoc"@,
                ParseErrorKind::UnterminatedComment => "unterminated comment"@,
                ParseErrorKind::UnterminatedBlock => "unterminated block"@,
                ParseErrorKind::TooDeep => "nesting too deep"@,
            },
    {
        match self {
            ParseErrorKind::UnexpectedToken => "unexpected character",
            ParseErrorKind::UnexpectedEnd => "unexpected end of input",
            ParseErrorKind::InvalidNumber => "numeric literal out of range",
            ParseErrorKind::InvalidEscape => "invalid escape sequence",
            ParseErrorKind::UnterminatedString => "unterminated string",
            ParseErrorKind::UnterminatedHeredoc => "unterminated heredoc",
            ParseErrorKind::UnterminatedComment => "unterminated comment",
            ParseErrorKind::UnterminatedBlock => "unterminated block",
            ParseErrorKind::TooDeep => "nesting too deep",
        }
    }
}

} // verus!
