//! The lexical layer: blanks and comments, bare words, quoted strings
//! and heredocs. Each form is a function from the text and a place in
//! it to what was read and the place behind it.

use vstd::prelude::*;
use crate::error::{Failure, ParseErrorKind};
use crate::text::string_of;

verus! {

/// What a production makes of the text from some place on: a result and
/// the place behind what it read, or a failure and the place it is at.
pub enum Step<T> {
    Done(T, int),
    Fail(ParseErrorKind, int),
}

/// Whether a run of the parser ended as `step` says, for productions
/// that read nothing but a place.
pub open spec fn reached(r: Result<usize, Failure>, step: Step<()>) -> bool {
    match r {
        Ok(place) => step == Step::Done((), place as int),
        Err(failure) => step == Step::<()>::Fail(failure.kind, failure.offset as int),
    }
}

/// Whether a run of the parser ended as `step` says.
pub open spec fn agrees<T: View>(r: Result<(T, usize), Failure>, step: Step<T::V>) -> bool {
    match r {
        Ok((value, place)) => step == Step::Done(value@, place as int),
        Err(failure) => step == Step::<T::V>::Fail(failure.kind, failure.offset as int),
    }
}

/// A blank: space, tab, line feed or carriage return.
pub open spec fn is_blank(c: char) -> bool {
    c == ' ' || c == '\t' || c == '\n' || c == '\r'
}

/// A character of the grammar's punctuation.
pub open spec fn is_structural(c: char) -> bool {
    c == '{' || c == '}' || c == '[' || c == ']' || c == '=' || c == ';' || c == ',' || c == ':'
}

/// A character that a bare word may hold.
pub open spec fn is_bare(c: char) -> bool {
    !is_blank(c) && !is_structural(c) && c != '"'
}

/// A character that a bare word may hold: any bare character in a
/// value, any but the dot in a key, where the dot parts the segments.
pub open spec fn is_word(c: char, in_key: bool) -> bool {
    is_bare(c) && (in_key ==> c != '.')
}

/// The place of the first line feed at or behind `p`, or the end.
pub open spec fn line_end(s: Seq<char>, p: int) -> int
    decreases s.len() - p,
{
    if p >= s.len() {
        p
    } else if s[p] == '\n' {
        p
    } else {
        line_end(s, p + 1)
    }
}

/// The place behind the first `*/` that starts at or behind `p`.
pub open spec fn comment_end(s: Seq<char>, p: int) -> Option<int>
    decreases s.len() - p,
{
    if p + 1 >= s.len() {
        None
    } else if s[p] == '*' && s[p + 1] == '/' {
        Some(p + 2)
    } else {
        comment_end(s, p + 1)
    }
}

/// The end of a line lies at or behind where the search started, within
/// the text.
pub proof fn lemma_line_end_bounds(s: Seq<char>, p: int)
    ensures
        p <= line_end(s, p),
        p <= s.len() ==> line_end(s, p) <= s.len(),
    decreases s.len() - p,
{
    if p < s.len() && s[p] != '\n' {
        lemma_line_end_bounds(s, p + 1);
    }
}

/// The end of a block comment lies behind its `*/`, within the text.
pub proof fn lemma_comment_end_bounds(s: Seq<char>, p: int)
    ensures
        match comment_end(s, p) {
            Some(q) => p + 2 <= q <= s.len(),
            None => true,
        },
    decreases s.len() - p,
{
    if p + 1 < s.len() && !(s[p] == '*' && s[p + 1] == '/') {
        lemma_comment_end_bounds(s, p + 1);
    }
}

/// Skips blanks and comments: a `#` starts a comment that runs to the
/// end of its line, `/*` one that runs to the next `*/`.
pub open spec fn skip_blank(s: Seq<char>, p: int) -> Step<()>
    decreases s.len() - p,
{
    if p >= s.len() {
        Step::Done((), p)
    } else if is_blank(s[p]) {
        skip_blank(s, p + 1)
    } else if s[p] == '#' {
        proof {
            lemma_line_end_bounds(s, p + 1);
        }
        skip_blank(s, line_end(s, p + 1))
    } else if s[p] == '/' && p + 1 < s.len() && s[p + 1] == '*' {
        match comment_end(s, p + 2) {
            Some(q) => {
                proof {
                    lemma_comment_end_bounds(s, p + 2);
                }
                skip_blank(s, q)
            },
            None => Step::Fail(ParseErrorKind::UnterminatedComment, p),
        }
    } else {
        Step::Done((), p)
    }
}

/// The end of the longest run of word characters that starts at `p`.
pub open spec fn word_end(s: Seq<char>, p: int, in_key: bool) -> int
    decreases s.len() - p,
{
    if p >= s.len() || !is_word(s[p], in_key) {
        p
    } else {
        word_end(s, p + 1, in_key)
    }
}

/// A word ends at or behind where it starts, within the text, and
/// behind where it starts if a word character stands there.
pub(crate) proof fn lemma_word_end_bounds(s: Seq<char>, p: int, in_key: bool)
    ensures
        p <= word_end(s, p, in_key),
        p <= s.len() ==> word_end(s, p, in_key) <= s.len(),
        0 <= p < s.len() && is_word(s[p], in_key) ==> p < word_end(s, p, in_key),
    decreases s.len() - p,
{
    if p < s.len() && is_word(s[p], in_key) {
        lemma_word_end_bounds(s, p + 1, in_key);
    }
}

/// The value of a hexadecimal digit.
pub open spec fn hex_digit(c: char) -> Option<int> {
    if '0' <= c <= '9' {
        Some(c as int - '0' as int)
    } else if 'a' <= c <= 'f' {
        Some(c as int - 'a' as int + 10)
    } else if 'A' <= c <= 'F' {
        Some(c as int - 'A' as int + 10)
    } else {
        None
    }
}

/// The code point that four hexadecimal digits from `p` on spell.
pub open spec fn code_point(s: Seq<char>, p: int) -> Option<int> {
    if p + 4 <= s.len() && hex_digit(s[p]) is Some && hex_digit(s[p + 1]) is Some && hex_digit(
        s[p + 2],
    ) is Some && hex_digit(s[p + 3]) is Some {
        Some(
            hex_digit(s[p])->0 * 4096 + hex_digit(s[p + 1])->0 * 256 + hex_digit(s[p + 2])->0 * 16
                + hex_digit(s[p + 3])->0,
        )
    } else {
        None
    }
}

/// The low half of a surrogate pair, written as `\u` and four
/// hexadecimal digits at `p`.
pub open spec fn low_surrogate(s: Seq<char>, p: int) -> Option<int> {
    if p + 2 <= s.len() && s[p] == '\\' && s[p + 1] == 'u' {
        match code_point(s, p + 2) {
            Some(low) => if 0xDC00 <= low <= 0xDFFF {
                Some(low)
            } else {
                None
            },
            None => None,
        }
    } else {
        None
    }
}

/// The character that the escape behind a backslash stands for, and
/// the place behind the escape; `p` is the place behind the backslash.
/// `\u` takes four hexadecimal digits that spell a code point; a code
/// point of the high surrogate range takes a second `\u` right behind
/// it that spells the low half of the pair.
pub open spec fn escape(s: Seq<char>, p: int) -> Option<(char, int)> {
    if p >= s.len() {
        None
    } else if s[p] == '"' || s[p] == '\\' || s[p] == '/' {
        Some((s[p], p + 1))
    } else if s[p] == 'b' {
        Some(('\u{8}', p + 1))
    } else if s[p] == 'f' {
        Some(('\u{c}', p + 1))
    } else if s[p] == 'n' {
        Some(('\n', p + 1))
    } else if s[p] == 'r' {
        Some(('\r', p + 1))
    } else if s[p] == 't' {
        Some(('\t', p + 1))
    } else if s[p] == 'u' {
        match code_point(s, p + 1) {
            Some(code) => if 0xD800 <= code <= 0xDBFF {
                match low_surrogate(s, p + 5) {
                    Some(low) => Some(
                        ((0x10000 + (code - 0xD800) * 0x400 + (low - 0xDC00)) as char, p + 11),
                    ),
                    None => None,
                }
            } else if 0xDC00 <= code <= 0xDFFF {
                None
            } else {
                Some((code as char, p + 5))
            },
            None => None,
        }
    } else {
        None
    }
}

/// The rest of a quoted string whose quote opened at `open`: `acc` is
/// what was read of it up to `p`.
pub open spec fn quoted_rest(s: Seq<char>, p: int, open: int, acc: Seq<char>) -> Step<Seq<char>>
    decreases s.len() - p,
{
    if p >= s.len() {
        Step::Fail(ParseErrorKind::UnterminatedString, open)
    } else if s[p] == '"' {
        Step::Done(acc, p + 1)
    } else if s[p] == '\\' {
        if p + 1 >= s.len() {
            Step::Fail(ParseErrorKind::UnterminatedString, open)
        } else {
            match escape(s, p + 1) {
                Some((c, q)) => quoted_rest(s, q, open, acc.push(c)),
                None => Step::Fail(ParseErrorKind::InvalidEscape, p),
            }
        }
    } else {
        quoted_rest(s, p + 1, open, acc.push(s[p]))
    }
}

/// A quoted string that opens at `p`: the characters up to the closing
/// quote, with each escape replaced by what it stands for.
pub open spec fn quoted(s: Seq<char>, p: int) -> Step<Seq<char>> {
    quoted_rest(s, p + 1, p, Seq::empty())
}

/// Whether the line that starts at `l` holds `tag` and nothing else.
pub open spec fn closes(s: Seq<char>, tag: Seq<char>, l: int) -> bool {
    &&& l + tag.len() <= s.len()
    &&& s.subrange(l, l + tag.len()) == tag
    &&& (l + tag.len() == s.len() || s[l + tag.len()] == '\n')
}

/// The start of the first line, among the line that starts at `l` and
/// those behind it, that holds `tag` and nothing else.
pub open spec fn terminator(s: Seq<char>, tag: Seq<char>, l: int) -> Option<int>
    decreases s.len() - l,
{
    if closes(s, tag, l) {
        Some(l)
    } else if line_end(s, l) >= s.len() {
        None
    } else {
        proof {
            lemma_line_end_bounds(s, l);
        }
        terminator(s, tag, line_end(s, l) + 1)
    }
}

/// A heredoc that opens with `<<` at `p`: the tag is the bare word
/// behind the `<<` and ends its line; the text is made of the lines
/// between that line and the first line that holds the tag alone, joined
/// by line feeds. The terminator line is read up to and with its line
/// feed.
pub open spec fn heredoc(s: Seq<char>, p: int) -> Step<Seq<char>> {
    let t = word_end(s, p + 2, false);
    let tag = s.subrange(p + 2, t);
    if t >= s.len() {
        Step::Fail(ParseErrorKind::UnterminatedHeredoc, p)
    } else if t == p + 2 || s[t] != '\n' {
        Step::Fail(ParseErrorKind::UnexpectedToken, t)
    } else {
        match terminator(s, tag, t + 1) {
            Some(l) => Step::Done(
                if l == t + 1 {
                    Seq::empty()
                } else {
                    s.subrange(t + 1, l - 1)
                },
                if l + tag.len() < s.len() {
                    l + tag.len() + 1
                } else {
                    l + tag.len()
                },
            ),
            None => Step::Fail(ParseErrorKind::UnterminatedHeredoc, p),
        }
    }
}

/// Skipping blanks never goes back, nor beyond the end.
pub(crate) proof fn lemma_skip_bounds(s: Seq<char>, p: int)
    requires
        0 <= p <= s.len(),
    ensures
        match skip_blank(s, p) {
            Step::Done(_, q) => p <= q <= s.len(),
            Step::Fail(_, at) => p <= at < s.len(),
        },
    decreases s.len() - p,
{
    if p >= s.len() {
    } else if is_blank(s[p]) {
        lemma_skip_bounds(s, p + 1);
    } else if s[p] == '#' {
        lemma_line_end_bounds(s, p + 1);
        lemma_skip_bounds(s, line_end(s, p + 1));
    } else if s[p] == '/' && p + 1 < s.len() && s[p + 1] == '*' {
        lemma_comment_end_bounds(s, p + 2);
        match comment_end(s, p + 2) {
            Some(q) => {
                lemma_skip_bounds(s, q);
            },
            None => {},
        }
    }
}

/// Where skipping blanks ends, there is nothing more to skip.
pub(crate) proof fn lemma_skip_settles(s: Seq<char>, p: int)
    requires
        0 <= p <= s.len(),
    ensures
        match skip_blank(s, p) {
            Step::Done(_, q) => skip_blank(s, q) is Done && skip_blank(s, q)->Done_1 == q,
            Step::Fail(_, _) => true,
        },
    decreases s.len() - p,
{
    if p >= s.len() {
    } else if is_blank(s[p]) {
        lemma_skip_settles(s, p + 1);
    } else if s[p] == '#' {
        lemma_line_end_bounds(s, p + 1);
        lemma_skip_settles(s, line_end(s, p + 1));
    } else if s[p] == '/' && p + 1 < s.len() && s[p + 1] == '*' {
        lemma_comment_end_bounds(s, p + 2);
        match comment_end(s, p + 2) {
            Some(q) => {
                lemma_skip_settles(s, q);
            },
            None => {},
        }
    }
}

/// A quoted string ends behind where it opened, within the text.
pub(crate) proof fn lemma_quoted_bounds(s: Seq<char>, p: int, open: int, acc: Seq<char>)
    requires
        0 <= open < p <= s.len(),
    ensures
        match quoted_rest(s, p, open, acc) {
            Step::Done(_, q) => p < q <= s.len(),
            Step::Fail(_, at) => open <= at < s.len(),
        },
    decreases s.len() - p,
{
    if p >= s.len() {
    } else if s[p] == '"' {
    } else if s[p] == '\\' {
        if p + 1 < s.len() {
            match escape(s, p + 1) {
                Some((c, q)) => {
                    lemma_quoted_bounds(s, q, open, acc.push(c));
                },
                None => {},
            }
        }
    } else {
        lemma_quoted_bounds(s, p + 1, open, acc.push(s[p]));
    }
}

/// Whether a line starts at `m`, among the lines from `l` on.
pub open spec fn starts_line(s: Seq<char>, l: int, m: int) -> bool {
    m == l || (l < m <= s.len() && s[m - 1] == '\n')
}

proof fn lemma_line_holds_no_feed(s: Seq<char>, l: int, k: int)
    requires
        0 <= l <= k < line_end(s, l),
    ensures
        s[k] != '\n',
    decreases k - l,
{
    if l < k {
        lemma_line_holds_no_feed(s, l + 1, k);
    }
}

/// A heredoc ends at the first line that holds its tag and nothing
/// else: the line that `terminator` finds is such a line, and no line
/// before it is. A line that only starts with the tag, or holds it
/// behind other text, ends nothing.
pub proof fn lemma_terminator_is_first(s: Seq<char>, tag: Seq<char>, l: int, m: int)
    requires
        0 <= l <= s.len(),
        terminator(s, tag, l) is Some,
        l <= m < terminator(s, tag, l)->0,
        starts_line(s, l, m),
    ensures
        closes(s, tag, terminator(s, tag, l)->0),
        !closes(s, tag, m),
    decreases s.len() - l,
{
    if !closes(s, tag, l) {
        let e = line_end(s, l);
        lemma_line_end_bounds(s, l);
        lemma_terminator_bounds(s, tag, e + 1);
        if m > l {
            if m - 1 < e {
                lemma_line_holds_no_feed(s, l, m - 1);
            }
            lemma_terminator_is_first(s, tag, e + 1, m);
        } else {
            lemma_terminator_closes(s, tag, e + 1);
        }
    }
}

/// The line that `terminator` finds holds the tag and nothing else.
pub proof fn lemma_terminator_closes(s: Seq<char>, tag: Seq<char>, l: int)
    requires
        0 <= l <= s.len(),
        terminator(s, tag, l) is Some,
    ensures
        closes(s, tag, terminator(s, tag, l)->0),
    decreases s.len() - l,
{
    if !closes(s, tag, l) {
        lemma_line_end_bounds(s, l);
        lemma_terminator_closes(s, tag, line_end(s, l) + 1);
    }
}

/// The terminator line of a heredoc lies within the text.
pub(crate) proof fn lemma_terminator_bounds(s: Seq<char>, tag: Seq<char>, l: int)
    requires
        0 <= l <= s.len(),
    ensures
        match terminator(s, tag, l) {
            Some(at) => l <= at && at + tag.len() <= s.len(),
            None => true,
        },
    decreases s.len() - l,
{
    if !closes(s, tag, l) && line_end(s, l) < s.len() {
        lemma_line_end_bounds(s, l);
        lemma_terminator_bounds(s, tag, line_end(s, l) + 1);
    }
}

/// A heredoc ends behind where it opened, within the text.
pub(crate) proof fn lemma_heredoc_bounds(s: Seq<char>, p: int)
    requires
        0 <= p,
        p + 2 <= s.len(),
    ensures
        match heredoc(s, p) {
            Step::Done(_, q) => p < q <= s.len(),
            Step::Fail(_, at) => p <= at <= s.len(),
        },
{
    lemma_word_end_bounds(s, p + 2, false);
    let t = word_end(s, p + 2, false);
    if t < s.len() {
        lemma_terminator_bounds(s, s.subrange(p + 2, t), t + 1);
    }
}

pub(crate) fn blank(c: char) -> (r: bool)
    ensures
        r == is_blank(c),
{
    c == ' ' || c == '\t' || c == '\n' || c == '\r'
}

pub(crate) fn structural(c: char) -> (r: bool)
    ensures
        r == is_structural(c),
{
    c == '{' || c == '}' || c == '[' || c == ']' || c == '=' || c == ';' || c == ',' || c == ':'
}

pub(crate) fn word_char(c: char, in_key: bool) -> (r: bool)
    ensures
        r == is_word(c, in_key),
{
    !blank(c) && !structural(c) && c != '"' && !(in_key && c == '.')
}

fn end_of_line(text: &[char], start: usize) -> (r: usize)
    requires
        start <= text@.len(),
    ensures
        r == line_end(text@, start as int),
        start <= r <= text@.len(),
{
    let mut p = start;
    while p < text.len() && text[p] != '\n'
        invariant
            start <= p <= text@.len(),
            line_end(text@, start as int) == line_end(text@, p as int),
        decreases text@.len() - p,
    {
        p += 1;
    }
    p
}

fn end_of_comment(text: &[char], start: usize) -> (r: Option<usize>)
    requires
        start <= text@.len(),
    ensures
        match r {
            Some(q) => comment_end(text@, start as int) == Some(q as int) && start + 2 <= q
                <= text@.len(),
            None => comment_end(text@, start as int) is None,
        },
{
    let mut p = start;
    while p < text.len() && p + 1 < text.len()
        invariant
            start <= p <= text@.len(),
            comment_end(text@, start as int) == comment_end(text@, p as int),
        decreases text@.len() - p,
    {
        if text[p] == '*' && text[p + 1] == '/' {
            return Some(p + 2);
        }
        p += 1;
    }
    None
}

/// Skips blanks and comments from `start` on.
pub(crate) fn skip(text: &[char], start: usize) -> (r: Result<usize, Failure>)
    requires
        start <= text@.len(),
    ensures
        reached(r, skip_blank(text@, start as int)),
        r matches Ok(p) ==> start <= p <= text@.len(),
        r matches Err(failure) ==> failure.offset <= text@.len(),
{
    let mut p = start;
    loop
        invariant
            start <= p <= text@.len(),
            skip_blank(text@, start as int) == skip_blank(text@, p as int),
        decreases text@.len() - p,
    {
        if p >= text.len() {
            return Ok(p);
        }
        let c = text[p];
        if blank(c) {
            p += 1;
        } else if c == '#' {
            p = end_of_line(text, p + 1);
        } else if c == '/' && p + 1 < text.len() && text[p + 1] == '*' {
            match end_of_comment(text, p + 2) {
                Some(q) => {
                    p = q;
                },
                None => {
                    return Err(Failure { kind: ParseErrorKind::UnterminatedComment, offset: p });
                },
            }
        } else {
            return Ok(p);
        }
    }
}

/// The end of the word that starts at `start`.
pub(crate) fn end_of_word(text: &[char], start: usize, in_key: bool) -> (r: usize)
    requires
        start <= text@.len(),
    ensures
        r == word_end(text@, start as int, in_key),
        start <= r <= text@.len(),
{
    let mut p = start;
    while p < text.len() && word_char(text[p], in_key)
        invariant
            start <= p <= text@.len(),
            word_end(text@, start as int, in_key) == word_end(text@, p as int, in_key),
        decreases text@.len() - p,
    {
        p += 1;
    }
    p
}

pub(crate) fn hex_digit_of(c: char) -> (r: Option<u32>)
    ensures
        match r {
            Some(v) => hex_digit(c) == Some(v as int) && v < 16,
            None => hex_digit(c) is None,
        },
{
    if '0' <= c && c <= '9' {
        Some(c as u32 - '0' as u32)
    } else if 'a' <= c && c <= 'f' {
        Some(c as u32 - 'a' as u32 + 10)
    } else if 'A' <= c && c <= 'F' {
        Some(c as u32 - 'A' as u32 + 10)
    } else {
        None
    }
}

fn read_code_point(text: &[char], p: usize) -> (r: Option<u32>)
    requires
        p <= text@.len(),
    ensures
        match r {
            Some(code) => code_point(text@, p as int) == Some(code as int) && code <= 0xFFFF && p
                + 4 <= text@.len(),
            None => code_point(text@, p as int) is None,
        },
{
    if text.len() - p < 4 {
        return None;
    }
    match hex_digit_of(text[p]) {
        Some(a) => match hex_digit_of(text[p + 1]) {
            Some(b) => match hex_digit_of(text[p + 2]) {
                Some(c) => match hex_digit_of(text[p + 3]) {
                    Some(d) => Some(a * 4096 + b * 256 + c * 16 + d),
                    None => None,
                },
                None => None,
            },
            None => None,
        },
        None => None,
    }
}

fn read_low_surrogate(text: &[char], p: usize) -> (r: Option<u32>)
    requires
        p <= text@.len(),
    ensures
        match r {
            Some(low) => low_surrogate(text@, p as int) == Some(low as int) && 0xDC00 <= low
                <= 0xDFFF && p + 6 <= text@.len(),
            None => low_surrogate(text@, p as int) is None,
        },
{
    if text.len() - p >= 2 && text[p] == '\\' && text[p + 1] == 'u' {
        match read_code_point(text, p + 2) {
            Some(low) => if 0xDC00 <= low && low <= 0xDFFF {
                Some(low)
            } else {
                None
            },
            None => None,
        }
    } else {
        None
    }
}

fn read_escape(text: &[char], p: usize) -> (r: Option<(char, usize)>)
    requires
        p <= text@.len(),
    ensures
        match r {
            Some((c, q)) => escape(text@, p as int) == Some((c, q as int)) && p < q <= text@.len(),
            None => escape(text@, p as int) is None,
        },
{
    if p >= text.len() {
        return None;
    }
    let c = text[p];
    if c == '"' || c == '\\' || c == '/' {
        Some((c, p + 1))
    } else if c == 'b' {
        Some(('\u{8}', p + 1))
    } else if c == 'f' {
        Some(('\u{c}', p + 1))
    } else if c == 'n' {
        Some(('\n', p + 1))
    } else if c == 'r' {
        Some(('\r', p + 1))
    } else if c == 't' {
        Some(('\t', p + 1))
    } else if c == 'u' {
        match read_code_point(text, p + 1) {
            Some(code) => if 0xD800 <= code && code <= 0xDBFF {
                match read_low_surrogate(text, p + 5) {
                    Some(low) => match char::from_u32(
                        0x10000 + (code - 0xD800) * 0x400 + (low - 0xDC00),
                    ) {
                        Some(ch) => Some((ch, p + 11)),
                        None => None,
                    },
                    None => None,
                }
            } else {
                match char::from_u32(code) {
                    Some(ch) => Some((ch, p + 5)),
                    None => None,
                }
            },
            None => None,
        }
    } else {
        None
    }
}

/// Reads the quoted string that opens at `open`.
pub(crate) fn read_quoted(text: &[char], open: usize) -> (r: Result<(String, usize), Failure>)
    requires
        open < text@.len(),
    ensures
        agrees(r, quoted(text@, open as int)),
        r matches Ok((_, q)) ==> open < q <= text@.len(),
        r matches Err(failure) ==> failure.offset <= text@.len(),
{
    let size = text.len();
    let mut acc = String::new();
    let mut p: usize = open + 1;
    loop
        invariant
            open < p <= text@.len(),
            size == text@.len(),
            quoted(text@, open as int) == quoted_rest(text@, p as int, open as int, acc@),
        decreases text@.len() - p,
    {
        if p >= text.len() {
            return Err(Failure { kind: ParseErrorKind::UnterminatedString, offset: open });
        }
        let c = text[p];
        if c == '"' {
            return Ok((acc, p + 1));
        } else if c == '\\' {
            if p + 1 >= text.len() {
                return Err(Failure { kind: ParseErrorKind::UnterminatedString, offset: open });
            }
            match read_escape(text, p + 1) {
                Some((ch, q)) => {
                    acc.push(ch);
                    p = q;
                },
                None => {
                    return Err(Failure { kind: ParseErrorKind::InvalidEscape, offset: p });
                },
            }
        } else {
            acc.push(c);
            p += 1;
        }
    }
}

fn line_closes(text: &[char], tag_from: usize, tag_to: usize, l: usize) -> (r: bool)
    requires
        tag_from <= tag_to <= text@.len(),
        l <= text@.len(),
    ensures
        r == closes(text@, text@.subrange(tag_from as int, tag_to as int), l as int),
{
    let n = tag_to - tag_from;
    let ghost tag = text@.subrange(tag_from as int, tag_to as int);
    if n > text.len() - l {
        return false;
    }
    let mut i: usize = 0;
    while i < n
        invariant
            i <= n,
            n == tag_to - tag_from,
            tag_from <= tag_to <= text.len(),
            l + n <= text.len(),
            tag == text@.subrange(tag_from as int, tag_to as int),
            forall|j: int| 0 <= j < i ==> text@[l + j] == tag[j],
        decreases n - i,
    {
        if text[l + i] != text[tag_from + i] {
            assert(text@.subrange(l as int, l + n)[i as int] != tag[i as int]);
            return false;
        }
        i += 1;
    }
    assert(text@.subrange(l as int, l + n) =~= tag);
    l + n == text.len() || text[l + n] == '\n'
}

fn find_terminator(text: &[char], tag_from: usize, tag_to: usize, start: usize) -> (r: Option<
    usize,
>)
    requires
        tag_from <= tag_to <= text@.len(),
        start <= text@.len(),
    ensures
        match r {
            Some(l) => terminator(
                text@,
                text@.subrange(tag_from as int, tag_to as int),
                start as int,
            ) == Some(l as int) && start <= l && l + (tag_to - tag_from) <= text@.len(),
            None => terminator(text@, text@.subrange(tag_from as int, tag_to as int), start as int)
                is None,
        },
{
    let ghost tag = text@.subrange(tag_from as int, tag_to as int);
    let mut l = start;
    loop
        invariant
            start <= l <= text@.len(),
            tag_from <= tag_to <= text@.len(),
            tag == text@.subrange(tag_from as int, tag_to as int),
            terminator(text@, tag, start as int) == terminator(text@, tag, l as int),
        decreases text@.len() - l,
    {
        if line_closes(text, tag_from, tag_to, l) {
            return Some(l);
        }
        let e = end_of_line(text, l);
        if e >= text.len() {
            return None;
        }
        l = e + 1;
    }
}

/// Reads the heredoc whose `<<` stands at `p`.
pub(crate) fn read_heredoc(text: &[char], p: usize) -> (r: Result<(String, usize), Failure>)
    requires
        p + 2 <= text@.len(),
    ensures
        agrees(r, heredoc(text@, p as int)),
        r matches Ok((_, q)) ==> p < q <= text@.len(),
        r matches Err(failure) ==> failure.offset <= text@.len(),
{
    let size = text.len();
    let t = end_of_word(text, p + 2, false);
    if t >= size {
        return Err(Failure { kind: ParseErrorKind::UnterminatedHeredoc, offset: p });
    }
    if t == p + 2 || text[t] != '\n' {
        return Err(Failure { kind: ParseErrorKind::UnexpectedToken, offset: t });
    }
    match find_terminator(text, p + 2, t, t + 1) {
        Some(l) => {
            let content = if l == t + 1 {
                String::new()
            } else {
                string_of(text, t + 1, l - 1)
            };
            let behind = l + (t - (p + 2));
            let end = if behind < text.len() {
                behind + 1
            } else {
                behind
            };
            Ok((content, end))
        },
        None => Err(Failure { kind: ParseErrorKind::UnterminatedHeredoc, offset: p }),
    }
}

} // verus!
