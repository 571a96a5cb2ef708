//! The grammar: keys, pairs, objects, arrays and values, each as a
//! function from the text and a place in it, and the parser that
//! computes them.

use vstd::prelude::*;
use vstd::slice::slice_subrange;
use crate::construct::{construct, construct_object, pair_models};
use crate::error::{Failure, ParseErrorKind};
use crate::keys::{names, Key, Path};
use crate::number::{classify, classify_word};
use crate::scan::{
    agrees, end_of_word, heredoc, is_bare, is_word, lemma_heredoc_bounds, lemma_quoted_bounds,
    lemma_skip_bounds, lemma_word_end_bounds, quoted, read_heredoc, read_quoted, skip,
    skip_blank, word_char, word_end, Step,
};
use crate::text::string_of;
use crate::tree::{trees, Tree, Value};

verus! {

/// How deep objects and arrays may nest.
pub const MAX_DEPTH: usize = 128;

/// Whether a production that started at `p` and ended at `q` read
/// something, and no more than there is.
pub open spec fn moved(p: int, q: int, len: nat) -> bool {
    p < q <= len
}

/// How much of a text of `len` characters lies behind `p`.
pub open spec fn left(len: nat, p: int) -> nat {
    if p <= len {
        (len - p) as nat
    } else {
        0
    }
}

/// Whether a segment of a key starts at `p`.
pub open spec fn starts_segment(s: Seq<char>, p: int) -> bool {
    p < s.len() && (s[p] == '"' || is_word(s[p], true))
}

/// One segment of a key: a quoted string, or a bare word without a dot.
pub open spec fn segment_at(s: Seq<char>, p: int) -> Step<Seq<char>> {
    if p >= s.len() {
        Step::Fail(ParseErrorKind::UnexpectedEnd, p)
    } else if s[p] == '"' {
        quoted(s, p)
    } else if is_word(s[p], true) {
        Step::Done(s.subrange(p, word_end(s, p, true)), word_end(s, p, true))
    } else {
        Step::Fail(ParseErrorKind::UnexpectedToken, p)
    }
}

/// The segments of a key that follow those in `acc`, from the end `p`
/// of the last one on: a dot is followed at once by the next segment;
/// blanks may be followed by one. The key ends behind its last segment.
pub open spec fn key_rest(s: Seq<char>, p: int, acc: Seq<Seq<char>>) -> Step<Seq<Seq<char>>>
    decreases left(s.len(), p),
{
    if p < s.len() && s[p] == '.' {
        match segment_at(s, p + 1) {
            Step::Done(segment, q) => if moved(p, q, s.len()) {
                key_rest(s, q, acc.push(segment))
            } else {
                Step::Fail(ParseErrorKind::UnexpectedToken, q)
            },
            Step::Fail(kind, at) => Step::Fail(kind, at),
        }
    } else {
        match skip_blank(s, p) {
            Step::Done(_, here) => if starts_segment(s, here) {
                match segment_at(s, here) {
                    Step::Done(segment, q) => if moved(p, q, s.len()) {
                        key_rest(s, q, acc.push(segment))
                    } else {
                        Step::Fail(ParseErrorKind::UnexpectedToken, q)
                    },
                    Step::Fail(kind, at) => Step::Fail(kind, at),
                }
            } else {
                Step::Done(acc, p)
            },
            Step::Fail(kind, at) => Step::Fail(kind, at),
        }
    }
}

/// The key that a list of segments makes: one segment is a single key,
/// several are a compound one.
pub open spec fn path_of(segments: Seq<Seq<char>>) -> Path {
    if segments.len() == 1 {
        Path::Single(segments[0])
    } else {
        Path::Multiple(segments)
    }
}

/// A key: one segment or more.
pub open spec fn key_at(s: Seq<char>, p: int) -> Step<Path> {
    match segment_at(s, p) {
        Step::Done(first, q) => match key_rest(s, q, seq![first]) {
            Step::Done(segments, r) => Step::Done(path_of(segments), r),
            Step::Fail(kind, at) => Step::Fail(kind, at),
        },
        Step::Fail(kind, at) => Step::Fail(kind, at),
    }
}

/// Whether a heredoc opens at `p`.
pub open spec fn opens_heredoc(s: Seq<char>, p: int) -> bool {
    p + 1 < s.len() && s[p] == '<' && s[p + 1] == '<'
}

/// A value at `p`: an object in braces, an array in brackets, a quoted
/// string, a heredoc, or a bare word. `depth` says how many levels of
/// objects and arrays may still open.
pub open spec fn value_at(s: Seq<char>, p: int, depth: nat) -> Step<Tree>
    decreases depth, 0nat, 0nat,
{
    if p >= s.len() {
        Step::Fail(ParseErrorKind::UnexpectedEnd, p)
    } else if s[p] == '{' {
        if depth == 0 {
            Step::Fail(ParseErrorKind::TooDeep, p)
        } else {
            match pairs_in(s, p + 1, (depth - 1) as nat, true, Seq::empty()) {
                Step::Done(pairs, q) => Step::Done(Tree::Object(construct(pairs)), q),
                Step::Fail(kind, at) => Step::Fail(kind, at),
            }
        }
    } else if s[p] == '[' {
        if depth == 0 {
            Step::Fail(ParseErrorKind::TooDeep, p)
        } else {
            match items_in(s, p + 1, (depth - 1) as nat, Seq::empty()) {
                Step::Done(items, q) => Step::Done(Tree::Array(items), q),
                Step::Fail(kind, at) => Step::Fail(kind, at),
            }
        }
    } else if s[p] == '"' {
        match quoted(s, p) {
            Step::Done(text, q) => Step::Done(Tree::String(text), q),
            Step::Fail(kind, at) => Step::Fail(kind, at),
        }
    } else if opens_heredoc(s, p) {
        match heredoc(s, p) {
            Step::Done(text, q) => Step::Done(Tree::String(text), q),
            Step::Fail(kind, at) => Step::Fail(kind, at),
        }
    } else if is_bare(s[p]) {
        match classify(s.subrange(p, word_end(s, p, false))) {
            Some(tree) => Step::Done(tree, word_end(s, p, false)),
            None => Step::Fail(ParseErrorKind::InvalidNumber, p),
        }
    } else {
        Step::Fail(ParseErrorKind::UnexpectedToken, p)
    }
}

/// The elements of an array that follow those in `acc`, up to and with
/// the closing bracket. A comma may follow an element; blanks and
/// comments may stand anywhere between.
pub open spec fn items_in(s: Seq<char>, p: int, depth: nat, acc: Seq<Tree>) -> Step<Seq<Tree>>
    decreases depth, left(s.len(), p), 2nat,
{
    match skip_blank(s, p) {
        Step::Done(_, here) => if here >= s.len() {
            Step::Fail(ParseErrorKind::UnterminatedBlock, here)
        } else if s[here] == ']' {
            Step::Done(acc, here + 1)
        } else {
            match value_at(s, here, depth) {
                Step::Done(item, q) => match skip_blank(s, q) {
                    Step::Done(_, there) => {
                        let onward = if there < s.len() && s[there] == ',' {
                            there + 1
                        } else {
                            there
                        };
                        if moved(p, onward, s.len()) {
                            items_in(s, onward, depth, acc.push(item))
                        } else {
                            Step::Fail(ParseErrorKind::UnexpectedToken, onward)
                        }
                    },
                    Step::Fail(kind, at) => Step::Fail(kind, at),
                },
                Step::Fail(kind, at) => Step::Fail(kind, at),
            }
        },
        Step::Fail(kind, at) => Step::Fail(kind, at),
    }
}

/// One pair: a key, then either an object in braces (a section) or
/// `=` or `:` and a value.
pub open spec fn pair_at(s: Seq<char>, p: int, depth: nat) -> Step<(Path, Tree)>
    decreases depth, 0nat, 1nat,
{
    match key_at(s, p) {
        Step::Done(key, q) => match skip_blank(s, q) {
            Step::Done(_, there) => if there >= s.len() {
                Step::Fail(ParseErrorKind::UnexpectedEnd, there)
            } else if s[there] == '{' {
                match value_at(s, there, depth) {
                    Step::Done(value, r) => Step::Done((key, value), r),
                    Step::Fail(kind, at) => Step::Fail(kind, at),
                }
            } else if s[there] == '=' || s[there] == ':' {
                match skip_blank(s, there + 1) {
                    Step::Done(_, onward) => match value_at(s, onward, depth) {
                        Step::Done(value, r) => Step::Done((key, value), r),
                        Step::Fail(kind, at) => Step::Fail(kind, at),
                    },
                    Step::Fail(kind, at) => Step::Fail(kind, at),
                }
            } else {
                Step::Fail(ParseErrorKind::UnexpectedToken, there)
            },
            Step::Fail(kind, at) => Step::Fail(kind, at),
        },
        Step::Fail(kind, at) => Step::Fail(kind, at),
    }
}

/// The pairs of a block that follow those in `acc`. A block in braces
/// (`closing`) ends with and behind its closing brace; the block of a
/// whole document ends with the text. A semicolon or a comma may follow
/// a pair; blanks and comments may stand anywhere between.
pub open spec fn pairs_in(
    s: Seq<char>,
    p: int,
    depth: nat,
    closing: bool,
    acc: Seq<(Path, Tree)>,
) -> Step<Seq<(Path, Tree)>>
    decreases depth, left(s.len(), p), 2nat,
{
    match skip_blank(s, p) {
        Step::Done(_, here) => if here >= s.len() {
            if closing {
                Step::Fail(ParseErrorKind::UnterminatedBlock, here)
            } else {
                Step::Done(acc, here)
            }
        } else if s[here] == '}' {
            if closing {
                Step::Done(acc, here + 1)
            } else {
                Step::Fail(ParseErrorKind::UnexpectedToken, here)
            }
        } else {
            match pair_at(s, here, depth) {
                Step::Done(pair, q) => match skip_blank(s, q) {
                    Step::Done(_, there) => {
                        let onward = if there < s.len() && (s[there] == ';' || s[there] == ',') {
                            there + 1
                        } else {
                            there
                        };
                        if moved(p, onward, s.len()) {
                            pairs_in(s, onward, depth, closing, acc.push(pair))
                        } else {
                            Step::Fail(ParseErrorKind::UnexpectedToken, onward)
                        }
                    },
                    Step::Fail(kind, at) => Step::Fail(kind, at),
                },
                Step::Fail(kind, at) => Step::Fail(kind, at),
            }
        },
        Step::Fail(kind, at) => Step::Fail(kind, at),
    }
}

/// Whether a production that started at `p` ended as it may: what is
/// read ends behind `p` and within the text, and a failure is at a
/// place of the text, not before `p`.
pub open spec fn bounded<T>(step: Step<T>, p: int, len: nat) -> bool {
    match step {
        Step::Done(_, q) => p < q <= len,
        Step::Fail(_, at) => p <= at <= len,
    }
}

proof fn lemma_segment_bounds(s: Seq<char>, p: int)
    requires
        0 <= p <= s.len(),
    ensures
        bounded(segment_at(s, p), p, s.len()),
{
    if p < s.len() {
        if s[p] == '"' {
            lemma_quoted_bounds(s, p + 1, p, Seq::empty());
        } else {
            lemma_word_end_bounds(s, p, true);
        }
    }
}

proof fn lemma_key_rest_bounds(s: Seq<char>, p: int, acc: Seq<Seq<char>>)
    requires
        0 <= p <= s.len(),
    ensures
        match key_rest(s, p, acc) {
            Step::Done(_, q) => p <= q <= s.len(),
            Step::Fail(_, at) => p <= at <= s.len(),
        },
    decreases left(s.len(), p),
{
    if p < s.len() && s[p] == '.' {
        lemma_segment_bounds(s, p + 1);
        match segment_at(s, p + 1) {
            Step::Done(segment, q) => {
                lemma_key_rest_bounds(s, q, acc.push(segment));
            },
            Step::Fail(_, _) => {},
        }
    } else {
        lemma_skip_bounds(s, p);
        match skip_blank(s, p) {
            Step::Done(_, here) => {
                if starts_segment(s, here) {
                    lemma_segment_bounds(s, here);
                    match segment_at(s, here) {
                        Step::Done(segment, q) => {
                            lemma_key_rest_bounds(s, q, acc.push(segment));
                        },
                        Step::Fail(_, _) => {},
                    }
                }
            },
            Step::Fail(_, _) => {},
        }
    }
}

/// A key ends behind where it starts, within the text.
pub proof fn lemma_key_bounds(s: Seq<char>, p: int)
    requires
        0 <= p <= s.len(),
    ensures
        bounded(key_at(s, p), p, s.len()),
{
    lemma_segment_bounds(s, p);
    match segment_at(s, p) {
        Step::Done(first, q) => {
            lemma_key_rest_bounds(s, q, seq![first]);
        },
        Step::Fail(_, _) => {},
    }
}

/// A value ends behind where it starts, within the text; so does every
/// production that it is made of. The test `moved` in the productions
/// that repeat can therefore never fail.
pub proof fn lemma_value_bounds(s: Seq<char>, p: int, depth: nat)
    requires
        0 <= p <= s.len(),
    ensures
        bounded(value_at(s, p, depth), p, s.len()),
    decreases depth, 0nat, 0nat,
{
    if p >= s.len() {
    } else if s[p] == '{' {
        if depth > 0 {
            lemma_pairs_bounds(s, p + 1, (depth - 1) as nat, true, Seq::empty());
        }
    } else if s[p] == '[' {
        if depth > 0 {
            lemma_items_bounds(s, p + 1, (depth - 1) as nat, Seq::empty());
        }
    } else if s[p] == '"' {
        lemma_quoted_bounds(s, p + 1, p, Seq::empty());
    } else if opens_heredoc(s, p) {
        lemma_heredoc_bounds(s, p);
    } else {
        lemma_word_end_bounds(s, p, false);
    }
}

/// The elements of an array end behind where they start, within the
/// text.
pub proof fn lemma_items_bounds(s: Seq<char>, p: int, depth: nat, acc: Seq<Tree>)
    requires
        0 <= p <= s.len(),
    ensures
        bounded(items_in(s, p, depth, acc), p, s.len()),
    decreases depth, left(s.len(), p), 2nat,
{
    lemma_skip_bounds(s, p);
    match skip_blank(s, p) {
        Step::Done(_, here) => {
            if here < s.len() && s[here] != ']' {
                lemma_value_bounds(s, here, depth);
                match value_at(s, here, depth) {
                    Step::Done(item, q) => {
                        lemma_skip_bounds(s, q);
                        match skip_blank(s, q) {
                            Step::Done(_, there) => {
                                let onward = if there < s.len() && s[there] == ',' {
                                    there + 1
                                } else {
                                    there
                                };
                                lemma_items_bounds(s, onward, depth, acc.push(item));
                            },
                            Step::Fail(_, _) => {},
                        }
                    },
                    Step::Fail(_, _) => {},
                }
            }
        },
        Step::Fail(_, _) => {},
    }
}

/// A pair ends behind where it starts, within the text.
pub proof fn lemma_pair_bounds(s: Seq<char>, p: int, depth: nat)
    requires
        0 <= p <= s.len(),
    ensures
        bounded(pair_at(s, p, depth), p, s.len()),
    decreases depth, 0nat, 1nat,
{
    lemma_key_bounds(s, p);
    match key_at(s, p) {
        Step::Done(_, q) => {
            lemma_skip_bounds(s, q);
            match skip_blank(s, q) {
                Step::Done(_, there) => {
                    if there < s.len() {
                        if s[there] == '{' {
                            lemma_value_bounds(s, there, depth);
                        } else if s[there] == '=' || s[there] == ':' {
                            lemma_skip_bounds(s, there + 1);
                            match skip_blank(s, there + 1) {
                                Step::Done(_, onward) => {
                                    lemma_value_bounds(s, onward, depth);
                                },
                                Step::Fail(_, _) => {},
                            }
                        }
                    }
                },
                Step::Fail(_, _) => {},
            }
        },
        Step::Fail(_, _) => {},
    }
}

/// The pairs of a block end within the text: behind where they start
/// where the block closes with a brace, at the end of the text where
/// it is the block of a whole document.
pub proof fn lemma_pairs_bounds(
    s: Seq<char>,
    p: int,
    depth: nat,
    closing: bool,
    acc: Seq<(Path, Tree)>,
)
    requires
        0 <= p <= s.len(),
    ensures
        match pairs_in(s, p, depth, closing, acc) {
            Step::Done(_, q) => if closing {
                p < q <= s.len()
            } else {
                q == s.len()
            },
            Step::Fail(_, at) => p <= at <= s.len(),
        },
    decreases depth, left(s.len(), p), 2nat,
{
    lemma_skip_bounds(s, p);
    match skip_blank(s, p) {
        Step::Done(_, here) => {
            if here < s.len() && s[here] != '}' {
                lemma_pair_bounds(s, here, depth);
                match pair_at(s, here, depth) {
                    Step::Done(pair, q) => {
                        lemma_skip_bounds(s, q);
                        match skip_blank(s, q) {
                            Step::Done(_, there) => {
                                let onward = if there < s.len() && (s[there] == ';' || s[there] == ',') {
                                    there + 1
                                } else {
                                    there
                                };
                                lemma_pairs_bounds(s, onward, depth, closing, acc.push(pair));
                            },
                            Step::Fail(_, _) => {},
                        }
                    },
                    Step::Fail(_, _) => {},
                }
            }
        },
        Step::Fail(_, _) => {},
    }
}

/// Reads one segment of a key.
pub(crate) fn parse_segment(text: &[char], p: usize) -> (r: Result<(String, usize), Failure>)
    requires
        p <= text@.len(),
    ensures
        agrees(r, segment_at(text@, p as int)),
        r matches Ok((_, q)) ==> p < q <= text@.len(),
        r matches Err(failure) ==> failure.offset <= text@.len(),
{
    if p >= text.len() {
        Err(Failure { kind: ParseErrorKind::UnexpectedEnd, offset: p })
    } else if text[p] == '"' {
        read_quoted(text, p)
    } else if word_char(text[p], true) {
        let end = end_of_word(text, p, true);
        proof {
            lemma_word_end_bounds(text@, p as int, true);
        }
        Ok((string_of(text, p, end), end))
    } else {
        Err(Failure { kind: ParseErrorKind::UnexpectedToken, offset: p })
    }
}

/// Reads a key.
pub(crate) fn parse_key(text: &[char], p: usize) -> (r: Result<(Key, usize), Failure>)
    requires
        p <= text@.len(),
    ensures
        agrees(r, key_at(text@, p as int)),
        r matches Ok((_, q)) ==> p < q <= text@.len(),
        r matches Err(failure) ==> failure.offset <= text@.len(),
{
    let (first, after) = parse_segment(text, p)?;
    let ghost start = after;
    let ghost head = first@;
    let mut segments: Vec<String> = Vec::new();
    segments.push(first);
    assert(names(segments@) =~= seq![head]);
    let mut q = after;
    loop
        invariant
            p < q <= text@.len(),
            segments@.len() >= 1,
            segment_at(text@, p as int) == Step::Done(head, start as int),
            key_rest(text@, start as int, seq![head]) == key_rest(
                text@,
                q as int,
                names(segments@),
            ),
        decreases text@.len() - q,
    {
        let ghost before = names(segments@);
        let next = if q < text.len() && text[q] == '.' {
            q + 1
        } else {
            let there = skip(text, q)?;
            if !(there < text.len() && (text[there] == '"' || word_char(text[there], true))) {
                assert(names(segments@)[0] == segments@[0]@);
                return Ok((Key::from(segments), q));
            }
            there
        };
        let (segment, end) = parse_segment(text, next)?;
        segments.push(segment);
        assert(names(segments@) =~= before.push(segment@));
        q = end;
    }
}

/// Reads a value; `depth` levels of objects and arrays may still open.
pub(crate) fn parse_value(text: &[char], p: usize, depth: usize) -> (r: Result<(Value, usize), Failure>)
    requires
        p <= text@.len(),
    ensures
        agrees(r, value_at(text@, p as int, depth as nat)),
        r matches Ok((_, q)) ==> p < q <= text@.len(),
        r matches Err(failure) ==> failure.offset <= text@.len(),
    decreases depth, 0nat,
{
    if p >= text.len() {
        return Err(Failure { kind: ParseErrorKind::UnexpectedEnd, offset: p });
    }
    let c = text[p];
    if c == '{' {
        if depth == 0 {
            return Err(Failure { kind: ParseErrorKind::TooDeep, offset: p });
        }
        let (pairs, q) = parse_pairs(text, p + 1, depth - 1, true)?;
        Ok((Value::Object(construct_object(pairs)), q))
    } else if c == '[' {
        if depth == 0 {
            return Err(Failure { kind: ParseErrorKind::TooDeep, offset: p });
        }
        let (items, q) = parse_items(text, p + 1, depth - 1)?;
        Ok((Value::Array(items), q))
    } else if c == '"' {
        let (s, q) = read_quoted(text, p)?;
        Ok((Value::String(s), q))
    } else if c == '<' && text.len() - p > 1 && text[p + 1] == '<' {
        let (s, q) = read_heredoc(text, p)?;
        Ok((Value::String(s), q))
    } else if word_char(c, false) {
        let end = end_of_word(text, p, false);
        proof {
            lemma_word_end_bounds(text@, p as int, false);
        }
        match classify_word(slice_subrange(text, p, end)) {
            Some(v) => Ok((v, end)),
            None => Err(Failure { kind: ParseErrorKind::InvalidNumber, offset: p }),
        }
    } else {
        Err(Failure { kind: ParseErrorKind::UnexpectedToken, offset: p })
    }
}

/// Reads the elements of an array up to and with its closing bracket.
pub(crate) fn parse_items(text: &[char], p: usize, depth: usize) -> (r: Result<(Vec<Value>, usize), Failure>)
    requires
        p <= text@.len(),
    ensures
        match r {
            Ok((items, q)) => items_in(text@, p as int, depth as nat, Seq::empty()) == Step::Done(
                trees(items@),
                q as int,
            ) && p < q <= text@.len(),
            Err(failure) => items_in(text@, p as int, depth as nat, Seq::empty()) == Step::<
                Seq<Tree>,
            >::Fail(failure.kind, failure.offset as int) && failure.offset <= text@.len(),
        },
    decreases depth, 2nat,
{
    let mut items: Vec<Value> = Vec::new();
    let mut at = p;
    assert(trees(items@) =~= Seq::<Tree>::empty());
    loop
        invariant
            p <= at <= text@.len(),
            items_in(text@, p as int, depth as nat, Seq::empty()) == items_in(
                text@,
                at as int,
                depth as nat,
                trees(items@),
            ),
        decreases text@.len() - at,
    {
        let here = skip(text, at)?;
        if here >= text.len() {
            return Err(Failure { kind: ParseErrorKind::UnterminatedBlock, offset: here });
        }
        if text[here] == ']' {
            return Ok((items, here + 1));
        }
        let (item, q) = parse_value(text, here, depth)?;
        let there = skip(text, q)?;
        let onward = if there < text.len() && text[there] == ',' {
            there + 1
        } else {
            there
        };
        let ghost before = trees(items@);
        items.push(item);
        assert(trees(items@) =~= before.push(item@));
        at = onward;
    }
}

/// Reads one pair.
pub(crate) fn parse_pair(text: &[char], p: usize, depth: usize) -> (r: Result<((Key, Value), usize), Failure>)
    requires
        p <= text@.len(),
    ensures
        match r {
            Ok(((key, value), q)) => pair_at(text@, p as int, depth as nat) == Step::Done(
                (key@, value@),
                q as int,
            ) && p < q <= text@.len(),
            Err(failure) => pair_at(text@, p as int, depth as nat) == Step::<(Path, Tree)>::Fail(
                failure.kind,
                failure.offset as int,
            ) && failure.offset <= text@.len(),
        },
    decreases depth, 1nat,
{
    let (key, q) = parse_key(text, p)?;
    let there = skip(text, q)?;
    if there >= text.len() {
        return Err(Failure { kind: ParseErrorKind::UnexpectedEnd, offset: there });
    }
    let c = text[there];
    if c == '{' {
        let (value, r) = parse_value(text, there, depth)?;
        Ok(((key, value), r))
    } else if c == '=' || c == ':' {
        let onward = skip(text, there + 1)?;
        let (value, r) = parse_value(text, onward, depth)?;
        Ok(((key, value), r))
    } else {
        Err(Failure { kind: ParseErrorKind::UnexpectedToken, offset: there })
    }
}

/// Reads the pairs of a block: up to and with the closing brace where
/// the block is `closing`, up to the end of the text where it is not.
pub(crate) fn parse_pairs(text: &[char], p: usize, depth: usize, closing: bool) -> (r: Result<
    (Vec<(Key, Value)>, usize),
    Failure,
>)
    requires
        p <= text@.len(),
    ensures
        match r {
            Ok((pairs, q)) => pairs_in(text@, p as int, depth as nat, closing, Seq::empty())
                == Step::Done(pair_models(pairs@), q as int) && p <= q <= text@.len() && (closing
                ==> p < q) && (!closing ==> q == text@.len()),
            Err(failure) => pairs_in(text@, p as int, depth as nat, closing, Seq::empty())
                == Step::<Seq<(Path, Tree)>>::Fail(failure.kind, failure.offset as int)
                && failure.offset <= text@.len(),
        },
    decreases depth, 2nat,
{
    let mut pairs: Vec<(Key, Value)> = Vec::new();
    let mut at = p;
    assert(pair_models(pairs@) =~= Seq::<(Path, Tree)>::empty());
    loop
        invariant
            p <= at <= text@.len(),
            pairs_in(text@, p as int, depth as nat, closing, Seq::empty()) == pairs_in(
                text@,
                at as int,
                depth as nat,
                closing,
                pair_models(pairs@),
            ),
        decreases text@.len() - at,
    {
        let here = skip(text, at)?;
        if here >= text.len() {
            if closing {
                return Err(Failure { kind: ParseErrorKind::UnterminatedBlock, offset: here });
            } else {
                return Ok((pairs, here));
            }
        }
        if text[here] == '}' {
            if closing {
                return Ok((pairs, here + 1));
            } else {
                return Err(Failure { kind: ParseErrorKind::UnexpectedToken, offset: here });
            }
        }
        let (pair, q) = parse_pair(text, here, depth)?;
        let there = skip(text, q)?;
        let onward = if there < text.len() && (text[there] == ';' || text[there] == ',') {
            there + 1
        } else {
            there
        };
        let ghost before = pair_models(pairs@);
        let ghost added = (pair.0@, pair.1@);
        pairs.push(pair);
        assert(pair_models(pairs@) =~= before.push(added));
        at = onward;
    }
}

} // verus!
