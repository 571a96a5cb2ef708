//! The JSON sub-grammar: the same values, written with canonical JSON
//! punctuation only. Whatever it accepts, the general grammar reads in
//! the same way.

use vstd::prelude::*;
use vstd::slice::slice_subrange;
use crate::construct::{construct, construct_object, pair_models};
use crate::error::{Failure, ParseErrorKind};
use crate::grammar::{
    items_in, key_at, key_rest, left, moved, pair_at, pairs_in, path_of, value_at,
};
use crate::keys::{Key, Path};
use crate::number::{classify, classify_json, classify_json_word};
use crate::scan::{
    agrees, end_of_word, is_bare, lemma_quoted_bounds, lemma_skip_bounds, lemma_skip_settles,
    lemma_word_end_bounds, quoted, read_quoted, skip, skip_blank, word_char, word_end, Step,
};
use crate::tree::{trees, Tree, Value};

verus! {

/// A JSON value at `p`: an object, an array, a quoted string, a number,
/// `true`, `false` or `null`.
pub open spec fn json_value_at(s: Seq<char>, p: int, depth: nat) -> Step<Tree>
    decreases depth, 0nat, 0nat,
{
    if p >= s.len() {
        Step::Fail(ParseErrorKind::UnexpectedEnd, p)
    } else if s[p] == '{' {
        if depth == 0 {
            Step::Fail(ParseErrorKind::TooDeep, p)
        } else {
            match skip_blank(s, p + 1) {
                Step::Done(_, here) => if here < s.len() && s[here] == '}' {
                    Step::Done(Tree::Object(construct(Seq::empty())), here + 1)
                } else {
                    match json_members(s, here, (depth - 1) as nat, Seq::empty()) {
                        Step::Done(pairs, q) => Step::Done(Tree::Object(construct(pairs)), q),
                        Step::Fail(kind, at) => Step::Fail(kind, at),
                    }
                },
                Step::Fail(kind, at) => Step::Fail(kind, at),
            }
        }
    } else if s[p] == '[' {
        if depth == 0 {
            Step::Fail(ParseErrorKind::TooDeep, p)
        } else {
            match skip_blank(s, p + 1) {
                Step::Done(_, here) => if here < s.len() && s[here] == ']' {
                    Step::Done(Tree::Array(Seq::empty()), here + 1)
                } else {
                    match json_items(s, here, (depth - 1) as nat, Seq::empty()) {
                        Step::Done(items, q) => Step::Done(Tree::Array(items), q),
                        Step::Fail(kind, at) => Step::Fail(kind, at),
                    }
                },
                Step::Fail(kind, at) => Step::Fail(kind, at),
            }
        }
    } else if s[p] == '"' {
        match quoted(s, p) {
            Step::Done(text, q) => Step::Done(Tree::String(text), q),
            Step::Fail(kind, at) => Step::Fail(kind, at),
        }
    } else if is_bare(s[p]) {
        match classify_json(s.subrange(p, word_end(s, p, false))) {
            Ok(tree) => Step::Done(tree, word_end(s, p, false)),
            Err(kind) => Step::Fail(kind, p),
        }
    } else {
        Step::Fail(ParseErrorKind::UnexpectedToken, p)
    }
}

/// The elements of a JSON array from the start `p` of one of them on,
/// behind those in `acc`: a comma stands between two elements, and the
/// closing bracket behind the last.
pub open spec fn json_items(s: Seq<char>, p: int, depth: nat, acc: Seq<Tree>) -> Step<Seq<Tree>>
    decreases depth, left(s.len(), p), 2nat,
{
    match json_value_at(s, p, depth) {
        Step::Done(item, q) => match skip_blank(s, q) {
            Step::Done(_, there) => if there >= s.len() {
                Step::Fail(ParseErrorKind::UnterminatedBlock, there)
            } else if s[there] == ']' {
                Step::Done(acc.push(item), there + 1)
            } else if s[there] == ',' {
                match skip_blank(s, there + 1) {
                    Step::Done(_, onward) => if moved(p, onward, s.len()) {
                        json_items(s, onward, depth, acc.push(item))
                    } else {
                        Step::Fail(ParseErrorKind::UnexpectedToken, onward)
                    },
                    Step::Fail(kind, at) => Step::Fail(kind, at),
                }
            } else {
                Step::Fail(ParseErrorKind::UnexpectedToken, there)
            },
            Step::Fail(kind, at) => Step::Fail(kind, at),
        },
        Step::Fail(kind, at) => Step::Fail(kind, at),
    }
}

/// One member of a JSON object: a quoted name, a colon, a value.
pub open spec fn json_member(s: Seq<char>, p: int, depth: nat) -> Step<(Path, Tree)>
    decreases depth, 0nat, 1nat,
{
    if p >= s.len() {
        Step::Fail(ParseErrorKind::UnexpectedEnd, p)
    } else if s[p] != '"' {
        Step::Fail(ParseErrorKind::UnexpectedToken, p)
    } else {
        match quoted(s, p) {
            Step::Done(name, q) => match skip_blank(s, q) {
                Step::Done(_, there) => if there >= s.len() {
                    Step::Fail(ParseErrorKind::UnexpectedEnd, there)
                } else if s[there] != ':' {
                    Step::Fail(ParseErrorKind::UnexpectedToken, there)
                } else {
                    match skip_blank(s, there + 1) {
                        Step::Done(_, onward) => match json_value_at(s, onward, depth) {
                            Step::Done(value, r) => Step::Done((Path::Single(name), value), r),
                            Step::Fail(kind, at) => Step::Fail(kind, at),
                        },
                        Step::Fail(kind, at) => Step::Fail(kind, at),
                    }
                },
                Step::Fail(kind, at) => Step::Fail(kind, at),
            },
            Step::Fail(kind, at) => Step::Fail(kind, at),
        }
    }
}

/// The members of a JSON object from the start `p` of one of them on,
/// behind those in `acc`: a comma stands between two members, and the
/// closing brace behind the last.
pub open spec fn json_members(s: Seq<char>, p: int, depth: nat, acc: Seq<(Path, Tree)>) -> Step<
    Seq<(Path, Tree)>,
>
    decreases depth, left(s.len(), p), 2nat,
{
    match json_member(s, p, depth) {
        Step::Done(pair, q) => match skip_blank(s, q) {
            Step::Done(_, there) => if there >= s.len() {
                Step::Fail(ParseErrorKind::UnterminatedBlock, there)
            } else if s[there] == '}' {
                Step::Done(acc.push(pair), there + 1)
            } else if s[there] == ',' {
                match skip_blank(s, there + 1) {
                    Step::Done(_, onward) => if moved(p, onward, s.len()) {
                        json_members(s, onward, depth, acc.push(pair))
                    } else {
                        Step::Fail(ParseErrorKind::UnexpectedToken, onward)
                    },
                    Step::Fail(kind, at) => Step::Fail(kind, at),
                }
            } else {
                Step::Fail(ParseErrorKind::UnexpectedToken, there)
            },
            Step::Fail(kind, at) => Step::Fail(kind, at),
        },
        Step::Fail(kind, at) => Step::Fail(kind, at),
    }
}

/// Reads a JSON value.
pub(crate) fn parse_json_value(text: &[char], p: usize, depth: usize) -> (r: Result<
    (Value, usize),
    Failure,
>)
    requires
        p <= text@.len(),
    ensures
        agrees(r, json_value_at(text@, p as int, depth as nat)),
        r matches Ok((_, q)) ==> p < q <= text@.len(),
        r matches Err(failure) ==> failure.offset <= text@.len(),
    decreases depth, 0nat,
{
    if p >= text.len() {
        return Err(Failure { kind: ParseErrorKind::UnexpectedEnd, offset: p });
    }
    let c = text[p];
    if c == '{' {
        if depth == 0 {
            return Err(Failure { kind: ParseErrorKind::TooDeep, offset: p });
        }
        let here = skip(text, p + 1)?;
        if here < text.len() && text[here] == '}' {
            let none: Vec<(Key, Value)> = Vec::new();
            assert(pair_models(none@) =~= Seq::<(Path, Tree)>::empty());
            return Ok((Value::Object(construct_object(none)), here + 1));
        }
        let (pairs, q) = parse_json_members(text, here, depth - 1)?;
        Ok((Value::Object(construct_object(pairs)), q))
    } else if c == '[' {
        if depth == 0 {
            return Err(Failure { kind: ParseErrorKind::TooDeep, offset: p });
        }
        let here = skip(text, p + 1)?;
        if here < text.len() && text[here] == ']' {
            let none: Vec<Value> = Vec::new();
            assert(trees(none@) =~= Seq::<Tree>::empty());
            return Ok((Value::Array(none), here + 1));
        }
        let (items, q) = parse_json_items(text, here, depth - 1)?;
        Ok((Value::Array(items), q))
    } else if c == '"' {
        let (s, q) = read_quoted(text, p)?;
        Ok((Value::String(s), q))
    } else if word_char(c, false) {
        let end = end_of_word(text, p, false);
        proof {
            lemma_word_end_bounds(text@, p as int, false);
        }
        match classify_json_word(slice_subrange(text, p, end)) {
            Ok(v) => Ok((v, end)),
            Err(kind) => Err(Failure { kind, offset: p }),
        }
    } else {
        Err(Failure { kind: ParseErrorKind::UnexpectedToken, offset: p })
    }
}

/// Reads the elements of a JSON array, from the first one on.
pub(crate) fn parse_json_items(text: &[char], p: usize, depth: usize) -> (r: Result<
    (Vec<Value>, usize),
    Failure,
>)
    requires
        p <= text@.len(),
    ensures
        match r {
            Ok((items, q)) => json_items(text@, p as int, depth as nat, Seq::empty())
                == Step::Done(trees(items@), q as int) && p < q <= text@.len(),
            Err(failure) => json_items(text@, p as int, depth as nat, Seq::empty()) == Step::<
                Seq<Tree>,
            >::Fail(failure.kind, failure.offset as int) && failure.offset <= text@.len(),
        },
    decreases depth, 2nat,
{
    let mut items: Vec<Value> = Vec::new();
    let mut at = p;
    assert(trees(items@) =~= Seq::<Tree>::empty());
    loop
        invariant
            p <= at <= text@.len(),
            json_items(text@, p as int, depth as nat, Seq::empty()) == json_items(
                text@,
                at as int,
                depth as nat,
                trees(items@),
            ),
        decreases text@.len() - at,
    {
        let (item, q) = parse_json_value(text, at, depth)?;
        let there = skip(text, q)?;
        let ghost before = trees(items@);
        items.push(item);
        assert(trees(items@) =~= before.push(item@));
        if there >= text.len() {
            return Err(Failure { kind: ParseErrorKind::UnterminatedBlock, offset: there });
        }
        if text[there] == ']' {
            return Ok((items, there + 1));
        }
        if text[there] != ',' {
            return Err(Failure { kind: ParseErrorKind::UnexpectedToken, offset: there });
        }
        at = skip(text, there + 1)?;
    }
}

/// Reads one member of a JSON object.
pub(crate) fn parse_json_member(text: &[char], p: usize, depth: usize) -> (r: Result<
    ((Key, Value), usize),
    Failure,
>)
    requires
        p <= text@.len(),
    ensures
        match r {
            Ok(((key, value), q)) => json_member(text@, p as int, depth as nat) == Step::Done(
                (key@, value@),
                q as int,
            ) && p < q <= text@.len(),
            Err(failure) => json_member(text@, p as int, depth as nat) == Step::<
                (Path, Tree),
            >::Fail(failure.kind, failure.offset as int) && failure.offset <= text@.len(),
        },
    decreases depth, 1nat,
{
    if p >= text.len() {
        return Err(Failure { kind: ParseErrorKind::UnexpectedEnd, offset: p });
    }
    if text[p] != '"' {
        return Err(Failure { kind: ParseErrorKind::UnexpectedToken, offset: p });
    }
    let (name, q) = read_quoted(text, p)?;
    let there = skip(text, q)?;
    if there >= text.len() {
        return Err(Failure { kind: ParseErrorKind::UnexpectedEnd, offset: there });
    }
    if text[there] != ':' {
        return Err(Failure { kind: ParseErrorKind::UnexpectedToken, offset: there });
    }
    let onward = skip(text, there + 1)?;
    let (value, r) = parse_json_value(text, onward, depth)?;
    Ok(((Key::Single(name), value), r))
}

/// Reads the members of a JSON object, from the first one on.
pub(crate) fn parse_json_members(text: &[char], p: usize, depth: usize) -> (r: Result<
    (Vec<(Key, Value)>, usize),
    Failure,
>)
    requires
        p <= text@.len(),
    ensures
        match r {
            Ok((pairs, q)) => json_members(text@, p as int, depth as nat, Seq::empty())
                == Step::Done(pair_models(pairs@), q as int) && p < q <= text@.len(),
            Err(failure) => json_members(text@, p as int, depth as nat, Seq::empty()) == Step::<
                Seq<(Path, Tree)>,
            >::Fail(failure.kind, failure.offset as int) && failure.offset <= text@.len(),
        },
    decreases depth, 2nat,
{
    let mut pairs: Vec<(Key, Value)> = Vec::new();
    let mut at = p;
    assert(pair_models(pairs@) =~= Seq::<(Path, Tree)>::empty());
    loop
        invariant
            p <= at <= text@.len(),
            json_members(text@, p as int, depth as nat, Seq::empty()) == json_members(
                text@,
                at as int,
                depth as nat,
                pair_models(pairs@),
            ),
        decreases text@.len() - at,
    {
        let (pair, q) = parse_json_member(text, at, depth)?;
        let there = skip(text, q)?;
        let ghost before = pair_models(pairs@);
        let ghost added = (pair.0@, pair.1@);
        pairs.push(pair);
        assert(pair_models(pairs@) =~= before.push(added));
        if there >= text.len() {
            return Err(Failure { kind: ParseErrorKind::UnterminatedBlock, offset: there });
        }
        if text[there] == '}' {
            return Ok((pairs, there + 1));
        }
        if text[there] != ',' {
            return Err(Failure { kind: ParseErrorKind::UnexpectedToken, offset: there });
        }
        at = skip(text, there + 1)?;
    }
}

/// A word that stands for a JSON value stands for the same value in
/// the general grammar, and does not open a heredoc.
proof fn lemma_json_word(w: Seq<char>)
    requires
        classify_json(w) is Ok,
    ensures
        classify(w) == Some(classify_json(w)->Ok_0),
        w.len() > 0,
        w[0] != '<',
{
}

proof fn lemma_value_embeds(s: Seq<char>, p: int, depth: nat)
    requires
        0 <= p,
        json_value_at(s, p, depth) is Done,
    ensures
        value_at(s, p, depth) == json_value_at(s, p, depth),
        p < json_value_at(s, p, depth)->Done_1 <= s.len(),
    decreases depth, 0nat, 0nat,
{
    if s[p] == '{' {
        lemma_skip_bounds(s, p + 1);
        let here = skip_blank(s, p + 1)->Done_1;
        if here < s.len() && s[here] == '}' {
        } else {
            lemma_members_embed(s, p + 1, here, (depth - 1) as nat, Seq::empty());
        }
    } else if s[p] == '[' {
        lemma_skip_bounds(s, p + 1);
        let here = skip_blank(s, p + 1)->Done_1;
        if here < s.len() && s[here] == ']' {
        } else {
            lemma_items_embed(s, p + 1, here, (depth - 1) as nat, Seq::empty());
        }
    } else if s[p] == '"' {
        lemma_quoted_bounds(s, p + 1, p, Seq::empty());
    } else {
        lemma_word_end_bounds(s, p, false);
        let w = s.subrange(p, word_end(s, p, false));
        lemma_json_word(w);
        assert(w[0] == s[p]);
    }
}

proof fn lemma_items_embed(s: Seq<char>, start: int, p: int, depth: nat, acc: Seq<Tree>)
    requires
        0 <= start <= s.len(),
        skip_blank(s, start) is Done,
        skip_blank(s, start)->Done_1 == p,
        json_items(s, p, depth, acc) is Done,
    ensures
        items_in(s, start, depth, acc) == json_items(s, p, depth, acc),
        p < json_items(s, p, depth, acc)->Done_1 <= s.len(),
    decreases depth, left(s.len(), p), 2nat,
{
    lemma_skip_bounds(s, start);
    lemma_value_embeds(s, p, depth);
    let item = json_value_at(s, p, depth)->Done_0;
    let q = json_value_at(s, p, depth)->Done_1;
    lemma_skip_bounds(s, q);
    lemma_skip_settles(s, q);
    let there = skip_blank(s, q)->Done_1;
    if s[there] == ']' {
        assert(items_in(s, there, depth, acc.push(item)) == Step::Done(acc.push(item), there + 1));
    } else {
        lemma_skip_bounds(s, there + 1);
        let onward = skip_blank(s, there + 1)->Done_1;
        lemma_items_embed(s, there + 1, onward, depth, acc.push(item));
    }
}

proof fn lemma_member_embeds(s: Seq<char>, p: int, depth: nat)
    requires
        0 <= p,
        json_member(s, p, depth) is Done,
    ensures
        pair_at(s, p, depth) == json_member(s, p, depth),
        p < json_member(s, p, depth)->Done_1 <= s.len(),
    decreases depth, 0nat, 1nat,
{
    lemma_quoted_bounds(s, p + 1, p, Seq::empty());
    let name = quoted(s, p)->Done_0;
    let q = quoted(s, p)->Done_1;
    lemma_skip_bounds(s, q);
    let there = skip_blank(s, q)->Done_1;
    assert(key_rest(s, q, seq![name]) == Step::Done(seq![name], q));
    assert(path_of(seq![name]) == Path::Single(name));
    assert(key_at(s, p) == Step::Done(Path::Single(name), q));
    lemma_skip_bounds(s, there + 1);
    let onward = skip_blank(s, there + 1)->Done_1;
    lemma_value_embeds(s, onward, depth);
}

proof fn lemma_members_embed(
    s: Seq<char>,
    start: int,
    p: int,
    depth: nat,
    acc: Seq<(Path, Tree)>,
)
    requires
        0 <= start <= s.len(),
        skip_blank(s, start) is Done,
        skip_blank(s, start)->Done_1 == p,
        json_members(s, p, depth, acc) is Done,
    ensures
        pairs_in(s, start, depth, true, acc) == json_members(s, p, depth, acc),
        p < json_members(s, p, depth, acc)->Done_1 <= s.len(),
    decreases depth, left(s.len(), p), 2nat,
{
    lemma_skip_bounds(s, start);
    lemma_member_embeds(s, p, depth);
    let pair = json_member(s, p, depth)->Done_0;
    let q = json_member(s, p, depth)->Done_1;
    lemma_skip_bounds(s, q);
    lemma_skip_settles(s, q);
    let there = skip_blank(s, q)->Done_1;
    if s[there] == '}' {
        assert(pairs_in(s, there, depth, true, acc.push(pair)) == Step::Done(
            acc.push(pair),
            there + 1,
        ));
    } else {
        lemma_skip_bounds(s, there + 1);
        let onward = skip_blank(s, there + 1)->Done_1;
        lemma_members_embed(s, there + 1, onward, depth, acc.push(pair));
    }
}

/// What the JSON grammar accepts as a value at some place, the general
/// grammar reads there as the same value, and up to the same place.
pub proof fn lemma_json_reads_alike(s: Seq<char>, p: int, depth: nat)
    requires
        0 <= p,
        json_value_at(s, p, depth) is Done,
    ensures
        value_at(s, p, depth) == json_value_at(s, p, depth),
{
    lemma_value_embeds(s, p, depth);
}

} // verus!
