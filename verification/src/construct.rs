//! From the pairs of one block, as they were written, to an object:
//! duplicates fold into arrays, compound keys expand into nested
//! objects, and what lands on one name is merged.

use vstd::prelude::*;
use vstd::std_specs::convert::FromSpecImpl;
use crate::keys::{names, Key, Path};
use crate::tree::{merged_in, trees, Object, Tree, Value};

verus! {

/// The models of a list of pairs, in order.
pub open spec fn pair_models(pairs: Seq<(Key, Value)>) -> Seq<(Path, Tree)> {
    Seq::new(pairs.len(), |i: int| (pairs[i].0@, pairs[i].1@))
}

/// The models of a list of pairs whose keys are plain names.
pub open spec fn named_models(pairs: Seq<(String, Value)>) -> Seq<(Path, Tree)> {
    Seq::new(pairs.len(), |i: int| (Path::Single(pairs[i].0@), pairs[i].1@))
}

/// What a key holds after `fresh` arrived while it held `stored`: a
/// null gives way, an array grows by one, anything else pairs up with
/// the newcomer in an array of two.
pub open spec fn absorbed(stored: Tree, fresh: Tree) -> Tree {
    match stored {
        Tree::Null => fresh,
        Tree::Array(items) => Tree::Array(items.push(fresh)),
        _ => Tree::Array(seq![stored, fresh]),
    }
}

/// The place of the last pair of `folded` that is written with `key`.
pub open spec fn position(folded: Seq<(Path, Tree)>, key: Path) -> Option<int>
    decreases folded.len(),
{
    if folded.len() == 0 {
        None
    } else if folded.last().0 == key {
        Some(folded.len() - 1)
    } else {
        position(folded.drop_last(), key)
    }
}

/// `folded` after one more pair arrived.
pub open spec fn fold_one(folded: Seq<(Path, Tree)>, key: Path, value: Tree) -> Seq<(Path, Tree)> {
    match position(folded, key) {
        Some(i) => folded.update(i, (key, absorbed(folded[i].1, value))),
        None => folded.push((key, value)),
    }
}

/// The first phase: one pair for each key as written, in the order in
/// which the keys were first seen, holding what the key's values
/// folded into.
pub open spec fn fold_duplicates(pairs: Seq<(Path, Tree)>) -> Seq<(Path, Tree)>
    decreases pairs.len(),
{
    if pairs.len() == 0 {
        Seq::empty()
    } else {
        fold_one(fold_duplicates(pairs.drop_last()), pairs.last().0, pairs.last().1)
    }
}

/// The values that `pairs` hold under `key`, in the order of the pairs.
pub open spec fn values_under(pairs: Seq<(Path, Tree)>, key: Path) -> Seq<Tree>
    decreases pairs.len(),
{
    if pairs.len() == 0 {
        Seq::empty()
    } else if pairs.last().0 == key {
        values_under(pairs.drop_last(), key).push(pairs.last().1)
    } else {
        values_under(pairs.drop_last(), key)
    }
}

/// What the values of one key fold into, taken from the first to the
/// last.
pub open spec fn fold_values(values: Seq<Tree>) -> Tree
    decreases values.len(),
{
    if values.len() == 0 {
        Tree::Null
    } else if values.len() == 1 {
        values[0]
    } else {
        absorbed(fold_values(values.drop_last()), values.last())
    }
}

/// No two pairs are written with the same key.
pub open spec fn distinct_keys(folded: Seq<(Path, Tree)>) -> bool {
    forall|i: int, j: int| 0 <= i < j < folded.len() ==> folded[i].0 != folded[j].0
}

proof fn lemma_position_found(folded: Seq<(Path, Tree)>, key: Path)
    ensures
        match position(folded, key) {
            Some(i) => 0 <= i < folded.len() && folded[i].0 == key,
            None => forall|j: int| 0 <= j < folded.len() ==> folded[j].0 != key,
        },
    decreases folded.len(),
{
    if folded.len() > 0 && folded.last().0 != key {
        lemma_position_found(folded.drop_last(), key);
        assert forall|j: int| 0 <= j < folded.len() - 1 implies folded[j]
            == folded.drop_last()[j] by {}
    }
}

proof fn lemma_position_is(folded: Seq<(Path, Tree)>, i: int)
    requires
        distinct_keys(folded),
        0 <= i < folded.len(),
    ensures
        position(folded, folded[i].0) == Some(i),
    decreases folded.len(),
{
    if i < folded.len() - 1 {
        lemma_position_is(folded.drop_last(), i);
    }
}

/// The first phase keeps one pair for each key that was written, and
/// that pair holds what the key's values fold into, in their order.
pub proof fn lemma_fold_keeps_each_key(pairs: Seq<(Path, Tree)>, key: Path)
    ensures
        distinct_keys(fold_duplicates(pairs)),
        match position(fold_duplicates(pairs), key) {
            Some(i) => values_under(pairs, key).len() > 0 && fold_duplicates(pairs)[i] == (
                key,
                fold_values(values_under(pairs, key)),
            ),
            None => values_under(pairs, key).len() == 0,
        },
    decreases pairs.len(),
{
    if pairs.len() > 0 {
        let before = fold_duplicates(pairs.drop_last());
        let after = fold_duplicates(pairs);
        let (k0, v0) = pairs.last();
        lemma_fold_keeps_each_key(pairs.drop_last(), key);
        lemma_fold_keeps_each_key(pairs.drop_last(), k0);
        lemma_position_found(before, k0);
        lemma_position_found(before, key);
        match position(before, k0) {
            Some(i) => {
                assert(distinct_keys(after));
                lemma_position_is(after, i);
                if key != k0 {
                    match position(before, key) {
                        Some(j) => {
                            lemma_position_is(after, j);
                        },
                        None => {
                            lemma_position_found(after, key);
                        },
                    }
                } else {
                    let earlier = values_under(pairs.drop_last(), k0);
                    assert(earlier.push(v0).drop_last() =~= earlier);
                }
            },
            None => {
                assert(after.drop_last() =~= before);
                assert(distinct_keys(after));
            },
        }
    }
}

/// `value` wrapped in one single-member object for each of `segments`,
/// built from the innermost segment outward.
pub open spec fn nested(segments: Seq<Seq<char>>, value: Tree) -> Tree
    decreases segments.len(),
{
    if segments.len() == 0 {
        value
    } else {
        nested(
            segments.drop_last(),
            Tree::Object(Map::<Seq<char>, Tree>::empty().insert(segments.last(), value)),
        )
    }
}

/// `map` after the pair `(key, value)` was expanded into it. A compound
/// key without any segment names no place, and leaves the map as it is.
pub open spec fn expand_one(map: Map<Seq<char>, Tree>, key: Path, value: Tree) -> Map<
    Seq<char>,
    Tree,
> {
    match key {
        Path::Single(name) => merged_in(map, name, value),
        Path::Multiple(segments) => if segments.len() == 0 {
            map
        } else {
            merged_in(map, segments[0], nested(segments.drop_first(), value))
        },
    }
}

/// The second phase: the folded pairs expanded and merged, in order,
/// into one map from plain names.
pub open spec fn expand(folded: Seq<(Path, Tree)>) -> Map<Seq<char>, Tree>
    decreases folded.len(),
{
    if folded.len() == 0 {
        Map::empty()
    } else {
        expand_one(expand(folded.drop_last()), folded.last().0, folded.last().1)
    }
}

/// The object that a block's pairs make.
pub open spec fn construct(pairs: Seq<(Path, Tree)>) -> Map<Seq<char>, Tree> {
    expand(fold_duplicates(pairs))
}

/// The object with the one member `name`.
pub open spec fn single(name: Seq<char>, value: Tree) -> Tree {
    Tree::Object(Map::<Seq<char>, Tree>::empty().insert(name, value))
}

/// Three values under one repeated key fold into the array of the
/// three, in their order, where the first is neither null nor an array.
pub proof fn lemma_repeated_key_folds(key: Seq<char>, x: Tree, y: Tree, z: Tree)
    requires
        !(x is Null),
        !(x is Array),
    ensures
        Tree::Object(
            construct(
                seq![(Path::Single(key), x), (Path::Single(key), y), (Path::Single(key), z)],
            ),
        ) == single(key, Tree::Array(seq![x, y, z])),
{
    let k = Path::Single(key);
    let pairs = seq![(k, x), (k, y), (k, z)];
    let two = seq![(k, x), (k, y)];
    let one = seq![(k, x)];
    reveal_with_fuel(fold_duplicates, 2);
    reveal_with_fuel(expand, 2);
    reveal_with_fuel(position, 2);
    assert(pairs.drop_last() =~= two);
    assert(two.drop_last() =~= one);
    assert(one.drop_last() =~= Seq::<(Path, Tree)>::empty());
    assert(fold_duplicates(one) =~= one);
    assert(fold_duplicates(two) =~= seq![(k, Tree::Array(seq![x, y]))]);
    assert(seq![x, y].push(z) =~= seq![x, y, z]);
    let folded = seq![(k, Tree::Array(seq![x, y, z]))];
    assert(fold_duplicates(pairs) =~= folded);
    assert(folded.drop_last() =~= Seq::<(Path, Tree)>::empty());
}

/// A null gives way: a key that is set to null and then to a value
/// holds the value.
pub proof fn lemma_null_gives_way(key: Seq<char>, value: Tree)
    ensures
        Tree::Object(
            construct(seq![(Path::Single(key), Tree::Null), (Path::Single(key), value)]),
        ) == single(key, value),
{
    let k = Path::Single(key);
    let pairs = seq![(k, Tree::Null), (k, value)];
    let one = seq![(k, Tree::Null)];
    reveal_with_fuel(fold_duplicates, 2);
    reveal_with_fuel(expand, 2);
    reveal_with_fuel(position, 2);
    assert(pairs.drop_last() =~= one);
    assert(one.drop_last() =~= Seq::<(Path, Tree)>::empty());
    assert(fold_duplicates(one) =~= one);
    let folded = seq![(k, value)];
    assert(fold_duplicates(pairs) =~= folded);
    assert(folded.drop_last() =~= Seq::<(Path, Tree)>::empty());
}

/// A pair under a compound key of three names makes three objects, one
/// inside the other, with the value in the innermost.
pub proof fn lemma_compound_key_expands(a: Seq<char>, b: Seq<char>, c: Seq<char>, value: Tree)
    ensures
        Tree::Object(construct(seq![(Path::Multiple(seq![a, b, c]), value)])) == single(
            a,
            single(b, single(c, value)),
        ),
{
    let key = Path::Multiple(seq![a, b, c]);
    let pairs = seq![(key, value)];
    reveal_with_fuel(fold_duplicates, 2);
    reveal_with_fuel(expand, 2);
    reveal_with_fuel(nested, 3);
    assert(pairs.drop_last() =~= Seq::<(Path, Tree)>::empty());
    assert(fold_duplicates(pairs) =~= pairs);
    let rest = seq![a, b, c].drop_first();
    assert(rest =~= seq![b, c]);
    assert(rest.drop_last() =~= seq![b]);
    assert(seq![b].drop_last() =~= Seq::<Seq<char>>::empty());
    assert(nested(rest, value) == single(b, single(c, value)));
}

/// Two pairs under compound keys that share their first name and part
/// in the second make one object under the first name that holds both:
/// neither overwrites the other.
pub proof fn lemma_compound_paths_merge(
    a: Seq<char>,
    b: Seq<char>,
    c: Seq<char>,
    first: Tree,
    second: Tree,
)
    requires
        b != c,
    ensures
        Tree::Object(
            construct(
                seq![(Path::Multiple(seq![a, b]), first), (Path::Multiple(seq![a, c]), second)],
            ),
        ) == single(a, Tree::Object(Map::<Seq<char>, Tree>::empty().insert(b, first).insert(c, second))),
{
    let k1 = Path::Multiple(seq![a, b]);
    let k2 = Path::Multiple(seq![a, c]);
    let pairs = seq![(k1, first), (k2, second)];
    reveal_with_fuel(fold_duplicates, 3);
    reveal_with_fuel(expand, 3);
    reveal_with_fuel(nested, 2);
    reveal_with_fuel(position, 2);
    assert(seq![a, b][1] != seq![a, c][1]);
    assert(k1 != k2);
    let head = seq![(k1, first)];
    assert(pairs.drop_last() =~= head);
    assert(head.drop_last() =~= Seq::<(Path, Tree)>::empty());
    assert(fold_duplicates(head) =~= head);
    assert(fold_duplicates(pairs) =~= pairs);
    assert(seq![a, b].drop_first() =~= seq![b]);
    assert(seq![a, c].drop_first() =~= seq![c]);
    assert(seq![b].drop_last() =~= Seq::<Seq<char>>::empty());
    assert(seq![c].drop_last() =~= Seq::<Seq<char>>::empty());
    assert(nested(seq![b], first) == single(b, first));
    assert(nested(seq![c], second) == single(c, second));
    let one = Map::<Seq<char>, Tree>::empty().insert(a, single(b, first));
    assert(expand(head) =~= one);
    let both = Map::<Seq<char>, Tree>::empty().insert(b, first).insert(c, second);
    assert(crate::tree::merge_trees(single(b, first), single(c, second))->Object_0 =~= both);
    assert(expand(pairs) =~= Map::<Seq<char>, Tree>::empty().insert(a, Tree::Object(both)));
}

fn position_of(folded: &Vec<(Key, Value)>, key: &Key) -> (r: Option<usize>)
    ensures
        match r {
            Some(i) => position(pair_models(folded@), key@) == Some(i as int) && i
                < folded@.len() && folded@[i as int].0@ == key@,
            None => position(pair_models(folded@), key@) is None,
        },
{
    let ghost all = pair_models(folded@);
    let mut i: usize = folded.len();
    assert(all.take(i as int) =~= all);
    while i > 0
        invariant
            i <= folded@.len(),
            all == pair_models(folded@),
            position(all, key@) == position(all.take(i as int), key@),
        decreases i,
    {
        i -= 1;
        assert(all.take(i + 1).drop_last() =~= all.take(i as int));
        if folded[i].0 == *key {
            return Some(i);
        }
    }
    None
}

fn absorb(stored: Value, fresh: Value) -> (r: Value)
    ensures
        r@ == absorbed(stored@, fresh@),
{
    match stored {
        Value::Null => fresh,
        Value::Array(items) => {
            let mut items = items;
            let ghost before = items@;
            items.push(fresh);
            assert(trees(items@) =~= trees(before).push(fresh@));
            Value::Array(items)
        },
        other => {
            let ghost first = other@;
            let mut items: Vec<Value> = Vec::new();
            items.push(other);
            items.push(fresh);
            assert(trees(items@) =~= seq![first, fresh@]);
            Value::Array(items)
        },
    }
}

fn fold_pairs(pairs: Vec<(Key, Value)>) -> (folded: Vec<(Key, Value)>)
    ensures
        pair_models(folded@) == fold_duplicates(pair_models(pairs@)),
{
    let ghost source = pair_models(pairs@);
    let mut folded: Vec<(Key, Value)> = Vec::new();
    assert(pair_models(folded@) =~= fold_duplicates(source.take(0)));
    for pair in it: pairs
        invariant
            it.seq() == pairs@,
            source == pair_models(pairs@),
            pair_models(folded@) == fold_duplicates(source.take(it.index() as int)),
    {
        let ghost before = pair_models(folded@);
        let (key, value) = pair;
        assert(source.take(it.index() + 1).drop_last() =~= source.take(it.index() as int));
        match position_of(&folded, &key) {
            Some(i) => {
                let slot = &mut folded[i];
                let mut held = Value::Null;
                core::mem::swap(&mut slot.1, &mut held);
                slot.1 = absorb(held, value);
                assert(pair_models(folded@) =~= before.update(
                    i as int,
                    (key@, absorbed(before[i as int].1, value@)),
                ));
            },
            None => {
                folded.push((key, value));
                assert(pair_models(folded@) =~= before.push((key@, value@)));
            },
        }
    }
    assert(source.take(source.len() as int) =~= source);
    folded
}

/// Wraps `value` in nested objects for all but the first of `segments`
/// and hands back the first segment with what is to go under it.
fn nest(segments: Vec<String>, value: Value) -> (r: Option<(String, Value)>)
    ensures
        match r {
            Some((name, wrapped)) => segments@.len() > 0 && name@ == segments@[0]@ && wrapped@
                == nested(names(segments@).drop_first(), value@),
            None => segments@.len() == 0,
        },
{
    let ghost all = names(segments@);
    let ghost innermost = value@;
    let mut segments = segments;
    let mut value = value;
    if segments.len() == 0 {
        return None;
    }
    while segments.len() > 1
        invariant
            1 <= segments@.len() <= all.len(),
            names(segments@) == all.take(segments@.len() as int),
            nested(all.drop_first(), innermost) == nested(
                names(segments@).drop_first(),
                value@,
            ),
        decreases segments@.len(),
    {
        let ghost rest = names(segments@);
        let name = segments.pop().unwrap();
        let mut holder = Object::new();
        holder.insert(name, value);
        value = Value::Object(holder);
        assert(names(segments@) =~= all.take(segments@.len() as int));
        assert(rest.drop_first().drop_last() =~= names(segments@).drop_first());
    }
    assert(names(segments@).drop_first().len() == 0);
    assert(names(segments@)[0] == all[0]);
    let first = segments.pop().unwrap();
    Some((first, value))
}

fn expand_pairs(folded: Vec<(Key, Value)>) -> (r: Object)
    ensures
        r@ == expand(pair_models(folded@)),
{
    let ghost source = pair_models(folded@);
    let mut out = Object::new();
    for pair in it: folded
        invariant
            it.seq() == folded@,
            source == pair_models(folded@),
            out@ == expand(source.take(it.index() as int)),
    {
        let (key, value) = pair;
        assert(source.take(it.index() + 1).drop_last() =~= source.take(it.index() as int));
        match key {
            Key::Single(name) => {
                out.merge_entry(name, value);
            },
            Key::Multiple(segments) => {
                match nest(segments, value) {
                    Some((name, wrapped)) => {
                        out.merge_entry(name, wrapped);
                    },
                    None => {},
                }
            },
        }
    }
    assert(source.take(source.len() as int) =~= source);
    out
}

/// Builds the object that the pairs of one block make: first the
/// values of each repeated key fold into one, then compound keys
/// expand and what lands on one name is merged.
pub fn construct_object(pairs: Vec<(Key, Value)>) -> (r: Object)
    ensures
        r@ == construct(pair_models(pairs@)),
{
    expand_pairs(fold_pairs(pairs))
}

impl FromSpecImpl<Vec<(Key, Value)>> for Value {
    open spec fn obeys_from_spec() -> bool {
        false
    }

    open spec fn from_spec(pairs: Vec<(Key, Value)>) -> Value {
        arbitrary()
    }
}

impl From<Vec<(Key, Value)>> for Value {
    /// The object that the pairs make.
    fn from(pairs: Vec<(Key, Value)>) -> (r: Value)
        ensures
            r@ == Tree::Object(construct(pair_models(pairs@))),
    {
        Value::Object(construct_object(pairs))
    }
}

impl FromSpecImpl<Vec<(String, Value)>> for Value {
    open spec fn obeys_from_spec() -> bool {
        false
    }

    open spec fn from_spec(pairs: Vec<(String, Value)>) -> Value {
        arbitrary()
    }
}

impl From<Vec<(String, Value)>> for Value {
    /// The object that the pairs make, each name taken as a single key.
    fn from(pairs: Vec<(String, Value)>) -> (r: Value)
        ensures
            r@ == Tree::Object(construct(named_models(pairs@))),
    {
        let mut keyed: Vec<(Key, Value)> = Vec::new();
        for pair in it: pairs
            invariant
                it.seq() == pairs@,
                keyed@.len() == it.index(),
                pair_models(keyed@) == named_models(pairs@).take(it.index() as int),
        {
            let ghost before = pair_models(keyed@);
            let (name, value) = pair;
            keyed.push((Key::Single(name), value));
            assert(pair_models(keyed@) =~= before.push((Path::Single(name@), value@)));
            assert(pair_models(keyed@) =~= named_models(pairs@).take(it.index() + 1));
        }
        assert(named_models(pairs@).take(pairs@.len() as int) =~= named_models(pairs@));
        Value::Object(construct_object(keyed))
    }
}

} // verus!
