//! The document tree, its mathematical model, and the recursive merge.
//!
//! A [`Value`] stands for a [`Tree`]; every contract speaks of the tree.
//! An [`Object`] holds its members in a list without repeated names and
//! stands for the map from those names to the members' trees.

use vstd::prelude::*;
use vstd::set_lib::lemma_subset_equality;
use vstd::std_specs::cmp::PartialEqSpecImpl;
use vstd::std_specs::convert::FromSpecImpl;
use crate::decimal::Decimal;

verus! {

/// The mathematical model of a document: what a [`Value`] stands for.
pub enum Tree {
    Number(int),
    /// `Float(m, e)` is the number `m * 10^e`.
    Float(int, int),
    String(Seq<char>),
    Boolean(bool),
    Array(Seq<Tree>),
    Object(Map<Seq<char>, Tree>),
    Null,
}

/// A parsed document or a part of one.
#[derive(Debug)]
pub enum Value {
    Number(i64),
    Float(Decimal),
    String(String),
    Boolean(bool),
    Array(Array),
    Object(Object),
    Null,
}

/// The elements of an array value.
pub type Array = Vec<Value>;

/// A mapping from names to values. No name occurs twice; the order in
/// which the members are held carries no meaning.
#[derive(Debug)]
pub struct Object {
    entries: Vec<(String, Value)>,
}

/// No two members share a name.
spec fn distinct_names(entries: Seq<(String, Value)>) -> bool {
    forall|i: int, j: int| 0 <= i < j < entries.len() ==> entries[i].0@ != entries[j].0@
}

/// The map that the first `n` members of `entries` spell out.
spec fn members(entries: Seq<(String, Value)>, n: nat) -> Map<Seq<char>, Tree>
    decreases entries, n,
{
    if n == 0 || n > entries.len() {
        Map::empty()
    } else {
        members(entries, (n - 1) as nat).insert(entries[n - 1].0@, entries[n - 1].1.tree())
    }
}

/// The models of the elements of `items`, in order.
pub open spec fn trees(items: Seq<Value>) -> Seq<Tree>
    decreases items,
{
    Seq::new(items.len(), |i: int| if 0 <= i < items.len() { items[i].tree() } else { Tree::Null })
}

impl Object {
    #[verifier::type_invariant]
    spec fn well_formed(self) -> bool {
        distinct_names(self.entries@)
    }

    /// The map from names to trees that this object stands for.
    pub closed spec fn map(self) -> Map<Seq<char>, Tree>
        decreases self,
    {
        members(self.entries@, self.entries@.len())
    }
}

impl Value {
    /// The tree that this value stands for.
    pub open spec fn tree(self) -> Tree
        decreases self,
    {
        match self {
            Value::Number(n) => Tree::Number(n as int),
            Value::Float(d) => Tree::Float(d.spec_mantissa(), d.spec_exponent()),
            Value::String(s) => Tree::String(s@),
            Value::Boolean(b) => Tree::Boolean(b),
            Value::Array(items) => Tree::Array(trees(items@)),
            Value::Object(o) => Tree::Object(o.map()),
            Value::Null => Tree::Null,
        }
    }
}

impl View for Object {
    type V = Map<Seq<char>, Tree>;

    open spec fn view(&self) -> Map<Seq<char>, Tree> {
        self.map()
    }
}

impl View for Value {
    type V = Tree;

    open spec fn view(&self) -> Tree {
        self.tree()
    }
}

/// The recursive merge: two objects are merged name by name, recursing
/// where both hold the name; in every other case the incoming tree
/// replaces the existing one.
pub open spec fn merge_trees(existing: Tree, incoming: Tree) -> Tree
    decreases incoming,
{
    match (existing, incoming) {
        (Tree::Object(a), Tree::Object(b)) => Tree::Object(
            Map::new(
                |name: Seq<char>| a.contains_key(name) || b.contains_key(name),
                |name: Seq<char>|
                    if !b.contains_key(name) {
                        a[name]
                    } else if !a.contains_key(name) {
                        b[name]
                    } else {
                        merge_trees(a[name], b[name])
                    },
            ),
        ),
        _ => incoming,
    }
}

/// `map` after `value` arrived under `name`: merged into what the name
/// held, or inserted where the name was free.
pub open spec fn merged_in(map: Map<Seq<char>, Tree>, name: Seq<char>, value: Tree) -> Map<
    Seq<char>,
    Tree,
> {
    if map.contains_key(name) {
        map.insert(name, merge_trees(map[name], value))
    } else {
        map.insert(name, value)
    }
}

proof fn lemma_members_domain(entries: Seq<(String, Value)>, n: nat, name: Seq<char>)
    requires
        n <= entries.len(),
    ensures
        members(entries, n).contains_key(name) <==> exists|j: int|
            0 <= j < n && #[trigger] entries[j].0@ == name,
    decreases n,
{
    if n > 0 {
        lemma_members_domain(entries, (n - 1) as nat, name);
        if members(entries, n).contains_key(name) {
            if entries[n - 1].0@ == name {
            } else {
                let j = choose|j: int| 0 <= j < n - 1 && #[trigger] entries[j].0@ == name;
                assert(0 <= j < n && entries[j].0@ == name);
            }
        }
    }
}

proof fn lemma_members_value(entries: Seq<(String, Value)>, n: nat, i: int)
    requires
        distinct_names(entries),
        0 <= i < n <= entries.len(),
    ensures
        members(entries, n).contains_key(entries[i].0@),
        members(entries, n)[entries[i].0@] == entries[i].1.tree(),
    decreases n,
{
    if i < n - 1 {
        lemma_members_value(entries, (n - 1) as nat, i);
    }
}

proof fn lemma_members_prefix(a: Seq<(String, Value)>, b: Seq<(String, Value)>, n: nat)
    requires
        n <= a.len(),
        n <= b.len(),
        forall|j: int| 0 <= j < n ==> a[j].0@ == b[j].0@ && a[j].1.tree() == b[j].1.tree(),
    ensures
        members(a, n) == members(b, n),
    decreases n,
{
    if n > 0 {
        lemma_members_prefix(a, b, (n - 1) as nat);
    }
}

proof fn lemma_members_count(entries: Seq<(String, Value)>, n: nat)
    requires
        distinct_names(entries),
        n <= entries.len(),
    ensures
        members(entries, n).dom().finite(),
        members(entries, n).len() == n,
    decreases n,
{
    if n > 0 {
        lemma_members_count(entries, (n - 1) as nat);
        lemma_members_domain(entries, (n - 1) as nat, entries[n - 1].0@);
        let before = members(entries, (n - 1) as nat);
        assert(!before.dom().contains(entries[n - 1].0@));
        assert(members(entries, n).dom() =~= before.dom().insert(entries[n - 1].0@));
    }
}

/// What a list of members with distinct names spells out is the one map
/// that holds each member's value under its name and nothing else.
proof fn lemma_members_are(entries: Seq<(String, Value)>, map: Map<Seq<char>, Tree>)
    requires
        distinct_names(entries),
        forall|j: int| 0 <= j < entries.len() ==> map.contains_key(#[trigger] entries[j].0@),
        forall|j: int|
            0 <= j < entries.len() ==> map[#[trigger] entries[j].0@] == entries[j].1.tree(),
        forall|name: Seq<char>| #[trigger]
            map.contains_key(name) ==> exists|j: int|
                0 <= j < entries.len() && #[trigger] entries[j].0@ == name,
    ensures
        members(entries, entries.len()) == map,
{
    let built = members(entries, entries.len());
    assert forall|name: Seq<char>| built.contains_key(name) <==> map.contains_key(name) by {
        lemma_members_domain(entries, entries.len(), name);
    }
    assert forall|name: Seq<char>| built.contains_key(name) implies built[name] == map[name] by {
        lemma_members_domain(entries, entries.len(), name);
        let j = choose|j: int| 0 <= j < entries.len() && #[trigger] entries[j].0@ == name;
        lemma_members_value(entries, entries.len(), j);
    }
    assert(built =~= map);
}

/// Giving one member another value gives its name that value in the
/// map, and leaves the rest of the map as it was.
proof fn lemma_members_replaced(
    before: Seq<(String, Value)>,
    after: Seq<(String, Value)>,
    i: int,
)
    requires
        distinct_names(before),
        0 <= i < before.len(),
        after.len() == before.len(),
        forall|j: int| 0 <= j < after.len() ==> after[j].0@ == before[j].0@,
        forall|j: int| 0 <= j < after.len() && j != i ==> after[j].1.tree() == before[j].1.tree(),
    ensures
        distinct_names(after),
        members(after, after.len()) == members(before, before.len()).insert(
            before[i].0@,
            after[i].1.tree(),
        ),
{
    let goal = members(before, before.len()).insert(before[i].0@, after[i].1.tree());
    assert forall|j: int| 0 <= j < after.len() implies goal.contains_key(#[trigger] after[j].0@)
        && goal[after[j].0@] == after[j].1.tree() by {
        lemma_members_value(before, before.len(), j);
    }
    assert forall|name: Seq<char>| #[trigger] goal.contains_key(name) implies exists|j: int|
        0 <= j < after.len() && #[trigger] after[j].0@ == name by {
        lemma_members_domain(before, before.len(), name);
        if name == before[i].0@ {
            assert(after[i].0@ == name);
        } else {
            let j = choose|j: int| 0 <= j < before.len() && #[trigger] before[j].0@ == name;
            assert(after[j].0@ == name);
        }
    }
    lemma_members_are(after, goal);
}

/// The index of the member called `name`, if there is one.
fn locate(entries: &Vec<(String, Value)>, name: &String) -> (r: Option<usize>)
    ensures
        match r {
            Some(i) => i < entries@.len() && entries@[i as int].0@ == name@,
            None => forall|j: int| 0 <= j < entries@.len() ==> entries@[j].0@ != name@,
        },
{
    let mut i: usize = 0;
    while i < entries.len()
        invariant
            i <= entries@.len(),
            forall|j: int| 0 <= j < i ==> entries@[j].0@ != name@,
        decreases entries@.len() - i,
    {
        if entries[i].0 == *name {
            return Some(i);
        }
        i += 1;
    }
    None
}

/// Lets `value` arrive under `name`, as `merged_in` describes.
fn settle(entries: &mut Vec<(String, Value)>, name: String, value: Value)
    requires
        distinct_names(old(entries)@),
    ensures
        distinct_names(final(entries)@),
        members(final(entries)@, final(entries)@.len()) == merged_in(
            members(old(entries)@, old(entries)@.len()),
            name@,
            value@,
        ),
    decreases value, 1int,
{
    let ghost before = entries@;
    match locate(entries, &name) {
        Some(i) => {
            proof {
                lemma_members_value(before, before.len(), i as int);
            }
            let slot = &mut entries[i];
            let mut held = Value::Null;
            core::mem::swap(&mut slot.1, &mut held);
            let merged = merge_values(held, value);
            slot.1 = merged;
            proof {
                lemma_members_replaced(before, entries@, i as int);
            }
        },
        None => {
            entries.push((name, value));
            proof {
                lemma_members_prefix(before, entries@, before.len());
                lemma_members_domain(before, before.len(), name@);
            }
        },
    }
}

/// Merges `incoming` into `existing` and returns the result.
fn merge_values(existing: Value, incoming: Value) -> (r: Value)
    ensures
        r@ == merge_trees(existing@, incoming@),
    decreases incoming, 0int,
{
    match existing {
        Value::Object(mine) => match incoming {
            Value::Object(theirs) => Value::Object(merge_objects(mine, theirs)),
            other => other,
        },
        _ => incoming,
    }
}

/// Merges the members of `theirs` into `mine`, one after the other.
fn merge_objects(mine: Object, theirs: Object) -> (r: Object)
    ensures
        Tree::Object(r@) == merge_trees(Tree::Object(mine@), Tree::Object(theirs@)),
    decreases theirs, 0int,
{
    proof {
        use_type_invariant(&mine);
        use_type_invariant(&theirs);
    }
    let ghost base = mine@;
    let ghost source = theirs.entries@;
    let mut entries = mine.entries;
    let arriving = theirs.entries;
    proof {
        assert(members(entries@, entries@.len()) =~= merge_trees(
            Tree::Object(base),
            Tree::Object(members(source, 0)),
        )->Object_0);
    }
    for member in it: arriving
        invariant
            it.seq() == source,
            distinct_names(source),
            distinct_names(entries@),
            decreases_to!(theirs => source),
            Tree::Object(members(entries@, entries@.len())) == merge_trees(
                Tree::Object(base),
                Tree::Object(members(source, it.index() as nat)),
            ),
    {
        let ghost done = members(source, it.index() as nat);
        let ghost current = members(entries@, entries@.len());
        let (name, value) = member;
        proof {
            lemma_members_domain(source, it.index() as nat, name@);
            assert(!done.contains_key(name@));
            assert(merge_trees(Tree::Object(base), Tree::Object(done.insert(name@, value@)))->Object_0
                =~= merged_in(current, name@, value@));
        }
        settle(&mut entries, name, value);
    }
    Object { entries }
}

impl Object {
    /// An object without members.
    pub fn new() -> (r: Object)
        ensures
            r@ == Map::<Seq<char>, Tree>::empty(),
    {
        Object { entries: Vec::new() }
    }

    /// The number of members.
    pub fn len(&self) -> (n: usize)
        ensures
            self@.dom().finite(),
            n == self@.len(),
    {
        proof {
            use_type_invariant(self);
            lemma_members_count(self.entries@, self.entries@.len());
        }
        self.entries.len()
    }

    /// The value held under `name`, if the object has such a member.
    pub fn get(&self, name: &str) -> (r: Option<&Value>)
        ensures
            match r {
                Some(v) => self@.contains_key(name@) && v@ == self@[name@],
                None => !self@.contains_key(name@),
            },
    {
        proof {
            use_type_invariant(self);
        }
        let wanted = name.to_owned();
        match locate(&self.entries, &wanted) {
            Some(i) => {
                proof {
                    lemma_members_value(self.entries@, self.entries@.len(), i as int);
                }
                Some(&self.entries[i].1)
            },
            None => {
                proof {
                    lemma_members_domain(self.entries@, self.entries@.len(), name@);
                }
                None
            },
        }
    }

    /// The names of the members, each once, in the order in which the
    /// object holds them.
    pub fn keys(&self) -> (r: Vec<String>)
        ensures
            r@.len() == self@.len(),
            forall|i: int, j: int| 0 <= i < j < r@.len() ==> r@[i]@ != r@[j]@,
            forall|i: int| 0 <= i < r@.len() ==> self@.contains_key(#[trigger] r@[i]@),
            forall|name: Seq<char>| #[trigger]
                self@.contains_key(name) ==> exists|i: int|
                    0 <= i < r@.len() && #[trigger] r@[i]@ == name,
    {
        proof {
            use_type_invariant(self);
            lemma_members_count(self.entries@, self.entries@.len());
        }
        let mut out: Vec<String> = Vec::new();
        let mut i: usize = 0;
        while i < self.entries.len()
            invariant
                i <= self.entries@.len(),
                out@.len() == i,
                forall|j: int| 0 <= j < i ==> out@[j]@ == self.entries@[j].0@,
            decreases self.entries@.len() - i,
        {
            out.push(self.entries[i].0.clone());
            i += 1;
        }
        proof {
            assert forall|i: int| 0 <= i < out@.len() implies self@.contains_key(
                #[trigger] out@[i]@,
            ) by {
                lemma_members_value(self.entries@, self.entries@.len(), i);
            }
            assert forall|name: Seq<char>| #[trigger] self@.contains_key(name) implies exists|
                i: int,
            | 0 <= i < out@.len() && #[trigger] out@[i]@ == name by {
                lemma_members_domain(self.entries@, self.entries@.len(), name);
                let j = choose|j: int|
                    0 <= j < self.entries@.len() && #[trigger] self.entries@[j].0@ == name;
                assert(out@[j]@ == name);
            }
        }
        out
    }

    /// Binds `name` to `value`, replacing what the name held before.
    pub fn insert(&mut self, name: String, value: Value)
        ensures
            final(self)@ == old(self)@.insert(name@, value@),
    {
        let mut taken = Object::new();
        core::mem::swap(self, &mut taken);
        proof {
            use_type_invariant(&taken);
        }
        let mut entries = taken.entries;
        let ghost before = entries@;
        match locate(&entries, &name) {
            Some(i) => {
                let slot = &mut entries[i];
                slot.1 = value;
                proof {
                    lemma_members_replaced(before, entries@, i as int);
                }
            },
            None => {
                entries.push((name, value));
                proof {
                    lemma_members_prefix(before, entries@, before.len());
                }
            },
        }
        *self = Object { entries };
    }

    /// Lets `value` arrive under `name`: where the name is taken, the
    /// value is merged into what it holds; where it is free, the value is
    /// inserted.
    pub fn merge_entry(&mut self, name: String, value: Value)
        ensures
            final(self)@ == merged_in(old(self)@, name@, value@),
    {
        let mut taken = Object::new();
        core::mem::swap(self, &mut taken);
        proof {
            use_type_invariant(&taken);
        }
        let mut entries = taken.entries;
        settle(&mut entries, name, value);
        *self = Object { entries };
    }
}

impl Value {
    /// The member called `key`, if this is an object that has one.
    pub fn get(&self, key: &str) -> (r: Option<&Value>)
        ensures
            match r {
                Some(v) => self@ is Object && self@->Object_0.contains_key(key@) && v@
                    == self@->Object_0[key@],
                None => !(self@ is Object && self@->Object_0.contains_key(key@)),
            },
    {
        match self {
            Value::Object(o) => o.get(key),
            _ => None,
        }
    }

    /// Merges `other` into this value: objects are merged member by
    /// member, recursively; anything else is replaced by `other`.
    pub fn merge(&mut self, other: Value)
        ensures
            final(self)@ == merge_trees(old(self)@, other@),
    {
        let mut existing = Value::Null;
        core::mem::swap(self, &mut existing);
        *self = merge_values(existing, other);
    }
}

/// Whether two lists hold equal values at every place.
fn same_items(a: &Vec<Value>, b: &Vec<Value>) -> (r: bool)
    ensures
        r == (trees(a@) == trees(b@)),
    decreases a,
{
    if a.len() != b.len() {
        assert(trees(a@).len() != trees(b@).len());
        return false;
    }
    let mut i: usize = 0;
    while i < a.len()
        invariant
            i <= a.len(),
            a.len() == b.len(),
            forall|j: int| 0 <= j < i ==> a@[j]@ == b@[j]@,
        decreases a.len() - i,
    {
        if !same_value(&a[i], &b[i]) {
            assert(trees(a@)[i as int] != trees(b@)[i as int]);
            return false;
        }
        i += 1;
    }
    assert(trees(a@) =~= trees(b@));
    true
}

/// Whether two objects hold equal values under the same names.
fn same_members(a: &Object, b: &Object) -> (r: bool)
    ensures
        r == (a@ == b@),
    decreases a,
{
    proof {
        use_type_invariant(a);
        use_type_invariant(b);
        lemma_members_count(a.entries@, a.entries@.len());
        lemma_members_count(b.entries@, b.entries@.len());
    }
    if a.entries.len() != b.entries.len() {
        return false;
    }
    let mut i: usize = 0;
    while i < a.entries.len()
        invariant
            i <= a.entries@.len(),
            distinct_names(a.entries@),
            distinct_names(b.entries@),
            forall|j: int|
                0 <= j < i ==> b@.contains_key(#[trigger] a.entries@[j].0@) && b@[a.entries@[j].0@]
                    == a.entries@[j].1@,
        decreases a.entries@.len() - i,
    {
        proof {
            lemma_members_value(a.entries@, a.entries@.len(), i as int);
        }
        match locate(&b.entries, &a.entries[i].0) {
            Some(k) => {
                proof {
                    lemma_members_value(b.entries@, b.entries@.len(), k as int);
                }
                if !same_value(&a.entries[i].1, &b.entries[k].1) {
                    return false;
                }
            },
            None => {
                proof {
                    lemma_members_domain(b.entries@, b.entries@.len(), a.entries@[i as int].0@);
                }
                return false;
            },
        }
        i += 1;
    }
    proof {
        assert forall|name: Seq<char>| #[trigger]
            a@.dom().contains(name) implies b@.dom().contains(name) && a@[name] == b@[name] by {
            lemma_members_domain(a.entries@, a.entries@.len(), name);
            let j = choose|j: int| 0 <= j < a.entries@.len() && #[trigger] a.entries@[j].0@ == name;
            lemma_members_value(a.entries@, a.entries@.len(), j);
        }
        lemma_subset_equality(a@.dom(), b@.dom());
        assert(a@ =~= b@);
    }
    true
}

/// Whether two values stand for the same tree.
fn same_value(a: &Value, b: &Value) -> (r: bool)
    ensures
        r == (a@ == b@),
    decreases a,
{
    match a {
        Value::Number(x) => match b {
            Value::Number(y) => *x == *y,
            _ => false,
        },
        Value::Float(x) => match b {
            Value::Float(y) => {
                proof {
                    x.lemma_parts_decide(*y);
                }
                *x == *y
            },
            _ => false,
        },
        Value::String(x) => match b {
            Value::String(y) => *x == *y,
            _ => false,
        },
        Value::Boolean(x) => match b {
            Value::Boolean(y) => *x == *y,
            _ => false,
        },
        Value::Array(x) => match b {
            Value::Array(y) => same_items(x, y),
            _ => false,
        },
        Value::Object(x) => match b {
            Value::Object(y) => same_members(x, y),
            _ => false,
        },
        Value::Null => match b {
            Value::Null => true,
            _ => false,
        },
    }
}

impl PartialEqSpecImpl for Object {
    open spec fn obeys_eq_spec() -> bool {
        true
    }

    open spec fn eq_spec(&self, other: &Object) -> bool {
        self@ == other@
    }
}

impl PartialEq for Object {
    /// Two objects are equal when they map the same names to equal
    /// values, in whatever order they hold them.
    fn eq(&self, other: &Object) -> (r: bool) {
        same_members(self, other)
    }
}

impl PartialEqSpecImpl for Value {
    open spec fn obeys_eq_spec() -> bool {
        true
    }

    open spec fn eq_spec(&self, other: &Value) -> bool {
        self@ == other@
    }
}

impl PartialEq for Value {
    /// Two values are equal when they stand for the same tree.
    fn eq(&self, other: &Value) -> (r: bool) {
        same_value(self, other)
    }
}

/// A copy of a list of values.
pub(crate) fn copy_items(items: &Vec<Value>) -> (r: Vec<Value>)
    ensures
        trees(r@) == trees(items@),
    decreases items,
{
    let mut copy: Vec<Value> = Vec::new();
    let mut i: usize = 0;
    while i < items.len()
        invariant
            i <= items.len(),
            copy@.len() == i,
            forall|j: int| 0 <= j < i ==> copy@[j]@ == items@[j]@,
        decreases items.len() - i,
    {
        copy.push(copy_value(&items[i]));
        i += 1;
    }
    assert(trees(copy@) =~= trees(items@));
    copy
}

/// A copy of an object.
fn copy_members(o: &Object) -> (r: Object)
    ensures
        r@ == o@,
    decreases o,
{
    proof {
        use_type_invariant(o);
    }
    let mut copy: Vec<(String, Value)> = Vec::new();
    let mut i: usize = 0;
    while i < o.entries.len()
        invariant
            i <= o.entries@.len(),
            copy@.len() == i,
            forall|j: int|
                0 <= j < i ==> copy@[j].0@ == o.entries@[j].0@ && copy@[j].1@ == o.entries@[j].1@,
        decreases o.entries@.len() - i,
    {
        copy.push((o.entries[i].0.clone(), copy_value(&o.entries[i].1)));
        i += 1;
    }
    proof {
        lemma_members_prefix(copy@, o.entries@, copy@.len() as nat);
    }
    Object { entries: copy }
}

/// A copy of a value.
fn copy_value(v: &Value) -> (r: Value)
    ensures
        r@ == v@,
    decreases v,
{
    match v {
        Value::Number(n) => Value::Number(*n),
        Value::Float(d) => Value::Float(*d),
        Value::String(s) => Value::String(s.clone()),
        Value::Boolean(b) => Value::Boolean(*b),
        Value::Array(items) => Value::Array(copy_items(items)),
        Value::Object(o) => Value::Object(copy_members(o)),
        Value::Null => Value::Null,
    }
}

impl Clone for Object {
    fn clone(&self) -> (r: Object)
        ensures
            r@ == self@,
    {
        copy_members(self)
    }
}

impl Clone for Value {
    fn clone(&self) -> (r: Value)
        ensures
            r@ == self@,
    {
        copy_value(self)
    }
}

impl<'a> vstd::std_specs::core::IndexSpecImpl<&'a str> for Value {
    open spec fn index_req(&self, key: &&'a str) -> bool {
        self@ is Object && self@->Object_0.contains_key(key@)
    }
}

impl<'a> core::ops::Index<&'a str> for Value {
    type Output = Value;

    /// The member called `key` of an object that has one.
    fn index(&self, key: &'a str) -> (r: &Value)
        ensures
            r@ == self@->Object_0[key@],
    {
        self.get(key).unwrap()
    }
}

impl vstd::std_specs::core::IndexSpecImpl<usize> for Value {
    open spec fn index_req(&self, idx: &usize) -> bool {
        self@ is Array && *idx < self@->Array_0.len()
    }
}

impl core::ops::Index<usize> for Value {
    type Output = Value;

    /// The element at `idx` of an array that is long enough.
    fn index(&self, idx: usize) -> (r: &Value)
        ensures
            r@ == self@->Array_0[idx as int],
    {
        match self {
            Value::Array(items) => &items[idx],
            _ => self,
        }
    }
}

impl<'a> FromSpecImpl<&'a str> for Value {
    open spec fn obeys_from_spec() -> bool {
        false
    }

    open spec fn from_spec(s: &'a str) -> Value {
        arbitrary()
    }
}

impl<'a> From<&'a str> for Value {
    fn from(s: &'a str) -> (r: Value)
        ensures
            r@ == Tree::String(s@),
    {
        Value::String(s.to_owned())
    }
}

impl FromSpecImpl<String> for Value {
    open spec fn obeys_from_spec() -> bool {
        true
    }

    open spec fn from_spec(s: String) -> Value {
        Value::String(s)
    }
}

impl From<String> for Value {
    fn from(s: String) -> (r: Value) {
        Value::String(s)
    }
}

impl FromSpecImpl<i64> for Value {
    open spec fn obeys_from_spec() -> bool {
        true
    }

    open spec fn from_spec(n: i64) -> Value {
        Value::Number(n)
    }
}

impl From<i64> for Value {
    fn from(n: i64) -> (r: Value) {
        Value::Number(n)
    }
}

impl FromSpecImpl<Decimal> for Value {
    open spec fn obeys_from_spec() -> bool {
        true
    }

    open spec fn from_spec(d: Decimal) -> Value {
        Value::Float(d)
    }
}

impl From<Decimal> for Value {
    fn from(d: Decimal) -> (r: Value) {
        Value::Float(d)
    }
}

impl FromSpecImpl<bool> for Value {
    open spec fn obeys_from_spec() -> bool {
        true
    }

    open spec fn from_spec(b: bool) -> Value {
        Value::Boolean(b)
    }
}

impl From<bool> for Value {
    fn from(b: bool) -> (r: Value) {
        Value::Boolean(b)
    }
}

impl FromSpecImpl<Array> for Value {
    open spec fn obeys_from_spec() -> bool {
        true
    }

    open spec fn from_spec(items: Array) -> Value {
        Value::Array(items)
    }
}

impl From<Array> for Value {
    fn from(items: Array) -> (r: Value) {
        Value::Array(items)
    }
}

impl FromSpecImpl<Object> for Value {
    open spec fn obeys_from_spec() -> bool {
        true
    }

    open spec fn from_spec(obj: Object) -> Value {
        Value::Object(obj)
    }
}

impl From<Object> for Value {
    fn from(obj: Object) -> (r: Value) {
        Value::Object(obj)
    }
}

} // verus!
