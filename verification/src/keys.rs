//! The identity of a pair as it was written, before folding.

use vstd::prelude::*;
use vstd::std_specs::cmp::PartialEqSpecImpl;
use vstd::std_specs::convert::FromSpecImpl;

verus! {

/// The mathematical model of a [`Key`].
pub enum Path {
    Single(Seq<char>),
    Multiple(Seq<Seq<char>>),
}

/// The key of a pair: one name, or a compound path of several names
/// that expands into nested objects.
#[derive(Debug, Hash)]
pub enum Key {
    Single(String),
    Multiple(Vec<String>),
}

/// The texts of `segments`, in order.
pub open spec fn names(segments: Seq<String>) -> Seq<Seq<char>> {
    Seq::new(segments.len(), |i: int| segments[i]@)
}

impl View for Key {
    type V = Path;

    open spec fn view(&self) -> Path {
        match self {
            Key::Single(name) => Path::Single(name@),
            Key::Multiple(segments) => Path::Multiple(names(segments@)),
        }
    }
}

/// Whether two lists of names spell the same path.
fn same_names(a: &Vec<String>, b: &Vec<String>) -> (r: bool)
    ensures
        r == (names(a@) == names(b@)),
{
    if a.len() != b.len() {
        assert(names(a@).len() != names(b@).len());
        return false;
    }
    let mut i: usize = 0;
    while i < a.len()
        invariant
            i <= a.len(),
            a.len() == b.len(),
            forall|j: int| 0 <= j < i ==> a@[j]@ == b@[j]@,
        decreases a.len() - i,
    {
        if a[i] != b[i] {
            assert(names(a@)[i as int] != names(b@)[i as int]);
            return false;
        }
        i += 1;
    }
    assert(names(a@) =~= names(b@));
    true
}

impl PartialEqSpecImpl for Key {
    open spec fn obeys_eq_spec() -> bool {
        true
    }

    open spec fn eq_spec(&self, other: &Key) -> bool {
        self@ == other@
    }
}

impl PartialEq for Key {
    /// Two keys are equal when they are of the same kind and spell the
    /// same names; a compound key of one name differs from a single key.
    fn eq(&self, other: &Key) -> (r: bool) {
        match self {
            Key::Single(a) => match other {
                Key::Single(b) => *a == *b,
                Key::Multiple(_) => false,
            },
            Key::Multiple(a) => match other {
                Key::Single(_) => false,
                Key::Multiple(b) => same_names(a, b),
            },
        }
    }
}

impl Eq for Key {}

impl Clone for Key {
    fn clone(&self) -> (r: Key)
        ensures
            r@ == self@,
    {
        match self {
            Key::Single(name) => Key::Single(name.clone()),
            Key::Multiple(segments) => {
                let mut copy: Vec<String> = Vec::new();
                let mut i: usize = 0;
                while i < segments.len()
                    invariant
                        i <= segments.len(),
                        copy@.len() == i,
                        forall|j: int| 0 <= j < i ==> copy@[j]@ == segments@[j]@,
                    decreases segments.len() - i,
                {
                    copy.push(segments[i].clone());
                    i += 1;
                }
                assert(names(copy@) =~= names(segments@));
                Key::Multiple(copy)
            },
        }
    }
}

impl<'a> FromSpecImpl<&'a str> for Key {
    open spec fn obeys_from_spec() -> bool {
        false
    }

    open spec fn from_spec(s: &'a str) -> Key {
        arbitrary()
    }
}

impl<'a> From<&'a str> for Key {
    /// A single key of that name.
    fn from(s: &'a str) -> (r: Key)
        ensures
            r@ == Path::Single(s@),
    {
        Key::Single(s.to_owned())
    }
}

impl FromSpecImpl<String> for Key {
    open spec fn obeys_from_spec() -> bool {
        true
    }

    open spec fn from_spec(s: String) -> Key {
        Key::Single(s)
    }
}

impl From<String> for Key {
    /// A single key of that name.
    fn from(s: String) -> (r: Key) {
        Key::Single(s)
    }
}

impl FromSpecImpl<Vec<String>> for Key {
    open spec fn obeys_from_spec() -> bool {
        false
    }

    open spec fn from_spec(keys: Vec<String>) -> Key {
        arbitrary()
    }
}

impl From<Vec<String>> for Key {
    /// A list of exactly one name collapses to a single key; any other
    /// list becomes a compound key of those names.
    fn from(keys: Vec<String>) -> (r: Key)
        ensures
            r@ == if keys@.len() == 1 {
                Path::Single(keys@[0]@)
            } else {
                Path::Multiple(names(keys@))
            },
    {
        let mut keys = keys;
        if keys.len() == 1 {
            Key::Single(keys.swap_remove(0))
        } else {
            Key::Multiple(keys)
        }
    }
}

} // verus!
