//! Typed extraction: from a value to a native shape, where the kind
//! of the value matches.

use vstd::prelude::*;
use crate::decimal::Decimal;
use crate::tree::{copy_items, trees, Array, Object, Tree, Value};

verus! {

/// A native shape that a [`Value`] of the matching kind converts to.
pub trait FromUcl: Sized {
    /// Whether a tree is of the kind that converts to this shape.
    spec fn converts(tree: Tree) -> bool;

    /// Whether this native value holds what `tree` holds.
    spec fn shows(&self, tree: Tree) -> bool;

    /// The native value of `v`, where its kind matches.
    fn from_ucl(v: &Value) -> (r: Option<Self>)
        ensures
            match r {
                Some(x) => Self::converts(v@) && x.shows(v@),
                None => !Self::converts(v@),
            },
    ;
}

impl FromUcl for i64 {
    open spec fn converts(tree: Tree) -> bool {
        tree is Number
    }

    open spec fn shows(&self, tree: Tree) -> bool {
        tree == Tree::Number(*self as int)
    }

    fn from_ucl(v: &Value) -> (r: Option<i64>) {
        match v {
            Value::Number(n) => Some(*n),
            _ => None,
        }
    }
}

impl FromUcl for Decimal {
    open spec fn converts(tree: Tree) -> bool {
        tree is Float
    }

    open spec fn shows(&self, tree: Tree) -> bool {
        tree == Tree::Float(self.spec_mantissa(), self.spec_exponent())
    }

    fn from_ucl(v: &Value) -> (r: Option<Decimal>) {
        match v {
            Value::Float(d) => Some(*d),
            _ => None,
        }
    }
}

impl FromUcl for String {
    open spec fn converts(tree: Tree) -> bool {
        tree is String
    }

    open spec fn shows(&self, tree: Tree) -> bool {
        tree == Tree::String(self@)
    }

    fn from_ucl(v: &Value) -> (r: Option<String>) {
        match v {
            Value::String(s) => Some(s.clone()),
            _ => None,
        }
    }
}

impl FromUcl for bool {
    open spec fn converts(tree: Tree) -> bool {
        tree is Boolean
    }

    open spec fn shows(&self, tree: Tree) -> bool {
        tree == Tree::Boolean(*self)
    }

    fn from_ucl(v: &Value) -> (r: Option<bool>) {
        match v {
            Value::Boolean(b) => Some(*b),
            _ => None,
        }
    }
}

impl FromUcl for Array {
    open spec fn converts(tree: Tree) -> bool {
        tree is Array
    }

    open spec fn shows(&self, tree: Tree) -> bool {
        tree == Tree::Array(trees(self@))
    }

    fn from_ucl(v: &Value) -> (r: Option<Array>) {
        match v {
            Value::Array(items) => Some(copy_items(items)),
            _ => None,
        }
    }
}

impl FromUcl for Object {
    open spec fn converts(tree: Tree) -> bool {
        tree is Object
    }

    open spec fn shows(&self, tree: Tree) -> bool {
        tree == Tree::Object(self@)
    }

    fn from_ucl(v: &Value) -> (r: Option<Object>) {
        match v {
            Value::Object(o) => Some(o.clone()),
            _ => None,
        }
    }
}

impl Value {
    /// This value in the native shape `T`. The kind must match.
    pub fn unwrap<T: FromUcl>(&self) -> (r: T)
        requires
            T::converts(self@),
        ensures
            r.shows(self@),
    {
        T::from_ucl(self).unwrap()
    }

    /// This value in the native shape `T`, or `def` where the kind does
    /// not match.
    pub fn unwrap_or<T: FromUcl>(&self, def: T) -> (r: T)
        ensures
            if T::converts(self@) {
                r.shows(self@)
            } else {
                r == def
            },
    {
        T::from_ucl(self).unwrap_or(def)
    }

    /// The member called `key` in the native shape `T`, or `def` where
    /// this is no object, has no such member, or the member's kind does
    /// not match.
    pub fn get_or<T: FromUcl>(&self, key: &str, def: T) -> (r: T)
        ensures
            if self@ is Object && self@->Object_0.contains_key(key@) && T::converts(
                self@->Object_0[key@],
            ) {
                r.shows(self@->Object_0[key@])
            } else {
                r == def
            },
    {
        match self.get(key) {
            Some(v) => T::from_ucl(v).unwrap_or(def),
            None => def,
        }
    }
}

} // verus!
