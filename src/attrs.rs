//! Recognising attributes by name.
use vstd::prelude::*;

use crate::syntax::{path_is_ident, Attribute};

verus! {

/// Whether attribute `a` is the bare path `name` (as `#[c0nst]`).
pub open spec fn attr_named(a: Attribute, name: Seq<char>) -> bool {
    match a.path {
        Some(p) => path_is_ident(p, name),
        None => false,
    }
}

/// Whether some attribute of `attrs` is the bare path `name`.
pub open spec fn has_attr(attrs: Seq<Attribute>, name: Seq<char>) -> bool {
    exists|i: int| 0 <= i < attrs.len() && attr_named(#[trigger] attrs[i], name)
}

/// Checking a single attribute against a name.
pub trait IsAttribute {
    spec fn named(&self, name: Seq<char>) -> bool;

    fn is_attribute(&self, name: &str) -> (r: bool)
        ensures
            r == self.named(name@),
    ;
}

/// Checking a list of attributes for a name.
pub trait HasAttribute {
    spec fn holds(&self, name: Seq<char>) -> bool;

    fn has_attribute(&self, name: &str) -> (r: bool)
        ensures
            r == self.holds(name@),
    ;
}

impl IsAttribute for Attribute {
    open spec fn named(&self, name: Seq<char>) -> bool {
        attr_named(*self, name)
    }

    fn is_attribute(&self, name: &str) -> (r: bool) {
        match &self.path {
            Some(p) => p.is_ident(name),
            None => false,
        }
    }
}

impl HasAttribute for [Attribute] {
    open spec fn holds(&self, name: Seq<char>) -> bool {
        has_attr(self@, name)
    }

    fn has_attribute(&self, name: &str) -> (r: bool) {
        let mut i: usize = 0;
        while i < self.len()
            invariant
                i <= self@.len(),
                forall|k: int| 0 <= k < i ==> !attr_named(#[trigger] self@[k], name@),
            decreases self@.len() - i,
        {
            if self[i].is_attribute(name) {
                return true;
            }
            i = i + 1;
        }
        false
    }
}

} // verus!
