use vstd::prelude::*;
use crate::term::Term;

verus! {

/// A substitution answers, for an object, either a replacement or `None`
/// ("no change at this node").
pub trait Substitution<T> {
    /// The replacement for `object`, if any.
    spec fn image(&self, object: T) -> Option<T>;

    fn substitute(&self, object: &T) -> (r: Option<T>)
        ensures
            r == self.image(*object),
    ;
}

/// Replaces exactly one object by another.
#[derive(Debug)]
pub struct SingleSubstitution<T> {
    from: T,
    to: T,
}

impl<T> SingleSubstitution<T> {
    /// The object that is replaced.
    pub closed spec fn from_spec(&self) -> T {
        self.from
    }

    /// Its replacement.
    pub closed spec fn to_spec(&self) -> T {
        self.to
    }

    pub fn new(from: T, to: T) -> (r: Self)
        ensures
            r.from_spec() == from,
            r.to_spec() == to,
    {
        SingleSubstitution { from, to }
    }
}

impl Substitution<Term> for SingleSubstitution<Term> {
    /// A term is replaced when it is the same handle as `from`.
    open spec fn image(&self, object: Term) -> Option<Term> {
        if object.id_spec() == self.from_spec().id_spec() {
            Some(self.to_spec())
        } else {
            None
        }
    }

    fn substitute(&self, object: &Term) -> (r: Option<Term>) {
        if self.from == *object {
            Some(self.to.clone())
        } else {
            None
        }
    }
}

} // verus!
