use vstd::prelude::*;
use crate::term::Term;

verus! {

/// Whether `l = r` is in canonical orientation: a function term stands left
/// of a term that is not one; otherwise the term stored first stands left.
pub open spec fn oriented(l: Term, r: Term) -> bool {
    if l.sym_spec() is Fun != r.sym_spec() is Fun {
        l.sym_spec() is Fun
    } else {
        l.id_spec() <= r.id_spec()
    }
}

fn lr(lhs: Term, rhs: Term) -> (r: (Term, Term))
    ensures
        r == (lhs, rhs) || r == (rhs, lhs),
        oriented(r.0, r.1),
{
    if lhs.fun() && !rhs.fun() {
        (lhs, rhs)
    } else if rhs.fun() && !lhs.fun() {
        (rhs, lhs)
    } else if lhs < rhs {
        (lhs, rhs)
    } else {
        (rhs, lhs)
    }
}

/// An equation (`Pos`) or a disequation (`Neg`) between two terms.
#[derive(Debug)]
pub enum Literal {
    Pos(Term, Term),
    Neg(Term, Term),
}

impl Literal {
    pub open spec fn pos_spec(self) -> bool {
        self is Pos
    }

    pub open spec fn lhs_spec(self) -> Term {
        match self {
            Literal::Pos(l, _) => l,
            Literal::Neg(l, _) => l,
        }
    }

    pub open spec fn rhs_spec(self) -> Term {
        match self {
            Literal::Pos(_, r) => r,
            Literal::Neg(_, r) => r,
        }
    }

    /// The sort key: polarity (equations first), then the left and the right
    /// term's storage identity.
    pub open spec fn key(self) -> (int, nat, nat) {
        (if self.pos_spec() { 0 } else { 1 }, self.lhs_spec().id_spec(), self.rhs_spec().id_spec())
    }

    /// Strict order on sort keys.
    pub open spec fn before(self, other: Literal) -> bool {
        let (p, l, r) = self.key();
        let (q, m, s) = other.key();
        p < q || (p == q && (l < m || (l == m && r < s)))
    }

    pub open spec fn ground_spec(self) -> bool {
        self.lhs_spec().ground_spec() && self.rhs_spec().ground_spec()
    }

    pub open spec fn primitive_spec(self) -> bool {
        self.lhs_spec().primitive_spec() && self.rhs_spec().sym_spec() is Name
    }

    pub open spec fn quasiprimitive_spec(self) -> bool {
        self.lhs_spec().quasiprimitive_spec() && (self.rhs_spec().sym_spec() is Name
            || self.rhs_spec().sym_spec() is Var)
    }

    /// A tautology: `x = x`, a disequation between distinct names, or a
    /// disequation between terms of distinct sorts.
    pub open spec fn valid_spec(self) -> bool {
        let l = self.lhs_spec();
        let r = self.rhs_spec();
        ||| self.pos_spec() && l.same(r)
        ||| !self.pos_spec() && l.sym_spec() is Name && r.sym_spec() is Name && !l.same(r)
        ||| !self.pos_spec() && l.sym_spec().sort_spec() != r.sym_spec().sort_spec()
    }

    /// A contradiction: `x != x`, an equation between distinct names, or an
    /// equation between terms of distinct sorts.
    pub open spec fn invalid_spec(self) -> bool {
        let l = self.lhs_spec();
        let r = self.rhs_spec();
        ||| !self.pos_spec() && l.same(r)
        ||| self.pos_spec() && l.sym_spec() is Name && r.sym_spec() is Name && !l.same(r)
        ||| self.pos_spec() && l.sym_spec().sort_spec() != r.sym_spec().sort_spec()
    }

    /// Same left term, and either opposite polarity over the same right term,
    /// or equal polarity over two distinct names.
    pub open spec fn complementary_spec(a: Literal, b: Literal) -> bool {
        a.lhs_spec().same(b.lhs_spec()) && ((a.pos_spec() != b.pos_spec() && a.rhs_spec().same(
            b.rhs_spec(),
        )) || (a.pos_spec() == b.pos_spec() && a.rhs_spec().sym_spec() is Name
            && b.rhs_spec().sym_spec() is Name && !a.rhs_spec().same(b.rhs_spec())))
    }

    /// Same left term, and either the same polarity and right term, or an
    /// equation with a name against a disequation with a distinct name.
    pub open spec fn subsumes_spec(self, other: Literal) -> bool {
        self.lhs_spec().same(other.lhs_spec()) && ((self.pos_spec() == other.pos_spec()
            && self.rhs_spec().same(other.rhs_spec())) || (self.pos_spec() && !other.pos_spec()
            && self.rhs_spec().sym_spec() is Name && other.rhs_spec().sym_spec() is Name
            && !self.rhs_spec().same(other.rhs_spec())))
    }

    /// The equation between `lhs` and `rhs`, canonically oriented.
    pub fn new_pos(lhs: Term, rhs: Term) -> (r: Self)
        ensures
            r.pos_spec(),
            (r.lhs_spec(), r.rhs_spec()) == (lhs, rhs) || (r.lhs_spec(), r.rhs_spec()) == (rhs, lhs),
            oriented(r.lhs_spec(), r.rhs_spec()),
    {
        let (l, r) = lr(lhs, rhs);
        Literal::Pos(l, r)
    }

    /// The disequation between `lhs` and `rhs`, canonically oriented.
    pub fn new_neg(lhs: Term, rhs: Term) -> (r: Self)
        ensures
            !r.pos_spec(),
            (r.lhs_spec(), r.rhs_spec()) == (lhs, rhs) || (r.lhs_spec(), r.rhs_spec()) == (rhs, lhs),
            oriented(r.lhs_spec(), r.rhs_spec()),
    {
        let (l, r) = lr(lhs, rhs);
        Literal::Neg(l, r)
    }

    pub fn pos(&self) -> (r: bool)
        ensures
            r == self.pos_spec(),
    {
        match *self {
            Literal::Pos(_, _) => true,
            Literal::Neg(_, _) => false,
        }
    }

    pub fn lhs(&self) -> (r: &Term)
        ensures
            *r == self.lhs_spec(),
    {
        match self {
            Literal::Pos(lhs, _) => lhs,
            Literal::Neg(lhs, _) => lhs,
        }
    }

    pub fn rhs(&self) -> (r: &Term)
        ensures
            *r == self.rhs_spec(),
    {
        match self {
            Literal::Pos(_, rhs) => rhs,
            Literal::Neg(_, rhs) => rhs,
        }
    }

    /// The literal of opposite polarity over the same terms.
    pub fn flip(self) -> (r: Self)
        ensures
            r.pos_spec() == !self.pos_spec(),
            r.lhs_spec() == self.lhs_spec(),
            r.rhs_spec() == self.rhs_spec(),
    {
        match self {
            Literal::Pos(lhs, rhs) => Literal::Neg(lhs, rhs),
            Literal::Neg(lhs, rhs) => Literal::Pos(lhs, rhs),
        }
    }

    pub fn ground(&self) -> (r: bool)
        ensures
            r == self.ground_spec(),
    {
        self.lhs().ground() && self.rhs().ground()
    }

    pub fn primitive(&self) -> (r: bool)
        ensures
            r == self.primitive_spec(),
    {
        self.lhs().primitive() && self.rhs().name()
    }

    pub fn quasiprimitive(&self) -> (r: bool)
        ensures
            r == self.quasiprimitive_spec(),
    {
        self.lhs().quasiprimitive() && (self.rhs().name() || self.rhs().var())
    }

    pub fn valid(&self) -> (r: bool)
        ensures
            r == self.valid_spec(),
    {
        let l = self.lhs();
        let r = self.rhs();
        (self.pos() && l == r) || (!self.pos() && l.name() && r.name() && l != r)
            || (!self.pos() && l.sort() != r.sort())
    }

    pub fn invalid(&self) -> (r: bool)
        ensures
            r == self.invalid_spec(),
    {
        let l = self.lhs();
        let r = self.rhs();
        (!self.pos() && l == r) || (self.pos() && l.name() && r.name() && l != r)
            || (self.pos() && l.sort() != r.sort())
    }

    /// Whether `a` and `b` cannot both hold.
    pub fn complementary(a: &Self, b: &Self) -> (r: bool)
        requires
            a.primitive_spec(),
            b.primitive_spec(),
        ensures
            r == Literal::complementary_spec(*a, *b),
    {
        a.lhs() == b.lhs() && ((a.pos() != b.pos() && a.rhs() == b.rhs()) || (
        a.pos() == b.pos() && a.rhs().name() && b.rhs().name() && a.rhs() != b.rhs()))
    }

    /// Whether `self` entails `other`.
    pub fn subsumes(&self, other: &Self) -> (r: bool)
        requires
            self.primitive_spec(),
            other.primitive_spec(),
        ensures
            r == self.subsumes_spec(*other),
    {
        self.lhs() == other.lhs() && ((self.pos() == other.pos() && self.rhs() == other.rhs()) || (
        self.pos() && !other.pos() && self.rhs().name() && other.rhs().name() && self.rhs()
            != other.rhs()))
    }

    /// The left term and its arguments, then the right term and its arguments.
    pub fn terms(&self) -> (r: Vec<Term>)
        ensures
            r@ == self.lhs_spec().terms_spec() + self.rhs_spec().terms_spec(),
    {
        let mut r = self.lhs().terms();
        let mut s = self.rhs().terms();
        r.append(&mut s);
        r
    }

    /// Whether `self` sorts strictly before `other`.
    pub fn precedes(&self, other: &Self) -> (r: bool)
        ensures
            r == self.before(*other),
    {
        let p = self.pos();
        let q = other.pos();
        if p != q {
            return p;
        }
        if self.lhs() != other.lhs() {
            return self.lhs() < other.lhs();
        }
        self.rhs() < other.rhs()
    }
}

impl Clone for Literal {
    fn clone(&self) -> (r: Self)
        ensures
            r == *self,
    {
        match self {
            Literal::Pos(l, r) => Literal::Pos(l.clone(), r.clone()),
            Literal::Neg(l, r) => Literal::Neg(l.clone(), r.clone()),
        }
    }
}

impl PartialEq for Literal {
    fn eq(&self, other: &Literal) -> (r: bool) {
        self.pos() == other.pos() && self.lhs() == other.lhs() && self.rhs() == other.rhs()
    }
}

impl vstd::std_specs::cmp::PartialEqSpecImpl for Literal {
    open spec fn obeys_eq_spec() -> bool {
        true
    }

    open spec fn eq_spec(&self, other: &Literal) -> bool {
        self.key() == other.key()
    }
}

} // verus!
