use std::collections::HashMap;
use vstd::prelude::*;
use crate::clause::{lhs_terms_of, sub_terms_of, Clause};
use crate::literal::Literal;
use crate::hash::Fingerprint;
use crate::term::Term;

verus! {

/// Global position of a clause in a stack of setups.
pub type Index = u32;

/// The literals of `cs`, clause by clause.
pub open spec fn literals_of(cs: Seq<Clause>) -> Seq<Literal>
    decreases cs.len(),
{
    if cs.len() == 0 {
        Seq::empty()
    } else {
        literals_of(cs.drop_last()) + cs.last().lits_spec()
    }
}

/// Lists position `k` under the fingerprint of each left term of `c`.
fn index_clause(occurs: &mut HashMap<u64, Vec<usize>>, c: &Clause, k: usize)
    ensures
        forall|h: u64, x: usize| #![trigger old(occurs)@[h]@.contains(x)]
            old(occurs)@.contains_key(h) && old(occurs)@[h]@.contains(x)
            ==> final(occurs)@.contains_key(h) && final(occurs)@[h]@.contains(x),
        forall|m: int| 0 <= m < c.lits_spec().len() ==> {
            let h = (#[trigger] c.lits_spec()[m]).lhs_spec().fingerprint();
            final(occurs)@.contains_key(h) && final(occurs)@[h]@.contains(k)
        },
        forall|h: u64, e: int| #![trigger final(occurs)@[h]@[e]]
            final(occurs)@.contains_key(h) && 0 <= e < final(occurs)@[h]@.len() ==> final(occurs)@[h]@[e] == k
                || (old(occurs)@.contains_key(h) && old(occurs)@[h]@.contains(final(occurs)@[h]@[e])),
{
    let lits = c.literals();
    let mut m: usize = 0;
    while m < lits.len()
        invariant
            0 <= m <= lits@.len(),
            lits@ == c.lits_spec(),
            forall|h: u64, x: usize| #![trigger old(occurs)@[h]@.contains(x)]
                old(occurs)@.contains_key(h) && old(occurs)@[h]@.contains(x)
                ==> occurs@.contains_key(h) && occurs@[h]@.contains(x),
            forall|q: int| 0 <= q < m ==> {
                let h = (#[trigger] lits@[q]).lhs_spec().fingerprint();
                occurs@.contains_key(h) && occurs@[h]@.contains(k)
            },
            forall|h: u64, e: int| #![trigger occurs@[h]@[e]]
                occurs@.contains_key(h) && 0 <= e < occurs@[h]@.len() ==> occurs@[h]@[e] == k
                    || (old(occurs)@.contains_key(h) && old(occurs)@[h]@.contains(occurs@[h]@[e])),
        decreases lits@.len() - m,
    {
        let h = lits[m].lhs().hash_key();
        let ghost o = occurs@;
        let mut bucket = match occurs.remove(&h) {
            Some(b) => b,
            None => Vec::new(),
        };
        let ghost b0 = bucket@;
        bucket.push(k);
        occurs.insert(h, bucket);
        proof {
            assert(o.contains_key(h) ==> b0 == o[h]@);
            assert(!o.contains_key(h) ==> b0.len() == 0);
            assert(occurs@[h]@ == b0.push(k));
            assert(forall|g: u64| g != h ==> occurs@.contains_key(g) == o.contains_key(g));
            assert(forall|g: u64| g != h && o.contains_key(g) ==> #[trigger] occurs@[g] == o[g]);
            assert forall|g: u64, x: usize| o.contains_key(g) && o[g]@.contains(x)
                implies occurs@.contains_key(g) && occurs@[g]@.contains(x) by {
                if g == h {
                    let w = choose|w: int| 0 <= w < b0.len() && b0[w] == x;
                    assert(occurs@[g]@[w] == x);
                }
            }
            assert(occurs@[h]@[b0.len() as int] == k);
            assert forall|g: u64, e: int| #![trigger occurs@[g]@[e]]
                occurs@.contains_key(g) && 0 <= e < occurs@[g]@.len() implies occurs@[g]@[e] == k
                    || (old(occurs)@.contains_key(g) && old(occurs)@[g]@.contains(occurs@[g]@[e])) by {
                if g == h && e < b0.len() {
                    assert(occurs@[g]@[e] == o[h]@[e]);
                }
            }
        }
        m += 1;
    }
}

/// A level of a knowledge base: the clauses added here, on top of a parent
/// that is frozen for as long as this level borrows it.
#[derive(Debug)]
pub struct Setup<'p> {
    parent: Option<&'p Setup<'p>>,
    first: Index,
    clauses: Vec<Clause>,
    /// For each left-term fingerprint, the positions at this level of the
    /// clauses with a literal over such a left term.
    occurs: HashMap<u64, Vec<usize>>,
    /// The positions at this level of the clauses without literals.
    empties: Vec<usize>,
}

impl<'p> Setup<'p> {
    pub closed spec fn parent_spec(self) -> Option<Setup<'p>> {
        match self.parent {
            Some(p) => Some(*p),
            None => None,
        }
    }

    /// The global index just below this level's first clause.
    pub closed spec fn first_spec(self) -> nat {
        self.first as nat
    }

    /// The clauses added at this level, in order.
    pub closed spec fn own(self) -> Seq<Clause> {
        self.clauses@
    }

    /// The global index of the last clause up to this level.
    pub open spec fn last_spec(self) -> nat {
        self.first_spec() + self.own().len()
    }

    /// Every clause of this level and its ancestors, this level first, each
    /// level in the order of addition.
    pub open spec fn clauses_spec(self) -> Seq<Clause>
        decreases self,
    {
        match self.parent_spec() {
            Some(p) => self.own() + p.clauses_spec(),
            None => self.own(),
        }
    }

    /// Each level starts where its parent ends; every clause is primitive;
    /// indices fit in `Index`.
    pub closed spec fn wf(self) -> bool
        decreases self,
    {
        &&& self.first_spec() + self.own().len() <= Index::MAX
        &&& forall|i: int| 0 <= i < self.own().len() ==> (#[trigger] self.own()[i]).primitive_spec()
        &&& self.index_wf()
        &&& match self.parent {
            Some(p) => p.wf() && self.first_spec() == p.last_spec(),
            None => self.first_spec() == 0,
        }
    }

    /// The occurrence index lists every clause of this level under the
    /// fingerprint of each of its left terms, and every clause without
    /// literals among the empties; it names positions of this level only.
    closed spec fn index_wf(self) -> bool {
        &&& forall|k: int, m: int|
            0 <= k < self.clauses@.len() && 0 <= m < self.clauses@[k].lits_spec().len() ==> {
                let h = (#[trigger] self.clauses@[k].lits_spec()[m]).lhs_spec().fingerprint();
                self.occurs@.contains_key(h) && self.occurs@[h]@.contains(k as usize)
            }
        &&& forall|h: u64, e: int| #![trigger self.occurs@[h]@[e]]
            self.occurs@.contains_key(h) && 0 <= e < self.occurs@[h]@.len() ==> self.occurs@[h]@[e]
                < self.clauses@.len()
        &&& forall|k: int|
            0 <= k < self.clauses@.len() && (#[trigger] self.clauses@[k]).lits_spec().len() == 0
                ==> self.empties@.contains(k as usize)
        &&& forall|e: int| 0 <= e < self.empties@.len() ==> #[trigger] self.empties@[e] < self.clauses@.len()
    }

    /// Some clause of this level subsumes `c`.
    pub open spec fn level_subsumes(self, c: Clause) -> bool {
        exists|k: int| 0 <= k < self.own().len() && (#[trigger] self.own()[k]).subsumes_spec(c)
    }

    /// Some clause of this level or of an ancestor subsumes `c`.
    pub open spec fn subsumes_spec(self, c: Clause) -> bool {
        exists|i: int| 0 <= i < self.clauses_spec().len() && (#[trigger] self.clauses_spec()[i]).subsumes_spec(c)
    }

    /// Some clause of an ancestor subsumes `c`.
    pub open spec fn ancestors_subsume(self, c: Clause) -> bool {
        match self.parent_spec() {
            Some(p) => p.subsumes_spec(c),
            None => false,
        }
    }

    /// A root setup with no clauses.
    pub fn new() -> (r: Self)
        ensures
            r.wf(),
            r.parent_spec() is None,
            r.first_spec() == 0,
            r.own().len() == 0,
    {
        Setup { parent: None, first: 0, clauses: Vec::new(), occurs: HashMap::new(), empties: Vec::new() }
    }

    /// Adds `c` at this level unless it is valid or an ancestor subsumes it;
    /// returns the new clause's global index.
    pub fn add(&mut self, c: Clause) -> (r: Option<Index>)
        requires
            old(self).wf(),
            c.primitive_spec(),
            old(self).last_spec() < Index::MAX,
        ensures
            final(self).wf(),
            r is None <==> (c.valid_spec() || old(self).ancestors_subsume(c)),
            final(self).parent_spec() == old(self).parent_spec(),
            final(self).first_spec() == old(self).first_spec(),
            r is None ==> final(self).own() == old(self).own(),
            r matches Some(i) ==> i == old(self).last_spec() + 1 && final(self).own() == old(self).own().push(c)
                && final(self).last_spec() == i,
            r is Some ==> final(self).clauses_spec().contains(c),
    {
        if c.valid() {
            return None;
        }
        let subsumed = match self.parent {
            Some(p) => p.subsumes(&c),
            None => false,
        };
        if subsumed {
            None
        } else {
            let k = self.clauses.len();
            index_clause(&mut self.occurs, &c, k);
            if c.empty() {
                self.empties.push(k);
            }
            self.clauses.push(c);
            proof {
                assert forall|j: int|
                    0 <= j < self.clauses@.len() && (#[trigger] self.clauses@[j]).lits_spec().len() == 0
                        implies self.empties@.contains(j as usize) by {
                    if j < k {
                        assert(old(self).clauses@[j] == self.clauses@[j]);
                        let w = choose|w: int| 0 <= w < old(self).empties@.len() && old(self).empties@[w] == j as usize;
                        assert(self.empties@[w] == j as usize);
                    } else {
                        assert(self.empties@[self.empties@.len() - 1] == k);
                    }
                }
                assert forall|j: int, m: int|
                    0 <= j < self.clauses@.len() && 0 <= m < self.clauses@[j].lits_spec().len() implies {
                        let h = (#[trigger] self.clauses@[j].lits_spec()[m]).lhs_spec().fingerprint();
                        self.occurs@.contains_key(h) && self.occurs@[h]@.contains(j as usize)
                    } by {
                    if j < k {
                        assert(old(self).clauses@[j] == self.clauses@[j]);
                        let h = old(self).clauses@[j].lits_spec()[m].lhs_spec().fingerprint();
                        assert(old(self).occurs@[h]@.contains(j as usize));
                    }
                }
                assert forall|h: u64, e: int| #![trigger self.occurs@[h]@[e]]
                    self.occurs@.contains_key(h) && 0 <= e < self.occurs@[h]@.len()
                        implies self.occurs@[h]@[e] < self.clauses@.len() by {
                    let x = self.occurs@[h]@[e];
                    if x != k {
                        let w = choose|w: int| 0 <= w < old(self).occurs@[h]@.len() && old(self).occurs@[h]@[w] == x;
                        assert(old(self).occurs@[h]@[w] < k);
                    }
                }
            }
            proof {
                let n = self.own().len() - 1;
                assert(self.clauses_spec()[n] == self.own()[n]);
            }
            Some(self.last())
        }
    }

    /// A child level on top of this one, which stays frozen while the child
    /// lives.
    pub fn spawn(&'p self) -> (r: Setup<'p>)
        requires
            self.wf(),
        ensures
            r.wf(),
            r.parent_spec() == Some(*self),
            r.first_spec() == self.last_spec(),
            r.own().len() == 0,
    {
        Setup {
            parent: Some(self),
            first: self.last(),
            clauses: Vec::new(),
            occurs: HashMap::new(),
            empties: Vec::new(),
        }
    }

    /// Whether some clause of this level subsumes `c`. Only the candidates
    /// that the occurrence index gives are tested: the clauses without
    /// literals, and those that share a left term's fingerprint with `c`.
    fn level_subsumes_exec(&self, c: &Clause) -> (r: bool)
        requires
            self.wf(),
            c.primitive_spec(),
        ensures
            r == self.level_subsumes(*c),
    {
        let mut e: usize = 0;
        while e < self.empties.len()
            invariant
                0 <= e <= self.empties@.len(),
                self.wf(),
                c.primitive_spec(),
                forall|q: int| 0 <= q < e ==> !self.own()[#[trigger] self.empties@[q] as int].subsumes_spec(*c),
            decreases self.empties@.len() - e,
        {
            let k = self.empties[e];
            if self.clauses[k].subsumes(c) {
                return true;
            }
            e += 1;
        }
        let lits = c.literals();
        let mut j: usize = 0;
        while j < lits.len()
            invariant
                0 <= j <= lits@.len(),
                lits@ == c.lits_spec(),
                self.wf(),
                c.primitive_spec(),
                forall|q: int| 0 <= q < self.empties@.len() ==> !self.own()[#[trigger] self.empties@[q] as int].subsumes_spec(*c),
                forall|q: int, x: int| 0 <= q < j && self.occurs@.contains_key(#[trigger] lits@[q].lhs_spec().fingerprint())
                    && 0 <= x < self.occurs@[lits@[q].lhs_spec().fingerprint()]@.len()
                    ==> !self.own()[#[trigger] self.occurs@[lits@[q].lhs_spec().fingerprint()]@[x] as int].subsumes_spec(*c),
            decreases lits@.len() - j,
        {
            let h = lits[j].lhs().hash_key();
            match self.occurs.get(&h) {
                Some(bucket) => {
                    let mut x: usize = 0;
                    while x < bucket.len()
                        invariant
                            0 <= x <= bucket@.len(),
                            self.wf(),
                            c.primitive_spec(),
                            self.occurs@.contains_key(h),
                            bucket@ == self.occurs@[h]@,
                            forall|y: int| 0 <= y < x ==> !self.own()[#[trigger] bucket@[y] as int].subsumes_spec(*c),
                        decreases bucket@.len() - x,
                    {
                        let k = bucket[x];
                        if self.clauses[k].subsumes(c) {
                            return true;
                        }
                        x += 1;
                    }
                },
                None => {},
            }
            j += 1;
        }
        proof {
            assert forall|k: int| 0 <= k < self.own().len() implies !(#[trigger] self.own()[k]).subsumes_spec(*c) by {
                let d = self.own()[k];
                if d.subsumes_spec(*c) {
                    if d.lits_spec().len() == 0 {
                        let w = choose|w: int| 0 <= w < self.empties@.len() && self.empties@[w] == k as usize;
                        assert(!self.own()[self.empties@[w] as int].subsumes_spec(*c));
                    } else {
                        assert(c.entails_some_spec(d.lits_spec()[0]));
                        let q = choose|q: int| 0 <= q < c.lits_spec().len() && d.lits_spec()[0].subsumes_spec(#[trigger] c.lits_spec()[q]);
                        let h = d.lits_spec()[0].lhs_spec().fingerprint();
                        assert(h == lits@[q].lhs_spec().fingerprint());
                        assert(self.occurs@.contains_key(h) && self.occurs@[h]@.contains(k as usize));
                        let w = choose|w: int| 0 <= w < self.occurs@[h]@.len() && self.occurs@[h]@[w] == k as usize;
                        assert(!self.own()[self.occurs@[lits@[q].lhs_spec().fingerprint()]@[w] as int].subsumes_spec(*c));
                    }
                }
            }
        }
        false
    }

    /// Whether some clause of this level or of an ancestor subsumes `c`.
    pub fn subsumes(&self, c: &Clause) -> (r: bool)
        requires
            self.wf(),
            c.primitive_spec(),
        ensures
            r == self.subsumes_spec(*c),
        decreases self,
    {
        if self.level_subsumes_exec(c) {
            proof {
                let k = choose|k: int| 0 <= k < self.own().len() && (#[trigger] self.own()[k]).subsumes_spec(*c);
                assert(self.clauses_spec()[k] == self.own()[k]);
            }
            return true;
        }
        match self.parent {
            Some(p) => {
                let r = p.subsumes(c);
                proof {
                    let n = self.own().len();
                    if r {
                        let k = choose|k: int| 0 <= k < p.clauses_spec().len() && (#[trigger] p.clauses_spec()[k]).subsumes_spec(*c);
                        assert(self.clauses_spec()[n + k] == p.clauses_spec()[k]);
                    } else {
                        assert forall|k: int| 0 <= k < self.clauses_spec().len() implies !(#[trigger] self.clauses_spec()[k]).subsumes_spec(*c) by {
                            if k >= n {
                                assert(self.clauses_spec()[k] == p.clauses_spec()[k - n]);
                            } else {
                                assert(self.clauses_spec()[k] == self.own()[k]);
                            }
                        }
                    }
                }
                r
            },
            None => {
                proof {
                    assert forall|k: int| 0 <= k < self.clauses_spec().len() implies !(#[trigger] self.clauses_spec()[k]).subsumes_spec(*c) by {
                        assert(self.clauses_spec()[k] == self.own()[k]);
                    }
                }
                false
            },
        }
    }

    fn first(&self) -> (r: Index)
        ensures
            r == self.first_spec(),
    {
        self.first
    }

    fn last(&self) -> (r: Index)
        requires
            self.first_spec() + self.own().len() <= Index::MAX,
        ensures
            r == self.last_spec(),
    {
        self.first() + self.clauses.len() as u32
    }

    /// The root of this stack.
    pub open spec fn root_spec(self) -> Setup<'p>
        decreases self,
    {
        match self.parent_spec() {
            Some(p) => p.root_spec(),
            None => self,
        }
    }

    pub fn root(&self) -> (r: &Setup<'p>)
        ensures
            *r == self.root_spec(),
            r.parent_spec() is None,
        decreases self,
    {
        match self.parent {
            Some(p) => p.root(),
            None => self,
        }
    }

    /// Appends this level's clauses, then those of the ancestors.
    fn collect<'s>(&'s self, out: &mut Vec<&'s Clause>)
        ensures
            final(out)@.len() == old(out)@.len() + self.clauses_spec().len(),
            forall|i: int| 0 <= i < old(out)@.len() ==> final(out)@[i] == old(out)@[i],
            forall|i: int|
                0 <= i < self.clauses_spec().len() ==> *final(out)@[old(out)@.len() + i]
                    == #[trigger] self.clauses_spec()[i],
        decreases self,
    {
        let ghost n0 = out@.len();
        let mut i: usize = 0;
        while i < self.clauses.len()
            invariant
                0 <= i <= self.own().len(),
                out@.len() == n0 + i,
                forall|k: int| 0 <= k < n0 ==> out@[k] == old(out)@[k],
                forall|k: int| 0 <= k < i ==> *out@[n0 + k] == #[trigger] self.own()[k],
            decreases self.own().len() - i,
        {
            out.push(&self.clauses[i]);
            i += 1;
        }
        match self.parent {
            Some(p) => {
                let ghost n1 = out@.len();
                let ghost mid = out@;
                p.collect(out);
                proof {
                    assert forall|k: int| 0 <= k < self.clauses_spec().len() implies *out@[n0 + k] == #[trigger] self.clauses_spec()[k] by {
                        if k < self.own().len() {
                            assert(out@[n0 + k] == mid[n0 + k]);
                        } else {
                            assert(self.clauses_spec()[k] == p.clauses_spec()[k - self.own().len()]);
                        }
                    }
                }
            },
            None => {},
        }
    }

    /// Every clause of this level and its ancestors, this level first.
    pub fn clauses(&self) -> (r: Vec<&Clause>)
        ensures
            r@.len() == self.clauses_spec().len(),
            forall|i: int| 0 <= i < r@.len() ==> *r@[i] == #[trigger] self.clauses_spec()[i],
    {
        let mut r: Vec<&Clause> = Vec::new();
        self.collect(&mut r);
        r
    }

    /// The literals of every clause, in the order of `clauses`.
    pub fn literals(&self) -> (r: Vec<Literal>)
        ensures
            r@ == literals_of(self.clauses_spec()),
    {
        let cs = self.clauses();
        let ghost spec_cs = self.clauses_spec();
        let mut r: Vec<Literal> = Vec::new();
        let mut i: usize = 0;
        while i < cs.len()
            invariant
                0 <= i <= cs@.len(),
                cs@.len() == spec_cs.len(),
                forall|k: int| 0 <= k < cs@.len() ==> *cs@[k] == #[trigger] spec_cs[k],
                r@ == literals_of(spec_cs.take(i as int)),
            decreases cs@.len() - i,
        {
            let lits = cs[i].literals();
            let ghost r0 = r@;
            let mut j: usize = 0;
            while j < lits.len()
                invariant
                    0 <= j <= lits@.len(),
                    r@ == r0 + lits@.take(j as int),
                decreases lits@.len() - j,
            {
                r.push(lits[j].clone());
                proof {
                    assert(lits@.take(j + 1) =~= lits@.take(j as int).push(lits@[j as int]));
                    assert(r@ =~= r0 + lits@.take(j + 1));
                }
                j += 1;
            }
            proof {
                assert(lits@.take(j as int) =~= lits@);
                assert(spec_cs.take(i + 1).drop_last() =~= spec_cs.take(i as int));
                assert(spec_cs[i as int] == *cs@[i as int]);
            }
            i += 1;
        }
        proof {
            assert(spec_cs.take(i as int) =~= spec_cs);
        }
        r
    }

    /// The terms of every literal with their arguments, in the order of
    /// `literals`.
    pub fn sub_terms(&self) -> (r: Vec<Term>)
        ensures
            r@ == sub_terms_of(literals_of(self.clauses_spec())),
    {
        let lits = self.literals();
        let mut r: Vec<Term> = Vec::new();
        let mut i: usize = 0;
        while i < lits.len()
            invariant
                0 <= i <= lits@.len(),
                r@ == sub_terms_of(lits@.take(i as int)),
            decreases lits@.len() - i,
        {
            let mut t = lits[i].terms();
            r.append(&mut t);
            proof {
                assert(lits@.take(i + 1).drop_last() =~= lits@.take(i as int));
                assert(r@ =~= sub_terms_of(lits@.take(i + 1)));
            }
            i += 1;
        }
        proof {
            assert(lits@.take(i as int) =~= lits@);
        }
        r
    }

    /// The left term of every literal, in the order of `literals`.
    pub fn lhs_terms(&self) -> (r: Vec<Term>)
        ensures
            r@ == lhs_terms_of(literals_of(self.clauses_spec())),
    {
        let lits = self.literals();
        let mut r: Vec<Term> = Vec::new();
        let mut i: usize = 0;
        while i < lits.len()
            invariant
                0 <= i <= lits@.len(),
                r@ == lhs_terms_of(lits@.take(i as int)),
            decreases lits@.len() - i,
        {
            r.push(lits[i].lhs().clone());
            proof {
                assert(lhs_terms_of(lits@.take(i + 1)) =~= lhs_terms_of(lits@.take(i as int)).push(
                    lits@[i as int].lhs_spec(),
                ));
            }
            i += 1;
        }
        proof {
            assert(lits@.take(i as int) =~= lits@);
        }
        r
    }
}

} // verus!
