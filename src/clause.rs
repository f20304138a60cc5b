use vstd::prelude::*;
use crate::bloom::{holds, lemma_add_holds, mask, within, BloomSet};
use crate::hash::Fingerprint;
use crate::literal::Literal;
use crate::term::Term;

verus! {

/// The union of the Bloom masks of the left terms of `lits`.
pub open spec fn lhs_mask(lits: Seq<Literal>) -> u64
    decreases lits.len(),
{
    if lits.len() == 0 {
        0
    } else {
        lhs_mask(lits.drop_last()) | mask(lits.last().lhs_spec().fingerprint())
    }
}

/// Strictly increasing in the literal sort order, hence free of duplicates.
pub open spec fn strictly_sorted(lits: Seq<Literal>) -> bool {
    forall|i: int, j: int| 0 <= i < j < lits.len() ==> (#[trigger] lits[i]).before(#[trigger] lits[j])
}

/// `lits` without the literals complementary to `a`, in their order.
pub open spec fn remove_complementary(a: Literal, lits: Seq<Literal>) -> Seq<Literal>
    decreases lits.len(),
{
    if lits.len() == 0 {
        lits
    } else {
        let rest = remove_complementary(a, lits.drop_last());
        if Literal::complementary_spec(a, lits.last()) {
            rest
        } else {
            rest.push(lits.last())
        }
    }
}

/// The left terms of `lits`.
pub open spec fn lhs_terms_of(lits: Seq<Literal>) -> Seq<Term> {
    lits.map_values(|a: Literal| a.lhs_spec())
}

/// The terms of `lits` with their arguments, literal by literal.
pub open spec fn sub_terms_of(lits: Seq<Literal>) -> Seq<Term>
    decreases lits.len(),
{
    if lits.len() == 0 {
        Seq::empty()
    } else {
        sub_terms_of(lits.drop_last()) + lits.last().lhs_spec().terms_spec()
            + lits.last().rhs_spec().terms_spec()
    }
}

/// A disjunction of literals kept as a sorted, duplicate-free list without
/// valid literals, with a Bloom summary of their left terms.
#[derive(Debug)]
pub struct Clause {
    bloom: BloomSet,
    lits: Vec<Literal>,
}

impl Clause {
    pub closed spec fn lits_spec(self) -> Seq<Literal> {
        self.lits@
    }

    pub closed spec fn bloom_spec(self) -> u64 {
        self.bloom.bits()
    }

    /// The literals are strictly sorted and none is valid; the summary
    /// reports the left term of every literal.
    pub open spec fn wf(self) -> bool {
        &&& strictly_sorted(self.lits_spec())
        &&& forall|i: int| 0 <= i < self.lits_spec().len() ==> !(#[trigger] self.lits_spec()[i]).valid_spec()
        &&& forall|i: int|
            0 <= i < self.lits_spec().len() ==> holds(
                self.bloom_spec(),
                (#[trigger] self.lits_spec()[i]).lhs_spec().fingerprint(),
            )
    }

    pub open spec fn valid_spec(self) -> bool {
        exists|i: int| 0 <= i < self.lits_spec().len() && (#[trigger] self.lits_spec()[i]).valid_spec()
    }

    pub open spec fn invalid_spec(self) -> bool {
        forall|i: int| 0 <= i < self.lits_spec().len() ==> (#[trigger] self.lits_spec()[i]).invalid_spec()
    }

    pub open spec fn ground_spec(self) -> bool {
        forall|i: int| 0 <= i < self.lits_spec().len() ==> (#[trigger] self.lits_spec()[i]).ground_spec()
    }

    pub open spec fn primitive_spec(self) -> bool {
        forall|i: int|
            0 <= i < self.lits_spec().len() ==> (#[trigger] self.lits_spec()[i]).primitive_spec()
    }

    pub open spec fn quasiprimitive_spec(self) -> bool {
        forall|i: int|
            0 <= i < self.lits_spec().len() ==> (#[trigger] self.lits_spec()[i]).quasiprimitive_spec()
    }

    /// Whether `a` entails some literal of `self`.
    pub open spec fn entails_some_spec(self, a: Literal) -> bool {
        exists|j: int| 0 <= j < self.lits_spec().len() && a.subsumes_spec(#[trigger] self.lits_spec()[j])
    }

    /// Every literal of `self` entails some literal of `other`.
    pub open spec fn covered_by(self, other: Clause) -> bool {
        forall|i: int|
            0 <= i < self.lits_spec().len() ==> other.entails_some_spec(#[trigger] self.lits_spec()[i])
    }

    /// The Bloom summary of `self` lies within that of `other`, and every
    /// literal of `self` entails some literal of `other`.
    pub open spec fn subsumes_spec(self, other: Clause) -> bool {
        within(self.bloom_spec(), other.bloom_spec()) && self.covered_by(other)
    }

    /// The literals left after propagating `a`: when the summary may hold
    /// `a`'s left term, those not complementary to `a`; otherwise all.
    pub open spec fn propagation(self, a: Literal) -> Seq<Literal> {
        if holds(self.bloom_spec(), a.lhs_spec().fingerprint()) {
            remove_complementary(a, self.lits_spec())
        } else {
            self.lits_spec()
        }
    }

    /// Whether propagating `a` removes a literal.
    pub open spec fn changes(self, a: Literal) -> bool {
        self.propagation(a).len() != self.lits_spec().len()
    }
}

/// Inserts `a` into the strictly sorted `out`, unless a literal with its sort
/// key is there already.
fn insert_sorted(out: &mut Vec<Literal>, a: &Literal)
    requires
        strictly_sorted(old(out)@),
    ensures
        strictly_sorted(final(out)@),
        forall|k: int| 0 <= k < final(out)@.len() ==> old(out)@.contains(#[trigger] final(out)@[k]) || final(out)@[k] == *a,
        forall|k: int| 0 <= k < old(out)@.len() ==> final(out)@.contains(#[trigger] old(out)@[k]),
        exists|k: int| 0 <= k < final(out)@.len() && (#[trigger] final(out)@[k]).key() == a.key(),
{
    let mut p: usize = 0;
    while p < out.len() && out[p].precedes(a)
        invariant
            0 <= p <= out@.len(),
            out@ == old(out)@,
            forall|q: int| 0 <= q < p ==> (#[trigger] out@[q]).before(*a),
        decreases out@.len() - p,
    {
        p += 1;
    }
    if p < out.len() && out[p] == *a {
        assert(out@[p as int].key() == a.key());
        return;
    }
    let ghost o = out@;
    out.insert(p, a.clone());
    proof {
        let n = out@;
        assert(n == o.insert(p as int, *a));
        assert forall|k: int| 0 <= k < n.len() implies (k < p ==> n[k] == o[k]) && (k == p ==> n[k] == *a) && (k > p ==> n[k] == o[k - 1]) by {}
        assert forall|i: int, j: int| 0 <= i < j < n.len() implies (#[trigger] n[i]).before(#[trigger] n[j]) by {
            if j < p {
                assert(o[i].before(o[j]));
            } else if j == p {
            } else if i < p {
                assert(o[i].before(*a));
                assert(!o[p as int].before(*a));
                if j - 1 > p {
                    assert(o[p as int].before(o[j - 1]));
                }
            } else if i == p {
                assert(!o[p as int].before(*a));
                if j - 1 > p {
                    assert(o[p as int].before(o[j - 1]));
                }
            } else {
                assert(o[i - 1].before(o[j - 1]));
            }
        }
        assert forall|k: int| 0 <= k < o.len() implies n.contains(#[trigger] o[k]) by {
            if k < p {
                assert(n[k] == o[k]);
            } else {
                assert(n[k + 1] == o[k]);
            }
        }
        assert forall|k: int| 0 <= k < n.len() implies o.contains(#[trigger] n[k]) || n[k] == *a by {
            if k < p {
                assert(o[k] == n[k]);
            } else if k > p {
                assert(o[k - 1] == n[k]);
            }
        }
        assert(n[p as int].key() == a.key());
    }
}

/// The Bloom summary of the left terms of `lits`.
fn summary(lits: &Vec<Literal>) -> (b: BloomSet)
    ensures
        b.bits() == lhs_mask(lits@),
        forall|m: int| 0 <= m < lits@.len() ==> holds(b.bits(), (#[trigger] lits@[m]).lhs_spec().fingerprint()),
{
    let mut b = BloomSet::new();
    let mut k: usize = 0;
    while k < lits.len()
        invariant
            0 <= k <= lits@.len(),
            b.bits() == lhs_mask(lits@.take(k as int)),
            forall|m: int| 0 <= m < k ==> holds(b.bits(), (#[trigger] lits@[m]).lhs_spec().fingerprint()),
        decreases lits@.len() - k,
    {
        let ghost b0 = b.bits();
        b.add(lits[k].lhs());
        proof {
            assert(lits@.take(k + 1).drop_last() =~= lits@.take(k as int));
            assert forall|m: int| 0 <= m <= k implies holds(b.bits(), (#[trigger] lits@[m]).lhs_spec().fingerprint()) by {
                lemma_add_holds(b0, lits@[k as int].lhs_spec().fingerprint(), lits@[m].lhs_spec().fingerprint());
            }
        }
        k += 1;
    }
    proof {
        assert(lits@.take(k as int) =~= lits@);
    }
    b
}

impl Clause {
    /// Builds the clause of `lits`: sorted, without duplicates, without valid
    /// literals, with a summary of exactly the remaining left terms.
    pub fn new(lits: Vec<Literal>) -> (r: Self)
        ensures
            r.wf(),
            r.bloom_spec() == lhs_mask(r.lits_spec()),
            strictly_sorted(r.lits_spec()),
            forall|k: int| 0 <= k < r.lits_spec().len() ==> !(#[trigger] r.lits_spec()[k]).valid_spec(),
            forall|k: int| 0 <= k < r.lits_spec().len() ==> lits@.contains(#[trigger] r.lits_spec()[k]),
            forall|j: int|
                0 <= j < lits@.len() && !(#[trigger] lits@[j]).valid_spec() ==> exists|k: int|
                    0 <= k < r.lits_spec().len() && (#[trigger] r.lits_spec()[k]).key() == lits@[j].key(),
    {
        let mut out: Vec<Literal> = Vec::new();
        let mut i: usize = 0;
        while i < lits.len()
            invariant
                0 <= i <= lits@.len(),
                strictly_sorted(out@),
                forall|k: int| 0 <= k < out@.len() ==> !(#[trigger] out@[k]).valid_spec(),
                forall|k: int| 0 <= k < out@.len() ==> lits@.contains(#[trigger] out@[k]),
                forall|j: int|
                    0 <= j < i && !(#[trigger] lits@[j]).valid_spec() ==> exists|k: int|
                        0 <= k < out@.len() && (#[trigger] out@[k]).key() == lits@[j].key(),
            decreases lits@.len() - i,
        {
            let a = &lits[i];
            if !a.valid() {
                let ghost o = out@;
                insert_sorted(&mut out, a);
                proof {
                    assert forall|k: int| 0 <= k < out@.len() implies lits@.contains(#[trigger] out@[k]) && !out@[k].valid_spec() by {
                        if out@[k] != *a {
                            assert(o.contains(out@[k]));
                        } else {
                            assert(lits@[i as int] == *a);
                        }
                    }
                    assert forall|j: int|
                        0 <= j <= i && !(#[trigger] lits@[j]).valid_spec() implies exists|k: int|
                            0 <= k < out@.len() && (#[trigger] out@[k]).key() == lits@[j].key() by {
                        if j < i {
                            let k0 = choose|k0: int| 0 <= k0 < o.len() && (#[trigger] o[k0]).key() == lits@[j].key();
                            assert(out@.contains(o[k0]));
                            let k1 = choose|k1: int| 0 <= k1 < out@.len() && out@[k1] == o[k0];
                            assert(out@[k1].key() == lits@[j].key());
                        }
                    }
                }
            }
            i += 1;
        }
        let b = summary(&out);
        Clause { bloom: b, lits: out }
    }

    pub fn empty(&self) -> (r: bool)
        ensures
            r == (self.lits_spec().len() == 0),
    {
        self.len() == 0
    }

    pub fn unit(&self) -> (r: bool)
        ensures
            r == (self.lits_spec().len() == 1),
    {
        self.len() == 1
    }

    pub fn len(&self) -> (r: usize)
        ensures
            r == self.lits_spec().len(),
    {
        self.lits.len()
    }

    /// Whether some literal is valid.
    pub fn valid(&self) -> (r: bool)
        ensures
            r == self.valid_spec(),
    {
        let mut i: usize = 0;
        while i < self.lits.len()
            invariant
                0 <= i <= self.lits_spec().len(),
                forall|k: int| 0 <= k < i ==> !(#[trigger] self.lits_spec()[k]).valid_spec(),
            decreases self.lits_spec().len() - i,
        {
            if self.lits[i].valid() {
                return true;
            }
            i += 1;
        }
        false
    }

    /// Whether every literal is invalid.
    pub fn invalid(&self) -> (r: bool)
        ensures
            r == self.invalid_spec(),
    {
        let mut i: usize = 0;
        while i < self.lits.len()
            invariant
                0 <= i <= self.lits_spec().len(),
                forall|k: int| 0 <= k < i ==> (#[trigger] self.lits_spec()[k]).invalid_spec(),
            decreases self.lits_spec().len() - i,
        {
            if !self.lits[i].invalid() {
                return false;
            }
            i += 1;
        }
        true
    }

    pub fn ground(&self) -> (r: bool)
        ensures
            r == self.ground_spec(),
    {
        let mut i: usize = 0;
        while i < self.lits.len()
            invariant
                0 <= i <= self.lits_spec().len(),
                forall|k: int| 0 <= k < i ==> (#[trigger] self.lits_spec()[k]).ground_spec(),
            decreases self.lits_spec().len() - i,
        {
            if !self.lits[i].ground() {
                return false;
            }
            i += 1;
        }
        true
    }

    pub fn primitive(&self) -> (r: bool)
        ensures
            r == self.primitive_spec(),
    {
        let mut i: usize = 0;
        while i < self.lits.len()
            invariant
                0 <= i <= self.lits_spec().len(),
                forall|k: int| 0 <= k < i ==> (#[trigger] self.lits_spec()[k]).primitive_spec(),
            decreases self.lits_spec().len() - i,
        {
            if !self.lits[i].primitive() {
                return false;
            }
            i += 1;
        }
        true
    }

    pub fn quasiprimitive(&self) -> (r: bool)
        ensures
            r == self.quasiprimitive_spec(),
    {
        let mut i: usize = 0;
        while i < self.lits.len()
            invariant
                0 <= i <= self.lits_spec().len(),
                forall|k: int| 0 <= k < i ==> (#[trigger] self.lits_spec()[k]).quasiprimitive_spec(),
            decreases self.lits_spec().len() - i,
        {
            if !self.lits[i].quasiprimitive() {
                return false;
            }
            i += 1;
        }
        true
    }

    /// Whether `a` entails some literal of `other`.
    fn entails_some(a: &Literal, other: &Clause) -> (r: bool)
        requires
            a.primitive_spec(),
            other.primitive_spec(),
        ensures
            r == other.entails_some_spec(*a),
    {
        let mut j: usize = 0;
        while j < other.lits.len()
            invariant
                0 <= j <= other.lits_spec().len(),
                a.primitive_spec(),
                other.primitive_spec(),
                forall|k: int| 0 <= k < j ==> !a.subsumes_spec(#[trigger] other.lits_spec()[k]),
            decreases other.lits_spec().len() - j,
        {
            if a.subsumes(&other.lits[j]) {
                return true;
            }
            j += 1;
        }
        false
    }

    /// Whether `self` entails `other`: the summaries are checked first, then
    /// every literal of `self` is matched against the literals of `other`.
    pub fn subsumes(&self, other: &Self) -> (r: bool)
        requires
            self.primitive_spec(),
            other.primitive_spec(),
        ensures
            r == self.subsumes_spec(*other),
    {
        if !other.bloom.possibly_includes(&self.bloom) {
            return false;
        }
        let mut i: usize = 0;
        while i < self.lits.len()
            invariant
                0 <= i <= self.lits_spec().len(),
                self.primitive_spec(),
                other.primitive_spec(),
                within(self.bloom_spec(), other.bloom_spec()),
                forall|k: int| 0 <= k < i ==> other.entails_some_spec(#[trigger] self.lits_spec()[k]),
            decreases self.lits_spec().len() - i,
        {
            if !Clause::entails_some(&self.lits[i], other) {
                return false;
            }
            i += 1;
        }
        true
    }

    /// Removes the literals complementary to the unit `a` when the summary
    /// may hold `a`'s left term; reports whether a literal was removed. The
    /// summary is kept as it was, so it may over-approximate afterwards.
    pub fn propagate_in_place(&mut self, a: &Literal) -> (r: bool)
        requires
            old(self).primitive_spec(),
            a.primitive_spec(),
        ensures
            final(self).bloom_spec() == old(self).bloom_spec(),
            final(self).lits_spec() == old(self).propagation(*a),
            r == old(self).changes(*a),
            old(self).wf() ==> final(self).wf(),
            old(self).wf() ==> (r <==> exists|i: int|
                0 <= i < old(self).lits_spec().len() && Literal::complementary_spec(*a, #[trigger] old(self).lits_spec()[i])),
    {
        proof {
            lemma_remove_complementary(*a, self.lits@);
        }
        if self.bloom.possibly_contains(a.lhs()) {
            let n = self.lits.len();
            let mut kept: Vec<Literal> = Vec::new();
            let mut i: usize = 0;
            while i < self.lits.len()
                invariant
                    0 <= i <= self.lits_spec().len(),
                    self.primitive_spec(),
                    a.primitive_spec(),
                    kept@ == remove_complementary(*a, self.lits@.take(i as int)),
                decreases self.lits_spec().len() - i,
            {
                proof {
                    assert(self.lits@.take(i + 1).drop_last() =~= self.lits@.take(i as int));
                }
                if !Literal::complementary(a, &self.lits[i]) {
                    kept.push(self.lits[i].clone());
                }
                i += 1;
            }
            proof {
                assert(self.lits@.take(i as int) =~= self.lits@);
                if old(self).wf() {
                    assert forall|k: int| 0 <= k < kept@.len() implies !(#[trigger] kept@[k]).valid_spec()
                        && holds(self.bloom.bits(), kept@[k].lhs_spec().fingerprint()) by {
                        let w = choose|w: int| 0 <= w < self.lits@.len() && self.lits@[w] == kept@[k];
                        assert(!self.lits@[w].valid_spec());
                    }
                }
            }
            self.lits = kept;
            self.lits.len() != n
        } else {
            proof {
                if old(self).wf() {
                    assert forall|i: int| 0 <= i < old(self).lits_spec().len()
                        implies !Literal::complementary_spec(*a, #[trigger] old(self).lits_spec()[i]) by {
                        assert(holds(self.bloom.bits(), old(self).lits_spec()[i].lhs_spec().fingerprint()));
                    }
                }
            }
            false
        }
    }

    /// The clause that propagating `a` leaves, if it removes a literal.
    pub fn propagate(&self, a: &Literal) -> (r: Option<Clause>)
        requires
            self.primitive_spec(),
            a.primitive_spec(),
        ensures
            r is Some <==> self.changes(*a),
            r matches Some(c) ==> c.lits_spec() == self.propagation(*a) && c.bloom_spec() == self.bloom_spec(),
            r matches Some(c) ==> (self.wf() ==> c.wf()),
    {
        let mut c = self.clone();
        if c.propagate_in_place(a) {
            Some(c)
        } else {
            None
        }
    }

    /// The Bloom summary of the left terms.
    pub fn bloom(&self) -> (r: &BloomSet)
        ensures
            r.bits() == self.bloom_spec(),
    {
        &self.bloom
    }

    pub fn literals(&self) -> (r: &[Literal])
        ensures
            r@ == self.lits_spec(),
    {
        self.lits.as_slice()
    }

    /// The terms of every literal with their arguments.
    pub fn sub_terms(&self) -> (r: Vec<Term>)
        ensures
            r@ == sub_terms_of(self.lits_spec()),
    {
        let mut r: Vec<Term> = Vec::new();
        let mut i: usize = 0;
        while i < self.lits.len()
            invariant
                0 <= i <= self.lits_spec().len(),
                r@ == sub_terms_of(self.lits@.take(i as int)),
            decreases self.lits_spec().len() - i,
        {
            let mut t = self.lits[i].terms();
            r.append(&mut t);
            proof {
                assert(self.lits@.take(i + 1).drop_last() =~= self.lits@.take(i as int));
                assert(r@ =~= sub_terms_of(self.lits@.take(i + 1)));
            }
            i += 1;
        }
        proof {
            assert(self.lits@.take(i as int) =~= self.lits@);
        }
        r
    }

    /// The left term of every literal.
    pub fn lhs_terms(&self) -> (r: Vec<Term>)
        ensures
            r@ == lhs_terms_of(self.lits_spec()),
    {
        let mut r: Vec<Term> = Vec::new();
        let mut i: usize = 0;
        while i < self.lits.len()
            invariant
                0 <= i <= self.lits_spec().len(),
                r@ == lhs_terms_of(self.lits@.take(i as int)),
            decreases self.lits_spec().len() - i,
        {
            r.push(self.lits[i].lhs().clone());
            proof {
                assert(lhs_terms_of(self.lits@.take(i + 1)) =~= lhs_terms_of(self.lits@.take(i as int)).push(self.lits@[i as int].lhs_spec()));
            }
            i += 1;
        }
        proof {
            assert(self.lits@.take(i as int) =~= self.lits@);
        }
        r
    }
}

impl Clone for Clause {
    fn clone(&self) -> (r: Self)
        ensures
            r.lits_spec() == self.lits_spec(),
            r.bloom_spec() == self.bloom_spec(),
    {
        let lits = self.lits.clone();
        proof {
            assert(lits@ =~= self.lits@);
        }
        Clause { bloom: self.bloom, lits }
    }
}

/// What removing the literals complementary to `a` keeps: each kept literal
/// is one of `lits` and is not complementary to `a`, every literal not
/// complementary to `a` is kept, and the length drops exactly when some
/// literal is complementary.
pub proof fn lemma_remove_complementary(a: Literal, lits: Seq<Literal>)
    ensures
        remove_complementary(a, lits).len() <= lits.len(),
        forall|k: int| 0 <= k < remove_complementary(a, lits).len() ==> lits.contains(#[trigger] remove_complementary(a, lits)[k])
            && !Literal::complementary_spec(a, remove_complementary(a, lits)[k]),
        (remove_complementary(a, lits).len() == lits.len()) <==> (forall|i: int| 0 <= i < lits.len() ==> !Literal::complementary_spec(a, #[trigger] lits[i])),
        (forall|i: int| 0 <= i < lits.len() ==> !Literal::complementary_spec(a, #[trigger] lits[i])) ==> remove_complementary(a, lits) == lits,
        strictly_sorted(lits) ==> strictly_sorted(remove_complementary(a, lits)),
    decreases lits.len(),
{
    if lits.len() > 0 {
        let p = lits.drop_last();
        lemma_remove_complementary(a, p);
        let rest = remove_complementary(a, p);
        assert forall|k: int| 0 <= k < rest.len() implies lits.contains(#[trigger] rest[k]) by {
            let w = choose|w: int| 0 <= w < p.len() && p[w] == rest[k];
            assert(lits[w] == rest[k]);
        }
        assert(lits[lits.len() - 1] == lits.last());
        if forall|i: int| 0 <= i < lits.len() ==> !Literal::complementary_spec(a, #[trigger] lits[i]) {
            assert(forall|i: int| 0 <= i < p.len() ==> p[i] == lits[i]);
            assert(lits =~= p.push(lits.last()));
        }
        if !Literal::complementary_spec(a, lits.last()) && rest.len() == p.len() {
            assert forall|i: int| 0 <= i < lits.len() implies !Literal::complementary_spec(a, #[trigger] lits[i]) by {
                if i < p.len() {
                    assert(p[i] == lits[i]);
                }
            }
        }
        if rest.len() < p.len() {
            let i0 = choose|i0: int| 0 <= i0 < p.len() && Literal::complementary_spec(a, #[trigger] p[i0]);
            assert(lits[i0] == p[i0]);
        }
        if strictly_sorted(lits) {
            assert(strictly_sorted(p)) by {
                assert forall|i: int, j: int| 0 <= i < j < p.len() implies (#[trigger] p[i]).before(#[trigger] p[j]) by {
                    assert(p[i] == lits[i] && p[j] == lits[j]);
                }
            }
            let q = rest.push(lits.last());
            assert forall|i: int, j: int| 0 <= i < j < q.len() implies (#[trigger] q[i]).before(#[trigger] q[j]) by {
                if j == rest.len() {
                    let w = choose|w: int| 0 <= w < p.len() && p[w] == rest[i];
                    assert(lits[w].before(lits[lits.len() - 1]));
                } else {
                    assert(q[i] == rest[i] && q[j] == rest[j]);
                }
            }
        }
    }
}

} // verus!

verus! {

/// Every primitive clause subsumes itself.
pub proof fn lemma_subsumes_reflexive(c: Clause)
    requires
        c.primitive_spec(),
    ensures
        c.subsumes_spec(c),
{
    let b = c.bloom_spec();
    assert(b & !b == 0) by (bit_vector);
    assert forall|i: int| 0 <= i < c.lits_spec().len() implies c.entails_some_spec(#[trigger] c.lits_spec()[i]) by {
        assert(c.lits_spec()[i].subsumes_spec(c.lits_spec()[i]));
    }
}

/// Propagating a unit twice removes nothing the second time: a clause `d`
/// with the summary of `c` and the literals that propagating `a` leaves in
/// `c` is not changed by propagating `a`.
pub proof fn lemma_propagate_idempotent(c: Clause, d: Clause, a: Literal)
    requires
        d.lits_spec() == c.propagation(a),
        d.bloom_spec() == c.bloom_spec(),
    ensures
        !d.changes(a),
{
    if holds(c.bloom_spec(), a.lhs_spec().fingerprint()) {
        lemma_remove_complementary(a, c.lits_spec());
        lemma_remove_complementary(a, d.lits_spec());
    }
}

} // verus!
