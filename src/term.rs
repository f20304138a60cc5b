use std::collections::HashMap;
use std::rc::Rc;
use vstd::prelude::*;
use crate::hash::{fnv_fold, fnv_step, fnv1a_of, fnv1a_hash, le_bytes, Fingerprint, Fnv1aHasher, OFFSET_BASIS};
use crate::substitution::Substitution;
use crate::symbol::{Arity, Sort, Symbol};

verus! {

/// The stored node of a term: its head symbol and its argument handles.
#[derive(Debug)]
pub struct TermData {
    sym: Symbol,
    args: Vec<Term>,
}

/// A handle to a term interned by a [`Factory`]. Handles of one factory are
/// equal exactly when they denote the same stored node; they compare and hash
/// by the node's identifier, not by structure.
#[derive(Debug)]
pub struct Term {
    id: usize,
    node: Rc<TermData>,
}

impl Term {
    /// The identifier of the stored node.
    pub closed spec fn id_spec(self) -> nat {
        self.id as nat
    }

    pub closed spec fn sym_spec(self) -> Symbol {
        self.node.sym
    }

    pub closed spec fn args_spec(self) -> Seq<Term> {
        self.node.args@
    }

    /// Whether two handles denote the same stored node.
    pub open spec fn same(self, other: Term) -> bool {
        self.id_spec() == other.id_spec()
    }

    /// The term itself followed by its arguments.
    pub open spec fn terms_spec(self) -> Seq<Term> {
        seq![self] + self.args_spec()
    }

    /// A name, or a function symbol applied to ground terms.
    pub open spec fn ground_spec(self) -> bool
        decreases self,
    {
        self.sym_spec() is Name || (self.sym_spec() is Fun && forall|i: int|
            0 <= i < self.args_spec().len() ==> (#[trigger] self.args_spec()[i]).ground_spec())
    }

    /// A function symbol applied to names only.
    pub open spec fn primitive_spec(self) -> bool {
        self.sym_spec() is Fun && forall|i: int|
            0 <= i < self.args_spec().len() ==> (#[trigger] self.args_spec()[i]).sym_spec() is Name
    }

    /// A function symbol applied to names and variables only.
    pub open spec fn quasiprimitive_spec(self) -> bool {
        self.sym_spec() is Fun && forall|i: int|
            0 <= i < self.args_spec().len() ==> {
                let s = (#[trigger] self.args_spec()[i]).sym_spec();
                s is Name || s is Var
            }
    }

    pub fn sym(&self) -> (r: Symbol)
        ensures
            r == self.sym_spec(),
    {
        self.node.sym
    }

    pub fn sort(&self) -> (r: Sort)
        ensures
            r == self.sym_spec().sort_spec(),
    {
        self.node.sym.sort()
    }

    pub fn var(&self) -> (r: bool)
        ensures
            r == (self.sym_spec() is Var),
    {
        self.node.sym.var()
    }

    pub fn name(&self) -> (r: bool)
        ensures
            r == (self.sym_spec() is Name),
    {
        self.node.sym.name()
    }

    pub fn fun(&self) -> (r: bool)
        ensures
            r == (self.sym_spec() is Fun),
    {
        self.node.sym.fun()
    }

    /// The arity of the head symbol; for a term of a well-formed factory it
    /// is the number of arguments.
    pub fn arity(&self) -> (r: Arity)
        ensures
            r == self.sym_spec().arity_spec(),
    {
        self.node.sym.arity()
    }

    pub fn args(&self) -> (r: &Vec<Term>)
        ensures
            r@ == self.args_spec(),
    {
        &self.node.args
    }

    pub fn arg(&self, i: usize) -> (r: &Term)
        requires
            i < self.args_spec().len(),
        ensures
            *r == self.args_spec()[i as int],
    {
        &self.node.args[i]
    }

    pub fn ground(&self) -> (r: bool)
        ensures
            r == self.ground_spec(),
        decreases self,
    {
        if self.node.sym.name() {
            return true;
        }
        if !self.node.sym.fun() {
            return false;
        }
        let mut i: usize = 0;
        while i < self.node.args.len()
            invariant
                0 <= i <= self.args_spec().len(),
                self.sym_spec() is Fun,
                forall|j: int| 0 <= j < i ==> (#[trigger] self.args_spec()[j]).ground_spec(),
            decreases self.args_spec().len() - i,
        {
            if !self.node.args[i].ground() {
                assert(!self.args_spec()[i as int].ground_spec());
                return false;
            }
            i += 1;
        }
        true
    }

    pub fn primitive(&self) -> (r: bool)
        ensures
            r == self.primitive_spec(),
    {
        if !self.node.sym.fun() {
            return false;
        }
        let mut i: usize = 0;
        while i < self.node.args.len()
            invariant
                0 <= i <= self.args_spec().len(),
                self.sym_spec() is Fun,
                forall|j: int| 0 <= j < i ==> (#[trigger] self.args_spec()[j]).sym_spec() is Name,
            decreases self.args_spec().len() - i,
        {
            if !self.node.args[i].name() {
                return false;
            }
            i += 1;
        }
        true
    }

    pub fn quasiprimitive(&self) -> (r: bool)
        ensures
            r == self.quasiprimitive_spec(),
    {
        if !self.node.sym.fun() {
            return false;
        }
        let mut i: usize = 0;
        while i < self.node.args.len()
            invariant
                0 <= i <= self.args_spec().len(),
                self.sym_spec() is Fun,
                forall|j: int|
                    0 <= j < i ==> {
                        let s = (#[trigger] self.args_spec()[j]).sym_spec();
                        s is Name || s is Var
                    },
            decreases self.args_spec().len() - i,
        {
            let t = &self.node.args[i];
            if !(t.name() || t.var()) {
                return false;
            }
            i += 1;
        }
        true
    }

    /// The term itself followed by its arguments.
    pub fn terms(&self) -> (r: Vec<Term>)
        ensures
            r@ == self.terms_spec(),
    {
        let mut r: Vec<Term> = Vec::new();
        r.push(self.clone());
        let mut i: usize = 0;
        while i < self.node.args.len()
            invariant
                0 <= i <= self.args_spec().len(),
                r@ == seq![*self] + self.args_spec().take(i as int),
            decreases self.args_spec().len() - i,
        {
            r.push(self.node.args[i].clone());
            proof {
                assert(self.args_spec().take(i + 1) =~= self.args_spec().take(i as int).push(
                    self.args_spec()[i as int],
                ));
            }
            i += 1;
        }
        proof {
            assert(self.args_spec().take(i as int) =~= self.args_spec());
        }
        r
    }

    /// Applies `theta`: its image where it maps this term; otherwise, for a
    /// term with arguments, the same symbol over the substituted arguments,
    /// interned in `factory`; otherwise the term itself.
    pub fn substitute<S: Substitution<Term>>(&self, theta: &S, factory: &mut Factory) -> (r: Term)
        requires
            old(factory).wf(),
            old(factory).contains(*self),
            forall|u: Term| #[trigger] theta.image(u) matches Some(n) ==> old(factory).contains(n),
        ensures
            final(factory).wf(),
            final(factory).contains(r),
            forall|u: Term| old(factory).contains(u) ==> #[trigger] final(factory).contains(u),
            substituted(theta, *self, r),
        decreases self,
    {
        match theta.substitute(self) {
            Some(n) => n,
            None => {
                if self.node.args.len() > 0 {
                    proof {
                        lemma_arity(*old(factory), *self);
                    }
                    let mut args: Vec<Term> = Vec::new();
                    let mut i: usize = 0;
                    while i < self.node.args.len()
                        invariant
                            0 <= i <= self.args_spec().len(),
                            theta.image(*self) is None,
                            factory.wf(),
                            forall|u: Term| old(factory).contains(u) ==> #[trigger] factory.contains(u),
                            forall|u: Term| #[trigger] theta.image(u) matches Some(n) ==> old(factory).contains(n),
                            old(factory).wf(),
                            old(factory).contains(*self),
                            args@.len() == i,
                            forall|k: int| 0 <= k < i ==> factory.contains(#[trigger] args@[k]),
                            forall|k: int| 0 <= k < i ==> substituted(theta, #[trigger] self.args_spec()[k], args@[k]),
                        decreases self.args_spec().len() - i,
                    {
                        proof {
                            lemma_member_args(*old(factory), *self, i as int);
                        }
                        let a = self.node.args[i].substitute(theta, factory);
                        args.push(a);
                        i += 1;
                    }
                    let r = factory.new_term(self.node.sym, args);
                    proof {
                        assert(forall|k: int| 0 <= k < self.args_spec().len() ==> r.args_spec()[k] == args@[k]);
                    }
                    r
                } else {
                    self.clone()
                }
            },
        }
    }
}

impl Clone for Term {
    fn clone(&self) -> (r: Self)
        ensures
            r == *self,
    {
        Term { id: self.id, node: Rc::clone(&self.node) }
    }
}

impl PartialEq for Term {
    fn eq(&self, other: &Term) -> (r: bool) {
        self.id == other.id
    }
}

impl vstd::std_specs::cmp::PartialEqSpecImpl for Term {
    open spec fn obeys_eq_spec() -> bool {
        true
    }

    open spec fn eq_spec(&self, other: &Term) -> bool {
        self.id_spec() == other.id_spec()
    }
}

impl Eq for Term {
}

/// The order of storage identity: stable within a run, not structural.
pub open spec fn identity_order(a: Term, b: Term) -> std::cmp::Ordering {
    if a.id_spec() < b.id_spec() {
        std::cmp::Ordering::Less
    } else if a.id_spec() == b.id_spec() {
        std::cmp::Ordering::Equal
    } else {
        std::cmp::Ordering::Greater
    }
}

impl PartialOrd for Term {
    fn partial_cmp(&self, other: &Term) -> (r: Option<std::cmp::Ordering>) {
        if self.id < other.id {
            Some(std::cmp::Ordering::Less)
        } else if self.id == other.id {
            Some(std::cmp::Ordering::Equal)
        } else {
            Some(std::cmp::Ordering::Greater)
        }
    }
}

impl vstd::std_specs::cmp::PartialOrdSpecImpl for Term {
    open spec fn obeys_partial_cmp_spec() -> bool {
        true
    }

    open spec fn partial_cmp_spec(&self, other: &Term) -> Option<std::cmp::Ordering> {
        Some(identity_order(*self, *other))
    }
}

impl Fingerprint for Term {
    /// The FNV-1a hash of the node identifier.
    open spec fn fingerprint(&self) -> u64 {
        fnv1a_of(self.id_spec() as u64)
    }

    fn hash_key(&self) -> (r: u64) {
        fnv1a_hash(self.id as u64)
    }
}

/// Whether `r` is what substituting `theta` in `t` yields: the image of `t`
/// where `theta` maps it; otherwise, for a term with arguments, a term with
/// the same symbol whose arguments are the substituted arguments; otherwise
/// `t` itself.
pub open spec fn substituted<S: Substitution<Term>>(theta: &S, t: Term, r: Term) -> bool
    decreases t,
{
    match theta.image(t) {
        Some(n) => r == n,
        None => if t.args_spec().len() > 0 {
            &&& r.sym_spec() == t.sym_spec()
            &&& r.args_spec().len() == t.args_spec().len()
            &&& forall|i: int| 0 <= i < t.args_spec().len() ==> substituted(theta, #[trigger] t.args_spec()[i], r.args_spec()[i])
        } else {
            r == t
        },
    }
}

/// The hash of a symbol: its variant tag, its identifier, its sort and its arity.
pub open spec fn symbol_hash(h: u64, s: Symbol) -> u64 {
    let (tag, id) = match s {
        Symbol::Var(id, _) => (0u8, id),
        Symbol::Name(id, _) => (1u8, id),
        Symbol::Fun(id, _, _) => (2u8, id),
    };
    fnv_step(fnv_step(fnv_fold(fnv_step(h, tag), le_bytes(id as u64, 4)), s.sort_spec()), s.arity_spec())
}

/// The hash of a sequence of argument handles, by their identifiers.
pub open spec fn args_hash(h: u64, args: Seq<Term>) -> u64
    decreases args.len(),
{
    if args.len() == 0 {
        h
    } else {
        fnv_fold(args_hash(h, args.drop_last()), le_bytes(args.last().id_spec() as u64, 8))
    }
}

/// The interning key's hash: FNV-1a over the symbol and the argument identifiers.
pub open spec fn key_hash(sym: Symbol, args: Seq<Term>) -> u64 {
    args_hash(symbol_hash(OFFSET_BASIS, sym), args)
}

/// Whether `t` has head `sym` and arguments with the identifiers of `args`.
pub open spec fn has_key(t: Term, sym: Symbol, args: Seq<Term>) -> bool {
    &&& t.sym_spec() == sym
    &&& t.args_spec().len() == args.len()
    &&& forall|k: int| 0 <= k < args.len() ==> (#[trigger] t.args_spec()[k]).id_spec() == args[k].id_spec()
}

fn hash_key_of(sym: Symbol, args: &Vec<Term>) -> (r: u64)
    ensures
        r == key_hash(sym, args@),
{
    let mut h = Fnv1aHasher::new();
    let (tag, id): (u8, u32) = match sym {
        Symbol::Var(id, _) => (0u8, id),
        Symbol::Name(id, _) => (1u8, id),
        Symbol::Fun(id, _, _) => (2u8, id),
    };
    h.write_u8(tag);
    h.write_u32(id);
    h.write_u8(sym.sort());
    h.write_u8(sym.arity());
    let mut k: usize = 0;
    while k < args.len()
        invariant
            0 <= k <= args@.len(),
            h.state() == args_hash(symbol_hash(OFFSET_BASIS, sym), args@.take(k as int)),
        decreases args@.len() - k,
    {
        h.write_u64(args[k].id as u64);
        proof {
            assert(args@.take(k + 1).drop_last() =~= args@.take(k as int));
        }
        k += 1;
    }
    proof {
        assert(args@.take(k as int) =~= args@);
    }
    h.finish()
}

fn same_key(t: &Term, sym: Symbol, args: &Vec<Term>) -> (r: bool)
    ensures
        r == has_key(*t, sym, args@),
{
    if t.node.sym != sym || t.node.args.len() != args.len() {
        return false;
    }
    let mut k: usize = 0;
    while k < args.len()
        invariant
            0 <= k <= args@.len(),
            t.args_spec().len() == args@.len(),
            forall|j: int| 0 <= j < k ==> (#[trigger] t.args_spec()[j]).id_spec() == args@[j].id_spec(),
        decreases args@.len() - k,
    {
        if t.node.args[k].id != args[k].id {
            return false;
        }
        k += 1;
    }
    true
}

/// The term store. Each structurally distinct (symbol, arguments) pair is
/// stored once; asking again for it returns the handle of the stored node.
#[derive(Debug)]
pub struct Factory {
    nodes: Vec<Term>,
    index: HashMap<u64, Vec<usize>>,
}

impl Factory {
    /// The stored terms, by identifier.
    pub closed spec fn terms(&self) -> Seq<Term> {
        self.nodes@
    }

    /// Whether `t` is a handle produced by this factory.
    pub open spec fn contains(&self, t: Term) -> bool {
        t.id_spec() < self.terms().len() && self.terms()[t.id_spec() as int] == t
    }

    /// Every stored term has its own identifier, arguments of this factory and
    /// as many arguments as its symbol's arity; no two stored terms share
    /// symbol and arguments; the index lists every stored term under its key's
    /// hash.
    pub closed spec fn wf(&self) -> bool {
        &&& forall|i: int| 0 <= i < self.nodes@.len() ==> (#[trigger] self.nodes@[i]).id_spec() == i
        &&& forall|i: int, k: int|
            0 <= i < self.nodes@.len() && 0 <= k < self.nodes@[i].args_spec().len()
                ==> self.contains(#[trigger] self.nodes@[i].args_spec()[k])
        &&& forall|i: int| 0 <= i < self.nodes@.len()
                ==> (#[trigger] self.nodes@[i]).sym_spec().arity_spec() == self.nodes@[i].args_spec().len()
        &&& forall|i: int, j: int|
            0 <= i < self.nodes@.len() && 0 <= j < self.nodes@.len() && #[trigger] has_key(
                self.nodes@[i],
                self.nodes@[j].sym_spec(),
                #[trigger] self.nodes@[j].args_spec(),
            ) ==> i == j
        &&& forall|i: int| 0 <= i < self.nodes@.len() ==> {
                let h = key_hash((#[trigger] self.nodes@[i]).sym_spec(), self.nodes@[i].args_spec());
                self.index@.contains_key(h) && self.index@[h]@.contains(i as usize)
            }
        &&& forall|h: u64, k: int| #![trigger self.index@[h]@[k]]
            self.index@.contains_key(h) && 0 <= k < self.index@[h]@.len() ==> self.index@[h]@[k]
                < self.nodes@.len()
    }

    pub fn new() -> (r: Self)
        ensures
            r.wf(),
            r.terms().len() == 0,
    {
        Factory { nodes: Vec::new(), index: HashMap::new() }
    }

    /// Interns `sym` applied to `args`: returns the stored term with that
    /// symbol and those argument handles, storing it first if it is new.
    pub fn new_term(&mut self, sym: Symbol, args: Vec<Term>) -> (r: Term)
        requires
            old(self).wf(),
            sym.arity_spec() == args@.len(),
            forall|k: int| 0 <= k < args@.len() ==> old(self).contains(#[trigger] args@[k]),
        ensures
            final(self).wf(),
            final(self).contains(r),
            r.sym_spec() == sym,
            r.args_spec() == args@,
            final(self).terms() == old(self).terms() || final(self).terms() == old(self).terms().push(r),
            forall|u: Term| old(self).contains(u) ==> #[trigger] final(self).contains(u),
            (exists|i: int| 0 <= i < old(self).terms().len() && #[trigger] has_key(old(self).terms()[i], sym, args@))
                ==> final(self).terms() == old(self).terms(),
    {
        let h = hash_key_of(sym, &args);
        match self.index.get(&h) {
            Some(bucket) => {
                let mut k: usize = 0;
                while k < bucket.len()
                    invariant
                        self.wf(),
                        self.index@.contains_key(h),
                        bucket@ == self.index@[h]@,
                        0 <= k <= bucket@.len(),
                        forall|j: int| 0 <= j < args@.len() ==> self.contains(#[trigger] args@[j]),
                        forall|j: int| 0 <= j < k ==> !has_key(self.nodes@[#[trigger] bucket@[j] as int], sym, args@),
                    decreases bucket@.len() - k,
                {
                    let id = bucket[k];
                    if same_key(&self.nodes[id], sym, &args) {
                        let t = self.nodes[id].clone();
                        proof {
                            assert forall|j: int| 0 <= j < args@.len() implies #[trigger] t.args_spec()[j] == args@[j] by {
                                assert(self.contains(t.args_spec()[j]));
                                assert(self.contains(args@[j]));
                            }
                            assert(t.args_spec() =~= args@);
                        }
                        return t;
                    }
                    k += 1;
                }
            },
            None => {},
        }
        proof {
            assert forall|i: int| 0 <= i < self.nodes@.len() implies !has_key(#[trigger] self.nodes@[i], sym, args@) by {
                if has_key(self.nodes@[i], sym, args@) {
                    assert(self.nodes@[i].args_spec() =~= args@) by {
                        assert forall|j: int| 0 <= j < args@.len() implies self.nodes@[i].args_spec()[j] == args@[j] by {
                            assert(self.contains(self.nodes@[i].args_spec()[j]));
                        }
                    }
                    assert(key_hash(sym, args@) == h);
                }
            }
        }
        let ghost n0 = self.nodes@;
        let ghost ix0 = self.index@;
        let id = self.nodes.len();
        let t = Term { id, node: Rc::new(TermData { sym, args }) };
        self.nodes.push(t.clone());
        let mut bucket = match self.index.remove(&h) {
            Some(b) => b,
            None => Vec::new(),
        };
        let ghost b0 = bucket@;
        bucket.push(id);
        self.index.insert(h, bucket);
        proof {
            assert(self.nodes@ == n0.push(t));
            assert(self.index@.contains_key(h) && self.index@[h]@ == b0.push(id));
            assert(forall|g: u64| g != h ==> self.index@.contains_key(g) == ix0.contains_key(g));
            assert(forall|g: u64| g != h && ix0.contains_key(g) ==> #[trigger] self.index@[g] == ix0[g]);
            assert(ix0.contains_key(h) ==> b0 == ix0[h]@);
            assert forall|u: Term| #[trigger] old(self).contains(u) implies self.contains(u) by {
                assert(self.nodes@[u.id_spec() as int] == n0[u.id_spec() as int]);
            }
            assert forall|i: int, k: int|
                0 <= i < self.nodes@.len() && 0 <= k < self.nodes@[i].args_spec().len()
                    implies self.contains(#[trigger] self.nodes@[i].args_spec()[k]) by {
                if i < n0.len() {
                    assert(old(self).contains(n0[i].args_spec()[k]));
                } else {
                    assert(old(self).contains(t.args_spec()[k]));
                }
            }
            assert forall|i: int, j: int|
                0 <= i < self.nodes@.len() && 0 <= j < self.nodes@.len() && #[trigger] has_key(
                    self.nodes@[i],
                    self.nodes@[j].sym_spec(),
                    #[trigger] self.nodes@[j].args_spec(),
                ) implies i == j by {
                if i < n0.len() && j == n0.len() {
                    assert(has_key(n0[i], sym, args@));
                } else if i == n0.len() && j < n0.len() {
                    assert(has_key(n0[j], sym, args@));
                }
            }
            assert forall|i: int| 0 <= i < self.nodes@.len() implies {
                let hh = key_hash((#[trigger] self.nodes@[i]).sym_spec(), self.nodes@[i].args_spec());
                self.index@.contains_key(hh) && self.index@[hh]@.contains(i as usize)
            } by {
                let hh = key_hash(self.nodes@[i].sym_spec(), self.nodes@[i].args_spec());
                if i < n0.len() {
                    assert(n0[i] == self.nodes@[i]);
                    if hh == h {
                        let w = choose|w: int| 0 <= w < b0.len() && b0[w] == i as usize;
                        assert(b0.push(id)[w] == i as usize);
                    }
                } else {
                    assert(b0.push(id)[b0.len() as int] == id);
                }
            }
            assert forall|g: u64, k: int| #![trigger self.index@[g]@[k]]
                self.index@.contains_key(g) && 0 <= k < self.index@[g]@.len()
                    implies self.index@[g]@[k] < self.nodes@.len() by {
                if g == h && k < b0.len() {
                    assert(ix0[h]@[k] < n0.len());
                }
            }
        }
        t
    }
}

/// Interning is canonical: two handles of one well-formed factory with the
/// same symbol and the same argument handles are the same handle, and hash
/// alike. Since `new_term` returns a handle with the symbol and arguments it
/// was given and keeps every earlier handle, interning equal input twice
/// yields equal handles.
pub proof fn lemma_interning_identity(f: Factory, t1: Term, t2: Term)
    requires
        f.wf(),
        f.contains(t1),
        f.contains(t2),
        has_key(t1, t2.sym_spec(), t2.args_spec()),
    ensures
        t1 == t2,
        t1.fingerprint() == t2.fingerprint(),
{
    assert(f.terms()[t1.id_spec() as int] == t1);
    assert(f.terms()[t2.id_spec() as int] == t2);
    assert(has_key(f.nodes@[t1.id_spec() as int], f.nodes@[t2.id_spec() as int].sym_spec(), f.nodes@[t2.id_spec() as int].args_spec()));
}

/// Every term of a well-formed factory has as many arguments as its symbol's
/// arity.
pub proof fn lemma_arity(f: Factory, t: Term)
    requires
        f.wf(),
        f.contains(t),
    ensures
        t.sym_spec().arity_spec() == t.args_spec().len(),
{
    assert(f.nodes@[t.id_spec() as int] == t);
}

/// The arguments of a term of a well-formed factory belong to it.
pub proof fn lemma_member_args(f: Factory, t: Term, k: int)
    requires
        f.wf(),
        f.contains(t),
        0 <= k < t.args_spec().len(),
    ensures
        f.contains(t.args_spec()[k]),
{
    assert(f.nodes@[t.id_spec() as int] == t);
    assert(f.contains(f.nodes@[t.id_spec() as int].args_spec()[k]));
}

} // verus!
