use std::hash::{Hash, Hasher};

use lela::bloom::{BloomFilter, BloomSet};
use lela::clause::Clause;
use lela::hash::{fnv1a_hash, Fingerprint, Fnv1aHasher};
use lela::literal::Literal;
use lela::substitution::{SingleSubstitution, Substitution};
use lela::symbol::{Factory as SymbolFactory, Symbol};
use lela::term::{Factory as TermFactory, Term};

#[test]
fn fnv_known_values() {
    let h = Fnv1aHasher::new();
    assert_eq!(h.finish(), 0xcbf29ce484222325);
    let mut h = Fnv1aHasher::new();
    h.write(b"a");
    assert_eq!(h.finish(), 0xaf63dc4c8601ec8c);
    let mut h = Fnv1aHasher::new();
    h.write(b"foobar");
    assert_eq!(h.finish(), 0x85944171f73967e8);
    let mut h = Fnv1aHasher::default();
    h.write_u8(b'a');
    assert_eq!(h.finish(), 0xaf63dc4c8601ec8c);
}

#[test]
fn fnv_multi_byte_writes_are_little_endian() {
    assert_eq!(fnv1a_hash(0), 0xa8c7f832281a39c5);
    assert_eq!(fnv1a_hash(0x0102030405060708), 0x0c6d4496e17859d5);
    let mut h = Fnv1aHasher::new();
    h.write_u64(0x0102030405060708);
    assert_eq!(h.finish(), 0x0c6d4496e17859d5);
    let mut h = Fnv1aHasher::new();
    h.write_u16(0x0102);
    assert_eq!(h.finish(), 0x08395307b4f1348c);
    let mut h = Fnv1aHasher::new();
    h.write_u32(0x01020304);
    assert_eq!(h.finish(), 0xb345225e3644edb5);
    let mut h = Fnv1aHasher::new();
    h.write(&[0x04, 0x03, 0x02, 0x01]);
    let mut g = Fnv1aHasher::new();
    g.write_u32(0x01020304);
    assert_eq!(h.finish(), g.finish());
}

#[test]
fn bloom_filter_membership() {
    let mut b = BloomFilter::new();
    let x = 0x0001_0002_0003_0004u64;
    assert!(!b.contains(x));
    b.add(x);
    assert!(b.contains(x));
    // Same four windows modulo 64, in another order of magnitude.
    assert!(b.contains(0x0041_0042_0043_0044));
    assert!(!b.contains(0x0005_0002_0003_0004));
    let mut c = BloomFilter::new();
    c.add(0x0005_0006_0007_0008);
    assert!(!BloomFilter::overlap(&b, &c));
    let u = BloomFilter::union(&b, &c);
    assert!(BloomFilter::subset(&b, &u));
    assert!(BloomFilter::subset(&c, &u));
    assert!(!BloomFilter::subset(&u, &b));
    assert!(BloomFilter::overlap(&u, &b));
    assert!(BloomFilter::intersection(&b, &c) == BloomFilter::new());
    assert!(BloomFilter::intersection(&u, &b) == b);
}

#[test]
fn bloom_set_membership() {
    let mut sf = SymbolFactory::new();
    let mut tf = TermFactory::new();
    let sort = sf.new_sort();
    let n1 = tf.new_term(sf.new_name(sort), vec![]);
    let n2 = tf.new_term(sf.new_name(sort), vec![]);
    let mut s = BloomSet::new();
    assert!(!s.possibly_contains(&n1));
    s.add(&n1);
    assert!(s.possibly_contains(&n1));
    let mut t = BloomSet::new();
    t.add(&n2);
    let u = BloomSet::union(&s, &t);
    assert!(u.possibly_includes(&s));
    assert!(u.possibly_includes(&t));
    assert!(BloomSet::possibly_overlap(&u, &s));
    assert!(BloomSet::intersection(&u, &s) == s);
    assert!(BloomSet::new().possibly_includes(&BloomSet::new()));
}

#[test]
fn term_fingerprint_is_fnv_of_identifier() {
    let mut sf = SymbolFactory::new();
    let mut tf = TermFactory::new();
    let sort = sf.new_sort();
    let n1 = tf.new_term(sf.new_name(sort), vec![]);
    let n2 = tf.new_term(sf.new_name(sort), vec![]);
    assert_eq!(n1.hash_key(), fnv1a_hash(0));
    assert_eq!(n2.hash_key(), fnv1a_hash(1));
}

#[test]
fn symbol_factory_counts_per_variant() {
    let mut sf = SymbolFactory::new();
    assert_eq!(sf.new_sort(), 1);
    assert_eq!(sf.new_sort(), 2);
    assert!(sf.new_var(1) == Symbol::Var(1, 1));
    assert!(sf.new_var(2) == Symbol::Var(2, 2));
    assert!(sf.new_name(1) == Symbol::Name(1, 1));
    assert!(sf.new_fun(2, 3) == Symbol::Fun(1, 2, 3));
    assert!(sf.new_name(1) == Symbol::Name(2, 1));
    let f = Symbol::Fun(4, 2, 3);
    assert!(f.fun() && !f.var() && !f.name());
    assert_eq!(f.sort(), 2);
    assert_eq!(f.arity(), 3);
    let x = Symbol::Var(4, 5);
    assert!(x.var() && x.sort() == 5 && x.arity() == 0);
    let n = Symbol::Name(4, 6);
    assert!(n.name() && n.sort() == 6 && n.arity() == 0);
}

#[test]
fn term_classifiers() {
    let mut sf = SymbolFactory::new();
    let mut tf = TermFactory::new();
    let sort = sf.new_sort();
    let n = tf.new_term(sf.new_name(sort), vec![]);
    let x = tf.new_term(sf.new_var(sort), vec![]);
    let c = tf.new_term(sf.new_fun(sort, 0), vec![]);
    let g = sf.new_fun(sort, 2);
    let gnn = tf.new_term(g, vec![n.clone(), n.clone()]);
    let gnx = tf.new_term(g, vec![n.clone(), x.clone()]);
    let gnc = tf.new_term(g, vec![n.clone(), c.clone()]);
    assert!(n.name() && n.ground() && !n.primitive());
    assert!(x.var() && !x.ground() && !x.quasiprimitive());
    assert!(c.fun() && c.ground() && c.primitive() && c.quasiprimitive());
    assert!(gnn.ground() && gnn.primitive() && gnn.quasiprimitive());
    assert!(!gnx.ground() && !gnx.primitive() && gnx.quasiprimitive());
    assert!(gnc.ground() && !gnc.primitive() && !gnc.quasiprimitive());
    assert_eq!(gnx.arity(), 2);
    assert_eq!(gnx.args().len(), 2);
    assert!(*gnx.arg(1) == x);
    assert!(gnx.sym() == g);
    assert_eq!(gnx.sort(), sort);
    let ts = gnx.terms();
    assert_eq!(ts.len(), 3);
    assert!(ts[0] == gnx && ts[1] == n && ts[2] == x);
}

#[test]
fn substitution_rebuilds_and_interns() {
    let mut sf = SymbolFactory::new();
    let mut tf = TermFactory::new();
    let sort = sf.new_sort();
    let a = tf.new_term(sf.new_fun(sort, 0), vec![]);
    let u = tf.new_term(sf.new_fun(sort, 0), vec![]);
    let n = tf.new_term(sf.new_name(sort), vec![]);
    let f = sf.new_fun(sort, 2);
    let g = sf.new_fun(sort, 1);
    let ga = tf_app(&mut tf, g, &a);
    let gafan = tf.new_term(f, vec![ga, n.clone()]);
    let theta = SingleSubstitution::new(a.clone(), u.clone());
    assert!(theta.substitute(&a).map_or(false, |t| t == u));
    assert!(theta.substitute(&n).is_none());
    let r = gafan.substitute(&theta, &mut tf);
    let expected = {
        let gu = tf_app(&mut tf, g, &u);
        tf.new_term(f, vec![gu, n.clone()])
    };
    assert!(r == expected);
    assert!(r != gafan);
    // A term the substitution does not reach is returned as it is.
    let same = n.substitute(&theta, &mut tf);
    assert!(same == n);
    // The image replaces the whole term.
    assert!(a.substitute(&theta, &mut tf) == u);
}

fn tf_app(tf: &mut TermFactory, g: Symbol, t: &Term) -> Term {
    tf.new_term(g, vec![t.clone()])
}

#[test]
fn literal_orientation() {
    let mut sf = SymbolFactory::new();
    let mut tf = TermFactory::new();
    let sort = sf.new_sort();
    let n1 = tf.new_term(sf.new_name(sort), vec![]);
    let n2 = tf.new_term(sf.new_name(sort), vec![]);
    let a = tf.new_term(sf.new_fun(sort, 0), vec![]);
    let b = tf.new_term(sf.new_fun(sort, 0), vec![]);
    let l = Literal::new_pos(n1.clone(), a.clone());
    assert!(*l.lhs() == a && *l.rhs() == n1 && l.pos());
    let l = Literal::new_neg(n2.clone(), n1.clone());
    assert!(*l.lhs() == n1 && *l.rhs() == n2 && !l.pos());
    let l = Literal::new_pos(b.clone(), a.clone());
    assert!(*l.lhs() == a && *l.rhs() == b);
    let fl = Literal::new_pos(a.clone(), n1.clone()).flip();
    assert!(!fl.pos() && *fl.lhs() == a && *fl.rhs() == n1);
    assert!(fl.flip() == Literal::new_pos(a.clone(), n1.clone()));
    let ts = Literal::new_pos(a.clone(), n1.clone()).terms();
    assert_eq!(ts.len(), 2);
    assert!(ts[0] == a && ts[1] == n1);
}

#[test]
fn literal_algebra() {
    let mut sf = SymbolFactory::new();
    let mut tf = TermFactory::new();
    let s1 = sf.new_sort();
    let s2 = sf.new_sort();
    let n1 = tf.new_term(sf.new_name(s1), vec![]);
    let n2 = tf.new_term(sf.new_name(s1), vec![]);
    let m = tf.new_term(sf.new_name(s2), vec![]);
    let x = tf.new_term(sf.new_var(s1), vec![]);
    let a = tf.new_term(sf.new_fun(s1, 0), vec![]);
    let pa1 = Literal::new_pos(a.clone(), n1.clone());
    let pa2 = Literal::new_pos(a.clone(), n2.clone());
    let na1 = Literal::new_neg(a.clone(), n1.clone());
    let na2 = Literal::new_neg(a.clone(), n2.clone());
    assert!(pa1.primitive() && pa1.quasiprimitive() && pa1.ground());
    let pax = Literal::new_pos(a.clone(), x.clone());
    assert!(!pax.primitive() && pax.quasiprimitive() && !pax.ground());
    assert!(Literal::complementary(&pa1, &na1));
    assert!(Literal::complementary(&pa1, &pa2));
    assert!(!Literal::complementary(&pa1, &pa1));
    assert!(Literal::complementary(&na1, &na2));
    assert!(pa1.subsumes(&pa1));
    assert!(pa1.subsumes(&na2));
    assert!(!pa1.subsumes(&na1));
    assert!(!na2.subsumes(&pa1));
    assert!(!pa1.subsumes(&pa2));
    assert!(Literal::new_neg(a.clone(), m.clone()).valid());
    assert!(Literal::new_pos(a.clone(), m.clone()).invalid());
    assert!(!pa1.valid() && !pa1.invalid());
}

#[test]
fn clause_order_and_predicates() {
    let mut sf = SymbolFactory::new();
    let mut tf = TermFactory::new();
    let sort = sf.new_sort();
    let n1 = tf.new_term(sf.new_name(sort), vec![]);
    let n2 = tf.new_term(sf.new_name(sort), vec![]);
    let a = tf.new_term(sf.new_fun(sort, 0), vec![]);
    let b = tf.new_term(sf.new_fun(sort, 0), vec![]);
    let c = Clause::new(vec![
        Literal::new_neg(b.clone(), n1.clone()),
        Literal::new_pos(b.clone(), n2.clone()),
        Literal::new_neg(a.clone(), n1.clone()),
        Literal::new_pos(a.clone(), n2.clone()),
        Literal::new_pos(a.clone(), n1.clone()),
        Literal::new_neg(n1.clone(), n1.clone()),
    ]);
    let lits = c.literals();
    assert_eq!(lits.len(), 6);
    assert!(lits[0] == Literal::new_pos(a.clone(), n1.clone()));
    assert!(lits[1] == Literal::new_pos(a.clone(), n2.clone()));
    assert!(lits[2] == Literal::new_pos(b.clone(), n2.clone()));
    assert!(lits[3] == Literal::new_neg(n1.clone(), n1.clone()));
    assert!(lits[4] == Literal::new_neg(a.clone(), n1.clone()));
    assert!(lits[5] == Literal::new_neg(b.clone(), n1.clone()));
    assert!(!c.valid() && !c.invalid() && c.ground() && !c.primitive() && !c.quasiprimitive());
    let lhs = c.lhs_terms();
    assert!(lhs[0] == a && lhs[2] == b && lhs[3] == n1);
    assert_eq!(c.sub_terms().len(), 12);
    let empty = Clause::new(vec![]);
    assert!(empty.empty() && empty.invalid() && !empty.valid() && empty.primitive());
    let tautology = Clause::new(vec![Literal::new_pos(a.clone(), a.clone())]);
    assert!(tautology.empty());
    let contradiction = Clause::new(vec![Literal::new_pos(n1.clone(), n2.clone())]);
    assert!(contradiction.unit() && contradiction.invalid());
}

#[test]
fn subsumption_reflexive_and_distinct_names() {
    let mut sf = SymbolFactory::new();
    let mut tf = TermFactory::new();
    let sort = sf.new_sort();
    let n1 = tf.new_term(sf.new_name(sort), vec![]);
    let n2 = tf.new_term(sf.new_name(sort), vec![]);
    let a = tf.new_term(sf.new_fun(sort, 0), vec![]);
    let b = tf.new_term(sf.new_fun(sort, 0), vec![]);
    let c = Clause::new(vec![Literal::new_pos(a.clone(), n1.clone()), Literal::new_neg(b.clone(), n2.clone())]);
    assert!(c.subsumes(&c));
    let d = Clause::new(vec![Literal::new_neg(a.clone(), n2.clone()), Literal::new_neg(b.clone(), n2.clone())]);
    assert!(c.subsumes(&d));
    assert!(!d.subsumes(&c));
    let empty = Clause::new(vec![]);
    assert!(empty.subsumes(&c));
    assert!(!c.subsumes(&empty));
}

#[test]
fn propagation_twice_changes_nothing() {
    let mut sf = SymbolFactory::new();
    let mut tf = TermFactory::new();
    let sort = sf.new_sort();
    let n1 = tf.new_term(sf.new_name(sort), vec![]);
    let n2 = tf.new_term(sf.new_name(sort), vec![]);
    let a = tf.new_term(sf.new_fun(sort, 0), vec![]);
    let b = tf.new_term(sf.new_fun(sort, 0), vec![]);
    let c = Clause::new(vec![
        Literal::new_pos(a.clone(), n1.clone()),
        Literal::new_neg(a.clone(), n2.clone()),
        Literal::new_pos(b.clone(), n2.clone()),
    ]);
    let unit = Literal::new_pos(a.clone(), n2.clone());
    let d = c.propagate(&unit).expect("two literals are complementary");
    assert_eq!(d.len(), 1);
    assert!(d.propagate(&unit).is_none());
    // A unit over a left term the clause lacks changes nothing.
    let other = tf.new_term(sf.new_fun(sort, 0), vec![]);
    assert!(c.propagate(&Literal::new_pos(other, n1.clone())).is_none());
    // A unit that is a literal of the clause is not complementary to it.
    assert!(c.propagate(&Literal::new_pos(b.clone(), n2.clone())).is_none());
    let mut e = c.clone();
    assert!(e.propagate_in_place(&unit));
    assert_eq!(e.len(), 1);
    assert!(!e.propagate_in_place(&unit));
}

#[test]
fn fnv_as_std_hasher() {
    let mut h = Fnv1aHasher::new();
    Hasher::write(&mut h, b"foobar");
    assert_eq!(Hasher::finish(&h), 0x85944171f73967e8);
    let mut g = Fnv1aHasher::new();
    0x01020304u32.hash(&mut g);
    assert_eq!(Hasher::finish(&g), 0xb345225e3644edb5);
    let mut m: std::collections::HashMap<u64, u8, std::hash::BuildHasherDefault<Fnv1aHasher>> =
        std::collections::HashMap::default();
    m.insert(7, 1);
    assert_eq!(m.get(&7), Some(&1));
}

#[test]
fn terms_order_by_storage_identity() {
    let mut sf = SymbolFactory::new();
    let mut tf = TermFactory::new();
    let sort = sf.new_sort();
    let n1 = tf.new_term(sf.new_name(sort), vec![]);
    let n2 = tf.new_term(sf.new_name(sort), vec![]);
    assert!(n1 < n2);
    assert!(!(n2 < n1));
    assert_eq!(n1.partial_cmp(&n1), Some(std::cmp::Ordering::Equal));
    assert_eq!(n2.partial_cmp(&n1), Some(std::cmp::Ordering::Greater));
    let again = tf.new_term(n1.sym(), vec![]);
    assert!(again == n1);
}
