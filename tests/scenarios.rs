use lela::clause::Clause;
use lela::literal::Literal;
use lela::setup::Setup;
use lela::symbol::Factory as SymbolFactory;
use lela::term::{Factory as TermFactory, Term};

struct World {
    tf: TermFactory,
    a: Term,
    b: Term,
    n1: Term,
    n2: Term,
    n3: Term,
    f: lela::symbol::Symbol,
}

fn world() -> World {
    let mut sf = SymbolFactory::new();
    let mut tf = TermFactory::new();
    let sort = sf.new_sort();
    let a_sym = sf.new_fun(sort, 0);
    let b_sym = sf.new_fun(sort, 0);
    let n1_sym = sf.new_name(sort);
    let n2_sym = sf.new_name(sort);
    let n3_sym = sf.new_name(sort);
    let f = sf.new_fun(sort, 1);
    let a = tf.new_term(a_sym, vec![]);
    let b = tf.new_term(b_sym, vec![]);
    let n1 = tf.new_term(n1_sym, vec![]);
    let n2 = tf.new_term(n2_sym, vec![]);
    let n3 = tf.new_term(n3_sym, vec![]);
    World { tf, a, b, n1, n2, n3, f }
}

#[test]
fn e1_interning_twice_gives_equal_handles() {
    let mut w = world();
    let t1 = w.tf.new_term(w.f, vec![w.n1.clone()]);
    let t2 = w.tf.new_term(w.f, vec![w.n1.clone()]);
    assert!(t1 == t2);
    assert_eq!(lela::hash::Fingerprint::hash_key(&t1), lela::hash::Fingerprint::hash_key(&t2));
    let t3 = w.tf.new_term(w.f, vec![w.n2.clone()]);
    assert!(t1 != t3);
}

#[test]
fn e2_literal_validity() {
    let w = world();
    assert!(Literal::new_neg(w.n1.clone(), w.n2.clone()).valid());
    assert!(Literal::new_pos(w.n1.clone(), w.n2.clone()).invalid());
    assert!(Literal::new_pos(w.n1.clone(), w.n1.clone()).valid());
    assert!(!Literal::new_pos(w.n1.clone(), w.n2.clone()).valid());
    assert!(!Literal::new_neg(w.n1.clone(), w.n2.clone()).invalid());
    assert!(Literal::new_neg(w.n1.clone(), w.n1.clone()).invalid());
}

#[test]
fn e3_clause_drops_duplicates_and_valid_literals() {
    let w = world();
    let c = Clause::new(vec![
        Literal::new_pos(w.a.clone(), w.n1.clone()),
        Literal::new_pos(w.a.clone(), w.n1.clone()),
        Literal::new_neg(w.n1.clone(), w.n2.clone()),
    ]);
    assert_eq!(c.len(), 1);
    assert!(c.unit());
    assert!(c.bloom().possibly_contains(&w.a));
    assert!(c.literals()[0] == Literal::new_pos(w.a.clone(), w.n1.clone()));
}

#[test]
fn e4_subsumption() {
    let w = world();
    let c1 = Clause::new(vec![Literal::new_pos(w.a.clone(), w.n1.clone())]);
    let c2 = Clause::new(vec![
        Literal::new_pos(w.a.clone(), w.n1.clone()),
        Literal::new_pos(w.b.clone(), w.n2.clone()),
    ]);
    assert!(c1.subsumes(&c2));
    assert!(!c2.subsumes(&c1));
}

#[test]
fn e5_propagation_removes_complementary_literal() {
    let w = world();
    let c = Clause::new(vec![
        Literal::new_pos(w.a.clone(), w.n1.clone()),
        Literal::new_pos(w.b.clone(), w.n2.clone()),
    ]);
    let unit = Literal::new_pos(w.a.clone(), w.n2.clone());
    let d = c.propagate(&unit).expect("a literal is complementary");
    assert_eq!(d.len(), 1);
    assert!(d.literals()[0] == Literal::new_pos(w.b.clone(), w.n2.clone()));
}

#[test]
fn e6_setup_rejects_clause_subsumed_by_ancestor() {
    let w = world();
    let c1 = Clause::new(vec![Literal::new_pos(w.a.clone(), w.n1.clone())]);
    let mut s0 = Setup::new();
    assert_eq!(s0.add(c1.clone()), Some(1));
    let mut s1 = s0.spawn();
    assert_eq!(s1.add(c1.clone()), None);
    assert_eq!(s1.clauses().len(), 1);
}

#[test]
fn setup_indices_continue_from_parent() {
    let w = world();
    let c1 = Clause::new(vec![Literal::new_pos(w.a.clone(), w.n1.clone())]);
    let c2 = Clause::new(vec![Literal::new_pos(w.b.clone(), w.n2.clone())]);
    let c3 = Clause::new(vec![Literal::new_pos(w.b.clone(), w.n3.clone())]);
    let mut s0 = Setup::new();
    assert_eq!(s0.add(c1.clone()), Some(1));
    assert_eq!(s0.add(c2.clone()), Some(2));
    let mut s1 = s0.spawn();
    assert_eq!(s1.add(c3.clone()), Some(3));
    let cs = s1.clauses();
    assert_eq!(cs.len(), 3);
    assert!(cs[0].literals()[0] == Literal::new_pos(w.b.clone(), w.n3.clone()));
    assert!(cs[1].literals()[0] == Literal::new_pos(w.a.clone(), w.n1.clone()));
    assert!(cs[2].literals()[0] == Literal::new_pos(w.b.clone(), w.n2.clone()));
    assert!(s1.subsumes(&c2));
    assert!(s1.subsumes(&c3));
    assert!(!s0.subsumes(&c3));
    assert_eq!(s1.literals().len(), 3);
    let lhs = s1.lhs_terms();
    assert_eq!(lhs.len(), 3);
    assert!(lhs[0] == w.b && lhs[1] == w.a && lhs[2] == w.b);
    assert_eq!(s1.sub_terms().len(), 6);
    assert_eq!(s1.root().clauses().len(), 2);
}

#[test]
fn setup_keeps_same_level_duplicates() {
    let w = world();
    let c1 = Clause::new(vec![Literal::new_pos(w.a.clone(), w.n1.clone())]);
    let mut s0 = Setup::new();
    assert_eq!(s0.add(c1.clone()), Some(1));
    assert_eq!(s0.add(c1.clone()), Some(2));
}

#[test]
fn setup_monotonicity_adds_unsubsumed_clause() {
    let w = world();
    let c1 = Clause::new(vec![Literal::new_pos(w.a.clone(), w.n1.clone())]);
    let c2 = Clause::new(vec![
        Literal::new_pos(w.a.clone(), w.n1.clone()),
        Literal::new_pos(w.b.clone(), w.n2.clone()),
    ]);
    let c3 = Clause::new(vec![Literal::new_pos(w.b.clone(), w.n2.clone())]);
    let mut s0 = Setup::new();
    s0.add(c1.clone());
    let mut s1 = s0.spawn();
    assert_eq!(s1.add(c2.clone()), None);
    assert_eq!(s1.add(c3.clone()), Some(2));
    assert!(s1.subsumes(&c3));
}

#[test]
fn setup_empty_clause_subsumes_everything_below() {
    let w = world();
    let mut s0 = Setup::new();
    assert_eq!(s0.add(Clause::new(vec![])), Some(1));
    let mut s1 = s0.spawn();
    let c = Clause::new(vec![Literal::new_pos(w.b.clone(), w.n2.clone())]);
    assert_eq!(s1.add(c), None);
    assert!(s1.subsumes(&Clause::new(vec![])));
}

#[test]
fn setup_finds_subsuming_clause_by_any_left_term() {
    let w = world();
    let mut s0 = Setup::new();
    let c1 = Clause::new(vec![Literal::new_pos(w.b.clone(), w.n2.clone())]);
    let c2 = Clause::new(vec![Literal::new_pos(w.a.clone(), w.n3.clone())]);
    assert_eq!(s0.add(c1), Some(1));
    assert_eq!(s0.add(c2), Some(2));
    let mut s1 = s0.spawn();
    let wide = Clause::new(vec![
        Literal::new_pos(w.a.clone(), w.n1.clone()),
        Literal::new_neg(w.a.clone(), w.n2.clone()),
        Literal::new_pos(w.b.clone(), w.n2.clone()),
    ]);
    assert_eq!(s1.add(wide), None);
    // a = n3 entails a != n2, so c2 subsumes this one.
    let narrow = Clause::new(vec![Literal::new_neg(w.a.clone(), w.n2.clone())]);
    assert!(s1.subsumes(&narrow));
    let other = Clause::new(vec![Literal::new_pos(w.a.clone(), w.n1.clone())]);
    assert!(!s1.subsumes(&other));
    assert_eq!(s1.add(other), Some(3));
}
