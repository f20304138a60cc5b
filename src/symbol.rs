use vstd::prelude::*;

verus! {

/// Identifier of a symbol, dense within its variant.
pub type Id = u32;

/// A sort: a small integer that partitions the term universe.
pub type Sort = u8;

/// Number of arguments a function symbol takes.
pub type Arity = u8;

/// A sorted symbol: a variable, a name (a constant denoting a fixed domain
/// element), or a function symbol with an arity.
#[derive(PartialEq, Eq, Structural, Hash, Clone, Copy, Debug)]
pub enum Symbol {
    Var(Id, Sort),
    Name(Id, Sort),
    Fun(Id, Sort, Arity),
}

impl Symbol {
    pub open spec fn sort_spec(self) -> Sort {
        match self {
            Symbol::Var(_, s) => s,
            Symbol::Name(_, s) => s,
            Symbol::Fun(_, s, _) => s,
        }
    }

    pub open spec fn arity_spec(self) -> Arity {
        match self {
            Symbol::Fun(_, _, a) => a,
            _ => 0,
        }
    }

    pub fn var(&self) -> (r: bool)
        ensures
            r == (*self is Var),
    {
        match *self {
            Symbol::Var(_, _) => true,
            _ => false,
        }
    }

    pub fn name(&self) -> (r: bool)
        ensures
            r == (*self is Name),
    {
        match *self {
            Symbol::Name(_, _) => true,
            _ => false,
        }
    }

    pub fn fun(&self) -> (r: bool)
        ensures
            r == (*self is Fun),
    {
        match *self {
            Symbol::Fun(_, _, _) => true,
            _ => false,
        }
    }

    pub fn sort(&self) -> (r: Sort)
        ensures
            r == self.sort_spec(),
    {
        match *self {
            Symbol::Var(_, sort) => sort,
            Symbol::Name(_, sort) => sort,
            Symbol::Fun(_, sort, _) => sort,
        }
    }

    pub fn arity(&self) -> (r: Arity)
        ensures
            r == self.arity_spec(),
    {
        match *self {
            Symbol::Var(_, _) => 0,
            Symbol::Name(_, _) => 0,
            Symbol::Fun(_, _, arity) => arity,
        }
    }
}

/// Mints fresh symbols. Each variant draws its identifiers from its own
/// counter, so a minted symbol differs from every symbol of its variant minted
/// before it by the same factory.
#[derive(Debug)]
pub struct Factory {
    sort: Sort,
    var: Id,
    name: Id,
    fun: Id,
}

impl Factory {
    /// The last sort handed out (0 before the first).
    pub closed spec fn last_sort(&self) -> Sort {
        self.sort
    }

    /// The identifier of the last variable minted (0 before the first).
    pub closed spec fn last_var(&self) -> Id {
        self.var
    }

    /// The identifier of the last name minted (0 before the first).
    pub closed spec fn last_name(&self) -> Id {
        self.name
    }

    /// The identifier of the last function symbol minted (0 before the first).
    pub closed spec fn last_fun(&self) -> Id {
        self.fun
    }

    pub fn new() -> (r: Self)
        ensures
            r.last_sort() == 0,
            r.last_var() == 0,
            r.last_name() == 0,
            r.last_fun() == 0,
    {
        Factory { sort: 0, var: 0, name: 0, fun: 0 }
    }

    pub fn new_sort(&mut self) -> (r: Sort)
        requires
            old(self).last_sort() < Sort::MAX,
        ensures
            r == old(self).last_sort() + 1,
            final(self).last_sort() == r,
            final(self).last_var() == old(self).last_var(),
            final(self).last_name() == old(self).last_name(),
            final(self).last_fun() == old(self).last_fun(),
    {
        self.sort = self.sort + 1;
        self.sort
    }

    pub fn new_var(&mut self, sort: Sort) -> (r: Symbol)
        requires
            old(self).last_var() < Id::MAX,
        ensures
            r == Symbol::Var((old(self).last_var() + 1) as Id, sort),
            final(self).last_var() == old(self).last_var() + 1,
            final(self).last_sort() == old(self).last_sort(),
            final(self).last_name() == old(self).last_name(),
            final(self).last_fun() == old(self).last_fun(),
    {
        self.var = self.var + 1;
        Symbol::Var(self.var, sort)
    }

    pub fn new_name(&mut self, sort: Sort) -> (r: Symbol)
        requires
            old(self).last_name() < Id::MAX,
        ensures
            r == Symbol::Name((old(self).last_name() + 1) as Id, sort),
            final(self).last_name() == old(self).last_name() + 1,
            final(self).last_sort() == old(self).last_sort(),
            final(self).last_var() == old(self).last_var(),
            final(self).last_fun() == old(self).last_fun(),
    {
        self.name = self.name + 1;
        Symbol::Name(self.name, sort)
    }

    pub fn new_fun(&mut self, sort: Sort, arity: Arity) -> (r: Symbol)
        requires
            old(self).last_fun() < Id::MAX,
        ensures
            r == Symbol::Fun((old(self).last_fun() + 1) as Id, sort, arity),
            final(self).last_fun() == old(self).last_fun() + 1,
            final(self).last_sort() == old(self).last_sort(),
            final(self).last_var() == old(self).last_var(),
            final(self).last_name() == old(self).last_name(),
    {
        self.fun = self.fun + 1;
        Symbol::Fun(self.fun, sort, arity)
    }
}

} // verus!
