//! Facts, terms, atoms and clauses, and what it means for a clause to derive a fact.

use vstd::prelude::*;

verus! {

/// The relations a fact can belong to.
#[derive(Clone, Copy, PartialEq, Eq, Structural, Debug)]
pub enum Rel {
    /// Schema-level statements.
    Tbox,
    /// Instance-level statements.
    Abox,
    /// Equalities between individuals (`sameAs`) gathered while closing an assertion box.
    Same,
    /// `(head, first, member)`: the list rooted at `head` has `member` among its members.
    Member,
    /// `(cell, member, next)`: a list cell, what it holds and what follows it.
    Cell,
    /// Property assertions: statements whose predicate is not `type`, and what follows from them.
    Property,
    /// Class memberships that were asserted or follow from a domain or a range.
    Asserted,
    /// What a staged profile hands out: the assertions with everything that follows.
    Entailed,
}

/// A triple in one of the relations.
#[derive(Clone, Copy, PartialEq, Eq, Structural, Debug)]
pub struct Fact {
    pub rel: Rel,
    pub s: u32,
    pub p: u32,
    pub o: u32,
}

/// A position of an atom: a numbered variable or an identifier.
#[derive(Clone, Copy, PartialEq, Eq, Structural, Debug)]
pub enum Term {
    Var(usize),
    Const(u32),
}

/// A triple pattern over one relation.
#[derive(Clone, Copy, PartialEq, Eq, Structural, Debug)]
pub struct Atom {
    pub rel: Rel,
    pub s: Term,
    pub p: Term,
    pub o: Term,
}

/// A side condition on the variables of a clause.
#[derive(Clone, Copy, PartialEq, Eq, Structural, Debug)]
pub enum Guard {
    Always,
    /// The two variables stand for different identifiers.
    Distinct(usize, usize),
    /// The variable does not stand for the given identifier.
    Differs(usize, u32),
}

/// A Horn clause: if every atom of `body` holds under one assignment of the
/// variables and the guard accepts it, `head` holds under it too.
pub struct Clause {
    pub body: Seq<Atom>,
    pub head: Atom,
    pub guard: Guard,
}

/// A clause in executable form. `vars` bounds the variable numbers it uses.
pub struct Rule {
    pub body: Vec<Atom>,
    pub head: Atom,
    pub guard: Guard,
    pub vars: usize,
}

/// Variable number `i`.
#[verifier::allow_in_spec]
pub fn var(i: usize) -> Term
    returns
        Term::Var(i),
{
    Term::Var(i)
}

/// The identifier `c`.
#[verifier::allow_in_spec]
pub fn con(c: u32) -> Term
    returns
        Term::Const(c),
{
    Term::Const(c)
}

/// A pattern over the terminology box.
#[verifier::allow_in_spec]
pub fn tbox(s: Term, p: Term, o: Term) -> Atom
    returns
        (Atom { rel: Rel::Tbox, s, p, o }),
{
    Atom { rel: Rel::Tbox, s, p, o }
}

/// A pattern over the assertion box.
#[verifier::allow_in_spec]
pub fn abox(s: Term, p: Term, o: Term) -> Atom
    returns
        (Atom { rel: Rel::Abox, s, p, o }),
{
    Atom { rel: Rel::Abox, s, p, o }
}

/// A pattern over the gathered equalities.
#[verifier::allow_in_spec]
pub fn same(s: Term, p: Term, o: Term) -> Atom
    returns
        (Atom { rel: Rel::Same, s, p, o }),
{
    Atom { rel: Rel::Same, s, p, o }
}

/// A pattern over list membership.
#[verifier::allow_in_spec]
pub fn member(s: Term, p: Term, o: Term) -> Atom
    returns
        (Atom { rel: Rel::Member, s, p, o }),
{
    Atom { rel: Rel::Member, s, p, o }
}

/// A pattern over the list cells.
#[verifier::allow_in_spec]
pub fn cells(s: Term, p: Term, o: Term) -> Atom
    returns
        (Atom { rel: Rel::Cell, s, p, o }),
{
    Atom { rel: Rel::Cell, s, p, o }
}

/// A pattern over the property assertions.
#[verifier::allow_in_spec]
pub fn property(s: Term, p: Term, o: Term) -> Atom
    returns
        (Atom { rel: Rel::Property, s, p, o }),
{
    Atom { rel: Rel::Property, s, p, o }
}

/// A pattern over the asserted class memberships.
#[verifier::allow_in_spec]
pub fn asserted(s: Term, p: Term, o: Term) -> Atom
    returns
        (Atom { rel: Rel::Asserted, s, p, o }),
{
    Atom { rel: Rel::Asserted, s, p, o }
}

/// A pattern over what a staged profile hands out.
#[verifier::allow_in_spec]
pub fn entailed(s: Term, p: Term, o: Term) -> Atom
    returns
        (Atom { rel: Rel::Entailed, s, p, o }),
{
    Atom { rel: Rel::Entailed, s, p, o }
}

/// The value of a term under an assignment. A variable beyond the assignment reads 0.
pub open spec fn value(t: Term, b: Seq<u32>) -> u32 {
    match t {
        Term::Var(i) => if (i as int) < b.len() {
            b[i as int]
        } else {
            0
        },
        Term::Const(c) => c,
    }
}

/// The fact that an atom stands for under an assignment.
pub open spec fn ground(a: Atom, b: Seq<u32>) -> Fact {
    Fact { rel: a.rel, s: value(a.s, b), p: value(a.p, b), o: value(a.o, b) }
}

/// Whether the guard accepts an assignment.
pub open spec fn holds(g: Guard, b: Seq<u32>) -> bool {
    match g {
        Guard::Always => true,
        Guard::Distinct(i, j) => value(Term::Var(i), b) != value(Term::Var(j), b),
        Guard::Differs(i, c) => value(Term::Var(i), b) != c,
    }
}

/// Every body atom of `c` is a fact of `db` under `b`, and the guard accepts `b`.
pub open spec fn satisfies(c: Clause, db: Set<Fact>, b: Seq<u32>) -> bool {
    &&& forall|i: int| 0 <= i < c.body.len() ==> db.contains(#[trigger] ground(c.body[i], b))
    &&& holds(c.guard, b)
}

/// `c` yields `f` from the facts of `db` in one step.
pub open spec fn derives(c: Clause, db: Set<Fact>, f: Fact) -> bool {
    exists|b: Seq<u32>| #[trigger] satisfies(c, db, b) && f == ground(c.head, b)
}

/// Some clause of the program yields `f` from the facts of `db` in one step.
pub open spec fn entails(program: Set<Clause>, db: Set<Fact>, f: Fact) -> bool {
    exists|c: Clause| program.contains(c) && #[trigger] derives(c, db, f)
}

/// The term is an identifier or a variable numbered below `n`.
pub open spec fn term_within(t: Term, n: usize) -> bool {
    match t {
        Term::Var(i) => i < n,
        Term::Const(_) => true,
    }
}

/// The variables of the atom are numbered below `n`.
pub open spec fn atom_within(a: Atom, n: usize) -> bool {
    term_within(a.s, n) && term_within(a.p, n) && term_within(a.o, n)
}

/// The variables of the guard are numbered below `n`.
pub open spec fn guard_within(g: Guard, n: usize) -> bool {
    match g {
        Guard::Always => true,
        Guard::Distinct(i, j) => i < n && j < n,
        Guard::Differs(i, _) => i < n,
    }
}

/// Variable `v` occurs in the atom.
pub open spec fn mentions(a: Atom, v: usize) -> bool {
    a.s == Term::Var(v) || a.p == Term::Var(v) || a.o == Term::Var(v)
}

/// Variable `v` occurs in the guard.
pub open spec fn guard_mentions(g: Guard, v: usize) -> bool {
    match g {
        Guard::Always => false,
        Guard::Distinct(i, j) => v == i || v == j,
        Guard::Differs(i, _) => v == i,
    }
}

/// Variable `v` occurs in some atom of the body.
pub open spec fn covered(body: Seq<Atom>, v: usize) -> bool {
    exists|i: int| 0 <= i < body.len() && mentions(#[trigger] body[i], v)
}

impl Rule {
    /// The clause that the rule stands for.
    pub open spec fn view(&self) -> Clause {
        Clause { body: self.body@, head: self.head, guard: self.guard }
    }

    /// The variables are numbered below `vars`, and those of the head and of the
    /// guard occur in the body, so that matching the body settles both.
    pub open spec fn wf(&self) -> bool {
        &&& forall|i: int|
            0 <= i < self.body@.len() ==> atom_within(#[trigger] self.body@[i], self.vars)
        &&& atom_within(self.head, self.vars)
        &&& guard_within(self.guard, self.vars)
        &&& forall|v: usize|
            mentions(self.head, v) || guard_mentions(self.guard, v) ==> #[trigger] covered(
                self.body@,
                v,
            )
    }
}

/// The clauses of a sequence of rules, in order.
pub open spec fn views(rules: Seq<Rule>) -> Seq<Clause> {
    Seq::new(rules.len(), |k: int| rules[k]@)
}

/// The set of clauses of a sequence of rules is the set of its views.
pub proof fn lemma_program_views(rules: Seq<Rule>)
    ensures
        program(rules) == views(rules).to_set(),
{
    assert forall|c: Clause| program(rules).contains(c) <==> views(rules).to_set().contains(c) by {
        if program(rules).contains(c) {
            let k = choose|k: int| 0 <= k < rules.len() && (#[trigger] rules[k])@ == c;
            assert(views(rules)[k] == c);
        }
        if views(rules).to_set().contains(c) {
            let k = choose|k: int| 0 <= k < views(rules).len() && views(rules)[k] == c;
            assert(rules[k]@ == c);
        }
    }
    assert(program(rules) =~= views(rules).to_set());
}

/// The clauses that a sequence of rules stands for.
pub open spec fn program(rules: Seq<Rule>) -> Set<Clause> {
    Set::new(|c: Clause| exists|k: int| 0 <= k < rules.len() && (#[trigger] rules[k])@ == c)
}

/// Every rule of the sequence is well formed.
pub open spec fn all_wf(rules: Seq<Rule>) -> bool {
    forall|k: int| 0 <= k < rules.len() ==> (#[trigger] rules[k]).wf()
}

} // verus!
