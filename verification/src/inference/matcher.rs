//! Matching the body of a rule against a list of facts.

use crate::inference::rule::{
    atom_within, covered, derives, entails, ground, guard_mentions, holds, mentions, program,
    satisfies, term_within, value, all_wf, Atom, Clause, Fact, Guard, Rule, Term,
};
use vstd::prelude::*;

verus! {

/// A total assignment that agrees with a partial one wherever that one is settled.
spec fn agrees(b: Seq<u32>, partial: Seq<Option<u32>>) -> bool {
    &&& b.len() == partial.len()
    &&& forall|i: int| 0 <= i < partial.len() && (#[trigger] partial[i]) is Some ==> b[i] == partial[i]->0
}

/// `q` settles at least what `p` settles, in the same way.
spec fn refines(q: Seq<Option<u32>>, p: Seq<Option<u32>>) -> bool {
    &&& q.len() == p.len()
    &&& forall|i: int| 0 <= i < p.len() && (#[trigger] p[i]) is Some ==> q[i] == p[i]
}

spec fn resolved(t: Term, partial: Seq<Option<u32>>) -> bool {
    match t {
        Term::Var(i) => i < partial.len() && partial[i as int] is Some,
        Term::Const(_) => true,
    }
}

spec fn reading(t: Term, partial: Seq<Option<u32>>) -> u32 {
    match t {
        Term::Var(i) => partial[i as int]->0,
        Term::Const(c) => c,
    }
}

spec fn atom_resolved(a: Atom, partial: Seq<Option<u32>>) -> bool {
    resolved(a.s, partial) && resolved(a.p, partial) && resolved(a.o, partial)
}

spec fn atom_reading(a: Atom, partial: Seq<Option<u32>>) -> Fact {
    Fact { rel: a.rel, s: reading(a.s, partial), p: reading(a.p, partial), o: reading(a.o, partial) }
}

spec fn guard_resolved(g: Guard, partial: Seq<Option<u32>>) -> bool {
    match g {
        Guard::Always => true,
        Guard::Distinct(i, j) => resolved(Term::Var(i), partial) && resolved(Term::Var(j), partial),
        Guard::Differs(i, _) => resolved(Term::Var(i), partial),
    }
}

spec fn guard_reading(g: Guard, partial: Seq<Option<u32>>) -> bool {
    match g {
        Guard::Always => true,
        Guard::Distinct(i, j) => partial[i as int]->0 != partial[j as int]->0,
        Guard::Differs(i, c) => partial[i as int]->0 != c,
    }
}

/// The total assignment that reads 0 wherever the partial one is open.
spec fn fill(partial: Seq<Option<u32>>) -> Seq<u32> {
    Seq::new(
        partial.len(),
        |i: int|
            match partial[i] {
                Some(x) => x,
                None => 0u32,
            },
    )
}

/// `b` extends `partial`, makes the body atoms from `k` on facts of `db`, and passes the guard.
spec fn completes(c: Clause, k: int, partial: Seq<Option<u32>>, db: Set<Fact>, b: Seq<u32>) -> bool {
    &&& agrees(b, partial)
    &&& forall|i: int| k <= i < c.body.len() ==> db.contains(#[trigger] ground(c.body[i], b))
    &&& holds(c.guard, b)
}

/// `f` is the head of `c` under some assignment that completes `partial`.
spec fn reachable(c: Clause, k: int, partial: Seq<Option<u32>>, db: Set<Fact>, f: Fact) -> bool {
    exists|b: Seq<u32>| #[trigger] completes(c, k, partial, db, b) && f == ground(c.head, b)
}

/// `g` is one of the first `j` facts of `db`.
spec fn among(db: Seq<Fact>, j: int, g: Fact) -> bool {
    exists|i: int| 0 <= i < j && i < db.len() && #[trigger] db[i] == g
}

/// As `reachable`, by an assignment whose `k`-th body atom is one of the first `j` facts.
spec fn reachable_via(
    c: Clause,
    k: int,
    partial: Seq<Option<u32>>,
    db: Seq<Fact>,
    j: int,
    f: Fact,
) -> bool {
    exists|b: Seq<u32>|
        #[trigger] completes(c, k, partial, db.to_set(), b) && f == ground(c.head, b) && among(
            db,
            j,
            ground(c.body[k], b),
        )
}

/// A sequence with one more element holds what it held, and that element.
pub proof fn lemma_push_contains<T>(s: Seq<T>, x: T, y: T)
    ensures
        s.push(x).contains(y) <==> s.contains(y) || x == y,
{
    if s.push(x).contains(y) {
        let i = choose|i: int| 0 <= i < s.push(x).len() && s.push(x)[i] == y;
        if i < s.len() {
            assert(s[i] == y);
        }
    }
    if s.contains(y) {
        let i = choose|i: int| 0 <= i < s.len() && s[i] == y;
        assert(s.push(x)[i] == y);
    }
    if x == y {
        assert(s.push(x)[s.len() as int] == y);
    }
}

proof fn lemma_reading(t: Term, partial: Seq<Option<u32>>, b: Seq<u32>)
    requires
        resolved(t, partial),
        agrees(b, partial),
    ensures
        value(t, b) == reading(t, partial),
{
}

proof fn lemma_atom_reading(a: Atom, partial: Seq<Option<u32>>, b: Seq<u32>)
    requires
        atom_resolved(a, partial),
        agrees(b, partial),
    ensures
        ground(a, b) == atom_reading(a, partial),
{
    lemma_reading(a.s, partial, b);
    lemma_reading(a.p, partial, b);
    lemma_reading(a.o, partial, b);
}

proof fn lemma_guard_reading(g: Guard, partial: Seq<Option<u32>>, b: Seq<u32>)
    requires
        guard_resolved(g, partial),
        agrees(b, partial),
    ensures
        holds(g, b) == guard_reading(g, partial),
{
}

fn duplicate(partial: &Vec<Option<u32>>) -> (q: Vec<Option<u32>>)
    ensures
        q@ == partial@,
{
    let mut q: Vec<Option<u32>> = Vec::new();
    let mut i: usize = 0;
    while i < partial.len()
        invariant
            i <= partial.len(),
            q@ == partial@.take(i as int),
        decreases partial.len() - i,
    {
        q.push(partial[i]);
        i += 1;
        assert(q@ == partial@.take(i as int));
    }
    assert(partial@.take(partial@.len() as int) == partial@);
    q
}

/// Settles `t` to `v` in `partial`, if the two can be reconciled.
fn bind(t: Term, v: u32, partial: Vec<Option<u32>>) -> (r: Option<Vec<Option<u32>>>)
    requires
        term_within(t, partial.len()),
    ensures
        match r {
            Some(q) => {
                &&& refines(q@, partial@)
                &&& resolved(t, q@)
                &&& reading(t, q@) == v
                &&& forall|b: Seq<u32>| #[trigger]
                    agrees(b, partial@) && value(t, b) == v ==> agrees(b, q@)
            },
            None => forall|b: Seq<u32>| #[trigger] agrees(b, partial@) ==> value(t, b) != v,
        },
{
    match t {
        Term::Const(c) => {
            if c == v {
                Some(partial)
            } else {
                None
            }
        },
        Term::Var(i) => {
            match partial[i] {
                Some(x) => {
                    if x == v {
                        Some(partial)
                    } else {
                        None
                    }
                },
                None => {
                    let mut q = partial;
                    q.set(i, Some(v));
                    Some(q)
                },
            }
        },
    }
}

/// Settles the variables of `a` so that it reads `f`, if `partial` allows it.
fn unify(a: Atom, f: Fact, partial: &Vec<Option<u32>>) -> (r: Option<Vec<Option<u32>>>)
    requires
        atom_within(a, partial.len()),
    ensures
        match r {
            Some(q) => {
                &&& refines(q@, partial@)
                &&& atom_resolved(a, q@)
                &&& atom_reading(a, q@) == f
                &&& forall|b: Seq<u32>| #[trigger]
                    agrees(b, partial@) && ground(a, b) == f ==> agrees(b, q@)
            },
            None => forall|b: Seq<u32>| #[trigger] agrees(b, partial@) ==> ground(a, b) != f,
        },
{
    if a.rel != f.rel {
        return None;
    }
    let p0 = duplicate(partial);
    match bind(a.s, f.s, p0) {
        None => None,
        Some(p1) => match bind(a.p, f.p, p1) {
            None => {
                assert forall|b: Seq<u32>| #[trigger] agrees(b, partial@) implies ground(a, b)
                    != f by {
                    if value(a.s, b) == f.s {
                        assert(agrees(b, p1@));
                    }
                }
                None
            },
            Some(p2) => match bind(a.o, f.o, p2) {
                None => {
                    assert forall|b: Seq<u32>| #[trigger] agrees(b, partial@) implies ground(a, b)
                        != f by {
                        if value(a.s, b) == f.s && value(a.p, b) == f.p {
                            assert(agrees(b, p1@));
                            assert(agrees(b, p2@));
                        }
                    }
                    None
                },
                Some(p3) => {
                    assert forall|b: Seq<u32>| #[trigger]
                        agrees(b, partial@) && ground(a, b) == f implies agrees(b, p3@) by {
                        assert(agrees(b, p1@));
                        assert(agrees(b, p2@));
                    }
                    Some(p3)
                },
            },
        },
    }
}

fn read(t: Term, partial: &Vec<Option<u32>>) -> (v: u32)
    requires
        resolved(t, partial@),
    ensures
        v == reading(t, partial@),
{
    match t {
        Term::Var(i) => partial[i].unwrap(),
        Term::Const(c) => c,
    }
}

fn admits(g: Guard, partial: &Vec<Option<u32>>) -> (ok: bool)
    requires
        guard_resolved(g, partial@),
    ensures
        ok == guard_reading(g, partial@),
{
    match g {
        Guard::Always => true,
        Guard::Distinct(i, j) => partial[i].unwrap() != partial[j].unwrap(),
        Guard::Differs(i, c) => partial[i].unwrap() != c,
    }
}

/// Whether `f` is one of the facts of `v`.
pub fn has_fact(v: &Vec<Fact>, f: Fact) -> (found: bool)
    ensures
        found == v@.contains(f),
{
    let mut i: usize = 0;
    while i < v.len()
        invariant
            i <= v.len(),
            forall|j: int| 0 <= j < i ==> v@[j] != f,
        decreases v.len() - i,
    {
        if v[i] == f {
            return true;
        }
        i += 1;
    }
    false
}

proof fn lemma_head_resolved(rule: &Rule, partial: Seq<Option<u32>>)
    requires
        rule.wf(),
        partial.len() == rule.vars,
        forall|i: int| 0 <= i < rule.body@.len() ==> atom_resolved(#[trigger] rule.body@[i], partial),
    ensures
        atom_resolved(rule.head, partial),
        guard_resolved(rule.guard, partial),
{
    assert forall|v: usize| mentions(rule.head, v) || guard_mentions(rule.guard, v) implies v
        < partial.len() && partial[v as int] is Some by {
        assert(covered(rule.body@, v));
        let i = choose|i: int| 0 <= i < rule.body@.len() && mentions(#[trigger] rule.body@[i], v);
        assert(atom_resolved(rule.body@[i], partial));
    }
    match rule.head.s {
        Term::Var(v) => {
            assert(mentions(rule.head, v));
        },
        Term::Const(_) => {},
    }
    match rule.head.p {
        Term::Var(v) => {
            assert(mentions(rule.head, v));
        },
        Term::Const(_) => {},
    }
    match rule.head.o {
        Term::Var(v) => {
            assert(mentions(rule.head, v));
        },
        Term::Const(_) => {},
    }
    match rule.guard {
        Guard::Always => {},
        Guard::Distinct(i, j) => {
            assert(guard_mentions(rule.guard, i));
            assert(guard_mentions(rule.guard, j));
        },
        Guard::Differs(i, _) => {
            assert(guard_mentions(rule.guard, i));
        },
    }
}

/// Adds to `out` the head of `rule` under every assignment that extends
/// `partial` and matches the body atoms from `k` on against `db`.
fn solve(rule: &Rule, k: usize, partial: &Vec<Option<u32>>, db: &Vec<Fact>, out: &mut Vec<Fact>)
    requires
        rule.wf(),
        k <= rule.body@.len(),
        partial@.len() == rule.vars,
        forall|i: int| 0 <= i < k ==> atom_resolved(#[trigger] rule.body@[i], partial@),
    ensures
        forall|f: Fact|
            #![trigger final(out)@.contains(f)]
            final(out)@.contains(f) <==> old(out)@.contains(f) || reachable(
                rule@,
                k as int,
                partial@,
                db@.to_set(),
                f,
            ),
    decreases rule.body@.len() - k,
{
    let ghost out0 = out@;
    let ghost c = rule@;
    let ghost dbs = db@.to_set();
    if k == rule.body.len() {
        proof {
            lemma_head_resolved(rule, partial@);
        }
        if admits(rule.guard, partial) {
            let g = Fact {
                rel: rule.head.rel,
                s: read(rule.head.s, partial),
                p: read(rule.head.p, partial),
                o: read(rule.head.o, partial),
            };
            out.push(g);
            proof {
                assert(g == atom_reading(rule.head, partial@));
                assert forall|f: Fact|
                    out@.contains(f) <==> out0.contains(f) || reachable(
                        c,
                        k as int,
                        partial@,
                        dbs,
                        f,
                    ) by {
                    lemma_push_contains(out0, g, f);
                    if f == g {
                        let b = fill(partial@);
                        assert(agrees(b, partial@));
                        lemma_atom_reading(rule.head, partial@, b);
                        lemma_guard_reading(rule.guard, partial@, b);
                        assert(completes(c, k as int, partial@, dbs, b));
                    }
                    if reachable(c, k as int, partial@, dbs, f) {
                        let b = choose|b: Seq<u32>| #[trigger]
                            completes(c, k as int, partial@, dbs, b) && f == ground(c.head, b);
                        lemma_atom_reading(rule.head, partial@, b);
                    }
                }
            }
        } else {
            proof {
                assert forall|f: Fact| !reachable(c, k as int, partial@, dbs, f) by {
                    if reachable(c, k as int, partial@, dbs, f) {
                        let b = choose|b: Seq<u32>| #[trigger]
                            completes(c, k as int, partial@, dbs, b) && f == ground(c.head, b);
                        lemma_guard_reading(rule.guard, partial@, b);
                    }
                }
            }
        }
        return ;
    }
    let a = rule.body[k];
    let next = k + 1;
    let mut j: usize = 0;
    while j < db.len()
        invariant
            j <= db.len(),
            rule.wf(),
            k < rule.body@.len(),
            next == k + 1,
            a == rule.body@[k as int],
            c == rule@,
            dbs == db@.to_set(),
            partial@.len() == rule.vars,
            forall|i: int| 0 <= i < k ==> atom_resolved(#[trigger] rule.body@[i], partial@),
            forall|f: Fact|
                #![trigger out@.contains(f)]
                out@.contains(f) <==> out0.contains(f) || reachable_via(
                    c,
                    k as int,
                    partial@,
                    db@,
                    j as int,
                    f,
                ),
        decreases db.len() - j,
    {
        let ghost before = out@;
        let fact = db[j];
        match unify(a, fact, partial) {
            None => {
                proof {
                    assert forall|f: Fact|
                        reachable_via(c, k as int, partial@, db@, j + 1, f) implies reachable_via(
                        c,
                        k as int,
                        partial@,
                        db@,
                        j as int,
                        f,
                    ) by {
                        let b = choose|b: Seq<u32>| #[trigger]
                            completes(c, k as int, partial@, dbs, b) && f == ground(c.head, b)
                                && among(db@, j + 1, ground(c.body[k as int], b));
                        let g = ground(c.body[k as int], b);
                        let i = choose|i: int| 0 <= i < j + 1 && i < db@.len() && #[trigger] db@[i] == g;
                        assert(i < j);
                        assert(among(db@, j as int, g));
                    }
                    assert forall|f: Fact|
                        reachable_via(c, k as int, partial@, db@, j as int, f) implies reachable_via(
                        c,
                        k as int,
                        partial@,
                        db@,
                        j + 1,
                        f,
                    ) by {
                        lemma_via_grows(c, k as int, partial@, db@, j as int, f);
                    }
                }
            },
            Some(q) => {
                proof {
                    assert forall|i: int| 0 <= i < k + 1 implies atom_resolved(
                        #[trigger] rule.body@[i],
                        q@,
                    ) by {
                        if i < k {
                            assert(atom_resolved(rule.body@[i], partial@));
                        }
                    }
                }
                solve(rule, next, &q, db, out);
                proof {
                    let k1: int = k + 1;
                    let j1: int = j + 1;
                    assert forall|f: Fact| reachable(c, k1, q@, dbs, f) implies reachable_via(
                        c,
                        k as int,
                        partial@,
                        db@,
                        j1,
                        f,
                    ) by {
                        let b = choose|b: Seq<u32>| #[trigger]
                            completes(c, k1, q@, dbs, b) && f == ground(c.head, b);
                        lemma_atom_reading(a, q@, b);
                        assert(agrees(b, partial@));
                        assert(db@[j as int] == fact);
                        assert(fact == ground(c.body[k as int], b));
                        assert(among(db@, j1, ground(c.body[k as int], b)));
                        assert(db@.contains(fact));
                        assert(dbs.contains(fact));
                        assert forall|i: int| k <= i < c.body.len() implies dbs.contains(
                            #[trigger] ground(c.body[i], b),
                        ) by {
                            if i == k {
                            } else {
                            }
                        }
                        assert(completes(c, k as int, partial@, dbs, b));
                    }
                    assert forall|f: Fact|
                        reachable_via(c, k as int, partial@, db@, j1, f) implies reachable_via(
                        c,
                        k as int,
                        partial@,
                        db@,
                        j as int,
                        f,
                    ) || reachable(c, k1, q@, dbs, f) by {
                        let b = choose|b: Seq<u32>| #[trigger]
                            completes(c, k as int, partial@, dbs, b) && f == ground(c.head, b)
                                && among(db@, j1, ground(c.body[k as int], b));
                        let g = ground(c.body[k as int], b);
                        let i = choose|i: int|
                            0 <= i < j + 1 && i < db@.len() && #[trigger] db@[i] == g;
                        if i < j {
                            assert(among(db@, j as int, g));
                            assert(reachable_via(c, k as int, partial@, db@, j as int, f));
                        } else {
                            assert(g == fact);
                            assert(agrees(b, q@));
                            assert(completes(c, k1, q@, dbs, b));
                            assert(reachable(c, k1, q@, dbs, f));
                        }
                    }
                    assert forall|f: Fact| #![trigger out@.contains(f)]
                        out@.contains(f) <==> out0.contains(f) || reachable_via(
                            c,
                            k as int,
                            partial@,
                            db@,
                            j1,
                            f,
                        ) by {
                        assert(out@.contains(f) <==> before.contains(f) || reachable(
                            c,
                            next as int,
                            q@,
                            dbs,
                            f,
                        ));
                        assert(before.contains(f) <==> out0.contains(f) || reachable_via(
                            c,
                            k as int,
                            partial@,
                            db@,
                            j as int,
                            f,
                        ));
                        if reachable_via(c, k as int, partial@, db@, j as int, f) {
                            lemma_via_grows(c, k as int, partial@, db@, j as int, f);
                        }
                    }
                }
            },
        }
        j += 1;
    }
    proof {
        assert forall|f: Fact|
            reachable_via(c, k as int, partial@, db@, db@.len() as int, f) <==> reachable(
                c,
                k as int,
                partial@,
                dbs,
                f,
            ) by {
            if reachable(c, k as int, partial@, dbs, f) {
                let b = choose|b: Seq<u32>| #[trigger]
                    completes(c, k as int, partial@, dbs, b) && f == ground(c.head, b);
                let g = ground(c.body[k as int], b);
                assert(dbs.contains(g));
                assert(db@.contains(g));
                let i = choose|i: int| 0 <= i < db@.len() && db@[i] == g;
                assert(db@[i] == g);
                assert(among(db@, db@.len() as int, g));
            }
        }
    }
}

proof fn lemma_via_grows(
    c: Clause,
    k: int,
    partial: Seq<Option<u32>>,
    db: Seq<Fact>,
    j: int,
    f: Fact,
)
    requires
        reachable_via(c, k, partial, db, j, f),
    ensures
        reachable_via(c, k, partial, db, j + 1, f),
{
    let b = choose|b: Seq<u32>| #[trigger]
        completes(c, k, partial, db.to_set(), b) && f == ground(c.head, b) && among(
            db,
            j,
            ground(c.body[k], b),
        );
    let g = ground(c.body[k], b);
    let i = choose|i: int| 0 <= i < j && i < db.len() && #[trigger] db[i] == g;
    assert(db[i] == g);
    assert(among(db, j + 1, g));
}

/// An assignment of length `n` that reads as `b` does on the variables below `n`.
spec fn fit(b: Seq<u32>, n: usize) -> Seq<u32> {
    Seq::new(n as nat, |i: int| value(Term::Var(i as usize), b))
}

proof fn lemma_fit(rule: &Rule, db: Set<Fact>, b: Seq<u32>)
    requires
        rule.wf(),
        satisfies(rule@, db, b),
    ensures
        satisfies(rule@, db, fit(b, rule.vars)),
        ground(rule.head, fit(b, rule.vars)) == ground(rule.head, b),
        fit(b, rule.vars).len() == rule.vars,
{
    let n = rule.vars;
    let b2 = fit(b, n);
    assert forall|t: Term| term_within(t, n) implies value(t, b2) == value(t, b) by {
        match t {
            Term::Var(i) => {
                assert(b2[i as int] == value(Term::Var(i as int as usize), b));
            },
            Term::Const(_) => {},
        }
    }
    assert forall|i: int| 0 <= i < rule@.body.len() implies db.contains(
        #[trigger] ground(rule@.body[i], b2),
    ) by {
        assert(atom_within(rule.body@[i], n));
        assert(ground(rule@.body[i], b2) == ground(rule@.body[i], b));
    }
}

/// Adds to `out` every fact that `rule` yields from `db` in one step.
pub fn fire(rule: &Rule, db: &Vec<Fact>, out: &mut Vec<Fact>)
    requires
        rule.wf(),
    ensures
        forall|f: Fact|
            final(out)@.contains(f) <==> old(out)@.contains(f) || derives(rule@, db@.to_set(), f),
{
    let ghost out0 = out@;
    let mut partial: Vec<Option<u32>> = Vec::new();
    let mut i: usize = 0;
    while i < rule.vars
        invariant
            i <= rule.vars,
            partial@.len() == i,
            forall|j: int| 0 <= j < i ==> partial@[j] is None,
        decreases rule.vars - i,
    {
        partial.push(None);
        i += 1;
    }
    solve(rule, 0, &partial, db, out);
    proof {
        let dbs = db@.to_set();
        assert forall|f: Fact| reachable(rule@, 0, partial@, dbs, f) <==> derives(rule@, dbs, f) by {
            if reachable(rule@, 0, partial@, dbs, f) {
                let b = choose|b: Seq<u32>| #[trigger]
                    completes(rule@, 0, partial@, dbs, b) && f == ground(rule@.head, b);
                assert(satisfies(rule@, dbs, b));
            }
            if derives(rule@, dbs, f) {
                let b = choose|b: Seq<u32>| #[trigger]
                    satisfies(rule@, dbs, b) && f == ground(rule@.head, b);
                lemma_fit(rule, dbs, b);
                let b2 = fit(b, rule.vars);
                assert(agrees(b2, partial@));
                assert(completes(rule@, 0, partial@, dbs, b2));
            }
        }
    }
}

/// Every fact that some rule yields from `db` in one step.
pub fn consequences(rules: &Vec<Rule>, db: &Vec<Fact>) -> (out: Vec<Fact>)
    requires
        all_wf(rules@),
    ensures
        forall|f: Fact| out@.contains(f) <==> entails(program(rules@), db@.to_set(), f),
{
    let mut out: Vec<Fact> = Vec::new();
    let mut k: usize = 0;
    while k < rules.len()
        invariant
            k <= rules.len(),
            all_wf(rules@),
            forall|f: Fact|
                out@.contains(f) <==> entails(program(rules@.take(k as int)), db@.to_set(), f),
        decreases rules.len() - k,
    {
        let ghost before = out@;
        fire(&rules[k], db, &mut out);
        proof {
            let dbs = db@.to_set();
            let p0 = program(rules@.take(k as int));
            let p1 = program(rules@.take(k + 1));
            assert forall|f: Fact| out@.contains(f) <==> entails(p1, dbs, f) by {
                if entails(p0, dbs, f) {
                    let c = choose|c: Clause| p0.contains(c) && #[trigger] derives(c, dbs, f);
                    let i = choose|i: int|
                        0 <= i < rules@.take(k as int).len() && (#[trigger] rules@.take(
                            k as int,
                        )[i])@ == c;
                    assert(rules@.take(k + 1)[i]@ == c);
                    assert(p1.contains(c));
                }
                if derives(rules@[k as int]@, dbs, f) {
                    assert(rules@.take(k + 1)[k as int]@ == rules@[k as int]@);
                    assert(p1.contains(rules@[k as int]@));
                }
                if entails(p1, dbs, f) {
                    let c = choose|c: Clause| p1.contains(c) && #[trigger] derives(c, dbs, f);
                    let i = choose|i: int|
                        0 <= i < rules@.take(k + 1).len() && (#[trigger] rules@.take(k + 1)[i])@
                            == c;
                    if i < k {
                        assert(rules@.take(k as int)[i]@ == c);
                        assert(p0.contains(c));
                    }
                }
            }
        }
        k += 1;
    }
    assert(rules@.take(rules@.len() as int) == rules@);
    out
}

} // verus!
