//! Carrying a least model from one program into another by renaming relations.

use crate::inference::model::{least_model, lemma_least_model_closed, lemma_least_model_least};
use crate::inference::rule::{
    derives, entails, ground, holds, satisfies, Atom, Clause, Fact, Guard, Rel,
};
use vstd::prelude::*;

verus! {

/// The fact `f` in the relation that `phi` gives for its own.
pub open spec fn renamed_fact(phi: spec_fn(Rel) -> Rel, f: Fact) -> Fact {
    Fact { rel: phi(f.rel), s: f.s, p: f.p, o: f.o }
}

/// The atom `a` over the relation that `phi` gives for its own.
pub open spec fn renamed_atom(phi: spec_fn(Rel) -> Rel, a: Atom) -> Atom {
    Atom { rel: phi(a.rel), s: a.s, p: a.p, o: a.o }
}

/// The clause `c` with every relation renamed by `phi`.
pub open spec fn renamed(phi: spec_fn(Rel) -> Rel, c: Clause) -> Clause {
    Clause {
        body: Seq::new(c.body.len(), |i: int| renamed_atom(phi, c.body[i])),
        head: renamed_atom(phi, c.head),
        guard: c.guard,
    }
}

/// The clause yields only what it asks for: its head is one of its body atoms.
pub open spec fn idle(c: Clause) -> bool {
    exists|k: int| 0 <= k < c.body.len() && #[trigger] c.body[k] == c.head
}

/// The clause without its guard.
pub open spec fn unguarded(c: Clause) -> Clause {
    Clause { body: c.body, head: c.head, guard: Guard::Always }
}

/// Renamed by `phi`, the clause adds nothing, or is a clause of `target`, with or without its guard.
pub open spec fn carried(phi: spec_fn(Rel) -> Rel, c: Clause, target: Set<Clause>) -> bool {
    idle(renamed(phi, c)) || target.contains(renamed(phi, c)) || target.contains(
        unguarded(renamed(phi, c)),
    )
}

/// If renaming carries every clause of `source` into `target`, and every
/// base fact of the one into the least model of the other, it carries the
/// whole least model.
pub proof fn lemma_transfer(
    phi: spec_fn(Rel) -> Rel,
    source: Set<Clause>,
    target: Set<Clause>,
    base: Set<Fact>,
    goal: Set<Fact>,
)
    requires
        forall|c: Clause| source.contains(c) ==> #[trigger] carried(phi, c, target),
        forall|f: Fact| base.contains(f) ==> least_model(target, goal).contains(
            #[trigger] renamed_fact(phi, f),
        ),
    ensures
        forall|f: Fact|
            least_model(source, base).contains(f) ==> least_model(target, goal).contains(
                #[trigger] renamed_fact(phi, f),
            ),
{
    let upper = least_model(target, goal);
    let pulled = Set::new(|f: Fact| upper.contains(renamed_fact(phi, f)));
    lemma_least_model_closed(target, goal);
    assert forall|f: Fact| #[trigger] entails(source, pulled, f) implies pulled.contains(f) by {
        let c = choose|c: Clause| source.contains(c) && #[trigger] derives(c, pulled, f);
        let b = choose|b: Seq<u32>| #[trigger] satisfies(c, pulled, b) && f == ground(c.head, b);
        let rc = renamed(phi, c);
        assert(carried(phi, c, target));
        assert forall|i: int| 0 <= i < rc.body.len() implies upper.contains(
            #[trigger] ground(rc.body[i], b),
        ) by {
            assert(pulled.contains(ground(c.body[i], b)));
            assert(ground(rc.body[i], b) == renamed_fact(phi, ground(c.body[i], b)));
        }
        assert(ground(rc.head, b) == renamed_fact(phi, f));
        if idle(rc) {
            let k = choose|k: int| 0 <= k < rc.body.len() && #[trigger] rc.body[k] == rc.head;
            assert(upper.contains(ground(rc.body[k], b)));
        } else if target.contains(rc) {
            assert(satisfies(rc, upper, b));
            assert(derives(rc, upper, renamed_fact(phi, f)));
            assert(entails(target, upper, renamed_fact(phi, f)));
        } else {
            let uc = unguarded(rc);
            assert(satisfies(uc, upper, b));
            assert(derives(uc, upper, renamed_fact(phi, f)));
            assert(entails(target, upper, renamed_fact(phi, f)));
        }
    }
    assert(base.subset_of(pulled));
    lemma_least_model_least(source, base, pulled);
}

/// A clause with a body atom over a relation of which `db` holds no fact yields nothing.
pub proof fn lemma_silent(c: Clause, db: Set<Fact>, k: int, f: Fact)
    requires
        0 <= k < c.body.len(),
        forall|g: Fact| db.contains(g) ==> g.rel != c.body[k].rel,
    ensures
        !derives(c, db, f),
{
    if derives(c, db, f) {
        let b = choose|b: Seq<u32>| #[trigger] satisfies(c, db, b) && f == ground(c.head, b);
        assert(db.contains(ground(c.body[k], b)));
    }
}

} // verus!
