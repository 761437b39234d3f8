//! Constructors that make well-formed rules of one to five body atoms.

use crate::inference::rule::{
    atom_within, covered, guard_mentions, guard_within, mentions, Atom, Clause, Guard, Rule,
};
use vstd::prelude::*;

verus! {

/// The clause with the given body, head and guard.
pub open spec fn clause(body: Seq<Atom>, head: Atom, guard: Guard) -> Clause {
    Clause { body, head, guard }
}

/// `head` if `a1`, where the guard accepts.
pub fn horn1(a1: Atom, head: Atom, guard: Guard, vars: usize) -> (r: Rule)
    requires
        atom_within(a1, vars),
        atom_within(head, vars),
        guard_within(guard, vars),
        forall|v: usize| mentions(head, v) || guard_mentions(guard, v) ==> mentions(a1, v),
    ensures
        r@ == clause(seq![a1], head, guard),
        r.wf(),
{
    let r = Rule { body: vec![a1], head, guard, vars };
    proof {
        assert(r.body@ =~= seq![a1]);
        assert forall|v: usize|
            mentions(r.head, v) || guard_mentions(r.guard, v) implies #[trigger] covered(
            r.body@,
            v,
        ) by {
            assert(mentions(r.body@[0], v));
        }
    }
    r
}

/// `head` if `a1` and `a2`, where the guard accepts.
pub fn horn2(a1: Atom, a2: Atom, head: Atom, guard: Guard, vars: usize) -> (r: Rule)
    requires
        atom_within(a1, vars),
        atom_within(a2, vars),
        atom_within(head, vars),
        guard_within(guard, vars),
        forall|v: usize|
            mentions(head, v) || guard_mentions(guard, v) ==> mentions(a1, v) || mentions(a2, v),
    ensures
        r@ == clause(seq![a1, a2], head, guard),
        r.wf(),
{
    let r = Rule { body: vec![a1, a2], head, guard, vars };
    proof {
        assert(r.body@ =~= seq![a1, a2]);
        assert forall|v: usize|
            mentions(r.head, v) || guard_mentions(r.guard, v) implies #[trigger] covered(
            r.body@,
            v,
        ) by {
            if mentions(a1, v) {
                assert(mentions(r.body@[0], v));
            } else {
                assert(mentions(r.body@[1], v));
            }
        }
    }
    r
}

/// `head` if `a1`, `a2` and `a3`, where the guard accepts.
pub fn horn3(a1: Atom, a2: Atom, a3: Atom, head: Atom, guard: Guard, vars: usize) -> (r: Rule)
    requires
        atom_within(a1, vars),
        atom_within(a2, vars),
        atom_within(a3, vars),
        atom_within(head, vars),
        guard_within(guard, vars),
        forall|v: usize|
            mentions(head, v) || guard_mentions(guard, v) ==> mentions(a1, v) || mentions(a2, v)
                || mentions(a3, v),
    ensures
        r@ == clause(seq![a1, a2, a3], head, guard),
        r.wf(),
{
    let r = Rule { body: vec![a1, a2, a3], head, guard, vars };
    proof {
        assert(r.body@ =~= seq![a1, a2, a3]);
        assert forall|v: usize|
            mentions(r.head, v) || guard_mentions(r.guard, v) implies #[trigger] covered(
            r.body@,
            v,
        ) by {
            if mentions(a1, v) {
                assert(mentions(r.body@[0], v));
            } else if mentions(a2, v) {
                assert(mentions(r.body@[1], v));
            } else {
                assert(mentions(r.body@[2], v));
            }
        }
    }
    r
}

/// `head` if `a1` to `a4`, where the guard accepts.
pub fn horn4(a1: Atom, a2: Atom, a3: Atom, a4: Atom, head: Atom, guard: Guard, vars: usize) -> (r:
    Rule)
    requires
        atom_within(a1, vars),
        atom_within(a2, vars),
        atom_within(a3, vars),
        atom_within(a4, vars),
        atom_within(head, vars),
        guard_within(guard, vars),
        forall|v: usize|
            mentions(head, v) || guard_mentions(guard, v) ==> mentions(a1, v) || mentions(a2, v)
                || mentions(a3, v) || mentions(a4, v),
    ensures
        r@ == clause(seq![a1, a2, a3, a4], head, guard),
        r.wf(),
{
    let r = Rule { body: vec![a1, a2, a3, a4], head, guard, vars };
    proof {
        assert(r.body@ =~= seq![a1, a2, a3, a4]);
        assert forall|v: usize|
            mentions(r.head, v) || guard_mentions(r.guard, v) implies #[trigger] covered(
            r.body@,
            v,
        ) by {
            if mentions(a1, v) {
                assert(mentions(r.body@[0], v));
            } else if mentions(a2, v) {
                assert(mentions(r.body@[1], v));
            } else if mentions(a3, v) {
                assert(mentions(r.body@[2], v));
            } else {
                assert(mentions(r.body@[3], v));
            }
        }
    }
    r
}

/// `head` if `a1` to `a5`, where the guard accepts.
pub fn horn5(
    a1: Atom,
    a2: Atom,
    a3: Atom,
    a4: Atom,
    a5: Atom,
    head: Atom,
    guard: Guard,
    vars: usize,
) -> (r: Rule)
    requires
        atom_within(a1, vars),
        atom_within(a2, vars),
        atom_within(a3, vars),
        atom_within(a4, vars),
        atom_within(a5, vars),
        atom_within(head, vars),
        guard_within(guard, vars),
        forall|v: usize|
            mentions(head, v) || guard_mentions(guard, v) ==> mentions(a1, v) || mentions(a2, v)
                || mentions(a3, v) || mentions(a4, v) || mentions(a5, v),
    ensures
        r@ == clause(seq![a1, a2, a3, a4, a5], head, guard),
        r.wf(),
{
    let r = Rule { body: vec![a1, a2, a3, a4, a5], head, guard, vars };
    proof {
        assert(r.body@ =~= seq![a1, a2, a3, a4, a5]);
        assert forall|v: usize|
            mentions(r.head, v) || guard_mentions(r.guard, v) implies #[trigger] covered(
            r.body@,
            v,
        ) by {
            if mentions(a1, v) {
                assert(mentions(r.body@[0], v));
            } else if mentions(a2, v) {
                assert(mentions(r.body@[1], v));
            } else if mentions(a3, v) {
                assert(mentions(r.body@[2], v));
            } else if mentions(a4, v) {
                assert(mentions(r.body@[3], v));
            } else {
                assert(mentions(r.body@[4], v));
            }
        }
    }
    r
}

} // verus!
