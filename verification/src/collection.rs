//! Moving between vectors of triples and the facts of the rule engine.

use crate::inference::matcher::lemma_push_contains;
use crate::inference::rule::{Fact, Rel};
use crate::model::types::Triple;
use vstd::prelude::*;

verus! {

/// The triple `t` as a fact of relation `rel`.
pub open spec fn fact(rel: Rel, t: Triple) -> Fact {
    Fact { rel, s: t.0, p: t.1, o: t.2 }
}

/// The triples of `ts` as facts of relation `rel`.
pub open spec fn tagged(rel: Rel, ts: Set<Triple>) -> Set<Fact> {
    Set::new(|f: Fact| f.rel == rel && ts.contains((f.s, f.p, f.o)))
}

/// The triples that `db` holds in relation `rel`.
pub open spec fn relation(db: Set<Fact>, rel: Rel) -> Set<Triple> {
    Set::new(|t: Triple| db.contains(fact(rel, t)))
}

/// Whether `t` is one of the triples of `v`.
pub fn has_triple(v: &Vec<Triple>, t: Triple) -> (found: bool)
    ensures
        found == v@.contains(t),
{
    let mut i: usize = 0;
    while i < v.len()
        invariant
            i <= v.len(),
            forall|j: int| 0 <= j < i ==> v@[j] != t,
        decreases v.len() - i,
    {
        let x = v[i];
        if x.0 == t.0 && x.1 == t.1 && x.2 == t.2 {
            return true;
        }
        i += 1;
    }
    false
}

/// Appends the triples of `triples` to `out` as facts of relation `rel`.
pub fn tag(rel: Rel, triples: &Vec<Triple>, out: &mut Vec<Fact>)
    ensures
        final(out)@.to_set() == old(out)@.to_set().union(tagged(rel, triples@.to_set())),
{
    let ghost out0 = out@;
    let mut i: usize = 0;
    while i < triples.len()
        invariant
            i <= triples.len(),
            forall|f: Fact|
                #![trigger out@.contains(f)]
                out@.contains(f) <==> out0.contains(f) || (f.rel == rel && triples@.take(
                    i as int,
                ).contains((f.s, f.p, f.o))),
        decreases triples.len() - i,
    {
        let t = triples[i];
        let g = Fact { rel, s: t.0, p: t.1, o: t.2 };
        let ghost before = out@;
        let ghost seen = triples@.take(i as int);
        out.push(g);
        proof {
            assert(triples@.take(i + 1) == seen.push(t));
            assert forall|f: Fact| #![trigger out@.contains(f)]
                out@.contains(f) <==> out0.contains(f) || (f.rel == rel && seen.push(t).contains(
                    (f.s, f.p, f.o),
                )) by {
                lemma_push_contains(before, g, f);
                lemma_push_contains(seen, t, (f.s, f.p, f.o));
            }
        }
        i += 1;
    }
    proof {
        assert(triples@.take(triples@.len() as int) == triples@);
        assert(out@.to_set() =~= out0.to_set().union(tagged(rel, triples@.to_set())));
    }
}

/// The triples that `db` holds in relation `rel`, each once.
pub fn project(db: &Vec<Fact>, rel: Rel) -> (r: Vec<Triple>)
    requires
        db@.no_duplicates(),
    ensures
        r@.no_duplicates(),
        r@.to_set() == relation(db@.to_set(), rel),
{
    let mut r: Vec<Triple> = Vec::new();
    let mut i: usize = 0;
    while i < db.len()
        invariant
            i <= db.len(),
            db@.no_duplicates(),
            r@.no_duplicates(),
            forall|t: Triple|
                #![trigger r@.contains(t)]
                r@.contains(t) <==> db@.take(i as int).contains(fact(rel, t)),
        decreases db.len() - i,
    {
        let f = db[i];
        let ghost before = r@;
        let ghost seen = db@.take(i as int);
        proof {
            assert(db@.take(i + 1) == seen.push(f));
        }
        if f.rel == rel {
            let t = (f.s, f.p, f.o);
            proof {
                assert(fact(rel, t) == f);
                if before.contains(t) {
                    let j = choose|j: int| 0 <= j < seen.len() && seen[j] == f;
                    assert(db@[j] == db@[i as int]);
                }
            }
            r.push(t);
            proof {
                assert forall|a: int, b: int|
                    0 <= a < r@.len() && 0 <= b < r@.len() && a != b implies r@[a] != r@[b] by {
                    if a == before.len() {
                        assert(before[b] == r@[b]);
                        assert(before.contains(r@[b]));
                    } else if b == before.len() {
                        assert(before[a] == r@[a]);
                        assert(before.contains(r@[a]));
                    } else {
                        assert(before[a] == r@[a]);
                        assert(before[b] == r@[b]);
                    }
                }
                assert forall|u: Triple| #![trigger r@.contains(u)]
                    r@.contains(u) <==> seen.push(f).contains(fact(rel, u)) by {
                    lemma_push_contains(before, t, u);
                    lemma_push_contains(seen, f, fact(rel, u));
                }
            }
        } else {
            proof {
                assert forall|u: Triple| #![trigger r@.contains(u)]
                    r@.contains(u) <==> seen.push(f).contains(fact(rel, u)) by {
                    lemma_push_contains(seen, f, fact(rel, u));
                }
            }
        }
        i += 1;
    }
    proof {
        assert(db@.take(db@.len() as int) == db@);
        assert(r@.to_set() =~= relation(db@.to_set(), rel));
    }
    r
}

/// The triples of `v`, each once, in the order of their first occurrence:
/// whatever the multiplicity, it collapses to one.
pub fn distinct(v: &Vec<Triple>) -> (r: Vec<Triple>)
    ensures
        r@.no_duplicates(),
        r@.to_set() == v@.to_set(),
{
    let mut r: Vec<Triple> = Vec::new();
    let mut i: usize = 0;
    while i < v.len()
        invariant
            i <= v.len(),
            r@.no_duplicates(),
            forall|t: Triple| #![trigger r@.contains(t)] r@.contains(t) <==> v@.take(i as int).contains(t),
        decreases v.len() - i,
    {
        let t = v[i];
        let ghost before = r@;
        let ghost seen = v@.take(i as int);
        proof {
            assert(v@.take(i + 1) == seen.push(t));
        }
        if !has_triple(&r, t) {
            r.push(t);
            proof {
                assert forall|a: int, b: int|
                    0 <= a < r@.len() && 0 <= b < r@.len() && a != b implies r@[a] != r@[b] by {
                    if a == before.len() {
                        assert(before[b] == r@[b]);
                        assert(before.contains(r@[b]));
                    } else if b == before.len() {
                        assert(before[a] == r@[a]);
                        assert(before.contains(r@[a]));
                    } else {
                        assert(before[a] == r@[a]);
                        assert(before[b] == r@[b]);
                    }
                }
                assert forall|u: Triple| #![trigger r@.contains(u)]
                    r@.contains(u) <==> seen.push(t).contains(u) by {
                    lemma_push_contains(before, t, u);
                    lemma_push_contains(seen, t, u);
                }
            }
        } else {
            proof {
                assert forall|u: Triple| #![trigger r@.contains(u)]
                    r@.contains(u) <==> seen.push(t).contains(u) by {
                    lemma_push_contains(seen, t, u);
                }
            }
        }
        i += 1;
    }
    proof {
        assert(v@.take(v@.len() as int) == v@);
        assert(r@.to_set() =~= v@.to_set());
    }
    r
}

} // verus!
