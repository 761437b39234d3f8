//! Least models of programs, and the loop that computes them.

use crate::inference::matcher::{consequences, has_fact, lemma_push_contains};
use crate::inference::rule::{
    all_wf, derives, entails, ground, program, satisfies, Clause, Fact, Rule,
};
use vstd::prelude::*;

verus! {

/// `m` holds every fact that the program yields from `m` in one step.
pub open spec fn closed(rules: Set<Clause>, m: Set<Fact>) -> bool {
    forall|f: Fact| #[trigger] entails(rules, m, f) ==> m.contains(f)
}

/// The facts that belong to every closed set that includes `base`: the least
/// fixed point of the program over `base`.
pub open spec fn least_model(rules: Set<Clause>, base: Set<Fact>) -> Set<Fact> {
    Set::new(
        |f: Fact|
            forall|m: Set<Fact>| base.subset_of(m) && #[trigger] closed(rules, m) ==> m.contains(f),
    )
}

/// What a clause yields from a set of facts, it yields from every larger set.
pub proof fn lemma_derives_monotone(c: Clause, small: Set<Fact>, large: Set<Fact>, f: Fact)
    requires
        small.subset_of(large),
        derives(c, small, f),
    ensures
        derives(c, large, f),
{
    let b = choose|b: Seq<u32>| #[trigger] satisfies(c, small, b) && f == ground(c.head, b);
    assert(satisfies(c, large, b));
}

/// What a program yields from a set of facts, every larger program yields from every larger set.
pub proof fn lemma_entails_monotone(
    few: Set<Clause>,
    many: Set<Clause>,
    small: Set<Fact>,
    large: Set<Fact>,
    f: Fact,
)
    requires
        few.subset_of(many),
        small.subset_of(large),
        entails(few, small, f),
    ensures
        entails(many, large, f),
{
    let c = choose|c: Clause| few.contains(c) && #[trigger] derives(c, small, f);
    lemma_derives_monotone(c, small, large, f);
}

/// The least model includes the base facts.
pub proof fn lemma_least_model_includes_base(rules: Set<Clause>, base: Set<Fact>)
    ensures
        base.subset_of(least_model(rules, base)),
{
}

/// The least model is included in every closed set that includes the base facts.
pub proof fn lemma_least_model_least(rules: Set<Clause>, base: Set<Fact>, m: Set<Fact>)
    requires
        base.subset_of(m),
        closed(rules, m),
    ensures
        least_model(rules, base).subset_of(m),
{
}

/// The least model is closed under the program.
pub proof fn lemma_least_model_closed(rules: Set<Clause>, base: Set<Fact>)
    ensures
        closed(rules, least_model(rules, base)),
{
    let least = least_model(rules, base);
    assert forall|f: Fact| #[trigger] entails(rules, least, f) implies least.contains(f) by {
        assert forall|m: Set<Fact>| base.subset_of(m) && #[trigger] closed(rules, m) implies m.contains(
            f,
        ) by {
            lemma_least_model_least(rules, base, m);
            lemma_entails_monotone(rules, rules, least, m, f);
        }
    }
}

/// More rules and more base facts give a larger least model.
pub proof fn lemma_least_model_monotone(
    few: Set<Clause>,
    many: Set<Clause>,
    small: Set<Fact>,
    large: Set<Fact>,
)
    requires
        few.subset_of(many),
        small.subset_of(large),
    ensures
        least_model(few, small).subset_of(least_model(many, large)),
{
    let upper = least_model(many, large);
    lemma_least_model_closed(many, large);
    assert forall|f: Fact| #[trigger] entails(few, upper, f) implies upper.contains(f) by {
        lemma_entails_monotone(few, many, upper, upper, f);
    }
    lemma_least_model_least(few, small, upper);
}

/// What a clause of the program yields from the least model belongs to the least model.
pub proof fn lemma_rule_applies(rules: Set<Clause>, base: Set<Fact>, c: Clause, b: Seq<u32>)
    requires
        rules.contains(c),
        satisfies(c, least_model(rules, base), b),
    ensures
        least_model(rules, base).contains(ground(c.head, b)),
{
    lemma_least_model_closed(rules, base);
    let least = least_model(rules, base);
    assert(derives(c, least, ground(c.head, b)));
    assert(entails(rules, least, ground(c.head, b)));
}

/// Appends to `db` the facts of `extra` that it does not hold yet.
pub fn absorb(db: &mut Vec<Fact>, extra: &Vec<Fact>)
    requires
        old(db)@.no_duplicates(),
    ensures
        final(db)@.no_duplicates(),
        final(db)@.len() >= old(db)@.len(),
        final(db)@.take(old(db)@.len() as int) == old(db)@,
        forall|f: Fact|
            #![trigger final(db)@.contains(f)]
            final(db)@.contains(f) <==> old(db)@.contains(f) || extra@.contains(f),
{
    let ghost db0 = db@;
    let mut i: usize = 0;
    while i < extra.len()
        invariant
            i <= extra.len(),
            db@.no_duplicates(),
            db@.len() >= db0.len(),
            db@.take(db0.len() as int) == db0,
            forall|f: Fact|
                #![trigger db@.contains(f)]
                db@.contains(f) <==> db0.contains(f) || extra@.take(i as int).contains(f),
        decreases extra.len() - i,
    {
        let f = extra[i];
        let ghost before = db@;
        let ghost seen = extra@.take(i as int);
        assert(extra@.take(i + 1) == seen.push(f));
        if !has_fact(db, f) {
            db.push(f);
            proof {
                assert(db@.take(db0.len() as int) == before.take(db0.len() as int));
                assert forall|g: Fact| #![trigger db@.contains(g)]
                    db@.contains(g) <==> db0.contains(g) || seen.push(f).contains(g) by {
                    lemma_push_contains(before, f, g);
                    lemma_push_contains(seen, f, g);
                }
                assert forall|a: int, b: int| 0 <= a < db@.len() && 0 <= b < db@.len() && a != b implies db@[a] != db@[b] by {
                    if a == before.len() {
                        assert(before[b] == db@[b]);
                    } else if b == before.len() {
                        assert(before[a] == db@[a]);
                    } else {
                        assert(before[a] == db@[a]);
                        assert(before[b] == db@[b]);
                    }
                }
            }
        } else {
            proof {
                assert forall|g: Fact| #![trigger db@.contains(g)]
                    db@.contains(g) <==> db0.contains(g) || seen.push(f).contains(g) by {
                    lemma_push_contains(seen, f, g);
                }
            }
        }
        i += 1;
    }
    assert(extra@.take(extra@.len() as int) == extra@);
}

/// The least model of the rules over the base facts, each fact once.
pub fn saturate(rules: &Vec<Rule>, base: &Vec<Fact>) -> (model: Vec<Fact>)
    requires
        all_wf(rules@),
    ensures
        model@.to_set() == least_model(program(rules@), base@.to_set()),
        model@.no_duplicates(),
{
    let ghost clauses = program(rules@);
    let ghost least = least_model(clauses, base@.to_set());
    let mut db: Vec<Fact> = Vec::new();
    absorb(&mut db, base);
    let mut done = false;
    proof {
        lemma_least_model_includes_base(clauses, base@.to_set());
        lemma_least_model_closed(clauses, base@.to_set());
    }
    while !done
        invariant
            all_wf(rules@),
            clauses == program(rules@),
            least == least_model(clauses, base@.to_set()),
            closed(clauses, least),
            db@.no_duplicates(),
            base@.to_set().subset_of(db@.to_set()),
            db@.to_set().subset_of(least),
            done ==> closed(clauses, db@.to_set()),
        decreases usize::MAX - db.len() + (if done { 0int } else { 1int }),
    {
        let ghost before = db@;
        let derived = consequences(rules, &db);
        let size = db.len();
        absorb(&mut db, &derived);
        proof {
            assert forall|f: Fact| db@.to_set().contains(f) implies least.contains(f) by {
                assert(db@.contains(f));
                if before.contains(f) {
                    assert(before.to_set().contains(f));
                } else {
                    assert(derived@.contains(f));
                    lemma_entails_monotone(clauses, clauses, before.to_set(), least, f);
                }
            }
            assert forall|f: Fact| base@.to_set().contains(f) implies db@.to_set().contains(f) by {
                assert(before.to_set().contains(f));
                assert(before.contains(f));
                assert(db@.contains(f));
            }
        }
        if db.len() == size {
            proof {
                assert(db@ == before) by {
                    assert(db@.take(before.len() as int) == db@);
                }
                assert forall|f: Fact| #[trigger] entails(clauses, db@.to_set(), f) implies db@.to_set().contains(f) by {
                    assert(derived@.contains(f));
                    assert(db@.contains(f));
                }
            }
            done = true;
        }
    }
    proof {
        lemma_least_model_least(clauses, base@.to_set(), db@.to_set());
        assert(db@.to_set() =~= least);
    }
    db
}

} // verus!
