//! The RDFS profile: property transport, domain and range inference and one
//! step up the class hierarchy, each applied once to what came before it.

use crate::collection::{fact, relation, tag, tagged};
use crate::inference::horn::{clause, horn1, horn2};
use crate::inference::model::{
    closed, least_model, lemma_least_model_includes_base, lemma_least_model_least,
    lemma_rule_applies,
};
use crate::inference::rule::{
    abox, all_wf, asserted, con, derives, entailed, entails, ground, holds, property, satisfies, tbox,
    var, views, Clause, Fact, Guard, Rel, Rule,
};
use crate::materialization::common::close;
use crate::model::consts::constants::rdfs::{domain, range, subClassOf, subPropertyOf, type_};
use crate::model::types::{List, Triple};
use vstd::prelude::*;

verus! {

/// An assertion whose predicate is not `type` is a property assertion.
pub open spec fn property_assertion() -> Clause {
    clause(
        seq![
            abox(var(0), var(1), var(2)),
        ],
        property(var(0), var(1), var(2)),
        Guard::Differs(1, type_),
    )
}

/// The clause `property_assertion` as a rule.
pub fn property_assertion_rule() -> (r: Rule)
    ensures
        r@ == property_assertion(),
        r.wf(),
{
    horn1(
        abox(var(0), var(1), var(2)),
        property(var(0), var(1), var(2)),
        Guard::Differs(1, type_),
        3,
    )
}

/// Property transport: `(p1 subPropertyOf p2)` and an asserted `(s p1 o)` with `p1` other than `type` give the property assertion `(s p2 o)`.
pub open spec fn rdfs7() -> Clause {
    clause(
        seq![
            tbox(var(0), con(subPropertyOf), var(1)),
            abox(var(2), var(0), var(3)),
        ],
        property(var(2), var(1), var(3)),
        Guard::Differs(0, type_),
    )
}

/// The clause `rdfs7` as a rule.
pub fn rdfs7_rule() -> (r: Rule)
    ensures
        r@ == rdfs7(),
        r.wf(),
{
    horn2(
        tbox(var(0), con(subPropertyOf), var(1)),
        abox(var(2), var(0), var(3)),
        property(var(2), var(1), var(3)),
        Guard::Differs(0, type_),
        4,
    )
}

/// An assertion `(x type c)` is a class membership.
pub open spec fn class_assertion() -> Clause {
    clause(
        seq![
            abox(var(0), con(type_), var(1)),
        ],
        asserted(var(0), con(type_), var(1)),
        Guard::Always,
    )
}

/// The clause `class_assertion` as a rule.
pub fn class_assertion_rule() -> (r: Rule)
    ensures
        r@ == class_assertion(),
        r.wf(),
{
    horn1(
        abox(var(0), con(type_), var(1)),
        asserted(var(0), con(type_), var(1)),
        Guard::Always,
        2,
    )
}

/// Domain inference: `(p domain c)` and the property assertion `(s p o)` give `(s type c)`.
pub open spec fn rdfs2() -> Clause {
    clause(
        seq![
            tbox(var(0), con(domain), var(1)),
            property(var(2), var(0), var(3)),
        ],
        asserted(var(2), con(type_), var(1)),
        Guard::Always,
    )
}

/// The clause `rdfs2` as a rule.
pub fn rdfs2_rule() -> (r: Rule)
    ensures
        r@ == rdfs2(),
        r.wf(),
{
    horn2(
        tbox(var(0), con(domain), var(1)),
        property(var(2), var(0), var(3)),
        asserted(var(2), con(type_), var(1)),
        Guard::Always,
        4,
    )
}

/// Range inference: `(p range c)` and the property assertion `(s p o)` give `(o type c)`.
pub open spec fn rdfs3() -> Clause {
    clause(
        seq![
            tbox(var(0), con(range), var(1)),
            property(var(2), var(0), var(3)),
        ],
        asserted(var(3), con(type_), var(1)),
        Guard::Always,
    )
}

/// The clause `rdfs3` as a rule.
pub fn rdfs3_rule() -> (r: Rule)
    ensures
        r@ == rdfs3(),
        r.wf(),
{
    horn2(
        tbox(var(0), con(range), var(1)),
        property(var(2), var(0), var(3)),
        asserted(var(3), con(type_), var(1)),
        Guard::Always,
        4,
    )
}

/// Every assertion is handed out.
pub open spec fn keep_assertion() -> Clause {
    clause(
        seq![
            abox(var(0), var(1), var(2)),
        ],
        entailed(var(0), var(1), var(2)),
        Guard::Always,
    )
}

/// The clause `keep_assertion` as a rule.
pub fn keep_assertion_rule() -> (r: Rule)
    ensures
        r@ == keep_assertion(),
        r.wf(),
{
    horn1(
        abox(var(0), var(1), var(2)),
        entailed(var(0), var(1), var(2)),
        Guard::Always,
        3,
    )
}

/// Every property assertion is handed out.
pub open spec fn keep_property() -> Clause {
    clause(
        seq![
            property(var(0), var(1), var(2)),
        ],
        entailed(var(0), var(1), var(2)),
        Guard::Always,
    )
}

/// The clause `keep_property` as a rule.
pub fn keep_property_rule() -> (r: Rule)
    ensures
        r@ == keep_property(),
        r.wf(),
{
    horn1(
        property(var(0), var(1), var(2)),
        entailed(var(0), var(1), var(2)),
        Guard::Always,
        3,
    )
}

/// Every class membership is handed out.
pub open spec fn keep_class() -> Clause {
    clause(
        seq![
            asserted(var(0), con(type_), var(1)),
        ],
        entailed(var(0), con(type_), var(1)),
        Guard::Always,
    )
}

/// The clause `keep_class` as a rule.
pub fn keep_class_rule() -> (r: Rule)
    ensures
        r@ == keep_class(),
        r.wf(),
{
    horn1(
        asserted(var(0), con(type_), var(1)),
        entailed(var(0), con(type_), var(1)),
        Guard::Always,
        2,
    )
}

/// Type upward closure: `(c1 subClassOf c2)` and the class membership `(x type c1)` give `(x type c2)`.
pub open spec fn rdfs9() -> Clause {
    clause(
        seq![
            tbox(var(0), con(subClassOf), var(1)),
            asserted(var(2), con(type_), var(0)),
        ],
        entailed(var(2), con(type_), var(1)),
        Guard::Always,
    )
}

/// The clause `rdfs9` as a rule.
pub fn rdfs9_rule() -> (r: Rule)
    ensures
        r@ == rdfs9(),
        r.wf(),
{
    horn2(
        tbox(var(0), con(subClassOf), var(1)),
        asserted(var(2), con(type_), var(0)),
        entailed(var(2), con(type_), var(1)),
        Guard::Always,
        3,
    )
}

/// The RDFS program. The assertions feed the property assertions, those the class memberships, and only the last stage steps up the class hierarchy, so nothing is applied twice.
pub open spec fn rdfs_clauses() -> Seq<Clause> {
    seq![
        property_assertion(),
        rdfs7(),
        class_assertion(),
        rdfs2(),
        rdfs3(),
        keep_assertion(),
        keep_property(),
        keep_class(),
        rdfs9(),
    ]
}

/// The clauses of `rdfs_clauses` as rules, in the same order.
pub fn rdfs_rules() -> (rules: Vec<Rule>)
    ensures
        views(rules@) == rdfs_clauses(),
        all_wf(rules@),
{
    let mut rules: Vec<Rule> = Vec::new();
    rules.push(property_assertion_rule());
    rules.push(rdfs7_rule());
    rules.push(class_assertion_rule());
    rules.push(rdfs2_rule());
    rules.push(rdfs3_rule());
    rules.push(keep_assertion_rule());
    rules.push(keep_property_rule());
    rules.push(keep_class_rule());
    rules.push(rdfs9_rule());
    proof {
        assert(views(rules@) =~= rdfs_clauses());
    }
    rules
}

/// The facts a second stage starts from: the terminology box and the assertion box.
pub open spec fn stage_base(tbox: Set<Triple>, abox: Set<Triple>) -> Set<Fact> {
    tagged(Rel::Tbox, tbox).union(tagged(Rel::Abox, abox))
}

/// Collects the facts a second stage starts from.
pub fn collect_base(tbox: &Vec<Triple>, abox: &Vec<Triple>) -> (base: Vec<Fact>)
    ensures
        base@.to_set() == stage_base(tbox@.to_set(), abox@.to_set()),
{
    let mut base: Vec<Fact> = Vec::new();
    tag(Rel::Tbox, tbox, &mut base);
    tag(Rel::Abox, abox, &mut base);
    proof {
        assert(base@.to_set() =~= stage_base(tbox@.to_set(), abox@.to_set()));
    }
    base
}

/// What RDFS entails from an assertion box under a terminology box.
pub open spec fn rdfs_entailment(tbox: Set<Triple>, abox: Set<Triple>) -> Set<Triple> {
    relation(least_model(rdfs_clauses().to_set(), stage_base(tbox, abox)), Rel::Entailed)
}

/// The property assertions of RDFS: the assertions whose predicate is not
/// `type`, and what one step of property transport makes of them.
pub open spec fn transported(tbox: Set<Triple>, abox: Set<Triple>) -> Set<Triple> {
    Set::new(
        |x: Triple|
            (abox.contains(x) && x.1 != type_) || exists|p1: u32|
                #![trigger tbox.contains((p1, subPropertyOf, x.1))]
                tbox.contains((p1, subPropertyOf, x.1)) && abox.contains((x.0, p1, x.2)) && p1
                    != type_,
    )
}

/// The class memberships of RDFS before the step up the hierarchy: those
/// asserted, and those that a domain or a range gives to the ends of a
/// property assertion.
pub open spec fn classified(tbox: Set<Triple>, abox: Set<Triple>) -> Set<Triple> {
    Set::new(
        |x: Triple|
            x.1 == type_ && (abox.contains(x) || (exists|p: u32, o: u32|
                #![trigger transported(tbox, abox).contains((x.0, p, o))]
                tbox.contains((p, domain, x.2)) && transported(tbox, abox).contains((x.0, p, o)))
                || (exists|p: u32, s: u32|
                #![trigger transported(tbox, abox).contains((s, p, x.0))]
                tbox.contains((p, range, x.2)) && transported(tbox, abox).contains((s, p, x.0)))),
    )
}

/// What RDFS hands out, said without rules: the assertions, the property
/// assertions, the class memberships, and one step up the class hierarchy
/// from each class membership.
pub open spec fn rdfs_direct(tbox: Set<Triple>, abox: Set<Triple>) -> Set<Triple> {
    Set::new(
        |x: Triple|
            abox.contains(x) || transported(tbox, abox).contains(x) || classified(
                tbox,
                abox,
            ).contains(x) || (x.1 == type_ && exists|c1: u32|
                #![trigger tbox.contains((c1, subClassOf, x.2))]
                tbox.contains((c1, subClassOf, x.2)) && classified(tbox, abox).contains(
                    (x.0, type_, c1),
                )),
    )
}

/// The facts of every relation of the RDFS program, said without rules.
spec fn rdfs_model(tbox: Set<Triple>, abox: Set<Triple>) -> Set<Fact> {
    Set::new(
        |f: Fact|
            match f.rel {
                Rel::Tbox => tbox.contains((f.s, f.p, f.o)),
                Rel::Abox => abox.contains((f.s, f.p, f.o)),
                Rel::Property => transported(tbox, abox).contains((f.s, f.p, f.o)),
                Rel::Asserted => classified(tbox, abox).contains((f.s, f.p, f.o)),
                Rel::Entailed => rdfs_direct(tbox, abox).contains((f.s, f.p, f.o)),
                _ => false,
            },
    )
}

proof fn lemma_rdfs_model_step(tbox: Set<Triple>, abox: Set<Triple>, k: int, b: Seq<u32>)
    requires
        0 <= k < rdfs_clauses().len(),
        satisfies(rdfs_clauses()[k], rdfs_model(tbox, abox), b),
    ensures
        rdfs_model(tbox, abox).contains(ground(rdfs_clauses()[k].head, b)),
{
    let m = rdfs_model(tbox, abox);
    let c = rdfs_clauses()[k];
    let f = ground(c.head, b);
    let g0 = ground(c.body[0], b);
    assert(m.contains(g0));
    if k == 0 {
        assert(c == property_assertion());
        assert(abox.contains((g0.s, g0.p, g0.o)));
        assert(transported(tbox, abox).contains((f.s, f.p, f.o)));
    } else if k == 1 {
        assert(c == rdfs7());
        let g1 = ground(c.body[1], b);
        assert(m.contains(g1));
        let x = (f.s, f.p, f.o);
        assert(holds(c.guard, b));
        assert(g0.s != type_);
        assert(tbox.contains((g0.s, subPropertyOf, x.1)));
        assert(abox.contains((x.0, g0.s, x.2)));
        assert(exists|p1: u32|
            #![trigger tbox.contains((p1, subPropertyOf, x.1))]
            tbox.contains((p1, subPropertyOf, x.1)) && abox.contains((x.0, p1, x.2)) && p1
                != type_);
        assert(transported(tbox, abox).contains(x));
    } else if k == 2 {
        assert(c == class_assertion());
        assert(classified(tbox, abox).contains((f.s, f.p, f.o)));
    } else if k == 3 {
        assert(c == rdfs2());
        let g1 = ground(c.body[1], b);
        assert(m.contains(g1));
        let x = (f.s, f.p, f.o);
        assert(tbox.contains((g0.s, domain, x.2)));
        assert(transported(tbox, abox).contains((x.0, g0.s, g1.o)));
        assert(exists|p: u32, o: u32|
            #![trigger transported(tbox, abox).contains((x.0, p, o))]
            tbox.contains((p, domain, x.2)) && transported(tbox, abox).contains((x.0, p, o)));
        assert(classified(tbox, abox).contains(x));
    } else if k == 4 {
        assert(c == rdfs3());
        let g1 = ground(c.body[1], b);
        assert(m.contains(g1));
        let x = (f.s, f.p, f.o);
        assert(tbox.contains((g0.s, range, x.2)));
        assert(transported(tbox, abox).contains((g1.s, g0.s, x.0)));
        assert(exists|p: u32, s: u32|
            #![trigger transported(tbox, abox).contains((s, p, x.0))]
            tbox.contains((p, range, x.2)) && transported(tbox, abox).contains((s, p, x.0)));
        assert(classified(tbox, abox).contains(x));
    } else if k == 5 {
        assert(c == keep_assertion());
        assert(rdfs_direct(tbox, abox).contains((f.s, f.p, f.o)));
    } else if k == 6 {
        assert(c == keep_property());
        assert(rdfs_direct(tbox, abox).contains((f.s, f.p, f.o)));
    } else if k == 7 {
        assert(c == keep_class());
        assert(rdfs_direct(tbox, abox).contains((f.s, f.p, f.o)));
    } else {
        assert(c == rdfs9());
        let g1 = ground(c.body[1], b);
        assert(m.contains(g1));
        let x = (f.s, f.p, f.o);
        assert(tbox.contains((g0.s, subClassOf, x.2)));
        assert(classified(tbox, abox).contains((x.0, type_, g0.s)));
        assert(exists|c1: u32|
            #![trigger tbox.contains((c1, subClassOf, x.2))]
            tbox.contains((c1, subClassOf, x.2)) && classified(tbox, abox).contains(
                (x.0, type_, c1),
            ));
        assert(rdfs_direct(tbox, abox).contains(x));
    }
}

proof fn lemma_rdfs_model_closed(tbox: Set<Triple>, abox: Set<Triple>)
    ensures
        closed(rdfs_clauses().to_set(), rdfs_model(tbox, abox)),
{
    let m = rdfs_model(tbox, abox);
    let rules = rdfs_clauses().to_set();
    assert forall|f: Fact| #[trigger] entails(rules, m, f) implies m.contains(f) by {
        let c = choose|c: Clause| rules.contains(c) && #[trigger] derives(c, m, f);
        let b = choose|b: Seq<u32>| #[trigger] satisfies(c, m, b) && f == ground(c.head, b);
        let k = choose|k: int| 0 <= k < rdfs_clauses().len() && rdfs_clauses()[k] == c;
        lemma_rdfs_model_step(tbox, abox, k, b);
    }
}

proof fn lemma_rdfs_has(c: Clause, k: int)
    requires
        0 <= k < rdfs_clauses().len(),
        rdfs_clauses()[k] == c,
    ensures
        rdfs_clauses().to_set().contains(c),
{
    assert(rdfs_clauses().contains(c));
}

proof fn lemma_rdfs_model_derived(tbox: Set<Triple>, abox: Set<Triple>, f: Fact)
    requires
        rdfs_model(tbox, abox).contains(f),
    ensures
        least_model(rdfs_clauses().to_set(), stage_base(tbox, abox)).contains(f),
    decreases
            match f.rel {
                Rel::Entailed => 3int,
                Rel::Asserted => 2int,
                Rel::Property => 1int,
                _ => 0int,
            },
{
    let rules = rdfs_clauses().to_set();
    let base = stage_base(tbox, abox);
    let least = least_model(rules, base);
    let x = (f.s, f.p, f.o);
    lemma_least_model_includes_base(rules, base);
    match f.rel {
        Rel::Tbox => {
            assert(base.contains(f));
        },
        Rel::Abox => {
            assert(base.contains(f));
        },
        Rel::Property => {
            if abox.contains(x) && x.1 != type_ {
                let c = property_assertion();
                let b = seq![f.s, f.p, f.o];
                lemma_rdfs_has(c, 0);
                assert(base.contains(fact(Rel::Abox, x)));
                assert forall|i: int| 0 <= i < c.body.len() implies least.contains(
                    #[trigger] ground(c.body[i], b),
                ) by {
                    assert(ground(c.body[0], b) == fact(Rel::Abox, x));
                }
                lemma_rule_applies(rules, base, c, b);
                assert(ground(c.head, b) == f);
            } else {
                let p1 = choose|p1: u32|
                    #![trigger tbox.contains((p1, subPropertyOf, x.1))]
                    tbox.contains((p1, subPropertyOf, x.1)) && abox.contains((x.0, p1, x.2)) && p1
                        != type_;
                let c = rdfs7();
                let b = seq![p1, f.p, f.s, f.o];
                lemma_rdfs_has(c, 1);
                assert(base.contains(fact(Rel::Tbox, (p1, subPropertyOf, f.p))));
                assert(base.contains(fact(Rel::Abox, (f.s, p1, f.o))));
                assert forall|i: int| 0 <= i < c.body.len() implies least.contains(
                    #[trigger] ground(c.body[i], b),
                ) by {
                    if i == 0 {
                        assert(ground(c.body[0], b) == fact(Rel::Tbox, (p1, subPropertyOf, f.p)));
                    } else {
                        assert(ground(c.body[1], b) == fact(Rel::Abox, (f.s, p1, f.o)));
                    }
                }
                lemma_rule_applies(rules, base, c, b);
                assert(ground(c.head, b) == f);
            }
        },
        Rel::Asserted => {
            if abox.contains(x) {
                let c = class_assertion();
                let b = seq![f.s, f.o];
                lemma_rdfs_has(c, 2);
                assert(base.contains(fact(Rel::Abox, x)));
                assert forall|i: int| 0 <= i < c.body.len() implies least.contains(
                    #[trigger] ground(c.body[i], b),
                ) by {
                    assert(ground(c.body[0], b) == fact(Rel::Abox, x));
                }
                lemma_rule_applies(rules, base, c, b);
                assert(ground(c.head, b) == f);
            } else if exists|p: u32, o: u32|
                #![trigger transported(tbox, abox).contains((x.0, p, o))]
                tbox.contains((p, domain, x.2)) && transported(tbox, abox).contains((x.0, p, o)) {
                let (p, o) = choose|p: u32, o: u32|
                    #![trigger transported(tbox, abox).contains((x.0, p, o))]
                    tbox.contains((p, domain, x.2)) && transported(tbox, abox).contains(
                        (x.0, p, o),
                    );
                let c = rdfs2();
                let b = seq![p, f.o, f.s, o];
                lemma_rdfs_has(c, 3);
                assert(base.contains(fact(Rel::Tbox, (p, domain, f.o))));
                lemma_rdfs_model_derived(tbox, abox, fact(Rel::Property, (f.s, p, o)));
                assert forall|i: int| 0 <= i < c.body.len() implies least.contains(
                    #[trigger] ground(c.body[i], b),
                ) by {
                    if i == 0 {
                        assert(ground(c.body[0], b) == fact(Rel::Tbox, (p, domain, f.o)));
                    } else {
                        assert(ground(c.body[1], b) == fact(Rel::Property, (f.s, p, o)));
                    }
                }
                lemma_rule_applies(rules, base, c, b);
                assert(ground(c.head, b) == f);
            } else {
                let (p, s) = choose|p: u32, s: u32|
                    #![trigger transported(tbox, abox).contains((s, p, x.0))]
                    tbox.contains((p, range, x.2)) && transported(tbox, abox).contains((s, p, x.0));
                let c = rdfs3();
                let b = seq![p, f.o, s, f.s];
                lemma_rdfs_has(c, 4);
                assert(base.contains(fact(Rel::Tbox, (p, range, f.o))));
                lemma_rdfs_model_derived(tbox, abox, fact(Rel::Property, (s, p, f.s)));
                assert forall|i: int| 0 <= i < c.body.len() implies least.contains(
                    #[trigger] ground(c.body[i], b),
                ) by {
                    if i == 0 {
                        assert(ground(c.body[0], b) == fact(Rel::Tbox, (p, range, f.o)));
                    } else {
                        assert(ground(c.body[1], b) == fact(Rel::Property, (s, p, f.s)));
                    }
                }
                lemma_rule_applies(rules, base, c, b);
                assert(ground(c.head, b) == f);
            }
        },
        Rel::Entailed => {
            if abox.contains(x) {
                let c = keep_assertion();
                let b = seq![f.s, f.p, f.o];
                lemma_rdfs_has(c, 5);
                assert(base.contains(fact(Rel::Abox, x)));
                assert forall|i: int| 0 <= i < c.body.len() implies least.contains(
                    #[trigger] ground(c.body[i], b),
                ) by {
                    assert(ground(c.body[0], b) == fact(Rel::Abox, x));
                }
                lemma_rule_applies(rules, base, c, b);
                assert(ground(c.head, b) == f);
            } else if transported(tbox, abox).contains(x) {
                let c = keep_property();
                let b = seq![f.s, f.p, f.o];
                lemma_rdfs_has(c, 6);
                lemma_rdfs_model_derived(tbox, abox, fact(Rel::Property, x));
                assert forall|i: int| 0 <= i < c.body.len() implies least.contains(
                    #[trigger] ground(c.body[i], b),
                ) by {
                    assert(ground(c.body[0], b) == fact(Rel::Property, x));
                }
                lemma_rule_applies(rules, base, c, b);
                assert(ground(c.head, b) == f);
            } else if classified(tbox, abox).contains(x) {
                let c = keep_class();
                let b = seq![f.s, f.o];
                lemma_rdfs_has(c, 7);
                lemma_rdfs_model_derived(tbox, abox, fact(Rel::Asserted, x));
                assert forall|i: int| 0 <= i < c.body.len() implies least.contains(
                    #[trigger] ground(c.body[i], b),
                ) by {
                    assert(ground(c.body[0], b) == fact(Rel::Asserted, x));
                }
                lemma_rule_applies(rules, base, c, b);
                assert(ground(c.head, b) == f);
            } else {
                let c1 = choose|c1: u32|
                    #![trigger tbox.contains((c1, subClassOf, x.2))]
                    tbox.contains((c1, subClassOf, x.2)) && classified(tbox, abox).contains(
                        (x.0, type_, c1),
                    );
                let c = rdfs9();
                let b = seq![c1, f.o, f.s];
                lemma_rdfs_has(c, 8);
                assert(base.contains(fact(Rel::Tbox, (c1, subClassOf, f.o))));
                lemma_rdfs_model_derived(tbox, abox, fact(Rel::Asserted, (f.s, type_, c1)));
                assert forall|i: int| 0 <= i < c.body.len() implies least.contains(
                    #[trigger] ground(c.body[i], b),
                ) by {
                    if i == 0 {
                        assert(ground(c.body[0], b) == fact(Rel::Tbox, (c1, subClassOf, f.o)));
                    } else {
                        assert(ground(c.body[1], b) == fact(Rel::Asserted, (f.s, type_, c1)));
                    }
                }
                lemma_rule_applies(rules, base, c, b);
                assert(ground(c.head, b) == f);
            }
        },
        _ => {},
    }
}

/// The RDFS program hands out exactly what `rdfs_direct` says: every rule
/// applies once, in the order of the stages, and nothing is fed back.
pub proof fn lemma_rdfs_is_direct(tbox: Set<Triple>, abox: Set<Triple>)
    ensures
        rdfs_entailment(tbox, abox) == rdfs_direct(tbox, abox),
{
    let rules = rdfs_clauses().to_set();
    let base = stage_base(tbox, abox);
    let m = rdfs_model(tbox, abox);
    lemma_rdfs_model_closed(tbox, abox);
    assert(base.subset_of(m));
    lemma_least_model_least(rules, base, m);
    assert forall|x: Triple| rdfs_entailment(tbox, abox).contains(x) <==> rdfs_direct(
        tbox,
        abox,
    ).contains(x) by {
        let f = fact(Rel::Entailed, x);
        if rdfs_direct(tbox, abox).contains(x) {
            assert(m.contains(f));
            lemma_rdfs_model_derived(tbox, abox, f);
        }
        if least_model(rules, base).contains(f) {
            assert(m.contains(f));
        }
    }
    assert(rdfs_entailment(tbox, abox) =~= rdfs_direct(tbox, abox));
}

/// The RDFS second stage: the assertion box with what RDFS entails from it,
/// each triple once. Property transport, domain and range inference and
/// the step up the class hierarchy apply once each, in this order; the
/// closure of the hierarchies is the business of the first stage.
pub fn rdfs(tbox: &Vec<Triple>, _lists: &Vec<List>, abox: &Vec<Triple>) -> (r: Vec<Triple>)
    ensures
        r@.no_duplicates(),
        r@.to_set() == rdfs_entailment(tbox@.to_set(), abox@.to_set()),
        r@.to_set() == rdfs_direct(tbox@.to_set(), abox@.to_set()),
{
    let rules = rdfs_rules();
    let base = collect_base(tbox, abox);
    proof {
        lemma_rdfs_is_direct(tbox@.to_set(), abox@.to_set());
    }
    close(&rules, &base, Rel::Entailed)
}

} // verus!
