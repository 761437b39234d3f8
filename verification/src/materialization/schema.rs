//! The schema rules of OWL 2 RL: what a terminology box entails about its
//! own classes and properties.

use crate::inference::horn::{clause, horn1, horn2, horn5};
use crate::inference::rule::{all_wf, con, member, tbox, var, views, Clause, Guard, Rule};
use crate::materialization::common::{hierarchy_clauses, hierarchy_rules};
use crate::model::consts::constants::owl::{
    allValuesFrom, equivalentClass, equivalentProperty, hasValue, intersectionOf, onProperty,
    sameAs, someValuesFrom, unionOf, Class, Nothing, ObjectProperty, Thing,
};
use crate::model::consts::constants::rdfs::{
    domain, first, range, subClassOf, subPropertyOf, type_,
};
use vstd::prelude::*;

verus! {

/// `(c type Class)` gives `(c subClassOf c)`.
pub open spec fn scm_cls_self() -> Clause {
    clause(
        seq![
            tbox(var(0), con(type_), con(Class)),
        ],
        tbox(var(0), con(subClassOf), var(0)),
        Guard::Always,
    )
}

/// The clause `scm_cls_self` as a rule.
pub fn scm_cls_self_rule() -> (r: Rule)
    ensures
        r@ == scm_cls_self(),
        r.wf(),
{
    horn1(
        tbox(var(0), con(type_), con(Class)),
        tbox(var(0), con(subClassOf), var(0)),
        Guard::Always,
        1,
    )
}

/// `(c type Class)` gives `(c equivalentClass c)`.
pub open spec fn scm_cls_equivalent() -> Clause {
    clause(
        seq![
            tbox(var(0), con(type_), con(Class)),
        ],
        tbox(var(0), con(equivalentClass), var(0)),
        Guard::Always,
    )
}

/// The clause `scm_cls_equivalent` as a rule.
pub fn scm_cls_equivalent_rule() -> (r: Rule)
    ensures
        r@ == scm_cls_equivalent(),
        r.wf(),
{
    horn1(
        tbox(var(0), con(type_), con(Class)),
        tbox(var(0), con(equivalentClass), var(0)),
        Guard::Always,
        1,
    )
}

/// `(c type Class)` gives `(c subClassOf Thing)`.
pub open spec fn scm_cls_thing() -> Clause {
    clause(
        seq![
            tbox(var(0), con(type_), con(Class)),
        ],
        tbox(var(0), con(subClassOf), con(Thing)),
        Guard::Always,
    )
}

/// The clause `scm_cls_thing` as a rule.
pub fn scm_cls_thing_rule() -> (r: Rule)
    ensures
        r@ == scm_cls_thing(),
        r.wf(),
{
    horn1(
        tbox(var(0), con(type_), con(Class)),
        tbox(var(0), con(subClassOf), con(Thing)),
        Guard::Always,
        1,
    )
}

/// `(c type Class)` gives `(Nothing subClassOf c)`.
pub open spec fn scm_cls_nothing() -> Clause {
    clause(
        seq![
            tbox(var(0), con(type_), con(Class)),
        ],
        tbox(con(Nothing), con(subClassOf), var(0)),
        Guard::Always,
    )
}

/// The clause `scm_cls_nothing` as a rule.
pub fn scm_cls_nothing_rule() -> (r: Rule)
    ensures
        r@ == scm_cls_nothing(),
        r.wf(),
{
    horn1(
        tbox(var(0), con(type_), con(Class)),
        tbox(con(Nothing), con(subClassOf), var(0)),
        Guard::Always,
        1,
    )
}

/// `(c1 equivalentClass c2)` gives `(c1 subClassOf c2)`.
pub open spec fn scm_eqc1_forth() -> Clause {
    clause(
        seq![
            tbox(var(0), con(equivalentClass), var(1)),
        ],
        tbox(var(0), con(subClassOf), var(1)),
        Guard::Always,
    )
}

/// The clause `scm_eqc1_forth` as a rule.
pub fn scm_eqc1_forth_rule() -> (r: Rule)
    ensures
        r@ == scm_eqc1_forth(),
        r.wf(),
{
    horn1(
        tbox(var(0), con(equivalentClass), var(1)),
        tbox(var(0), con(subClassOf), var(1)),
        Guard::Always,
        2,
    )
}

/// `(c1 equivalentClass c2)` gives `(c2 subClassOf c1)`.
pub open spec fn scm_eqc1_back() -> Clause {
    clause(
        seq![
            tbox(var(0), con(equivalentClass), var(1)),
        ],
        tbox(var(1), con(subClassOf), var(0)),
        Guard::Always,
    )
}

/// The clause `scm_eqc1_back` as a rule.
pub fn scm_eqc1_back_rule() -> (r: Rule)
    ensures
        r@ == scm_eqc1_back(),
        r.wf(),
{
    horn1(
        tbox(var(0), con(equivalentClass), var(1)),
        tbox(var(1), con(subClassOf), var(0)),
        Guard::Always,
        2,
    )
}

/// `(c1 subClassOf c2)` and `(c2 subClassOf c1)` give `(c1 equivalentClass c2)`.
pub open spec fn scm_eqc2() -> Clause {
    clause(
        seq![
            tbox(var(0), con(subClassOf), var(1)),
            tbox(var(1), con(subClassOf), var(0)),
        ],
        tbox(var(0), con(equivalentClass), var(1)),
        Guard::Always,
    )
}

/// The clause `scm_eqc2` as a rule.
pub fn scm_eqc2_rule() -> (r: Rule)
    ensures
        r@ == scm_eqc2(),
        r.wf(),
{
    horn2(
        tbox(var(0), con(subClassOf), var(1)),
        tbox(var(1), con(subClassOf), var(0)),
        tbox(var(0), con(equivalentClass), var(1)),
        Guard::Always,
        2,
    )
}

/// `(p type ObjectProperty)` gives `(p subPropertyOf p)`.
pub open spec fn scm_op_self() -> Clause {
    clause(
        seq![
            tbox(var(0), con(type_), con(ObjectProperty)),
        ],
        tbox(var(0), con(subPropertyOf), var(0)),
        Guard::Always,
    )
}

/// The clause `scm_op_self` as a rule.
pub fn scm_op_self_rule() -> (r: Rule)
    ensures
        r@ == scm_op_self(),
        r.wf(),
{
    horn1(
        tbox(var(0), con(type_), con(ObjectProperty)),
        tbox(var(0), con(subPropertyOf), var(0)),
        Guard::Always,
        1,
    )
}

/// `(p type ObjectProperty)` gives `(p equivalentProperty p)`.
pub open spec fn scm_op_equivalent() -> Clause {
    clause(
        seq![
            tbox(var(0), con(type_), con(ObjectProperty)),
        ],
        tbox(var(0), con(equivalentProperty), var(0)),
        Guard::Always,
    )
}

/// The clause `scm_op_equivalent` as a rule.
pub fn scm_op_equivalent_rule() -> (r: Rule)
    ensures
        r@ == scm_op_equivalent(),
        r.wf(),
{
    horn1(
        tbox(var(0), con(type_), con(ObjectProperty)),
        tbox(var(0), con(equivalentProperty), var(0)),
        Guard::Always,
        1,
    )
}

/// `(p1 equivalentProperty p2)` gives `(p1 subPropertyOf p2)`.
pub open spec fn scm_eqp1_forth() -> Clause {
    clause(
        seq![
            tbox(var(0), con(equivalentProperty), var(1)),
        ],
        tbox(var(0), con(subPropertyOf), var(1)),
        Guard::Always,
    )
}

/// The clause `scm_eqp1_forth` as a rule.
pub fn scm_eqp1_forth_rule() -> (r: Rule)
    ensures
        r@ == scm_eqp1_forth(),
        r.wf(),
{
    horn1(
        tbox(var(0), con(equivalentProperty), var(1)),
        tbox(var(0), con(subPropertyOf), var(1)),
        Guard::Always,
        2,
    )
}

/// `(p1 equivalentProperty p2)` gives `(p2 subPropertyOf p1)`.
pub open spec fn scm_eqp1_back() -> Clause {
    clause(
        seq![
            tbox(var(0), con(equivalentProperty), var(1)),
        ],
        tbox(var(1), con(subPropertyOf), var(0)),
        Guard::Always,
    )
}

/// The clause `scm_eqp1_back` as a rule.
pub fn scm_eqp1_back_rule() -> (r: Rule)
    ensures
        r@ == scm_eqp1_back(),
        r.wf(),
{
    horn1(
        tbox(var(0), con(equivalentProperty), var(1)),
        tbox(var(1), con(subPropertyOf), var(0)),
        Guard::Always,
        2,
    )
}

/// `(p1 subPropertyOf p2)` and `(p2 subPropertyOf p1)` give `(p1 equivalentProperty p2)`.
pub open spec fn scm_eqp2() -> Clause {
    clause(
        seq![
            tbox(var(0), con(subPropertyOf), var(1)),
            tbox(var(1), con(subPropertyOf), var(0)),
        ],
        tbox(var(0), con(equivalentProperty), var(1)),
        Guard::Always,
    )
}

/// The clause `scm_eqp2` as a rule.
pub fn scm_eqp2_rule() -> (r: Rule)
    ensures
        r@ == scm_eqp2(),
        r.wf(),
{
    horn2(
        tbox(var(0), con(subPropertyOf), var(1)),
        tbox(var(1), con(subPropertyOf), var(0)),
        tbox(var(0), con(equivalentProperty), var(1)),
        Guard::Always,
        2,
    )
}

/// `(p domain c1)` and `(c1 subClassOf c2)` give `(p domain c2)`.
pub open spec fn scm_dom1() -> Clause {
    clause(
        seq![
            tbox(var(0), con(domain), var(1)),
            tbox(var(1), con(subClassOf), var(2)),
        ],
        tbox(var(0), con(domain), var(2)),
        Guard::Always,
    )
}

/// The clause `scm_dom1` as a rule.
pub fn scm_dom1_rule() -> (r: Rule)
    ensures
        r@ == scm_dom1(),
        r.wf(),
{
    horn2(
        tbox(var(0), con(domain), var(1)),
        tbox(var(1), con(subClassOf), var(2)),
        tbox(var(0), con(domain), var(2)),
        Guard::Always,
        3,
    )
}

/// `(p2 domain c)` and `(p1 subPropertyOf p2)` give `(p1 domain c)`.
pub open spec fn scm_dom2() -> Clause {
    clause(
        seq![
            tbox(var(1), con(domain), var(2)),
            tbox(var(0), con(subPropertyOf), var(1)),
        ],
        tbox(var(0), con(domain), var(2)),
        Guard::Always,
    )
}

/// The clause `scm_dom2` as a rule.
pub fn scm_dom2_rule() -> (r: Rule)
    ensures
        r@ == scm_dom2(),
        r.wf(),
{
    horn2(
        tbox(var(1), con(domain), var(2)),
        tbox(var(0), con(subPropertyOf), var(1)),
        tbox(var(0), con(domain), var(2)),
        Guard::Always,
        3,
    )
}

/// `(p range c1)` and `(c1 subClassOf c2)` give `(p range c2)`.
pub open spec fn scm_rng1() -> Clause {
    clause(
        seq![
            tbox(var(0), con(range), var(1)),
            tbox(var(1), con(subClassOf), var(2)),
        ],
        tbox(var(0), con(range), var(2)),
        Guard::Always,
    )
}

/// The clause `scm_rng1` as a rule.
pub fn scm_rng1_rule() -> (r: Rule)
    ensures
        r@ == scm_rng1(),
        r.wf(),
{
    horn2(
        tbox(var(0), con(range), var(1)),
        tbox(var(1), con(subClassOf), var(2)),
        tbox(var(0), con(range), var(2)),
        Guard::Always,
        3,
    )
}

/// `(p2 range c)` and `(p1 subPropertyOf p2)` give `(p1 range c)`.
pub open spec fn scm_rng2() -> Clause {
    clause(
        seq![
            tbox(var(1), con(range), var(2)),
            tbox(var(0), con(subPropertyOf), var(1)),
        ],
        tbox(var(0), con(range), var(2)),
        Guard::Always,
    )
}

/// The clause `scm_rng2` as a rule.
pub fn scm_rng2_rule() -> (r: Rule)
    ensures
        r@ == scm_rng2(),
        r.wf(),
{
    horn2(
        tbox(var(1), con(range), var(2)),
        tbox(var(0), con(subPropertyOf), var(1)),
        tbox(var(0), con(range), var(2)),
        Guard::Always,
        3,
    )
}

/// `(c1 hasValue i)`, `(c1 onProperty p1)`, `(c2 hasValue i)`, `(c2 onProperty p2)` and `(p1 subPropertyOf p2)` give `(c1 subClassOf c2)`.
pub open spec fn scm_hv() -> Clause {
    clause(
        seq![
            tbox(var(0), con(hasValue), var(4)),
            tbox(var(0), con(onProperty), var(2)),
            tbox(var(1), con(hasValue), var(4)),
            tbox(var(1), con(onProperty), var(3)),
            tbox(var(2), con(subPropertyOf), var(3)),
        ],
        tbox(var(0), con(subClassOf), var(1)),
        Guard::Always,
    )
}

/// The clause `scm_hv` as a rule.
pub fn scm_hv_rule() -> (r: Rule)
    ensures
        r@ == scm_hv(),
        r.wf(),
{
    horn5(
        tbox(var(0), con(hasValue), var(4)),
        tbox(var(0), con(onProperty), var(2)),
        tbox(var(1), con(hasValue), var(4)),
        tbox(var(1), con(onProperty), var(3)),
        tbox(var(2), con(subPropertyOf), var(3)),
        tbox(var(0), con(subClassOf), var(1)),
        Guard::Always,
        5,
    )
}

/// `(c1 someValuesFrom y1)`, `(c1 onProperty p)`, `(c2 someValuesFrom y2)`, `(c2 onProperty p)` and `(y1 subClassOf y2)` give `(c1 subClassOf c2)`.
pub open spec fn scm_svf1() -> Clause {
    clause(
        seq![
            tbox(var(0), con(someValuesFrom), var(2)),
            tbox(var(0), con(onProperty), var(4)),
            tbox(var(1), con(someValuesFrom), var(3)),
            tbox(var(1), con(onProperty), var(4)),
            tbox(var(2), con(subClassOf), var(3)),
        ],
        tbox(var(0), con(subClassOf), var(1)),
        Guard::Always,
    )
}

/// The clause `scm_svf1` as a rule.
pub fn scm_svf1_rule() -> (r: Rule)
    ensures
        r@ == scm_svf1(),
        r.wf(),
{
    horn5(
        tbox(var(0), con(someValuesFrom), var(2)),
        tbox(var(0), con(onProperty), var(4)),
        tbox(var(1), con(someValuesFrom), var(3)),
        tbox(var(1), con(onProperty), var(4)),
        tbox(var(2), con(subClassOf), var(3)),
        tbox(var(0), con(subClassOf), var(1)),
        Guard::Always,
        5,
    )
}

/// `(c1 someValuesFrom y)`, `(c1 onProperty p1)`, `(c2 someValuesFrom y)`, `(c2 onProperty p2)` and `(p1 subPropertyOf p2)` give `(c1 subClassOf c2)`.
pub open spec fn scm_svf2() -> Clause {
    clause(
        seq![
            tbox(var(0), con(someValuesFrom), var(4)),
            tbox(var(0), con(onProperty), var(2)),
            tbox(var(1), con(someValuesFrom), var(4)),
            tbox(var(1), con(onProperty), var(3)),
            tbox(var(2), con(subPropertyOf), var(3)),
        ],
        tbox(var(0), con(subClassOf), var(1)),
        Guard::Always,
    )
}

/// The clause `scm_svf2` as a rule.
pub fn scm_svf2_rule() -> (r: Rule)
    ensures
        r@ == scm_svf2(),
        r.wf(),
{
    horn5(
        tbox(var(0), con(someValuesFrom), var(4)),
        tbox(var(0), con(onProperty), var(2)),
        tbox(var(1), con(someValuesFrom), var(4)),
        tbox(var(1), con(onProperty), var(3)),
        tbox(var(2), con(subPropertyOf), var(3)),
        tbox(var(0), con(subClassOf), var(1)),
        Guard::Always,
        5,
    )
}

/// `(c1 allValuesFrom y1)`, `(c1 onProperty p)`, `(c2 allValuesFrom y2)`, `(c2 onProperty p)` and `(y1 subClassOf y2)` give `(c1 subClassOf c2)`.
pub open spec fn scm_avf1() -> Clause {
    clause(
        seq![
            tbox(var(0), con(allValuesFrom), var(2)),
            tbox(var(0), con(onProperty), var(4)),
            tbox(var(1), con(allValuesFrom), var(3)),
            tbox(var(1), con(onProperty), var(4)),
            tbox(var(2), con(subClassOf), var(3)),
        ],
        tbox(var(0), con(subClassOf), var(1)),
        Guard::Always,
    )
}

/// The clause `scm_avf1` as a rule.
pub fn scm_avf1_rule() -> (r: Rule)
    ensures
        r@ == scm_avf1(),
        r.wf(),
{
    horn5(
        tbox(var(0), con(allValuesFrom), var(2)),
        tbox(var(0), con(onProperty), var(4)),
        tbox(var(1), con(allValuesFrom), var(3)),
        tbox(var(1), con(onProperty), var(4)),
        tbox(var(2), con(subClassOf), var(3)),
        tbox(var(0), con(subClassOf), var(1)),
        Guard::Always,
        5,
    )
}

/// `(c1 allValuesFrom y)`, `(c1 onProperty p1)`, `(c2 allValuesFrom y)`, `(c2 onProperty p2)` and `(p1 subPropertyOf p2)` give `(c2 subClassOf c1)`.
pub open spec fn scm_avf2() -> Clause {
    clause(
        seq![
            tbox(var(0), con(allValuesFrom), var(4)),
            tbox(var(0), con(onProperty), var(2)),
            tbox(var(1), con(allValuesFrom), var(4)),
            tbox(var(1), con(onProperty), var(3)),
            tbox(var(2), con(subPropertyOf), var(3)),
        ],
        tbox(var(1), con(subClassOf), var(0)),
        Guard::Always,
    )
}

/// The clause `scm_avf2` as a rule.
pub fn scm_avf2_rule() -> (r: Rule)
    ensures
        r@ == scm_avf2(),
        r.wf(),
{
    horn5(
        tbox(var(0), con(allValuesFrom), var(4)),
        tbox(var(0), con(onProperty), var(2)),
        tbox(var(1), con(allValuesFrom), var(4)),
        tbox(var(1), con(onProperty), var(3)),
        tbox(var(2), con(subPropertyOf), var(3)),
        tbox(var(1), con(subClassOf), var(0)),
        Guard::Always,
        5,
    )
}

/// `(c intersectionOf x)` gives `(c subClassOf m)` for every member `m` of the list `x`.
pub open spec fn scm_int() -> Clause {
    clause(
        seq![
            tbox(var(0), con(intersectionOf), var(1)),
            member(var(1), con(first), var(2)),
        ],
        tbox(var(0), con(subClassOf), var(2)),
        Guard::Always,
    )
}

/// The clause `scm_int` as a rule.
pub fn scm_int_rule() -> (r: Rule)
    ensures
        r@ == scm_int(),
        r.wf(),
{
    horn2(
        tbox(var(0), con(intersectionOf), var(1)),
        member(var(1), con(first), var(2)),
        tbox(var(0), con(subClassOf), var(2)),
        Guard::Always,
        3,
    )
}

/// `(c unionOf x)` gives `(m subClassOf c)` for every member `m` of the list `x`.
pub open spec fn scm_uni() -> Clause {
    clause(
        seq![
            tbox(var(0), con(unionOf), var(1)),
            member(var(1), con(first), var(2)),
        ],
        tbox(var(2), con(subClassOf), var(0)),
        Guard::Always,
    )
}

/// The clause `scm_uni` as a rule.
pub fn scm_uni_rule() -> (r: Rule)
    ensures
        r@ == scm_uni(),
        r.wf(),
{
    horn2(
        tbox(var(0), con(unionOf), var(1)),
        member(var(1), con(first), var(2)),
        tbox(var(2), con(subClassOf), var(0)),
        Guard::Always,
        3,
    )
}

/// `(x sameAs y)` gives `(y sameAs x)`.
pub open spec fn eq_sym() -> Clause {
    clause(
        seq![
            tbox(var(0), con(sameAs), var(1)),
        ],
        tbox(var(1), con(sameAs), var(0)),
        Guard::Always,
    )
}

/// The clause `eq_sym` as a rule.
pub fn eq_sym_rule() -> (r: Rule)
    ensures
        r@ == eq_sym(),
        r.wf(),
{
    horn1(
        tbox(var(0), con(sameAs), var(1)),
        tbox(var(1), con(sameAs), var(0)),
        Guard::Always,
        2,
    )
}

/// `(x sameAs y)` and `(y sameAs z)` give `(x sameAs z)`.
pub open spec fn eq_trans() -> Clause {
    clause(
        seq![
            tbox(var(0), con(sameAs), var(1)),
            tbox(var(1), con(sameAs), var(2)),
        ],
        tbox(var(0), con(sameAs), var(2)),
        Guard::Always,
    )
}

/// The clause `eq_trans` as a rule.
pub fn eq_trans_rule() -> (r: Rule)
    ensures
        r@ == eq_trans(),
        r.wf(),
{
    horn2(
        tbox(var(0), con(sameAs), var(1)),
        tbox(var(1), con(sameAs), var(2)),
        tbox(var(0), con(sameAs), var(2)),
        Guard::Always,
        3,
    )
}

/// The schema rules beyond the two hierarchies.
pub open spec fn extension_clauses() -> Seq<Clause> {
    seq![
        scm_cls_self(),
        scm_cls_equivalent(),
        scm_cls_thing(),
        scm_cls_nothing(),
        scm_eqc1_forth(),
        scm_eqc1_back(),
        scm_eqc2(),
        scm_op_self(),
        scm_op_equivalent(),
        scm_eqp1_forth(),
        scm_eqp1_back(),
        scm_eqp2(),
        scm_dom1(),
        scm_dom2(),
        scm_rng1(),
        scm_rng2(),
        scm_hv(),
        scm_svf1(),
        scm_svf2(),
        scm_avf1(),
        scm_avf2(),
        scm_int(),
        scm_uni(),
        eq_sym(),
        eq_trans(),
    ]
}

/// The clauses of `extension_clauses` as rules, in the same order.
pub fn extension_rules() -> (rules: Vec<Rule>)
    ensures
        views(rules@) == extension_clauses(),
        all_wf(rules@),
{
    let mut rules: Vec<Rule> = Vec::new();
    rules.push(scm_cls_self_rule());
    rules.push(scm_cls_equivalent_rule());
    rules.push(scm_cls_thing_rule());
    rules.push(scm_cls_nothing_rule());
    rules.push(scm_eqc1_forth_rule());
    rules.push(scm_eqc1_back_rule());
    rules.push(scm_eqc2_rule());
    rules.push(scm_op_self_rule());
    rules.push(scm_op_equivalent_rule());
    rules.push(scm_eqp1_forth_rule());
    rules.push(scm_eqp1_back_rule());
    rules.push(scm_eqp2_rule());
    rules.push(scm_dom1_rule());
    rules.push(scm_dom2_rule());
    rules.push(scm_rng1_rule());
    rules.push(scm_rng2_rule());
    rules.push(scm_hv_rule());
    rules.push(scm_svf1_rule());
    rules.push(scm_svf2_rule());
    rules.push(scm_avf1_rule());
    rules.push(scm_avf2_rule());
    rules.push(scm_int_rule());
    rules.push(scm_uni_rule());
    rules.push(eq_sym_rule());
    rules.push(eq_trans_rule());
    proof {
        assert(views(rules@) =~= extension_clauses());
    }
    rules
}

/// The schema program: the two hierarchies and the rules beyond them.
pub open spec fn schema_clauses() -> Seq<Clause> {
    hierarchy_clauses() + extension_clauses()
}

/// The clauses of `schema_clauses` as rules, in the same order.
pub fn schema_rules() -> (rules: Vec<Rule>)
    ensures
        views(rules@) == schema_clauses(),
        all_wf(rules@),
{
    let mut rules = hierarchy_rules();
    let mut more = extension_rules();
    let ghost start = rules@;
    let ghost second = more@;
    rules.append(&mut more);
    proof {
        assert(rules@ == start + second);
        assert(views(rules@) =~= views(start) + views(second));
        assert forall|k: int| 0 <= k < rules@.len() implies (#[trigger] rules@[k]).wf() by {
            if k < start.len() {
                assert(rules@[k] == start[k]);
            } else {
                assert(rules@[k] == second[k - start.len()]);
            }
        }
    }
    rules
}

} // verus!
