//! The instance rules of OWL 2 RL: what an assertion box entails under a
//! terminology box. Equalities that the rules find are kept apart from the
//! assertions and feed the replacement rules.

use crate::inference::horn::{clause, horn1, horn2, horn3, horn4};
use crate::inference::rule::{
    abox, all_wf, con, member, same, tbox, var, views, Clause, Guard, Rule,
};
use crate::model::consts::constants::owl::{
    allValuesFrom, equivalentClass, equivalentProperty, hasValue, inverseOf, onProperty, oneOf,
    sameAs, someValuesFrom, FunctionalProperty, InverseFunctionalProperty, SymmetricProperty,
    Thing, TransitiveProperty,
};
use crate::model::consts::constants::rdfs::{
    domain, first, range, subClassOf, subPropertyOf, type_,
};
use vstd::prelude::*;

verus! {

/// `(c1 subClassOf c2)` and `(x type c1)` give `(x type c2)`.
pub open spec fn cax_sco() -> Clause {
    clause(
        seq![
            tbox(var(0), con(subClassOf), var(1)),
            abox(var(2), con(type_), var(0)),
        ],
        abox(var(2), con(type_), var(1)),
        Guard::Always,
    )
}

/// The clause `cax_sco` as a rule.
pub fn cax_sco_rule() -> (r: Rule)
    ensures
        r@ == cax_sco(),
        r.wf(),
{
    horn2(
        tbox(var(0), con(subClassOf), var(1)),
        abox(var(2), con(type_), var(0)),
        abox(var(2), con(type_), var(1)),
        Guard::Always,
        3,
    )
}

/// `(c1 equivalentClass c2)` and `(x type c1)` give `(x type c2)`.
pub open spec fn cax_eqc1() -> Clause {
    clause(
        seq![
            tbox(var(0), con(equivalentClass), var(1)),
            abox(var(2), con(type_), var(0)),
        ],
        abox(var(2), con(type_), var(1)),
        Guard::Always,
    )
}

/// The clause `cax_eqc1` as a rule.
pub fn cax_eqc1_rule() -> (r: Rule)
    ensures
        r@ == cax_eqc1(),
        r.wf(),
{
    horn2(
        tbox(var(0), con(equivalentClass), var(1)),
        abox(var(2), con(type_), var(0)),
        abox(var(2), con(type_), var(1)),
        Guard::Always,
        3,
    )
}

/// `(c1 equivalentClass c2)` and `(x type c2)` give `(x type c1)`.
pub open spec fn cax_eqc2() -> Clause {
    clause(
        seq![
            tbox(var(0), con(equivalentClass), var(1)),
            abox(var(2), con(type_), var(1)),
        ],
        abox(var(2), con(type_), var(0)),
        Guard::Always,
    )
}

/// The clause `cax_eqc2` as a rule.
pub fn cax_eqc2_rule() -> (r: Rule)
    ensures
        r@ == cax_eqc2(),
        r.wf(),
{
    horn2(
        tbox(var(0), con(equivalentClass), var(1)),
        abox(var(2), con(type_), var(1)),
        abox(var(2), con(type_), var(0)),
        Guard::Always,
        3,
    )
}

/// An equality of the terminology box is an equality.
pub open spec fn same_given() -> Clause {
    clause(
        seq![
            tbox(var(0), con(sameAs), var(1)),
        ],
        same(var(0), con(sameAs), var(1)),
        Guard::Always,
    )
}

/// The clause `same_given` as a rule.
pub fn same_given_rule() -> (r: Rule)
    ensures
        r@ == same_given(),
        r.wf(),
{
    horn1(
        tbox(var(0), con(sameAs), var(1)),
        same(var(0), con(sameAs), var(1)),
        Guard::Always,
        2,
    )
}

/// Equality is symmetric.
pub open spec fn eq_sym_found() -> Clause {
    clause(
        seq![
            same(var(0), con(sameAs), var(1)),
        ],
        same(var(1), con(sameAs), var(0)),
        Guard::Always,
    )
}

/// The clause `eq_sym_found` as a rule.
pub fn eq_sym_found_rule() -> (r: Rule)
    ensures
        r@ == eq_sym_found(),
        r.wf(),
{
    horn1(
        same(var(0), con(sameAs), var(1)),
        same(var(1), con(sameAs), var(0)),
        Guard::Always,
        2,
    )
}

/// Equality is transitive.
pub open spec fn eq_trans_found() -> Clause {
    clause(
        seq![
            same(var(0), con(sameAs), var(1)),
            same(var(1), con(sameAs), var(2)),
        ],
        same(var(0), con(sameAs), var(2)),
        Guard::Always,
    )
}

/// The clause `eq_trans_found` as a rule.
pub fn eq_trans_found_rule() -> (r: Rule)
    ensures
        r@ == eq_trans_found(),
        r.wf(),
{
    horn2(
        same(var(0), con(sameAs), var(1)),
        same(var(1), con(sameAs), var(2)),
        same(var(0), con(sameAs), var(2)),
        Guard::Always,
        3,
    )
}

/// `(s sameAs s2)` and `(s p o)` give `(s2 p o)`.
pub open spec fn eq_rep_s() -> Clause {
    clause(
        seq![
            same(var(0), con(sameAs), var(1)),
            abox(var(0), var(2), var(3)),
        ],
        abox(var(1), var(2), var(3)),
        Guard::Always,
    )
}

/// The clause `eq_rep_s` as a rule.
pub fn eq_rep_s_rule() -> (r: Rule)
    ensures
        r@ == eq_rep_s(),
        r.wf(),
{
    horn2(
        same(var(0), con(sameAs), var(1)),
        abox(var(0), var(2), var(3)),
        abox(var(1), var(2), var(3)),
        Guard::Always,
        4,
    )
}

/// `(p sameAs p2)` and `(s p o)` give `(s p2 o)`.
pub open spec fn eq_rep_p() -> Clause {
    clause(
        seq![
            same(var(0), con(sameAs), var(1)),
            abox(var(2), var(0), var(3)),
        ],
        abox(var(2), var(1), var(3)),
        Guard::Always,
    )
}

/// The clause `eq_rep_p` as a rule.
pub fn eq_rep_p_rule() -> (r: Rule)
    ensures
        r@ == eq_rep_p(),
        r.wf(),
{
    horn2(
        same(var(0), con(sameAs), var(1)),
        abox(var(2), var(0), var(3)),
        abox(var(2), var(1), var(3)),
        Guard::Always,
        4,
    )
}

/// `(o sameAs o2)` and `(s p o)` give `(s p o2)`.
pub open spec fn eq_rep_o() -> Clause {
    clause(
        seq![
            same(var(0), con(sameAs), var(1)),
            abox(var(2), var(3), var(0)),
        ],
        abox(var(2), var(3), var(1)),
        Guard::Always,
    )
}

/// The clause `eq_rep_o` as a rule.
pub fn eq_rep_o_rule() -> (r: Rule)
    ensures
        r@ == eq_rep_o(),
        r.wf(),
{
    horn2(
        same(var(0), con(sameAs), var(1)),
        abox(var(2), var(3), var(0)),
        abox(var(2), var(3), var(1)),
        Guard::Always,
        4,
    )
}

/// `(p domain c)` and `(x p y)` give `(x type c)`.
pub open spec fn prp_dom() -> Clause {
    clause(
        seq![
            tbox(var(0), con(domain), var(1)),
            abox(var(2), var(0), var(3)),
        ],
        abox(var(2), con(type_), var(1)),
        Guard::Always,
    )
}

/// The clause `prp_dom` as a rule.
pub fn prp_dom_rule() -> (r: Rule)
    ensures
        r@ == prp_dom(),
        r.wf(),
{
    horn2(
        tbox(var(0), con(domain), var(1)),
        abox(var(2), var(0), var(3)),
        abox(var(2), con(type_), var(1)),
        Guard::Always,
        4,
    )
}

/// `(p range c)` and `(x p y)` give `(y type c)`.
pub open spec fn prp_rng() -> Clause {
    clause(
        seq![
            tbox(var(0), con(range), var(1)),
            abox(var(2), var(0), var(3)),
        ],
        abox(var(3), con(type_), var(1)),
        Guard::Always,
    )
}

/// The clause `prp_rng` as a rule.
pub fn prp_rng_rule() -> (r: Rule)
    ensures
        r@ == prp_rng(),
        r.wf(),
{
    horn2(
        tbox(var(0), con(range), var(1)),
        abox(var(2), var(0), var(3)),
        abox(var(3), con(type_), var(1)),
        Guard::Always,
        4,
    )
}

/// `(p type FunctionalProperty)`, `(x p y1)` and `(x p y2)` with `y1` other than `y2` give the equality `(y1 sameAs y2)`.
pub open spec fn prp_fp() -> Clause {
    clause(
        seq![
            tbox(var(0), con(type_), con(FunctionalProperty)),
            abox(var(1), var(0), var(2)),
            abox(var(1), var(0), var(3)),
        ],
        same(var(2), con(sameAs), var(3)),
        Guard::Distinct(2, 3),
    )
}

/// The clause `prp_fp` as a rule.
pub fn prp_fp_rule() -> (r: Rule)
    ensures
        r@ == prp_fp(),
        r.wf(),
{
    horn3(
        tbox(var(0), con(type_), con(FunctionalProperty)),
        abox(var(1), var(0), var(2)),
        abox(var(1), var(0), var(3)),
        same(var(2), con(sameAs), var(3)),
        Guard::Distinct(2, 3),
        4,
    )
}

/// `(p type InverseFunctionalProperty)`, `(x1 p y)` and `(x2 p y)` with `x1` other than `x2` give the equality `(x1 sameAs x2)`.
pub open spec fn prp_ifp() -> Clause {
    clause(
        seq![
            tbox(var(0), con(type_), con(InverseFunctionalProperty)),
            abox(var(1), var(0), var(3)),
            abox(var(2), var(0), var(3)),
        ],
        same(var(1), con(sameAs), var(2)),
        Guard::Distinct(1, 2),
    )
}

/// The clause `prp_ifp` as a rule.
pub fn prp_ifp_rule() -> (r: Rule)
    ensures
        r@ == prp_ifp(),
        r.wf(),
{
    horn3(
        tbox(var(0), con(type_), con(InverseFunctionalProperty)),
        abox(var(1), var(0), var(3)),
        abox(var(2), var(0), var(3)),
        same(var(1), con(sameAs), var(2)),
        Guard::Distinct(1, 2),
        4,
    )
}

/// `(p type SymmetricProperty)` and `(x p y)` give `(y p x)`.
pub open spec fn prp_symp() -> Clause {
    clause(
        seq![
            tbox(var(0), con(type_), con(SymmetricProperty)),
            abox(var(1), var(0), var(2)),
        ],
        abox(var(2), var(0), var(1)),
        Guard::Always,
    )
}

/// The clause `prp_symp` as a rule.
pub fn prp_symp_rule() -> (r: Rule)
    ensures
        r@ == prp_symp(),
        r.wf(),
{
    horn2(
        tbox(var(0), con(type_), con(SymmetricProperty)),
        abox(var(1), var(0), var(2)),
        abox(var(2), var(0), var(1)),
        Guard::Always,
        3,
    )
}

/// `(p type TransitiveProperty)`, `(x p y)` and `(y p z)` give `(x p z)`.
pub open spec fn prp_trp() -> Clause {
    clause(
        seq![
            tbox(var(0), con(type_), con(TransitiveProperty)),
            abox(var(1), var(0), var(2)),
            abox(var(2), var(0), var(3)),
        ],
        abox(var(1), var(0), var(3)),
        Guard::Always,
    )
}

/// The clause `prp_trp` as a rule.
pub fn prp_trp_rule() -> (r: Rule)
    ensures
        r@ == prp_trp(),
        r.wf(),
{
    horn3(
        tbox(var(0), con(type_), con(TransitiveProperty)),
        abox(var(1), var(0), var(2)),
        abox(var(2), var(0), var(3)),
        abox(var(1), var(0), var(3)),
        Guard::Always,
        4,
    )
}

/// `(p1 subPropertyOf p2)` and `(x p1 y)` give `(x p2 y)`.
pub open spec fn prp_spo1() -> Clause {
    clause(
        seq![
            tbox(var(0), con(subPropertyOf), var(1)),
            abox(var(2), var(0), var(3)),
        ],
        abox(var(2), var(1), var(3)),
        Guard::Always,
    )
}

/// The clause `prp_spo1` as a rule.
pub fn prp_spo1_rule() -> (r: Rule)
    ensures
        r@ == prp_spo1(),
        r.wf(),
{
    horn2(
        tbox(var(0), con(subPropertyOf), var(1)),
        abox(var(2), var(0), var(3)),
        abox(var(2), var(1), var(3)),
        Guard::Always,
        4,
    )
}

/// `(p1 equivalentProperty p2)` and `(x p1 y)` give `(x p2 y)`.
pub open spec fn prp_eqp1() -> Clause {
    clause(
        seq![
            tbox(var(0), con(equivalentProperty), var(1)),
            abox(var(2), var(0), var(3)),
        ],
        abox(var(2), var(1), var(3)),
        Guard::Always,
    )
}

/// The clause `prp_eqp1` as a rule.
pub fn prp_eqp1_rule() -> (r: Rule)
    ensures
        r@ == prp_eqp1(),
        r.wf(),
{
    horn2(
        tbox(var(0), con(equivalentProperty), var(1)),
        abox(var(2), var(0), var(3)),
        abox(var(2), var(1), var(3)),
        Guard::Always,
        4,
    )
}

/// `(p1 equivalentProperty p2)` and `(x p2 y)` give `(x p1 y)`.
pub open spec fn prp_eqp2() -> Clause {
    clause(
        seq![
            tbox(var(0), con(equivalentProperty), var(1)),
            abox(var(2), var(1), var(3)),
        ],
        abox(var(2), var(0), var(3)),
        Guard::Always,
    )
}

/// The clause `prp_eqp2` as a rule.
pub fn prp_eqp2_rule() -> (r: Rule)
    ensures
        r@ == prp_eqp2(),
        r.wf(),
{
    horn2(
        tbox(var(0), con(equivalentProperty), var(1)),
        abox(var(2), var(1), var(3)),
        abox(var(2), var(0), var(3)),
        Guard::Always,
        4,
    )
}

/// `(p1 inverseOf p2)` and `(x p1 y)` give `(y p2 x)`.
pub open spec fn prp_inv1() -> Clause {
    clause(
        seq![
            tbox(var(0), con(inverseOf), var(1)),
            abox(var(2), var(0), var(3)),
        ],
        abox(var(3), var(1), var(2)),
        Guard::Always,
    )
}

/// The clause `prp_inv1` as a rule.
pub fn prp_inv1_rule() -> (r: Rule)
    ensures
        r@ == prp_inv1(),
        r.wf(),
{
    horn2(
        tbox(var(0), con(inverseOf), var(1)),
        abox(var(2), var(0), var(3)),
        abox(var(3), var(1), var(2)),
        Guard::Always,
        4,
    )
}

/// `(p1 inverseOf p2)` and `(x p2 y)` give `(y p1 x)`.
pub open spec fn prp_inv2() -> Clause {
    clause(
        seq![
            tbox(var(0), con(inverseOf), var(1)),
            abox(var(2), var(1), var(3)),
        ],
        abox(var(3), var(0), var(2)),
        Guard::Always,
    )
}

/// The clause `prp_inv2` as a rule.
pub fn prp_inv2_rule() -> (r: Rule)
    ensures
        r@ == prp_inv2(),
        r.wf(),
{
    horn2(
        tbox(var(0), con(inverseOf), var(1)),
        abox(var(2), var(1), var(3)),
        abox(var(3), var(0), var(2)),
        Guard::Always,
        4,
    )
}

/// `(x someValuesFrom y)`, `(x onProperty p)`, `(u p v)` and `(v type y)` give `(u type x)`.
pub open spec fn cls_svf1() -> Clause {
    clause(
        seq![
            tbox(var(0), con(someValuesFrom), var(1)),
            tbox(var(0), con(onProperty), var(2)),
            abox(var(3), var(2), var(4)),
            abox(var(4), con(type_), var(1)),
        ],
        abox(var(3), con(type_), var(0)),
        Guard::Always,
    )
}

/// The clause `cls_svf1` as a rule.
pub fn cls_svf1_rule() -> (r: Rule)
    ensures
        r@ == cls_svf1(),
        r.wf(),
{
    horn4(
        tbox(var(0), con(someValuesFrom), var(1)),
        tbox(var(0), con(onProperty), var(2)),
        abox(var(3), var(2), var(4)),
        abox(var(4), con(type_), var(1)),
        abox(var(3), con(type_), var(0)),
        Guard::Always,
        5,
    )
}

/// `(x someValuesFrom Thing)`, `(x onProperty p)` and `(u p v)` give `(u type x)`.
pub open spec fn cls_svf2() -> Clause {
    clause(
        seq![
            tbox(var(0), con(someValuesFrom), con(Thing)),
            tbox(var(0), con(onProperty), var(1)),
            abox(var(2), var(1), var(3)),
        ],
        abox(var(2), con(type_), var(0)),
        Guard::Always,
    )
}

/// The clause `cls_svf2` as a rule.
pub fn cls_svf2_rule() -> (r: Rule)
    ensures
        r@ == cls_svf2(),
        r.wf(),
{
    horn3(
        tbox(var(0), con(someValuesFrom), con(Thing)),
        tbox(var(0), con(onProperty), var(1)),
        abox(var(2), var(1), var(3)),
        abox(var(2), con(type_), var(0)),
        Guard::Always,
        4,
    )
}

/// `(x allValuesFrom y)`, `(x onProperty p)`, `(u type x)` and `(u p v)` give `(v type y)`.
pub open spec fn cls_avf() -> Clause {
    clause(
        seq![
            tbox(var(0), con(allValuesFrom), var(1)),
            tbox(var(0), con(onProperty), var(2)),
            abox(var(3), con(type_), var(0)),
            abox(var(3), var(2), var(4)),
        ],
        abox(var(4), con(type_), var(1)),
        Guard::Always,
    )
}

/// The clause `cls_avf` as a rule.
pub fn cls_avf_rule() -> (r: Rule)
    ensures
        r@ == cls_avf(),
        r.wf(),
{
    horn4(
        tbox(var(0), con(allValuesFrom), var(1)),
        tbox(var(0), con(onProperty), var(2)),
        abox(var(3), con(type_), var(0)),
        abox(var(3), var(2), var(4)),
        abox(var(4), con(type_), var(1)),
        Guard::Always,
        5,
    )
}

/// `(x hasValue y)`, `(x onProperty p)` and `(u type x)` give `(u p y)`.
pub open spec fn cls_hv1() -> Clause {
    clause(
        seq![
            tbox(var(0), con(hasValue), var(1)),
            tbox(var(0), con(onProperty), var(2)),
            abox(var(3), con(type_), var(0)),
        ],
        abox(var(3), var(2), var(1)),
        Guard::Always,
    )
}

/// The clause `cls_hv1` as a rule.
pub fn cls_hv1_rule() -> (r: Rule)
    ensures
        r@ == cls_hv1(),
        r.wf(),
{
    horn3(
        tbox(var(0), con(hasValue), var(1)),
        tbox(var(0), con(onProperty), var(2)),
        abox(var(3), con(type_), var(0)),
        abox(var(3), var(2), var(1)),
        Guard::Always,
        4,
    )
}

/// `(x hasValue y)`, `(x onProperty p)` and `(u p y)` give `(u type x)`.
pub open spec fn cls_hv2() -> Clause {
    clause(
        seq![
            tbox(var(0), con(hasValue), var(1)),
            tbox(var(0), con(onProperty), var(2)),
            abox(var(3), var(2), var(1)),
        ],
        abox(var(3), con(type_), var(0)),
        Guard::Always,
    )
}

/// The clause `cls_hv2` as a rule.
pub fn cls_hv2_rule() -> (r: Rule)
    ensures
        r@ == cls_hv2(),
        r.wf(),
{
    horn3(
        tbox(var(0), con(hasValue), var(1)),
        tbox(var(0), con(onProperty), var(2)),
        abox(var(3), var(2), var(1)),
        abox(var(3), con(type_), var(0)),
        Guard::Always,
        4,
    )
}

/// `(c oneOf x)` gives `(m type c)` for every member `m` of the list `x`.
/// The predicate `oneOf` is 46, one above the reserved block.
pub open spec fn cls_oo() -> Clause {
    clause(
        seq![
            tbox(var(0), con(oneOf), var(1)),
            member(var(1), con(first), var(2)),
        ],
        abox(var(2), con(type_), var(0)),
        Guard::Always,
    )
}

/// The clause `cls_oo` as a rule.
pub fn cls_oo_rule() -> (r: Rule)
    ensures
        r@ == cls_oo(),
        r.wf(),
{
    horn2(
        tbox(var(0), con(oneOf), var(1)),
        member(var(1), con(first), var(2)),
        abox(var(2), con(type_), var(0)),
        Guard::Always,
        3,
    )
}

/// The instance rules that do not depend on a list's length.
pub open spec fn instance_clauses() -> Seq<Clause> {
    seq![
        cax_sco(),
        cax_eqc1(),
        cax_eqc2(),
        same_given(),
        eq_sym_found(),
        eq_trans_found(),
        eq_rep_s(),
        eq_rep_p(),
        eq_rep_o(),
        prp_dom(),
        prp_rng(),
        prp_fp(),
        prp_ifp(),
        prp_symp(),
        prp_trp(),
        prp_spo1(),
        prp_eqp1(),
        prp_eqp2(),
        prp_inv1(),
        prp_inv2(),
        cls_svf1(),
        cls_svf2(),
        cls_avf(),
        cls_hv1(),
        cls_hv2(),
        cls_oo(),
    ]
}

/// The clauses of `instance_clauses` as rules, in the same order.
pub fn instance_rules() -> (rules: Vec<Rule>)
    ensures
        views(rules@) == instance_clauses(),
        all_wf(rules@),
{
    let mut rules: Vec<Rule> = Vec::new();
    rules.push(cax_sco_rule());
    rules.push(cax_eqc1_rule());
    rules.push(cax_eqc2_rule());
    rules.push(same_given_rule());
    rules.push(eq_sym_found_rule());
    rules.push(eq_trans_found_rule());
    rules.push(eq_rep_s_rule());
    rules.push(eq_rep_p_rule());
    rules.push(eq_rep_o_rule());
    rules.push(prp_dom_rule());
    rules.push(prp_rng_rule());
    rules.push(prp_fp_rule());
    rules.push(prp_ifp_rule());
    rules.push(prp_symp_rule());
    rules.push(prp_trp_rule());
    rules.push(prp_spo1_rule());
    rules.push(prp_eqp1_rule());
    rules.push(prp_eqp2_rule());
    rules.push(prp_inv1_rule());
    rules.push(prp_inv2_rule());
    rules.push(cls_svf1_rule());
    rules.push(cls_svf2_rule());
    rules.push(cls_avf_rule());
    rules.push(cls_hv1_rule());
    rules.push(cls_hv2_rule());
    rules.push(cls_oo_rule());
    proof {
        assert(views(rules@) =~= instance_clauses());
    }
    rules
}

} // verus!
