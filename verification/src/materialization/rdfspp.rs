//! The RDFS++ profile: RDFS with inverse properties and transitive properties,
//! where the property assertions are closed under all their rules together.

use crate::collection::relation;
use crate::inference::horn::{clause, horn2, horn3};
use crate::inference::model::least_model;
use crate::inference::rule::{
    all_wf, con, property, tbox, var, views, Clause, Guard, Rel, Rule,
};
use crate::materialization::common::close;
use crate::materialization::rdfs::{collect_base, rdfs_clauses, rdfs_rules, stage_base};
use crate::model::consts::constants::owl::{inverseOf, TransitiveProperty};
use crate::model::consts::constants::rdfs::{subPropertyOf, type_};
use crate::model::types::{List, Triple};
use vstd::prelude::*;

verus! {

/// Property transport on what was inferred: `(p1 subPropertyOf p2)` and the property assertion `(s p1 o)` give `(s p2 o)`.
pub open spec fn spo_step() -> Clause {
    clause(
        seq![
            tbox(var(0), con(subPropertyOf), var(1)),
            property(var(2), var(0), var(3)),
        ],
        property(var(2), var(1), var(3)),
        Guard::Always,
    )
}

/// The clause `spo_step` as a rule.
pub fn spo_step_rule() -> (r: Rule)
    ensures
        r@ == spo_step(),
        r.wf(),
{
    horn2(
        tbox(var(0), con(subPropertyOf), var(1)),
        property(var(2), var(0), var(3)),
        property(var(2), var(1), var(3)),
        Guard::Always,
        4,
    )
}

/// Inverse properties: `(p1 inverseOf p2)` and `(x p1 y)` give `(y p2 x)`.
pub open spec fn inverse_forth() -> Clause {
    clause(
        seq![
            tbox(var(0), con(inverseOf), var(1)),
            property(var(2), var(0), var(3)),
        ],
        property(var(3), var(1), var(2)),
        Guard::Always,
    )
}

/// The clause `inverse_forth` as a rule.
pub fn inverse_forth_rule() -> (r: Rule)
    ensures
        r@ == inverse_forth(),
        r.wf(),
{
    horn2(
        tbox(var(0), con(inverseOf), var(1)),
        property(var(2), var(0), var(3)),
        property(var(3), var(1), var(2)),
        Guard::Always,
        4,
    )
}

/// Inverse properties: `(p1 inverseOf p2)` and `(x p2 y)` give `(y p1 x)`.
pub open spec fn inverse_back() -> Clause {
    clause(
        seq![
            tbox(var(0), con(inverseOf), var(1)),
            property(var(2), var(1), var(3)),
        ],
        property(var(3), var(0), var(2)),
        Guard::Always,
    )
}

/// The clause `inverse_back` as a rule.
pub fn inverse_back_rule() -> (r: Rule)
    ensures
        r@ == inverse_back(),
        r.wf(),
{
    horn2(
        tbox(var(0), con(inverseOf), var(1)),
        property(var(2), var(1), var(3)),
        property(var(3), var(0), var(2)),
        Guard::Always,
        4,
    )
}

/// Transitivity: `(p type TransitiveProperty)`, `(x p y)` and `(y p z)` give `(x p z)`.
pub open spec fn transitive_step() -> Clause {
    clause(
        seq![
            tbox(var(0), con(type_), con(TransitiveProperty)),
            property(var(1), var(0), var(2)),
            property(var(2), var(0), var(3)),
        ],
        property(var(1), var(0), var(3)),
        Guard::Always,
    )
}

/// The clause `transitive_step` as a rule.
pub fn transitive_step_rule() -> (r: Rule)
    ensures
        r@ == transitive_step(),
        r.wf(),
{
    horn3(
        tbox(var(0), con(type_), con(TransitiveProperty)),
        property(var(1), var(0), var(2)),
        property(var(2), var(0), var(3)),
        property(var(1), var(0), var(3)),
        Guard::Always,
        4,
    )
}

/// The four rules that feed the property assertions back into themselves.
pub open spec fn closure_clauses() -> Seq<Clause> {
    seq![
        spo_step(),
        inverse_forth(),
        inverse_back(),
        transitive_step(),
    ]
}

/// The clauses of `closure_clauses` as rules, in the same order.
pub fn closure_rules() -> (rules: Vec<Rule>)
    ensures
        views(rules@) == closure_clauses(),
        all_wf(rules@),
{
    let mut rules: Vec<Rule> = Vec::new();
    rules.push(spo_step_rule());
    rules.push(inverse_forth_rule());
    rules.push(inverse_back_rule());
    rules.push(transitive_step_rule());
    proof {
        assert(views(rules@) =~= closure_clauses());
    }
    rules
}

/// The RDFS++ program: the RDFS program and the four feedback rules.
pub open spec fn rdfspp_clauses() -> Seq<Clause> {
    rdfs_clauses() + closure_clauses()
}

/// The clauses of `rdfspp_clauses` as rules, in the same order.
pub fn rdfspp_rules() -> (rules: Vec<Rule>)
    ensures
        views(rules@) == rdfspp_clauses(),
        all_wf(rules@),
{
    let mut rules = rdfs_rules();
    let mut more = closure_rules();
    let ghost first = rules@;
    let ghost second = more@;
    rules.append(&mut more);
    proof {
        assert(rules@ == first + second);
        assert(views(rules@) =~= views(first) + views(second));
        assert forall|k: int| 0 <= k < rules@.len() implies (#[trigger] rules@[k]).wf() by {
            if k < first.len() {
                assert(rules@[k] == first[k]);
            } else {
                assert(rules@[k] == second[k - first.len()]);
            }
        }
    }
    rules
}

/// What RDFS++ entails from an assertion box under a terminology box.
pub open spec fn rdfspp_entailment(tbox: Set<Triple>, abox: Set<Triple>) -> Set<Triple> {
    relation(least_model(rdfspp_clauses().to_set(), stage_base(tbox, abox)), Rel::Entailed)
}

/// The RDFS++ second stage: the assertion box with what RDFS++ entails from it, each triple once.
pub fn rdfspp(tbox: &Vec<Triple>, _lists: &Vec<List>, abox: &Vec<Triple>) -> (r: Vec<Triple>)
    ensures
        r@.no_duplicates(),
        r@.to_set() == rdfspp_entailment(tbox@.to_set(), abox@.to_set()),
{
    let rules = rdfspp_rules();
    let base = collect_base(tbox, abox);
    close(&rules, &base, Rel::Entailed)
}

} // verus!
