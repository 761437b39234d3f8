//! What the profiles share: the class and property hierarchies, the type
//! inferences of RDFS, and the pass-through stages.

use crate::collection::{fact, project, relation, tag, tagged};
use crate::inference::matcher::lemma_push_contains;
use crate::inference::horn::{clause, horn2};
use crate::inference::model::{
    least_model, lemma_least_model_includes_base, lemma_least_model_least, lemma_rule_applies,
    saturate,
};
use crate::inference::rule::{
    all_wf, con, derives, entails, ground, lemma_program_views, satisfies, tbox, var, views,
    Clause, Fact, Guard, Rel, Rule,
};
use crate::model::consts::constants::rdfs::{subClassOf, subPropertyOf};
use crate::model::types::{KeyedTriple, List, Triple, Tuple};
use vstd::prelude::*;

verus! {

/// Subclass is transitive: `(c1 subClassOf c2)` and `(c2 subClassOf c3)` give `(c1 subClassOf c3)`.
pub open spec fn scm_sco() -> Clause {
    clause(
        seq![
            tbox(var(0), con(subClassOf), var(1)),
            tbox(var(1), con(subClassOf), var(2)),
        ],
        tbox(var(0), con(subClassOf), var(2)),
        Guard::Always,
    )
}

/// The clause `scm_sco` as a rule.
pub fn scm_sco_rule() -> (r: Rule)
    ensures
        r@ == scm_sco(),
        r.wf(),
{
    horn2(
        tbox(var(0), con(subClassOf), var(1)),
        tbox(var(1), con(subClassOf), var(2)),
        tbox(var(0), con(subClassOf), var(2)),
        Guard::Always,
        3,
    )
}

/// Subproperty is transitive: `(p1 subPropertyOf p2)` and `(p2 subPropertyOf p3)` give `(p1 subPropertyOf p3)`.
pub open spec fn scm_spo() -> Clause {
    clause(
        seq![
            tbox(var(0), con(subPropertyOf), var(1)),
            tbox(var(1), con(subPropertyOf), var(2)),
        ],
        tbox(var(0), con(subPropertyOf), var(2)),
        Guard::Always,
    )
}

/// The clause `scm_spo` as a rule.
pub fn scm_spo_rule() -> (r: Rule)
    ensures
        r@ == scm_spo(),
        r.wf(),
{
    horn2(
        tbox(var(0), con(subPropertyOf), var(1)),
        tbox(var(1), con(subPropertyOf), var(2)),
        tbox(var(0), con(subPropertyOf), var(2)),
        Guard::Always,
        3,
    )
}

/// The two transitivity rules of the class and the property hierarchy.
pub open spec fn hierarchy_clauses() -> Seq<Clause> {
    seq![
        scm_sco(),
        scm_spo(),
    ]
}

/// The clauses of `hierarchy_clauses` as rules, in the same order.
pub fn hierarchy_rules() -> (rules: Vec<Rule>)
    ensures
        views(rules@) == hierarchy_clauses(),
        all_wf(rules@),
{
    let mut rules: Vec<Rule> = Vec::new();
    rules.push(scm_sco_rule());
    rules.push(scm_spo_rule());
    proof {
        assert(views(rules@) =~= hierarchy_clauses());
    }
    rules
}

/// The least model of `rules` over `base`, read in relation `rel`.
pub fn close(rules: &Vec<Rule>, base: &Vec<Fact>, rel: Rel) -> (r: Vec<Triple>)
    requires
        all_wf(rules@),
    ensures
        r@.no_duplicates(),
        r@.to_set() == relation(least_model(views(rules@).to_set(), base@.to_set()), rel),
{
    proof {
        lemma_program_views(rules@);
    }
    let model = saturate(rules, base);
    project(&model, rel)
}

/// The list that stands in where a profile expands none: `(0, [0])`.
pub open spec fn placeholder_lists(lists: Seq<List>) -> bool {
    lists.len() == 1 && lists[0].0 == 0 && lists[0].1@ == seq![0u32]
}

/// Makes the list that stands in where a profile expands none.
pub fn placeholder() -> (lists: Vec<List>)
    ensures
        placeholder_lists(lists@),
{
    let mut members: Vec<u32> = Vec::new();
    members.push(0);
    let mut lists: Vec<List> = Vec::new();
    lists.push((0, members));
    lists
}

/// A copy of `v`.
pub fn copy_triples(v: &Vec<Triple>) -> (r: Vec<Triple>)
    ensures
        r@ == v@,
{
    let mut r: Vec<Triple> = Vec::new();
    let mut i: usize = 0;
    while i < v.len()
        invariant
            i <= v.len(),
            r@ == v@.take(i as int),
        decreases v.len() - i,
    {
        r.push(v[i]);
        i += 1;
        assert(r@ == v@.take(i as int));
    }
    assert(v@.take(v@.len() as int) == v@);
    r
}

/// The first stage that infers nothing: the terminology box as it came, and the placeholder list.
pub fn dummy_first_stage_materialization(collection: &Vec<Triple>) -> (r: (Vec<Triple>, Vec<List>))
    ensures
        r.0@ == collection@,
        placeholder_lists(r.1@),
{
    (copy_triples(collection), placeholder())
}

/// The second stage that infers nothing: the assertion box as it came.
pub fn dummy_second_stage_materialization(
    _collection_one: &Vec<Triple>,
    _list_collection_one: &Vec<List>,
    collection_two: &Vec<Triple>,
) -> (r: Vec<Triple>)
    ensures
        r@ == collection_two@,
{
    copy_triples(collection_two)
}

/// The terminology box closed under the transitivity of `subClassOf` and of
/// `subPropertyOf`; every other triple passes through.
pub open spec fn tbox_spo_sco_closure(tbox: Set<Triple>) -> Set<Triple> {
    relation(least_model(hierarchy_clauses().to_set(), tagged(Rel::Tbox, tbox)), Rel::Tbox)
}

/// The `i`-th step of a chain is a triple of the box with predicate `p`.
pub open spec fn step(tbox: Set<Triple>, p: u32, chain: Seq<u32>, i: int) -> bool {
    tbox.contains((chain[i], p, chain[i + 1]))
}

/// `chain` walks through the box along the predicate `p`, in one step or more.
pub open spec fn links(tbox: Set<Triple>, p: u32, chain: Seq<u32>) -> bool {
    chain.len() >= 2 && forall|i: int| 0 <= i < chain.len() - 1 ==> #[trigger] step(tbox, p, chain, i)
}

/// Some chain along `p` leads from `s` to `o`.
pub open spec fn reaches(tbox: Set<Triple>, p: u32, s: u32, o: u32) -> bool {
    exists|chain: Seq<u32>| #[trigger] links(tbox, p, chain) && chain[0] == s && chain.last() == o
}

/// The closure of the hierarchies, said without rules: the box itself, and
/// `(s subClassOf o)` or `(s subPropertyOf o)` wherever a chain of such
/// triples leads from `s` to `o`.
pub open spec fn hierarchy_direct(tbox: Set<Triple>) -> Set<Triple> {
    Set::new(
        |x: Triple|
            tbox.contains(x) || ((x.1 == subClassOf || x.1 == subPropertyOf) && reaches(
                tbox,
                x.1,
                x.0,
                x.2,
            )),
    )
}

proof fn lemma_chain_of_one(tbox: Set<Triple>, x: Triple)
    requires
        tbox.contains(x),
    ensures
        reaches(tbox, x.1, x.0, x.2),
{
    let chain = seq![x.0, x.2];
    assert forall|i: int| 0 <= i < chain.len() - 1 implies #[trigger] step(tbox, x.1, chain, i) by {
        assert(chain[0] == x.0 && chain[1] == x.2);
    }
    assert(links(tbox, x.1, chain));
}

proof fn lemma_chains_join(tbox: Set<Triple>, p: u32, s: u32, m: u32, o: u32)
    requires
        reaches(tbox, p, s, m),
        reaches(tbox, p, m, o),
    ensures
        reaches(tbox, p, s, o),
{
    let one = choose|chain: Seq<u32>| #[trigger] links(tbox, p, chain) && chain[0] == s && chain.last() == m;
    let two = choose|chain: Seq<u32>| #[trigger] links(tbox, p, chain) && chain[0] == m && chain.last() == o;
    let both = one + two.skip(1);
    assert forall|i: int| 0 <= i < both.len() - 1 implies #[trigger] step(tbox, p, both, i) by {
        if i < one.len() - 1 {
            assert(step(tbox, p, one, i));
        } else {
            let j = i - (one.len() - 1);
            assert(step(tbox, p, two, j));
            assert(both[i] == two[j]);
            assert(both[i + 1] == two[j + 1]);
        }
    }
    assert(links(tbox, p, both));
    assert(both[0] == s);
    assert(both.last() == o);
}

proof fn lemma_hierarchy_has(c: Clause, k: int)
    requires
        0 <= k < hierarchy_clauses().len(),
        hierarchy_clauses()[k] == c,
    ensures
        hierarchy_clauses().to_set().contains(c),
{
    assert(hierarchy_clauses().contains(c));
}

proof fn lemma_chain_is_derived(tbox: Set<Triple>, p: u32, chain: Seq<u32>)
    requires
        links(tbox, p, chain),
        p == subClassOf || p == subPropertyOf,
    ensures
        least_model(hierarchy_clauses().to_set(), tagged(Rel::Tbox, tbox)).contains(
            fact(Rel::Tbox, (chain[0], p, chain.last())),
        ),
    decreases chain.len(),
{
    let rules = hierarchy_clauses().to_set();
    let base = tagged(Rel::Tbox, tbox);
    let least = least_model(rules, base);
    let n = chain.len() as int;
    lemma_least_model_includes_base(rules, base);
    assert(step(tbox, p, chain, n - 2));
    assert(base.contains(fact(Rel::Tbox, (chain[n - 2], p, chain[n - 1]))));
    if n > 2 {
        let front = chain.drop_last();
        assert forall|i: int| 0 <= i < front.len() - 1 implies #[trigger] step(tbox, p, front, i) by {
            assert(step(tbox, p, chain, i));
        }
        lemma_chain_is_derived(tbox, p, front);
        let c = if p == subClassOf {
            scm_sco()
        } else {
            scm_spo()
        };
        if p == subClassOf {
            lemma_hierarchy_has(c, 0);
        } else {
            lemma_hierarchy_has(c, 1);
        }
        let b = seq![chain[0], chain[n - 2], chain[n - 1]];
        assert forall|i: int| 0 <= i < c.body.len() implies least.contains(
            #[trigger] ground(c.body[i], b),
        ) by {
            if i == 0 {
                assert(ground(c.body[0], b) == fact(Rel::Tbox, (front[0], p, front.last())));
            } else {
                assert(ground(c.body[1], b) == fact(Rel::Tbox, (chain[n - 2], p, chain[n - 1])));
            }
        }
        lemma_rule_applies(rules, base, c, b);
        assert(ground(c.head, b) == fact(Rel::Tbox, (chain[0], p, chain.last())));
    }
}

/// The closure of the hierarchies is what `hierarchy_direct` says.
pub proof fn lemma_hierarchy_is_direct(tbox: Set<Triple>)
    ensures
        tbox_spo_sco_closure(tbox) == hierarchy_direct(tbox),
{
    let rules = hierarchy_clauses().to_set();
    let base = tagged(Rel::Tbox, tbox);
    let m = tagged(Rel::Tbox, hierarchy_direct(tbox));
    assert forall|f: Fact| #[trigger] entails(rules, m, f) implies m.contains(f) by {
        let c = choose|c: Clause| rules.contains(c) && #[trigger] derives(c, m, f);
        let b = choose|b: Seq<u32>| #[trigger] satisfies(c, m, b) && f == ground(c.head, b);
        let k = choose|k: int| 0 <= k < hierarchy_clauses().len() && hierarchy_clauses()[k] == c;
        let g0 = ground(c.body[0], b);
        let g1 = ground(c.body[1], b);
        assert(m.contains(g0));
        assert(m.contains(g1));
        let p = f.p;
        if tbox.contains((g0.s, g0.p, g0.o)) {
            lemma_chain_of_one(tbox, (g0.s, g0.p, g0.o));
        }
        if tbox.contains((g1.s, g1.p, g1.o)) {
            lemma_chain_of_one(tbox, (g1.s, g1.p, g1.o));
        }
        lemma_chains_join(tbox, p, g0.s, g0.o, g1.o);
        assert(hierarchy_direct(tbox).contains((f.s, f.p, f.o)));
    }
    assert(base.subset_of(m));
    lemma_least_model_least(rules, base, m);
    lemma_least_model_includes_base(rules, base);
    assert forall|x: Triple| tbox_spo_sco_closure(tbox).contains(x) <==> hierarchy_direct(
        tbox,
    ).contains(x) by {
        let f = fact(Rel::Tbox, x);
        if least_model(rules, base).contains(f) {
            assert(m.contains(f));
        }
        if hierarchy_direct(tbox).contains(x) {
            if tbox.contains(x) {
                assert(base.contains(f));
            } else {
                let chain = choose|chain: Seq<u32>| #[trigger]
                    links(tbox, x.1, chain) && chain[0] == x.0 && chain.last() == x.2;
                lemma_chain_is_derived(tbox, x.1, chain);
            }
        }
    }
    assert(tbox_spo_sco_closure(tbox) =~= hierarchy_direct(tbox));
}

/// Closes the terminology box under the two hierarchies: the box itself and,
/// wherever a chain of `subClassOf` or of `subPropertyOf` leads from one
/// identifier to another, the triple that links the two. The lists are the placeholder.
pub fn tbox_spo_sco_materialization(tbox: &Vec<Triple>) -> (r: (Vec<Triple>, Vec<List>))
    ensures
        r.0@.no_duplicates(),
        r.0@.to_set() == tbox_spo_sco_closure(tbox@.to_set()),
        r.0@.to_set() == hierarchy_direct(tbox@.to_set()),
        placeholder_lists(r.1@),
{
    let rules = hierarchy_rules();
    let mut base: Vec<Fact> = Vec::new();
    tag(Rel::Tbox, tbox, &mut base);
    proof {
        assert(base@.to_set() =~= tagged(Rel::Tbox, tbox@.to_set()));
        lemma_hierarchy_is_direct(tbox@.to_set());
    }
    let closure = close(&rules, &base, Rel::Tbox);
    (closure, placeholder())
}

/// `e` joins the `i`-th entry of `left` and the `j`-th of `right`, and the
/// pair comes before `(i0, j0)` in the order of the two loops.
spec fn joined_before(
    left: Seq<Tuple>,
    right: Seq<KeyedTriple>,
    i0: int,
    j0: int,
    e: KeyedTriple,
) -> bool {
    exists|i: int, j: int|
        #![trigger left[i], right[j]]
        0 <= i < left.len() && 0 <= j < right.len() && (i < i0 || (i == i0 && j < j0))
            && left[i].0 == right[j].0 && e == (left[i].1, right[j].1)
}

proof fn lemma_joined_step(
    left: Seq<Tuple>,
    right: Seq<KeyedTriple>,
    i0: int,
    j0: int,
    e: KeyedTriple,
)
    requires
        0 <= i0 < left.len(),
        0 <= j0 < right.len(),
    ensures
        joined_before(left, right, i0, j0 + 1, e) <==> joined_before(left, right, i0, j0, e) || (
        left[i0].0 == right[j0].0 && e == (left[i0].1, right[j0].1)),
{
    if joined_before(left, right, i0, j0 + 1, e) {
        let (i, j) = choose|i: int, j: int|
            #![trigger left[i], right[j]]
            0 <= i < left.len() && 0 <= j < right.len() && (i < i0 || (i == i0 && j < j0 + 1))
                && left[i].0 == right[j].0 && e == (left[i].1, right[j].1);
        if i == i0 && j == j0 {
        } else {
            assert(left[i].0 == right[j].0 && e == (left[i].1, right[j].1));
        }
    }
    if joined_before(left, right, i0, j0, e) {
        let (i, j) = choose|i: int, j: int|
            #![trigger left[i], right[j]]
            0 <= i < left.len() && 0 <= j < right.len() && (i < i0 || (i == i0 && j < j0))
                && left[i].0 == right[j].0 && e == (left[i].1, right[j].1);
        assert(left[i].0 == right[j].0 && e == (left[i].1, right[j].1));
    }
    if left[i0].0 == right[j0].0 && e == (left[i0].1, right[j0].1) {
        assert(left[i0].0 == right[j0].0 && e == (left[i0].1, right[j0].1));
    }
}

proof fn lemma_joined_row(left: Seq<Tuple>, right: Seq<KeyedTriple>, i0: int, e: KeyedTriple)
    requires
        0 <= i0 < left.len(),
    ensures
        joined_before(left, right, i0, right.len() as int, e) <==> joined_before(
            left,
            right,
            i0 + 1,
            0,
            e,
        ),
{
    if joined_before(left, right, i0, right.len() as int, e) {
        let (i, j) = choose|i: int, j: int|
            #![trigger left[i], right[j]]
            0 <= i < left.len() && 0 <= j < right.len() && (i < i0 || (i == i0 && j < right.len()))
                && left[i].0 == right[j].0 && e == (left[i].1, right[j].1);
        assert(left[i].0 == right[j].0 && e == (left[i].1, right[j].1));
    }
    if joined_before(left, right, i0 + 1, 0, e) {
        let (i, j) = choose|i: int, j: int|
            #![trigger left[i], right[j]]
            0 <= i < left.len() && 0 <= j < right.len() && (i < i0 + 1 || (i == i0 + 1 && j < 0))
                && left[i].0 == right[j].0 && e == (left[i].1, right[j].1);
        assert(left[i].0 == right[j].0 && e == (left[i].1, right[j].1));
    }
}

/// `(x, v)` for every `(k, x)` of `left` and `(k, v)` of `right` with the same key `k`.
pub open spec fn joined(left: Seq<Tuple>, right: Seq<KeyedTriple>, e: KeyedTriple) -> bool {
    exists|k: u32| #[trigger] left.contains((k, e.0)) && right.contains((k, e.1))
}

/// The join of `left` and `right` on their keys: for every `(k, x)` of the
/// one and `(k, v)` of the other, `(x, v)`.
pub fn join_on_key(left: &Vec<Tuple>, right: &Vec<KeyedTriple>) -> (out: Vec<KeyedTriple>)
    ensures
        forall|e: KeyedTriple| #![trigger out@.contains(e)] out@.contains(e) <==> joined(left@, right@, e),
{
    let mut out: Vec<KeyedTriple> = Vec::new();
    let mut i: usize = 0;
    while i < left.len()
        invariant
            i <= left.len(),
            forall|e: KeyedTriple|
                #![trigger out@.contains(e)]
                out@.contains(e) <==> joined_before(left@, right@, i as int, 0, e),
        decreases left.len() - i,
    {
        let l = left[i];
        let mut j: usize = 0;
        while j < right.len()
            invariant
                i < left.len(),
                l == left@[i as int],
                j <= right.len(),
                forall|e: KeyedTriple|
                    #![trigger out@.contains(e)]
                    out@.contains(e) <==> joined_before(left@, right@, i as int, j as int, e),
            decreases right.len() - j,
        {
            let r = right[j];
            let ghost before = out@;
            if l.0 == r.0 {
                out.push((l.1, r.1));
                proof {
                    assert forall|e: KeyedTriple| #![trigger out@.contains(e)]
                        out@.contains(e) <==> joined_before(left@, right@, i as int, j + 1, e) by {
                        lemma_push_contains(before, (l.1, r.1), e);
                        lemma_joined_step(left@, right@, i as int, j as int, e);
                    }
                }
            } else {
                proof {
                    assert forall|e: KeyedTriple| #![trigger out@.contains(e)]
                        out@.contains(e) <==> joined_before(left@, right@, i as int, j + 1, e) by {
                        lemma_joined_step(left@, right@, i as int, j as int, e);
                    }
                }
            }
            j += 1;
        }
        proof {
            assert forall|e: KeyedTriple| #![trigger out@.contains(e)]
                out@.contains(e) <==> joined_before(left@, right@, i + 1, 0, e) by {
                lemma_joined_row(left@, right@, i as int, e);
            }
        }
        i += 1;
    }
    proof {
        assert forall|e: KeyedTriple| #![trigger out@.contains(e)]
            out@.contains(e) <==> joined(left@, right@, e) by {
            if joined_before(left@, right@, left@.len() as int, 0, e) {
                let (a, b) = choose|a: int, b: int|
                    #![trigger left@[a], right@[b]]
                    0 <= a < left@.len() && 0 <= b < right@.len() && (a < left@.len() || (a
                        == left@.len() && b < 0)) && left@[a].0 == right@[b].0 && e == (
                    left@[a].1,
                    right@[b].1,
                );
                assert(left@.contains(left@[a]));
                assert(right@.contains(right@[b]));
                assert(left@.contains((left@[a].0, e.0)));
            }
            if joined(left@, right@, e) {
                let k = choose|k: u32| #[trigger] left@.contains((k, e.0)) && right@.contains((k, e.1));
                let a = choose|a: int| 0 <= a < left@.len() && left@[a] == (k, e.0);
                let b = choose|b: int| 0 <= b < right@.len() && right@[b] == (k, e.1);
                assert(left@[a].0 == right@[b].0 && e == (left@[a].1, right@[b].1));
            }
        }
    }
    out
}

/// Type upward closure as a join: for every `(c1, (subClassOf, c2))` of the
/// hierarchy and every class assertion `(c1, (x, type))` keyed by its class,
/// the class assertion `(c2, (x, type))`.
pub fn abox_sco_type_materialization(
    tbox_sco_assertions: &Vec<KeyedTriple>,
    abox_class_assertions: &Vec<KeyedTriple>,
) -> (out: Vec<KeyedTriple>)
    ensures
        forall|e: KeyedTriple|
            #![trigger out@.contains(e)]
            out@.contains(e) <==> exists|c1: u32, sco: u32|
                #![trigger tbox_sco_assertions@.contains((c1, (sco, e.0)))]
                tbox_sco_assertions@.contains((c1, (sco, e.0))) && abox_class_assertions@.contains(
                    (c1, e.1),
                ),
{
    let mut links: Vec<Tuple> = Vec::new();
    let mut i: usize = 0;
    while i < tbox_sco_assertions.len()
        invariant
            i <= tbox_sco_assertions.len(),
            links@.len() == i,
            forall|k: int|
                0 <= k < i ==> #[trigger] links@[k] == (
                    tbox_sco_assertions@[k].0,
                    tbox_sco_assertions@[k].1.1,
                ),
        decreases tbox_sco_assertions.len() - i,
    {
        let t = tbox_sco_assertions[i];
        links.push((t.0, t.1.1));
        i += 1;
    }
    let out = join_on_key(&links, abox_class_assertions);
    proof {
        assert forall|e: KeyedTriple| #![trigger out@.contains(e)]
            out@.contains(e) <==> exists|c1: u32, sco: u32|
                #![trigger tbox_sco_assertions@.contains((c1, (sco, e.0)))]
                tbox_sco_assertions@.contains((c1, (sco, e.0))) && abox_class_assertions@.contains(
                    (c1, e.1),
                ) by {
            if joined(links@, abox_class_assertions@, e) {
                let k = choose|k: u32| #[trigger]
                    links@.contains((k, e.0)) && abox_class_assertions@.contains((k, e.1));
                let a = choose|a: int| 0 <= a < links@.len() && links@[a] == (k, e.0);
                let t = tbox_sco_assertions@[a];
                assert(links@[a] == (t.0, t.1.1));
                assert(tbox_sco_assertions@.contains(t));
                assert(t == (k, (t.1.0, e.0)));
                assert(tbox_sco_assertions@.contains((k, (t.1.0, e.0))));
            }
            if exists|c1: u32, sco: u32|
                #![trigger tbox_sco_assertions@.contains((c1, (sco, e.0)))]
                tbox_sco_assertions@.contains((c1, (sco, e.0))) && abox_class_assertions@.contains(
                    (c1, e.1),
                ) {
                let (c1, sco) = choose|c1: u32, sco: u32|
                    #![trigger tbox_sco_assertions@.contains((c1, (sco, e.0)))]
                    tbox_sco_assertions@.contains((c1, (sco, e.0)))
                        && abox_class_assertions@.contains((c1, e.1));
                let a = choose|a: int|
                    0 <= a < tbox_sco_assertions@.len() && tbox_sco_assertions@[a] == (
                        c1,
                        (sco, e.0),
                    );
                assert(links@[a] == (c1, e.0));
                assert(links@.contains((c1, e.0)));
            }
        }
    }
    out
}

/// The first or the second identifier of what was joined, with the identifier in front.
fn pick(pairs: &Vec<KeyedTriple>, second: bool) -> (out: Vec<Tuple>)
    ensures
        forall|x: Tuple|
            #![trigger out@.contains(x)]
            out@.contains(x) <==> exists|y: u32, z: u32|
                #![trigger pairs@.contains((x.0, (y, z)))]
                pairs@.contains((x.0, (y, z))) && x.1 == if second {
                    z
                } else {
                    y
                },
{
    let mut out: Vec<Tuple> = Vec::new();
    let mut i: usize = 0;
    while i < pairs.len()
        invariant
            i <= pairs.len(),
            out@.len() == i,
            forall|k: int|
                0 <= k < i ==> #[trigger] out@[k] == (
                    pairs@[k].0,
                    if second {
                        pairs@[k].1.1
                    } else {
                        pairs@[k].1.0
                    },
                ),
        decreases pairs.len() - i,
    {
        let p = pairs[i];
        out.push(
            (
                p.0,
                if second {
                    p.1.1
                } else {
                    p.1.0
                },
            ),
        );
        i += 1;
    }
    proof {
        assert forall|x: Tuple| #![trigger out@.contains(x)]
            out@.contains(x) <==> exists|y: u32, z: u32|
                #![trigger pairs@.contains((x.0, (y, z)))]
                pairs@.contains((x.0, (y, z))) && x.1 == if second {
                    z
                } else {
                    y
                } by {
            if out@.contains(x) {
                let k = choose|k: int| 0 <= k < out@.len() && out@[k] == x;
                let p = pairs@[k];
                assert(pairs@.contains(p));
                assert(p == (x.0, (p.1.0, p.1.1)));
                assert(pairs@.contains((x.0, (p.1.0, p.1.1))));
            }
            if exists|y: u32, z: u32|
                #![trigger pairs@.contains((x.0, (y, z)))]
                pairs@.contains((x.0, (y, z))) && x.1 == if second {
                    z
                } else {
                    y
                } {
                let (y, z) = choose|y: u32, z: u32|
                    #![trigger pairs@.contains((x.0, (y, z)))]
                    pairs@.contains((x.0, (y, z))) && x.1 == if second {
                        z
                    } else {
                        y
                    };
                let k = choose|k: int| 0 <= k < pairs@.len() && pairs@[k] == (x.0, (y, z));
                assert(out@[k] == x);
            }
        }
    }
    out
}

/// Domain and range inference as joins on the property: for every
/// `(p, c)` of the domains and every property assertion `(p, (s, o))`,
/// `(c, s)` in the first result; for every `(p, c)` of the ranges, `(c, o)` in the second.
pub fn abox_domain_and_range_type_materialization(
    domain_assertions: &Vec<Tuple>,
    range_assertions: &Vec<Tuple>,
    property_assertions_by_p: &Vec<KeyedTriple>,
) -> (out: (Vec<Tuple>, Vec<Tuple>))
    ensures
        forall|x: Tuple|
            #![trigger out.0@.contains(x)]
            out.0@.contains(x) <==> exists|o: u32|
                #![trigger joined(domain_assertions@, property_assertions_by_p@, (x.0, (x.1, o)))]
                joined(domain_assertions@, property_assertions_by_p@, (x.0, (x.1, o))),
        forall|x: Tuple|
            #![trigger out.1@.contains(x)]
            out.1@.contains(x) <==> exists|s: u32|
                #![trigger joined(range_assertions@, property_assertions_by_p@, (x.0, (s, x.1)))]
                joined(range_assertions@, property_assertions_by_p@, (x.0, (s, x.1))),
{
    let by_domain = join_on_key(domain_assertions, property_assertions_by_p);
    let by_range = join_on_key(range_assertions, property_assertions_by_p);
    let domain_type = pick(&by_domain, false);
    let range_type = pick(&by_range, true);
    proof {
        assert forall|x: Tuple| #![trigger domain_type@.contains(x)]
            domain_type@.contains(x) <==> exists|o: u32|
                #![trigger joined(domain_assertions@, property_assertions_by_p@, (x.0, (x.1, o)))]
                joined(domain_assertions@, property_assertions_by_p@, (x.0, (x.1, o))) by {
            if domain_type@.contains(x) {
                let (y, z) = choose|y: u32, z: u32|
                    #![trigger by_domain@.contains((x.0, (y, z)))]
                    by_domain@.contains((x.0, (y, z))) && x.1 == y;
                assert(joined(domain_assertions@, property_assertions_by_p@, (x.0, (x.1, z))));
            }
            if exists|o: u32|
                #![trigger joined(domain_assertions@, property_assertions_by_p@, (x.0, (x.1, o)))]
                joined(domain_assertions@, property_assertions_by_p@, (x.0, (x.1, o))) {
                let o = choose|o: u32|
                    #![trigger joined(domain_assertions@, property_assertions_by_p@, (x.0, (x.1, o)))]
                    joined(domain_assertions@, property_assertions_by_p@, (x.0, (x.1, o)));
                assert(by_domain@.contains((x.0, (x.1, o))));
            }
        }
        assert forall|x: Tuple| #![trigger range_type@.contains(x)]
            range_type@.contains(x) <==> exists|s: u32|
                #![trigger joined(range_assertions@, property_assertions_by_p@, (x.0, (s, x.1)))]
                joined(range_assertions@, property_assertions_by_p@, (x.0, (s, x.1))) by {
            if range_type@.contains(x) {
                let (y, z) = choose|y: u32, z: u32|
                    #![trigger by_range@.contains((x.0, (y, z)))]
                    by_range@.contains((x.0, (y, z))) && x.1 == z;
                assert(joined(range_assertions@, property_assertions_by_p@, (x.0, (y, x.1))));
            }
            if exists|s: u32|
                #![trigger joined(range_assertions@, property_assertions_by_p@, (x.0, (s, x.1)))]
                joined(range_assertions@, property_assertions_by_p@, (x.0, (s, x.1))) {
                let s = choose|s: u32|
                    #![trigger joined(range_assertions@, property_assertions_by_p@, (x.0, (s, x.1)))]
                    joined(range_assertions@, property_assertions_by_p@, (x.0, (s, x.1)));
                assert(by_range@.contains((x.0, (s, x.1))));
            }
        }
    }
    (domain_type, range_type)
}

/// The stage of one box that infers nothing: the box as it came.
pub fn dummy_unary_materialization(collection: &Vec<Triple>) -> (r: Vec<Triple>)
    ensures
        r@ == collection@,
{
    copy_triples(collection)
}

/// The stage of two boxes that infers nothing: the second box as it came.
pub fn dummy_binary_materialization(
    _collection_one: &Vec<Triple>,
    collection_two: &Vec<Triple>,
) -> (r: Vec<Triple>)
    ensures
        r@ == collection_two@,
{
    copy_triples(collection_two)
}

} // verus!
