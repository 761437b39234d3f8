//! How the profiles relate: each entails what the one before it entails,
//! and none makes anything of nothing but the two bootstrap triples.

use crate::collection::{fact, tagged};
use crate::entrypoint::{abox_output, tbox_output, Engine};
use crate::inference::model::{
    least_model, lemma_least_model_includes_base, lemma_least_model_least,
    lemma_least_model_monotone,
};
use crate::inference::rule::{derives, entails, Clause, Fact, Rel};
use crate::inference::transfer::{
    carried, idle, lemma_silent, lemma_transfer, renamed, renamed_fact, unguarded,
};
use crate::materialization::common::{hierarchy_clauses, tbox_spo_sco_closure};
use crate::materialization::instance::{
    cax_sco, instance_clauses, prp_dom, prp_inv1, prp_inv2, prp_rng, prp_spo1, prp_trp,
};
use crate::materialization::owl2rl::{
    bootstrap, expanded, list_clauses, lists_of, membership, owl2rl_abox_base,
    owl2rl_abox_program, owl2rl_entailment, owl2rl_tbox_closure, spells,
};
use crate::materialization::rdfs::{rdfs_clauses, rdfs_entailment, stage_base};
use crate::materialization::rdfspp::{closure_clauses, rdfspp_clauses, rdfspp_entailment};
use crate::materialization::schema::{extension_clauses, schema_clauses};
use crate::model::types::Triple;
use vstd::prelude::*;

verus! {

/// What the staged profiles keep apart, OWL 2 RL keeps in the assertion box.
pub open spec fn as_assertion(r: Rel) -> Rel {
    match r {
        Rel::Property => Rel::Abox,
        Rel::Asserted => Rel::Abox,
        Rel::Entailed => Rel::Abox,
        _ => r,
    }
}

/// `as_assertion` as a function value.
pub open spec fn merge() -> spec_fn(Rel) -> Rel {
    |r: Rel| as_assertion(r)
}

/// The hierarchies of a terminology box are part of its OWL 2 RL schema closure.
pub proof fn lemma_hierarchy_within_schema(tbox: Set<Triple>)
    ensures
        tbox_spo_sco_closure(tbox).subset_of(owl2rl_tbox_closure(tbox)),
{
    let few = hierarchy_clauses().to_set();
    let many = schema_clauses().to_set();
    assert forall|c: Clause| few.contains(c) implies many.contains(c) by {
        let k = choose|k: int| 0 <= k < hierarchy_clauses().len() && hierarchy_clauses()[k] == c;
        assert(schema_clauses()[k] == c);
    }
    let small = tagged(Rel::Tbox, tbox);
    let large = small.union(membership(lists_of(tbox)));
    lemma_least_model_monotone(few, many, small, large);
    assert forall|t: Triple| tbox_spo_sco_closure(tbox).contains(t) implies owl2rl_tbox_closure(
        tbox,
    ).contains(t) by {
        assert(least_model(few, small).contains(fact(Rel::Tbox, t)));
    }
}

/// What RDFS entails, RDFS++ entails.
pub proof fn lemma_rdfs_within_rdfspp(tbox: Set<Triple>, abox: Set<Triple>)
    ensures
        rdfs_entailment(tbox, abox).subset_of(rdfspp_entailment(tbox, abox)),
{
    let few = rdfs_clauses().to_set();
    let many = rdfspp_clauses().to_set();
    assert forall|c: Clause| few.contains(c) implies many.contains(c) by {
        let k = choose|k: int| 0 <= k < rdfs_clauses().len() && rdfs_clauses()[k] == c;
        assert(rdfspp_clauses()[k] == c);
    }
    let base = stage_base(tbox, abox);
    lemma_least_model_monotone(few, many, base, base);
    assert forall|t: Triple| rdfs_entailment(tbox, abox).contains(t) implies rdfspp_entailment(
        tbox,
        abox,
    ).contains(t) by {
        assert(least_model(few, base).contains(fact(Rel::Entailed, t)));
    }
}

proof fn lemma_instance_has(c: Clause, k: int)
    requires
        0 <= k < instance_clauses().len(),
        instance_clauses()[k] == c,
    ensures
        instance_clauses().to_set().contains(c),
{
    assert(instance_clauses().contains(c));
}

/// Every clause of RDFS++ is, with its relations merged, an instance rule of OWL 2 RL or adds nothing.
proof fn lemma_rdfspp_carried(k: int, target: Set<Clause>)
    requires
        0 <= k < rdfspp_clauses().len(),
        instance_clauses().to_set().subset_of(target),
    ensures
        carried(merge(), rdfspp_clauses()[k], target),
{
    let c = rdfspp_clauses()[k];
    let rc = renamed(merge(), c);
    if k < 9 {
        assert(c == rdfs_clauses()[k]);
    } else {
        assert(c == closure_clauses()[k - 9]);
    }
    if k == 0 || k == 2 || k == 5 || k == 6 || k == 7 {
        assert(rc.body[0] == rc.head);
        assert(idle(rc));
    } else if k == 1 {
        assert(unguarded(rc).body =~= prp_spo1().body);
        assert(unguarded(rc) == prp_spo1());
        lemma_instance_has(prp_spo1(), 15);
    } else if k == 3 {
        assert(rc.body =~= prp_dom().body);
        assert(rc == prp_dom());
        lemma_instance_has(prp_dom(), 9);
    } else if k == 4 {
        assert(rc.body =~= prp_rng().body);
        assert(rc == prp_rng());
        lemma_instance_has(prp_rng(), 10);
    } else if k == 8 {
        assert(rc.body =~= cax_sco().body);
        assert(rc == cax_sco());
        lemma_instance_has(cax_sco(), 0);
    } else if k == 9 {
        assert(rc.body =~= prp_spo1().body);
        assert(rc == prp_spo1());
        lemma_instance_has(prp_spo1(), 15);
    } else if k == 10 {
        assert(rc.body =~= prp_inv1().body);
        assert(rc == prp_inv1());
        lemma_instance_has(prp_inv1(), 18);
    } else if k == 11 {
        assert(rc.body =~= prp_inv2().body);
        assert(rc == prp_inv2());
        lemma_instance_has(prp_inv2(), 19);
    } else {
        assert(rc.body =~= prp_trp().body);
        assert(rc == prp_trp());
        lemma_instance_has(prp_trp(), 14);
    }
}

/// What RDFS++ entails under the hierarchies, OWL 2 RL entails under any
/// larger terminology box, whatever the lists.
pub proof fn lemma_rdfspp_within_owl2rl(
    narrow: Set<Triple>,
    wide: Set<Triple>,
    lists: Set<(u32, Seq<u32>)>,
    abox: Set<Triple>,
)
    requires
        narrow.subset_of(wide),
    ensures
        rdfspp_entailment(narrow, abox).subset_of(owl2rl_entailment(wide, lists, abox)),
{
    let source = rdfspp_clauses().to_set();
    let target = owl2rl_abox_program(wide, lists);
    let base = stage_base(narrow, abox);
    let goal = owl2rl_abox_base(wide, lists, abox);
    assert forall|c: Clause| source.contains(c) implies #[trigger] carried(merge(), c, target) by {
        let k = choose|k: int| 0 <= k < rdfspp_clauses().len() && rdfspp_clauses()[k] == c;
        lemma_rdfspp_carried(k, target);
    }
    lemma_least_model_includes_base(target, goal);
    assert forall|f: Fact| base.contains(f) implies least_model(target, goal).contains(
        #[trigger] renamed_fact(merge(), f),
    ) by {
        assert(renamed_fact(merge(), f) == f);
        assert(goal.contains(f));
    }
    lemma_transfer(merge(), source, target, base, goal);
    assert forall|t: Triple| rdfspp_entailment(narrow, abox).contains(t) implies owl2rl_entailment(
        wide,
        lists,
        abox,
    ).contains(t) by {
        let f = fact(Rel::Entailed, t);
        assert(least_model(source, base).contains(f));
        assert(renamed_fact(merge(), f) == fact(Rel::Abox, t));
    }
}

/// The profiles nest: for one terminology box and one assertion box, RDFS
/// entails no more than RDFS++, and RDFS++ no more than OWL 2 RL, in the
/// terminology box and in the assertion box.
pub proof fn lemma_profiles_nest(tbox: Set<Triple>, abox: Set<Triple>)
    ensures
        tbox_output(Engine::RDFS, tbox) == tbox_output(Engine::RDFSpp, tbox),
        tbox_output(Engine::RDFSpp, tbox).subset_of(tbox_output(Engine::OWL2RL, tbox)),
        abox_output(Engine::RDFS, tbox, abox).subset_of(abox_output(Engine::RDFSpp, tbox, abox)),
        abox_output(Engine::RDFSpp, tbox, abox).subset_of(abox_output(Engine::OWL2RL, tbox, abox)),
{
    lemma_hierarchy_within_schema(tbox);
    lemma_rdfs_within_rdfspp(tbox_spo_sco_closure(tbox), abox);
    lemma_rdfspp_within_owl2rl(
        tbox_spo_sco_closure(tbox),
        owl2rl_tbox_closure(tbox),
        lists_of(tbox),
        abox,
    );
}

/// A program whose clauses all have a body makes nothing of nothing.
pub proof fn lemma_nothing_from_nothing(rules: Set<Clause>)
    requires
        forall|c: Clause| rules.contains(c) ==> (#[trigger] c.body).len() > 0,
    ensures
        least_model(rules, Set::empty()) == Set::<Fact>::empty(),
{
    let none = Set::<Fact>::empty();
    assert forall|f: Fact| #[trigger] entails(rules, none, f) implies none.contains(f) by {
        let c = choose|c: Clause| rules.contains(c) && #[trigger] derives(c, none, f);
        assert(c.body.len() > 0);
        lemma_silent(c, none, 0, f);
    }
    lemma_least_model_least(rules, none, none);
    assert(least_model(rules, none) =~= none);
}

proof fn lemma_bodies()
    ensures
        forall|c: Clause| rdfspp_clauses().to_set().contains(c) ==> (#[trigger] c.body).len() > 0,
        forall|c: Clause| schema_clauses().to_set().contains(c) ==> (#[trigger] c.body).len() > 0,
        forall|c: Clause|
            instance_clauses().to_set().contains(c) ==> (#[trigger] c.body).len() > 0 && (
            c.body[0].rel == Rel::Tbox || c.body[0].rel == Rel::Same),
{
    assert forall|c: Clause| rdfspp_clauses().to_set().contains(c) implies (#[trigger] c.body).len()
        > 0 by {
        let k = choose|k: int| 0 <= k < rdfspp_clauses().len() && rdfspp_clauses()[k] == c;
        if k < 9 {
            assert(c == rdfs_clauses()[k]);
        } else {
            assert(c == closure_clauses()[k - 9]);
        }
    }
    assert forall|c: Clause| schema_clauses().to_set().contains(c) implies (#[trigger] c.body).len()
        > 0 by {
        let k = choose|k: int| 0 <= k < schema_clauses().len() && schema_clauses()[k] == c;
        if k < 2 {
            assert(c == hierarchy_clauses()[k]);
        } else {
            assert(c == extension_clauses()[k - 2]);
        }
    }
    assert forall|c: Clause| instance_clauses().to_set().contains(c) implies (#[trigger] c.body).len()
        > 0 && (c.body[0].rel == Rel::Tbox || c.body[0].rel == Rel::Same) by {
        let k = choose|k: int| 0 <= k < instance_clauses().len() && instance_clauses()[k] == c;
    }
}

/// An empty terminology box has no lists.
pub proof fn lemma_no_lists()
    ensures
        lists_of(Set::<Triple>::empty()) == Set::<(u32, Seq<u32>)>::empty(),
        membership(Set::<(u32, Seq<u32>)>::empty()) == Set::<Fact>::empty(),
{
    let none = Set::<Triple>::empty();
    assert forall|l: (u32, Seq<u32>)| !lists_of(none).contains(l) by {
        if expanded(none, l.0, l.1) {
            let cells = choose|cells: Seq<u32>| #[trigger] spells(none, cells, l.1) && cells[0] == l.0;
            assert(crate::materialization::owl2rl::cell(
                none,
                cells[0],
                l.1[0],
                crate::materialization::owl2rl::next_of(cells, 0),
            ));
        }
    }
    assert(lists_of(none) =~= Set::<(u32, Seq<u32>)>::empty());
    assert(membership(Set::<(u32, Seq<u32>)>::empty()) =~= Set::<Fact>::empty());
}

/// From an empty terminology box and an empty assertion box, OWL 2 RL
/// entails the two bootstrap triples and the other profiles nothing; no
/// profile puts anything into the terminology box.
pub proof fn lemma_empty_boxes(logic: Engine)
    ensures
        tbox_output(logic, Set::empty()) == Set::<Triple>::empty(),
        abox_output(logic, Set::empty(), Set::empty()) == if logic == Engine::OWL2RL {
            bootstrap()
        } else {
            Set::<Triple>::empty()
        },
{
    let none = Set::<Triple>::empty();
    let nothing = Set::<Fact>::empty();
    lemma_bodies();
    lemma_no_lists();
    assert(tagged(Rel::Tbox, none) =~= nothing);
    assert(tagged(Rel::Abox, none) =~= nothing);
    assert(stage_base(none, none) =~= nothing);
    assert forall|c: Clause| hierarchy_clauses().to_set().contains(c) implies (
    #[trigger] c.body).len() > 0 by {
        let k = choose|k: int| 0 <= k < hierarchy_clauses().len() && hierarchy_clauses()[k] == c;
        assert(schema_clauses()[k] == c);
        assert(schema_clauses().to_set().contains(c));
    }
    lemma_nothing_from_nothing(hierarchy_clauses().to_set());
    lemma_nothing_from_nothing(schema_clauses().to_set());
    assert forall|c: Clause| rdfs_clauses().to_set().contains(c) implies (#[trigger] c.body).len()
        > 0 by {
        let k = choose|k: int| 0 <= k < rdfs_clauses().len() && rdfs_clauses()[k] == c;
        assert(rdfspp_clauses()[k] == c);
        assert(rdfspp_clauses().to_set().contains(c));
    }
    lemma_nothing_from_nothing(rdfs_clauses().to_set());
    lemma_nothing_from_nothing(rdfspp_clauses().to_set());
    assert(tbox_spo_sco_closure(none) =~= none);
    assert(tagged(Rel::Tbox, none).union(membership(lists_of(none))) =~= nothing);
    assert(owl2rl_tbox_closure(none) =~= none);
    match logic {
        Engine::RDFS => {
            assert(rdfs_entailment(none, none) =~= none);
        },
        Engine::RDFSpp => {
            assert(rdfspp_entailment(none, none) =~= none);
        },
        Engine::Dummy => {},
        Engine::OWL2RL => {
            let lists = Set::<(u32, Seq<u32>)>::empty();
            let rules = owl2rl_abox_program(none, lists);
            let base = owl2rl_abox_base(none, lists, none);
            assert(list_clauses(true, none, lists) =~= Set::<Clause>::empty());
            assert(list_clauses(false, none, lists) =~= Set::<Clause>::empty());
            assert(rules =~= instance_clauses().to_set());
            assert(base =~= tagged(Rel::Abox, bootstrap()));
            assert forall|f: Fact| #[trigger] entails(rules, base, f) implies base.contains(f) by {
                let c = choose|c: Clause| rules.contains(c) && #[trigger] derives(c, base, f);
                lemma_silent(c, base, 0, f);
            }
            lemma_least_model_least(rules, base, base);
            lemma_least_model_includes_base(rules, base);
            assert(least_model(rules, base) =~= base);
            assert(owl2rl_entailment(none, lists, none) =~= bootstrap()) by {
                assert forall|t: Triple|
                    owl2rl_entailment(none, lists, none).contains(t) <==> bootstrap().contains(
                        t,
                    ) by {
                    assert(base.contains(fact(Rel::Abox, t)) <==> bootstrap().contains(t));
                }
            }
        },
    }
}

/// More lists have more members.
pub proof fn lemma_membership_grows(few: Set<(u32, Seq<u32>)>, many: Set<(u32, Seq<u32>)>)
    requires
        few.subset_of(many),
    ensures
        membership(few).subset_of(membership(many)),
{
    assert forall|f: Fact| membership(few).contains(f) implies membership(many).contains(f) by {
        let members = choose|members: Seq<u32>|
            #![trigger few.contains((f.s, members))]
            few.contains((f.s, members)) && members.contains(f.o);
        assert(many.contains((f.s, members)));
    }
}

/// A larger terminology box and more lists have more list rules.
pub proof fn lemma_list_clauses_grow(
    chained: bool,
    narrow: Set<Triple>,
    wide: Set<Triple>,
    few: Set<(u32, Seq<u32>)>,
    many: Set<(u32, Seq<u32>)>,
)
    requires
        narrow.subset_of(wide),
        few.subset_of(many),
    ensures
        list_clauses(chained, narrow, few).subset_of(list_clauses(chained, wide, many)),
{
    assert forall|c: Clause| list_clauses(chained, narrow, few).contains(c) implies list_clauses(
        chained,
        wide,
        many,
    ).contains(c) by {
        let (s, head, members) = choose|s: u32, head: u32, members: Seq<u32>|
            #![trigger few.contains((head, members)), crate::materialization::owl2rl::list_clause(chained, s, members)]
            narrow.contains((s, crate::materialization::owl2rl::list_link(chained), head))
                && few.contains((head, members)) && crate::materialization::owl2rl::usable(
                members,
            ) && c == crate::materialization::owl2rl::list_clause(chained, s, members);
        assert(many.contains((head, members)));
    }
}

/// Every profile is monotone: from a larger terminology box and a larger
/// assertion box it entails at least as much, as long as no list is lost. (A
/// list is lost where its first cell comes to follow another cell.)
pub proof fn lemma_outputs_grow(
    logic: Engine,
    narrow: Set<Triple>,
    wide: Set<Triple>,
    few: Set<Triple>,
    many: Set<Triple>,
)
    requires
        narrow.subset_of(wide),
        few.subset_of(many),
        crate::entrypoint::lists_output(logic, narrow).subset_of(
            crate::entrypoint::lists_output(logic, wide),
        ),
    ensures
        tbox_output(logic, narrow).subset_of(tbox_output(logic, wide)),
        abox_output(logic, narrow, few).subset_of(abox_output(logic, wide, many)),
{
    match logic {
        Engine::Dummy => {},
        Engine::OWL2RL => {
            let rules = schema_clauses().to_set();
            lemma_membership_grows(lists_of(narrow), lists_of(wide));
            let small = tagged(Rel::Tbox, narrow).union(membership(lists_of(narrow)));
            let large = tagged(Rel::Tbox, wide).union(membership(lists_of(wide)));
            lemma_least_model_monotone(rules, rules, small, large);
            let t1 = owl2rl_tbox_closure(narrow);
            let t2 = owl2rl_tbox_closure(wide);
            assert forall|t: Triple| t1.contains(t) implies t2.contains(t) by {
                assert(least_model(rules, small).contains(fact(Rel::Tbox, t)));
            }
            lemma_list_clauses_grow(true, t1, t2, lists_of(narrow), lists_of(wide));
            lemma_list_clauses_grow(false, t1, t2, lists_of(narrow), lists_of(wide));
            let p1 = owl2rl_abox_program(t1, lists_of(narrow));
            let p2 = owl2rl_abox_program(t2, lists_of(wide));
            let b1 = owl2rl_abox_base(t1, lists_of(narrow), few);
            let b2 = owl2rl_abox_base(t2, lists_of(wide), many);
            lemma_least_model_monotone(p1, p2, b1, b2);
            assert forall|t: Triple|
                abox_output(logic, narrow, few).contains(t) implies abox_output(
                logic,
                wide,
                many,
            ).contains(t) by {
                assert(least_model(p1, b1).contains(fact(Rel::Abox, t)));
            }
        },
        _ => {
            let rules = hierarchy_clauses().to_set();
            let small = tagged(Rel::Tbox, narrow);
            let large = tagged(Rel::Tbox, wide);
            lemma_least_model_monotone(rules, rules, small, large);
            let t1 = tbox_spo_sco_closure(narrow);
            let t2 = tbox_spo_sco_closure(wide);
            assert forall|t: Triple| t1.contains(t) implies t2.contains(t) by {
                assert(least_model(rules, small).contains(fact(Rel::Tbox, t)));
            }
            let b1 = stage_base(t1, few);
            let b2 = stage_base(t2, many);
            if logic == Engine::RDFS {
                let p = rdfs_clauses().to_set();
                lemma_least_model_monotone(p, p, b1, b2);
                assert forall|t: Triple|
                    abox_output(logic, narrow, few).contains(t) implies abox_output(
                    logic,
                    wide,
                    many,
                ).contains(t) by {
                    assert(least_model(p, b1).contains(fact(Rel::Entailed, t)));
                }
            } else {
                let p = rdfspp_clauses().to_set();
                lemma_least_model_monotone(p, p, b1, b2);
                assert forall|t: Triple|
                    abox_output(logic, narrow, few).contains(t) implies abox_output(
                    logic,
                    wide,
                    many,
                ).contains(t) by {
                    assert(least_model(p, b1).contains(fact(Rel::Entailed, t)));
                }
            }
        },
    }
}

} // verus!
