use dire_engine::collection::{distinct, has_triple, project, tag};
use dire_engine::entrypoint::{first_stage, materialize, second_stage, Engine};
use dire_engine::inference::horn::{horn1, horn2, horn3};
use dire_engine::inference::matcher::{consequences, fire, has_fact};
use dire_engine::inference::model::{absorb, saturate};
use dire_engine::inference::rule::{abox, con, tbox, var, Fact, Guard, Rel, Rule};
use dire_engine::materialization::common::close;

fn t(s: u32, p: u32, o: u32) -> Fact {
    Fact { rel: Rel::Tbox, s, p, o }
}

fn a(s: u32, p: u32, o: u32) -> Fact {
    Fact { rel: Rel::Abox, s, p, o }
}

fn edge_rules() -> Vec<Rule> {
    vec![
        // an edge is a path
        horn1(tbox(var(0), con(1), var(1)), abox(var(0), con(2), var(1)), Guard::Always, 2),
        // a path and an edge are a path
        horn2(
            abox(var(0), con(2), var(1)),
            tbox(var(1), con(1), var(2)),
            abox(var(0), con(2), var(2)),
            Guard::Always,
            3,
        ),
    ]
}

#[test]
fn one_step_yields_what_the_rules_say() {
    let db = vec![t(10, 1, 11), t(11, 1, 12), t(12, 9, 13), a(10, 2, 11)];
    let mut out = consequences(&edge_rules(), &db);
    out.sort_by_key(|f| (f.s, f.p, f.o));
    out.dedup();
    assert_eq!(out, vec![a(10, 2, 11), a(10, 2, 12), a(11, 2, 12)]);
    let mut fired = vec![a(1, 1, 1)];
    fire(&edge_rules()[1], &db, &mut fired);
    assert_eq!(fired, vec![a(1, 1, 1), a(10, 2, 12)]);
}

#[test]
fn the_least_model_holds_every_path_once() {
    let base = vec![t(10, 1, 11), t(11, 1, 12), t(12, 1, 10), t(10, 1, 11)];
    let model = saturate(&edge_rules(), &base);
    assert_eq!(model.len(), 3 + 9);
    for s in 10..13 {
        for o in 10..13 {
            assert!(has_fact(&model, a(s, 2, o)));
        }
    }
    assert!(!has_fact(&model, a(10, 1, 11)));
    assert_eq!(saturate(&edge_rules(), &vec![]), vec![]);
    let mut paths = close(&edge_rules(), &base, Rel::Abox);
    paths.sort_unstable();
    assert_eq!(paths.len(), 9);
    assert_eq!(paths[0], (10, 2, 10));
}

#[test]
fn guards_keep_assignments_out() {
    let db = vec![a(1, 5, 2), a(1, 5, 3), a(1, 7, 4), a(2, 5, 2)];
    let different = horn2(
        abox(var(0), con(5), var(1)),
        abox(var(0), con(5), var(2)),
        abox(var(1), con(6), var(2)),
        Guard::Distinct(1, 2),
        3,
    );
    let mut out = vec![];
    fire(&different, &db, &mut out);
    out.sort_by_key(|f| (f.s, f.p, f.o));
    assert_eq!(out, vec![a(2, 6, 3), a(3, 6, 2)]);
    let not_seven = horn1(abox(var(0), var(1), var(2)), tbox(var(2), var(1), var(0)), Guard::Differs(1, 7), 3);
    let mut out = vec![];
    fire(&not_seven, &db, &mut out);
    assert_eq!(out, vec![t(2, 5, 1), t(3, 5, 1), t(2, 5, 2)]);
    // a variable that occurs twice in one atom must read the same
    let loops = horn1(abox(var(0), var(1), var(0)), tbox(var(0), var(1), var(0)), Guard::Always, 2);
    let mut out = vec![];
    fire(&loops, &db, &mut out);
    assert_eq!(out, vec![t(2, 5, 2)]);
    let three = horn3(
        abox(var(0), con(5), var(1)),
        abox(var(0), con(5), var(2)),
        abox(var(0), con(7), var(3)),
        tbox(var(1), var(2), var(3)),
        Guard::Always,
        4,
    );
    let mut out = vec![];
    fire(&three, &db, &mut out);
    assert_eq!(out.len(), 4);
}

#[test]
fn facts_and_triples() {
    let mut facts = vec![];
    tag(Rel::Abox, &vec![(1, 2, 3), (4, 5, 6)], &mut facts);
    tag(Rel::Tbox, &vec![(7, 8, 9)], &mut facts);
    assert_eq!(facts, vec![a(1, 2, 3), a(4, 5, 6), t(7, 8, 9)]);
    assert_eq!(project(&facts, Rel::Abox), vec![(1, 2, 3), (4, 5, 6)]);
    assert_eq!(project(&facts, Rel::Same), vec![]);
    let mut db = vec![a(1, 2, 3)];
    absorb(&mut db, &vec![a(4, 5, 6), a(1, 2, 3), a(4, 5, 6)]);
    assert_eq!(db, vec![a(1, 2, 3), a(4, 5, 6)]);
    assert_eq!(distinct(&vec![(3, 3, 3), (1, 1, 1), (3, 3, 3), (1, 1, 1)]), vec![(3, 3, 3), (1, 1, 1)]);
    assert!(has_triple(&vec![(1, 2, 3)], (1, 2, 3)));
    assert!(!has_triple(&vec![(1, 2, 3)], (1, 2, 4)));
}

#[test]
fn the_two_stages_of_each_profile() {
    let tbox = vec![(100, 0, 101), (101, 0, 102), (100, 0, 101)];
    let abox = vec![(200, 4, 100), (200, 4, 100)];
    let (closure, lists) = first_stage(Engine::Dummy, &tbox);
    assert_eq!(closure, vec![(100, 0, 101), (101, 0, 102)]);
    assert_eq!(lists, vec![(0, vec![0])]);
    assert_eq!(second_stage(Engine::Dummy, &closure, &lists, &abox), vec![(200, 4, 100)]);
    let (closure, lists) = first_stage(Engine::RDFS, &tbox);
    assert_eq!(closure.len(), 3);
    assert_eq!(lists, vec![(0, vec![0])]);
    let mut entailed = second_stage(Engine::RDFS, &closure, &lists, &abox);
    entailed.sort_unstable();
    assert_eq!(entailed, vec![(200, 4, 100), (200, 4, 101), (200, 4, 102)]);
    let (both_t, mut both_a) = materialize(Engine::RDFSpp, &tbox, &abox);
    both_a.sort_unstable();
    assert_eq!(both_t.len(), 3);
    assert_eq!(both_a, entailed);
    let (owl_t, owl_a) = materialize(Engine::OWL2RL, &tbox, &abox);
    assert_eq!(owl_t.len(), 3);
    assert_eq!(owl_a.len(), 3 + 2);
}
