use dire_engine::entrypoint::{entrypoint, select, Engine};
use dire_engine::materialization::common::{
    dummy_first_stage_materialization, dummy_second_stage_materialization,
    tbox_spo_sco_materialization,
};
use dire_engine::model::consts::constants::owl::{
    intersectionOf, inverseOf, Class, Nothing, ObjectProperty, Thing, TransitiveProperty,
};
use dire_engine::model::consts::constants::rdfs::{
    domain, first, nil, range, rest, subClassOf, subPropertyOf, type_,
};
use dire_engine::model::consts::constants::MAX_CONST;
use dire_engine::reason::{reason, ReasonError, Reasoner};

type Triple = (u32, u32, u32);
type Delta = (Triple, usize, i64);

fn sorted<T: Ord>(mut v: Vec<T>) -> Vec<T> {
    v.sort_unstable();
    v.dedup();
    v
}

/// Sends the triples one by one, as a channel of capacity one does, and
/// gathers the triples of everything that is emitted.
fn feed(reasoner: &mut Reasoner, tbox: &[Triple], abox: &[Triple]) -> (Vec<Triple>, Vec<Triple>) {
    let mut tbox_diffs = vec![];
    let mut abox_diffs = vec![];
    for t in tbox {
        let out = reasoner.ingest(&vec![(*t, 1)], &vec![]).unwrap();
        tbox_diffs.extend(out.tbox.iter().map(|d| d.0));
        abox_diffs.extend(out.abox.iter().map(|d| d.0));
    }
    for t in abox {
        let out = reasoner.ingest(&vec![], &vec![(*t, 1)]).unwrap();
        tbox_diffs.extend(out.tbox.iter().map(|d| d.0));
        abox_diffs.extend(out.abox.iter().map(|d| d.0));
    }
    (tbox_diffs, abox_diffs)
}

struct University {
    employee: u32,
    faculty: u32,
    full_professor: u32,
    professor: u32,
    head_of: u32,
    member_of: u32,
    works_for: u32,
    employs: u32,
    teacher_of: u32,
    course: u32,
    full_professor_7: u32,
    full_professor_8: u32,
    full_professor_9: u32,
    full_professor_10: u32,
    department_0: u32,
    course_10: u32,
}

fn university() -> University {
    University {
        employee: MAX_CONST + 1,
        faculty: MAX_CONST + 2,
        full_professor: MAX_CONST + 3,
        professor: MAX_CONST + 4,
        head_of: MAX_CONST + 5,
        member_of: MAX_CONST + 6,
        works_for: MAX_CONST + 7,
        employs: MAX_CONST + 8,
        teacher_of: MAX_CONST + 9,
        course: MAX_CONST + 10,
        full_professor_7: MAX_CONST + 11,
        full_professor_8: MAX_CONST + 12,
        full_professor_9: MAX_CONST + 13,
        full_professor_10: MAX_CONST + 14,
        department_0: MAX_CONST + 15,
        course_10: MAX_CONST + 16,
    }
}

fn tbox_of(u: &University) -> Vec<Triple> {
    vec![
        (u.employee, type_, Class),
        (u.faculty, type_, Class),
        (u.faculty, subClassOf, u.employee),
        (u.full_professor, type_, Class),
        (u.full_professor, subClassOf, u.professor),
        (u.professor, type_, Class),
        (u.professor, subClassOf, u.faculty),
        (u.head_of, type_, ObjectProperty),
        (u.head_of, subPropertyOf, u.works_for),
        (u.member_of, type_, ObjectProperty),
        (u.works_for, type_, ObjectProperty),
        (u.works_for, subPropertyOf, u.member_of),
        (u.works_for, type_, TransitiveProperty),
        (u.employs, type_, ObjectProperty),
        (u.employs, inverseOf, u.works_for),
        (u.teacher_of, type_, ObjectProperty),
        (u.teacher_of, domain, u.faculty),
        (u.teacher_of, range, u.course),
    ]
}

fn abox_of(u: &University) -> Vec<Triple> {
    vec![
        (u.full_professor_7, u.head_of, u.department_0),
        (u.full_professor_7, type_, u.full_professor),
        (u.full_professor_7, u.teacher_of, u.course_10),
        (u.full_professor_7, u.works_for, u.full_professor_8),
        (u.full_professor_8, u.works_for, u.full_professor_9),
        (u.full_professor_9, u.works_for, u.full_professor_10),
    ]
}

fn materialized_tbox(u: &University) -> Vec<Triple> {
    let mut v = tbox_of(u);
    v.extend(vec![
        (u.professor, subClassOf, u.employee),
        (u.full_professor, subClassOf, u.faculty),
        (u.full_professor, subClassOf, u.employee),
        (u.head_of, subPropertyOf, u.member_of),
    ]);
    v
}

#[test]
fn entrypoint_rdfs_works() {
    let mut reasoner = entrypoint(1, Engine::RDFS);
    let u = university();
    let (actual_tbox_diffs, actual_abox_diffs) = feed(&mut reasoner, &tbox_of(&u), &abox_of(&u));

    let expected_tbox_diffs = materialized_tbox(&u);
    let mut expected_abox_diffs = abox_of(&u);
    expected_abox_diffs.extend(vec![
        (u.full_professor_7, u.works_for, u.department_0),
        (u.full_professor_7, u.member_of, u.department_0),
        (u.full_professor_7, u.member_of, u.full_professor_8),
        (u.full_professor_8, u.member_of, u.full_professor_9),
        (u.full_professor_9, u.member_of, u.full_professor_10),
        (u.full_professor_7, type_, u.professor),
        (u.full_professor_7, type_, u.faculty),
        (u.full_professor_7, type_, u.employee),
        (u.course_10, type_, u.course),
    ]);

    assert_eq!(sorted(expected_tbox_diffs), sorted(actual_tbox_diffs));
    assert_eq!(sorted(expected_abox_diffs), sorted(actual_abox_diffs))
}

#[test]
fn entrypoint_rdfspp_works() {
    let mut reasoner = entrypoint(1, Engine::RDFSpp);
    let u = university();
    let (actual_tbox_diffs, actual_abox_diffs) = feed(&mut reasoner, &tbox_of(&u), &abox_of(&u));

    let expected_tbox_diffs = materialized_tbox(&u);
    let mut expected_abox_diffs = abox_of(&u);
    expected_abox_diffs.extend(vec![
        (u.full_professor_7, u.works_for, u.department_0),
        (u.full_professor_7, u.member_of, u.department_0),
        (u.full_professor_7, u.member_of, u.full_professor_8),
        (u.full_professor_8, u.member_of, u.full_professor_9),
        (u.full_professor_9, u.member_of, u.full_professor_10),
        (u.full_professor_7, type_, u.professor),
        (u.full_professor_7, type_, u.faculty),
        (u.full_professor_7, type_, u.employee),
        (u.full_professor_7, u.works_for, u.full_professor_9),
        (u.full_professor_7, u.works_for, u.full_professor_10),
        (u.full_professor_8, u.works_for, u.full_professor_10),
        (u.full_professor_7, u.member_of, u.full_professor_9),
        (u.full_professor_7, u.member_of, u.full_professor_10),
        (u.full_professor_8, u.member_of, u.full_professor_10),
        (u.department_0, u.employs, u.full_professor_7),
        (u.full_professor_10, u.employs, u.full_professor_9),
        (u.full_professor_10, u.employs, u.full_professor_8),
        (u.full_professor_10, u.employs, u.full_professor_7),
        (u.full_professor_9, u.employs, u.full_professor_7),
        (u.full_professor_9, u.employs, u.full_professor_8),
        (u.full_professor_8, u.employs, u.full_professor_7),
        (u.course_10, type_, u.course),
    ]);

    assert_eq!(sorted(expected_tbox_diffs), sorted(actual_tbox_diffs));
    assert_eq!(sorted(expected_abox_diffs), sorted(actual_abox_diffs))
}

#[test]
fn entrypoint_dummy_works() {
    let mut reasoner = entrypoint(1, Engine::Dummy);
    let u = university();
    let (actual_tbox_diffs, actual_abox_diffs) = feed(&mut reasoner, &tbox_of(&u), &abox_of(&u));

    let expected_tbox_diffs = tbox_of(&u);
    let expected_abox_diffs = abox_of(&u);

    assert_eq!(sorted(expected_tbox_diffs), sorted(actual_tbox_diffs));
    assert_eq!(sorted(expected_abox_diffs), sorted(actual_abox_diffs))
}

#[test]
fn reason_works() {
    let tbox = vec![((28, 17, 29), 1), ((28, 4, 13), 1)];
    let abox = vec![((30, 28, 1), 1), ((30, 29, 1), 1)];
    assert_eq!(dummy_first_stage_materialization(&vec![(28, 17, 29)]).0, vec![(28, 17, 29)]);
    assert_eq!(
        dummy_second_stage_materialization(&vec![], &vec![], &vec![(30, 28, 1)]),
        vec![(30, 28, 1)]
    );
    let out = match reason(Engine::Dummy, &vec![(tbox, abox)]) {
        Ok(out) => out,
        Err(_) => panic!("the batch was refused"),
    };
    let actual_tbox_diffs: Vec<Delta> = out.tbox;
    let actual_abox_diffs: Vec<Delta> = out.abox;

    let expected_tbox_diffs = vec![((28, 17, 29), 0, 1), ((28, 4, 13), 0, 1)];
    let expected_abox_diffs = vec![((30, 28, 1), 0, 1), ((30, 29, 1), 0, 1)];

    assert_eq!(expected_tbox_diffs, actual_tbox_diffs);
    assert_eq!(expected_abox_diffs, actual_abox_diffs);
}

#[test]
fn a_run_emits_epoch_by_epoch_and_ends_where_a_batch_is_refused() {
    let t = (100, 101, 102);
    let u = (100, 101, 103);
    let batches = vec![
        (vec![], vec![(t, 1)]),
        (vec![], vec![(u, 1), (t, -1)]),
        (vec![], vec![]),
        (vec![(t, 1)], vec![(t, 1)]),
    ];
    let out = match reason(Engine::Dummy, &batches) {
        Ok(out) => out,
        Err(_) => panic!("a batch was refused"),
    };
    assert_eq!(out.abox, vec![(t, 0, 1), (u, 1, 1), (t, 1, -1), (t, 3, 1)]);
    assert_eq!(out.tbox, vec![(t, 3, 1)]);
    let heavy = vec![(vec![], vec![(t, 1)]), (vec![(t, i64::MAX), (u, 1)], vec![]), (vec![], vec![])];
    assert!(matches!(reason(Engine::RDFS, &heavy), Err((1, ReasonError::TboxOverflow))));
    assert!(matches!(reason(Engine::OWL2RL, &vec![]), Ok(_)));
}

#[test]
fn tbox_spo_sco_materialization_works() {
    let professor = MAX_CONST + 1;
    let employee = MAX_CONST + 2;
    let tax_payer = MAX_CONST + 3;
    let head_of = MAX_CONST + 4;
    let works_for = MAX_CONST + 5;
    let member_of = MAX_CONST + 6;
    let tbox = vec![
        (professor, subClassOf, employee),
        (employee, subClassOf, tax_payer),
        (head_of, subPropertyOf, works_for),
        (works_for, subPropertyOf, member_of),
    ];
    let (closure, lists) = tbox_spo_sco_materialization(&tbox);
    assert_eq!(lists, vec![(0, vec![0])]);

    let mut reasoner = entrypoint(4, Engine::RDFS);
    let updates: Vec<(Triple, i64)> = tbox.iter().map(|t| (*t, 1)).collect();
    let out = reasoner.ingest(&updates, &vec![]).unwrap();
    let actual_tbox_diffs = sorted(out.tbox);
    assert_eq!(sorted(closure), actual_tbox_diffs.iter().map(|d| d.0).collect::<Vec<_>>());

    let expected_tbox_diffs = sorted(vec![
        ((professor, subClassOf, employee), 0, 1),
        ((employee, subClassOf, tax_payer), 0, 1),
        ((professor, subClassOf, tax_payer), 0, 1),
        ((head_of, subPropertyOf, works_for), 0, 1),
        ((works_for, subPropertyOf, member_of), 0, 1),
        ((head_of, subPropertyOf, member_of), 0, 1),
    ]);

    assert_eq!(expected_tbox_diffs, actual_tbox_diffs)
}

#[test]
fn retracting_a_subclass_link_retracts_what_hung_on_it() {
    let mut reasoner = entrypoint(1, Engine::RDFS);
    let u = university();
    let tbox: Vec<(Triple, i64)> = tbox_of(&u).into_iter().map(|t| (t, 1)).collect();
    // Without the teacher_of assertion, so that only the class hierarchy
    // makes the professor a member of the faculty.
    let abox: Vec<(Triple, i64)> = abox_of(&u)
        .into_iter()
        .filter(|t| t.1 != u.teacher_of)
        .map(|t| (t, 1))
        .collect();
    let opening = reasoner.ingest(&tbox, &abox).unwrap();
    assert!(opening.abox.iter().all(|d| d.1 == 0 && d.2 == 1));

    let out = reasoner
        .ingest(&vec![((u.full_professor, subClassOf, u.professor), -1)], &vec![])
        .unwrap();
    assert_eq!(
        out.abox,
        sorted(vec![
            ((u.full_professor_7, type_, u.professor), 1, -1),
            ((u.full_professor_7, type_, u.faculty), 1, -1),
            ((u.full_professor_7, type_, u.employee), 1, -1),
        ])
    );
    // first what the batch names, then what hung on it, in the order of the triples
    assert_eq!(
        out.tbox,
        vec![
            ((u.full_professor, subClassOf, u.professor), 1, -1),
            ((u.full_professor, subClassOf, u.employee), 1, -1),
            ((u.full_professor, subClassOf, u.faculty), 1, -1),
        ]
    );
    let left = reasoner.abox_snapshot();
    assert!(left.contains(&(u.full_professor_7, type_, u.full_professor)));
    assert_eq!(reasoner.current_epoch(), 2);
}

#[test]
fn a_second_derivation_keeps_a_triple() {
    let mut reasoner = entrypoint(1, Engine::RDFS);
    let u = university();
    let tbox: Vec<(Triple, i64)> = tbox_of(&u).into_iter().map(|t| (t, 1)).collect();
    let abox: Vec<(Triple, i64)> = abox_of(&u).into_iter().map(|t| (t, 1)).collect();
    let opening = reasoner.ingest(&tbox, &abox).unwrap();
    assert_eq!(opening.abox.len(), 15);

    let out = reasoner
        .ingest(&vec![((u.full_professor, subClassOf, u.professor), -1)], &vec![])
        .unwrap();
    // The domain of teacher_of still makes the professor a member of the
    // faculty, and so an employee.
    assert_eq!(out.abox, vec![((u.full_professor_7, type_, u.professor), 1, -1)]);
    let left = reasoner.abox_snapshot();
    assert!(left.contains(&(u.full_professor_7, type_, u.full_professor)));
    assert!(left.contains(&(u.full_professor_7, type_, u.faculty)));
    assert!(left.contains(&(u.full_professor_7, type_, u.employee)));
}

#[test]
fn insert_then_retract_in_one_batch_emits_nothing() {
    for logic in [Engine::RDFS, Engine::RDFSpp, Engine::OWL2RL, Engine::Dummy] {
        let mut reasoner = entrypoint(1, logic);
        let u = university();
        let tbox: Vec<(Triple, i64)> = tbox_of(&u).into_iter().map(|t| (t, 1)).collect();
        reasoner.ingest(&tbox, &vec![]).unwrap();
        let t = (u.full_professor_7, type_, u.full_professor);
        let out = reasoner.ingest(&vec![], &vec![(t, 1), (t, -1)]).unwrap();
        assert!(out.tbox.is_empty());
        assert!(out.abox.is_empty());
        // twice in, once out: still there, once
        let out = reasoner.ingest(&vec![], &vec![(t, 1), (t, 1), (t, -1)]).unwrap();
        assert!(out.abox.contains(&(t, 2, 1)));
        assert!(out.abox.iter().all(|d| d.2 == 1));
    }
}

#[test]
fn insert_then_retract_restores_the_empty_closure() {
    for logic in [Engine::RDFS, Engine::RDFSpp, Engine::OWL2RL, Engine::Dummy] {
        let mut reasoner = entrypoint(1, logic);
        let u = university();
        let tbox: Vec<(Triple, i64)> = tbox_of(&u).into_iter().map(|t| (t, 1)).collect();
        let abox: Vec<(Triple, i64)> = abox_of(&u).into_iter().map(|t| (t, 1)).collect();
        let minus_tbox: Vec<(Triple, i64)> = tbox.iter().map(|u| (u.0, -1)).collect();
        let minus_abox: Vec<(Triple, i64)> = abox.iter().map(|u| (u.0, -1)).collect();
        let opening = reasoner.ingest(&tbox, &abox).unwrap();
        let closing = reasoner.ingest(&minus_tbox, &minus_abox).unwrap();
        assert!(reasoner.tbox_snapshot().is_empty());
        let bootstrap = if logic == Engine::OWL2RL {
            sorted(vec![(Thing, type_, Class), (Nothing, type_, Class)])
        } else {
            vec![]
        };
        assert_eq!(sorted(reasoner.abox_snapshot()), bootstrap);
        // every +1 of the first batch is taken back by a -1 of the second, but for the bootstrap
        let came: Vec<Triple> = opening.abox.iter().map(|d| d.0).collect();
        let went: Vec<Triple> = closing.abox.iter().map(|d| d.0).collect();
        let stayed: Vec<Triple> = came.iter().filter(|t| !went.contains(t)).cloned().collect();
        assert_eq!(sorted(stayed), bootstrap);
        assert!(closing.abox.iter().all(|d| d.1 == 1 && d.2 == -1));
    }
}

#[test]
fn empty_boxes_give_nothing_but_the_bootstrap() {
    for logic in [Engine::RDFS, Engine::RDFSpp, Engine::Dummy] {
        let mut reasoner = entrypoint(1, logic);
        let out = reasoner.ingest(&vec![], &vec![]).unwrap();
        assert!(out.tbox.is_empty() && out.abox.is_empty());
    }
    let mut reasoner = entrypoint(1, Engine::OWL2RL);
    let out = reasoner.ingest(&vec![], &vec![]).unwrap();
    assert!(out.tbox.is_empty());
    assert_eq!(out.abox, sorted(vec![((Thing, type_, Class), 0, 1), ((Nothing, type_, Class), 0, 1)]));
    let again = reasoner.ingest(&vec![], &vec![]).unwrap();
    assert!(again.abox.is_empty());
}

#[test]
fn cyclic_subclasses_end() {
    let (a, b, x) = (100, 101, 200);
    for logic in [Engine::RDFS, Engine::RDFSpp, Engine::OWL2RL] {
        let mut reasoner = entrypoint(1, logic);
        let out = reasoner
            .ingest(&vec![((a, subClassOf, b), 1), ((b, subClassOf, a), 1)], &vec![((x, type_, a), 1)])
            .unwrap();
        let tbox: Vec<Triple> = out.tbox.iter().map(|d| d.0).collect();
        for t in [(a, subClassOf, b), (b, subClassOf, a), (a, subClassOf, a), (b, subClassOf, b)] {
            assert!(tbox.contains(&t));
        }
        assert!(out.abox.contains(&((x, type_, b), 0, 1)));
    }
}

#[test]
fn profiles_nest_on_the_university() {
    let u = university();
    let tbox: Vec<(Triple, i64)> = tbox_of(&u).into_iter().map(|t| (t, 1)).collect();
    let abox: Vec<(Triple, i64)> = abox_of(&u).into_iter().map(|t| (t, 1)).collect();
    let mut closures = vec![];
    for logic in [Engine::Dummy, Engine::RDFS, Engine::RDFSpp, Engine::OWL2RL] {
        let mut reasoner = entrypoint(1, logic);
        reasoner.ingest(&tbox, &abox).unwrap();
        closures.push((reasoner.tbox_snapshot(), reasoner.abox_snapshot()));
    }
    for pair in closures.windows(2) {
        assert!(pair[0].0.iter().all(|t| pair[1].0.contains(t)));
        assert!(pair[0].1.iter().all(|t| pair[1].1.contains(t)));
    }
    assert!(closures[2].1.len() < closures[3].1.len());
}

#[test]
fn a_refused_batch_changes_nothing() {
    let mut reasoner = entrypoint(1, Engine::RDFS);
    let t = (100, 101, 102);
    reasoner.ingest(&vec![], &vec![(t, i64::MAX)]).unwrap();
    let refused = reasoner.ingest(&vec![], &vec![(t, 1)]);
    assert!(matches!(refused, Err(ReasonError::AboxOverflow)));
    let refused = reasoner.ingest(&vec![((1, 2, 3), i64::MIN)], &vec![]);
    assert!(matches!(refused, Err(ReasonError::TboxOverflow)));
    let refused = reasoner.ingest(&vec![((1, 2, 3), i64::MAX), ((1, 2, 4), 1)], &vec![]);
    assert!(matches!(refused, Err(ReasonError::TboxOverflow)));
    assert_eq!(reasoner.current_epoch(), 1);
    assert_eq!(reasoner.abox_snapshot(), vec![t]);
    assert!(reasoner.tbox_snapshot().is_empty());
    let out = reasoner.ingest(&vec![((1, 2, 3), i64::MAX)], &vec![]).unwrap();
    assert_eq!(out.tbox, vec![((1, 2, 3), 1, 1)]);
}

#[test]
fn a_retraction_without_support_is_no_support() {
    let mut reasoner = entrypoint(1, Engine::Dummy);
    let t = (100, 101, 102);
    let out = reasoner.ingest(&vec![], &vec![(t, -1)]).unwrap();
    assert!(out.abox.is_empty());
    let out = reasoner.ingest(&vec![], &vec![(t, 1)]).unwrap();
    assert!(out.abox.is_empty());
    let out = reasoner.ingest(&vec![], &vec![(t, 1)]).unwrap();
    assert_eq!(out.abox, vec![(t, 2, 1)]);
}

#[test]
fn profile_names() {
    assert_eq!(select(b"rdfs"), Engine::RDFS);
    assert_eq!(select(b"rdfspp"), Engine::RDFSpp);
    assert_eq!(select(b"owl2rl"), Engine::OWL2RL);
    assert_eq!(select(b"owl"), Engine::Dummy);
    assert_eq!(select(b""), Engine::Dummy);
    assert_eq!(select(b"RDFS"), Engine::Dummy);
    assert_eq!(entrypoint(7, Engine::RDFSpp).profile(), Engine::RDFSpp);
    assert_eq!(entrypoint(7, Engine::RDFSpp).full_batch(), 7);
}

#[test]
fn the_last_epoch_takes_no_batch() {
    let mut reasoner = Reasoner::starting_at(Engine::RDFS, 1, usize::MAX - 1);
    let t = (100, 101, 102);
    let out = reasoner.ingest(&vec![], &vec![(t, 1)]).unwrap();
    assert_eq!(out.abox, vec![(t, usize::MAX - 1, 1)]);
    assert_eq!(reasoner.current_epoch(), usize::MAX);
    let refused = reasoner.ingest(&vec![], &vec![(t, -1)]);
    assert!(matches!(refused, Err(ReasonError::EpochExhausted)));
    assert_eq!(reasoner.abox_snapshot(), vec![t]);
    assert_eq!(Reasoner::new(Engine::Dummy, 3).current_epoch(), 0);
}

#[test]
fn insertions_only_add() {
    let u = university();
    for logic in [Engine::RDFS, Engine::RDFSpp, Engine::OWL2RL] {
        let mut reasoner = entrypoint(1, logic);
        let mut emitted: Vec<Delta> = vec![];
        let mut last_size = 0;
        for t in tbox_of(&u) {
            emitted.extend(reasoner.ingest(&vec![(t, 1)], &vec![]).unwrap().tbox);
        }
        for t in abox_of(&u) {
            let out = reasoner.ingest(&vec![], &vec![(t, 1)]).unwrap();
            assert!(out.abox.iter().all(|d| d.2 == 1));
            emitted.extend(out.tbox);
            let size = reasoner.abox_snapshot().len();
            assert!(size > last_size);
            last_size = size;
        }
        assert!(emitted.iter().all(|d| d.2 == 1));
    }
}

#[test]
fn an_insertion_that_breaks_a_list_takes_back_what_hung_on_it() {
    let (c, h, z, a, b) = (100, 101, 102, 103, 104);
    let mut reasoner = entrypoint(1, Engine::OWL2RL);
    let start = vec![((c, intersectionOf, h), 1), ((h, first, a), 1), ((h, rest, nil), 1)];
    let out = reasoner.ingest(&start, &vec![]).unwrap();
    assert!(out.tbox.contains(&((c, subClassOf, a), 0, 1)));
    // h comes to follow z: the list at h is no list any more
    let out = reasoner.ingest(&vec![((z, first, b), 1), ((z, rest, h), 1)], &vec![]).unwrap();
    assert!(out.tbox.contains(&((c, subClassOf, a), 1, -1)));
}

#[test]
fn every_delta_is_plus_or_minus_one_and_sums_to_the_closure() {
    let u = university();
    let mut reasoner = entrypoint(1, Engine::RDFSpp);
    let tbox: Vec<(Triple, i64)> = tbox_of(&u).into_iter().map(|t| (t, 1)).collect();
    let mut all: Vec<Delta> = vec![];
    all.extend(reasoner.ingest(&tbox, &vec![]).unwrap().abox);
    for t in abox_of(&u) {
        all.extend(reasoner.ingest(&vec![], &vec![(t, 3)]).unwrap().abox);
    }
    let wf = (u.full_professor_8, u.works_for, u.full_professor_9);
    all.extend(reasoner.ingest(&vec![], &vec![(wf, -2)]).unwrap().abox);
    assert!(reasoner.abox_snapshot().contains(&wf));
    all.extend(reasoner.ingest(&vec![], &vec![(wf, -1)]).unwrap().abox);
    assert!(!reasoner.abox_snapshot().contains(&wf));
    assert!(all.iter().all(|d| d.2 == 1 || d.2 == -1));
    let closure = sorted(reasoner.abox_snapshot());
    let mut triples: Vec<Triple> = all.iter().map(|d| d.0).collect();
    triples.sort_unstable();
    triples.dedup();
    for t in triples {
        let sum: i64 = all.iter().filter(|d| d.0 == t).map(|d| d.2).sum();
        assert_eq!(sum, if closure.binary_search(&t).is_ok() { 1 } else { 0 });
    }
    // the epochs rise, and no triple stands twice in one epoch
    assert!(all.windows(2).all(|w| w[0].1 <= w[1].1));
    let mut marks: Vec<(usize, Triple)> = all.iter().map(|d| (d.1, d.0)).collect();
    marks.sort_unstable();
    assert!(marks.windows(2).all(|w| w[0] != w[1]));
}

#[test]
fn two_runs_emit_the_same() {
    let u = university();
    let run = || {
        let mut reasoner = entrypoint(2, Engine::OWL2RL);
        let mut all = vec![];
        for pair in tbox_of(&u).chunks(2).zip(abox_of(&u).chunks(2)) {
            let tbox: Vec<(Triple, i64)> = pair.0.iter().map(|t| (*t, 1)).collect();
            let abox: Vec<(Triple, i64)> = pair.1.iter().map(|t| (*t, 1)).collect();
            let out = reasoner.ingest(&tbox, &abox).unwrap();
            all.push((out.tbox, out.abox));
        }
        all
    };
    assert_eq!(run(), run());
}

#[test]
fn subject_and_object_may_be_the_same() {
    let (p, q, c, x) = (100, 101, 102, 200);
    for logic in [Engine::RDFS, Engine::RDFSpp, Engine::OWL2RL, Engine::Dummy] {
        let mut reasoner = entrypoint(1, logic);
        let tbox = vec![((p, subPropertyOf, q), 1), ((p, range, c), 1), ((p, subPropertyOf, p), 1)];
        let out = reasoner.ingest(&tbox, &vec![((x, p, x), 1)]).unwrap();
        assert!(out.abox.contains(&((x, p, x), 0, 1)));
        if logic != Engine::Dummy {
            assert!(out.abox.contains(&((x, q, x), 0, 1)));
            assert!(out.abox.contains(&((x, type_, c), 0, 1)));
        }
    }
}

#[test]
fn what_passes_through_keeps_the_order_of_arrival() {
    let mut reasoner = entrypoint(4, Engine::Dummy);
    let batch = vec![((9, 1, 1), 1), ((3, 1, 1), 1), ((5, 1, 1), 1), ((3, 1, 1), 1)];
    let out = reasoner.ingest(&batch, &batch).unwrap();
    let expected = vec![((9, 1, 1), 0, 1), ((3, 1, 1), 0, 1), ((5, 1, 1), 0, 1)];
    assert_eq!(out.tbox, expected);
    assert_eq!(out.abox, expected);
    let out = reasoner.ingest(&vec![], &vec![((5, 1, 1), -1), ((1, 1, 1), 1), ((9, 1, 1), -1)]).unwrap();
    assert_eq!(out.abox, vec![((5, 1, 1), 1, -1), ((1, 1, 1), 1, 1), ((9, 1, 1), 1, -1)]);
    // under a profile that infers, what follows comes after what arrived
    let mut reasoner = entrypoint(4, Engine::RDFS);
    let out = reasoner
        .ingest(&vec![((100, domain, 7), 1)], &vec![((60, 100, 61), 1), ((50, 100, 51), 1)])
        .unwrap();
    assert_eq!(
        out.abox,
        vec![((60, 100, 61), 0, 1), ((50, 100, 51), 0, 1), ((50, type_, 7), 0, 1), ((60, type_, 7), 0, 1)]
    );
}

#[test]
fn the_domain_rule_over_three_batches() {
    let batches = vec![
        (vec![((50, domain, 70), 1)], vec![]),
        (vec![], vec![((60, 50, 61), 1)]),
        (vec![], vec![((60, 50, 61), -1)]),
    ];
    let out = match reason(Engine::RDFS, &batches) {
        Ok(out) => out,
        Err(_) => panic!("a batch was refused"),
    };
    assert_eq!(out.tbox, vec![((50, domain, 70), 0, 1)]);
    assert_eq!(
        out.abox,
        vec![
            ((60, 50, 61), 1, 1),
            ((60, type_, 70), 1, 1),
            ((60, 50, 61), 2, -1),
            ((60, type_, 70), 2, -1),
        ]
    );
}
