use dire_engine::materialization::owl2rl::{expand_lists, owl2rl_abox, owl2rl_tbox};
use dire_engine::model::consts::constants::owl::{
    intersectionOf, oneOf, propertyChainAxiom, sameAs, unionOf, Class, FunctionalProperty,
    Nothing, SymmetricProperty, Thing,
};
use dire_engine::model::consts::constants::rdfs::{first, nil, rest, subClassOf, type_};
use dire_engine::model::consts::constants::MAX_CONST;

type Triple = (u32, u32, u32);

fn sorted<T: Ord>(mut v: Vec<T>) -> Vec<T> {
    v.sort_unstable();
    v.dedup();
    v
}

#[test]
fn list_expansion_works() {
    let some_class_1 = MAX_CONST + 1;
    let some_class_2 = MAX_CONST + 2;
    let some_class_3 = MAX_CONST + 3;
    let some_class_4 = MAX_CONST + 4;
    let some_class_5 = MAX_CONST + 5;
    let some_class_6 = MAX_CONST + 6;
    let list_1 = MAX_CONST + 7;
    let list_2 = MAX_CONST + 8;
    let list_3 = MAX_CONST + 9;
    let list_4 = MAX_CONST + 10;
    let list_5 = MAX_CONST + 11;
    let list_6 = MAX_CONST + 12;
    let iof_test = MAX_CONST + 13;
    let uof_test = MAX_CONST + 14;
    let tbox: Vec<Triple> = vec![
        (list_1, first, some_class_1),
        (list_1, rest, list_2),
        (list_2, first, some_class_2),
        (list_2, rest, list_3),
        (list_3, first, some_class_3),
        (list_3, rest, nil),
        (list_4, first, some_class_4),
        (list_4, rest, list_5),
        (list_5, first, some_class_5),
        (list_5, rest, list_6),
        (list_6, first, some_class_6),
        (list_6, rest, nil),
        (iof_test, intersectionOf, list_1),
        (uof_test, unionOf, list_4),
    ];

    let lists = expand_lists(&tbox);
    assert_eq!(
        sorted(lists.clone()),
        vec![
            (list_1, vec![some_class_1, some_class_2, some_class_3]),
            (list_4, vec![some_class_4, some_class_5, some_class_6]),
        ]
    );

    // The first stage of the test: from every intersection its subclass
    // triples, then from every union its subclass triples.
    let mut actual_tbox_diffs: Vec<Triple> = vec![];
    for (s, p, o) in tbox.iter() {
        if *p == intersectionOf {
            for (head, members) in lists.iter().filter(|l| l.0 == *o) {
                assert_eq!(head, o);
                actual_tbox_diffs.extend(members.iter().map(|c_x| (*s, subClassOf, *c_x)));
            }
        }
    }
    for (s, p, o) in tbox.iter() {
        if *p == unionOf {
            for (_head, members) in lists.iter().filter(|l| l.0 == *o) {
                actual_tbox_diffs.extend(members.iter().map(|c_x| (*c_x, subClassOf, *s)));
            }
        }
    }

    let expected_tbox_diffs = vec![
        (iof_test, subClassOf, some_class_1),
        (iof_test, subClassOf, some_class_2),
        (iof_test, subClassOf, some_class_3),
        (some_class_4, subClassOf, uof_test),
        (some_class_5, subClassOf, uof_test),
        (some_class_6, subClassOf, uof_test),
    ];

    assert_eq!(expected_tbox_diffs, actual_tbox_diffs);

    // The schema closure holds them too, and hands the same lists on.
    let (closure, handed_lists) = owl2rl_tbox(&tbox);
    assert_eq!(handed_lists, lists);
    for t in expected_tbox_diffs {
        assert!(closure.contains(&t));
    }
}

#[test]
fn a_list_that_two_chains_spell_stands_once() {
    let (h, r1, r2, a, b) = (100, 101, 102, 200, 201);
    let tbox: Vec<Triple> = vec![
        (h, first, a),
        (h, rest, r1),
        (h, rest, r2),
        (r1, first, b),
        (r1, rest, nil),
        (r2, first, b),
        (r2, rest, nil),
    ];
    assert_eq!(expand_lists(&tbox), vec![(h, vec![a, b])]);
    // a cell with two members heads two lists
    let forked: Vec<Triple> = vec![(h, first, a), (h, first, b), (h, rest, nil)];
    assert_eq!(sorted(expand_lists(&forked)), vec![(h, vec![a]), (h, vec![b])]);
}

#[test]
fn list_of_three_cells_expands_in_cell_order() {
    let (h, r1, r2, a, b, c) = (100, 101, 102, 203, 202, 201);
    let tbox: Vec<Triple> = vec![
        (r2, rest, nil),
        (r1, first, b),
        (h, first, a),
        (h, rest, r1),
        (r2, first, c),
        (r1, rest, r2),
    ];
    assert_eq!(expand_lists(&tbox), vec![(h, vec![a, b, c])]);
}

#[test]
fn list_without_nil_or_without_first_is_not_a_list() {
    let tbox: Vec<Triple> = vec![(100, first, 1), (100, rest, 101), (101, first, 2)];
    assert_eq!(expand_lists(&tbox), Vec::<(u32, Vec<u32>)>::new());
    assert_eq!(expand_lists(&Vec::new()), Vec::<(u32, Vec<u32>)>::new());
}

#[test]
fn cyclic_cells_end_the_walk() {
    // 100 -> 101 -> 102 -> 101 ... and 102 -> nil as well.
    let tbox: Vec<Triple> = vec![
        (100, first, 1),
        (100, rest, 101),
        (101, first, 2),
        (101, rest, 102),
        (102, first, 3),
        (102, rest, 101),
        (102, rest, nil),
    ];
    assert_eq!(expand_lists(&tbox), vec![(100, vec![1, 2, 3])]);
    // A ring has no first cell.
    let ring: Vec<Triple> = vec![(100, first, 1), (100, rest, 101), (101, first, 2), (101, rest, 100)];
    assert_eq!(expand_lists(&ring), Vec::<(u32, Vec<u32>)>::new());
}

#[test]
fn same_as_is_closed_in_the_tbox() {
    let (a, b, c) = (100, 101, 102);
    let tbox: Vec<Triple> = vec![(a, sameAs, b), (b, sameAs, c)];
    let (closure, _lists) = owl2rl_tbox(&tbox);
    for t in [(a, sameAs, c), (b, sameAs, a), (c, sameAs, a), (c, sameAs, b)] {
        assert!(closure.contains(&t), "{:?}", t);
    }
}

#[test]
fn class_declaration_gives_the_four_schema_triples() {
    let c = 100;
    let (closure, _lists) = owl2rl_tbox(&vec![(c, type_, Class)]);
    assert_eq!(
        sorted(closure),
        sorted(vec![
            (c, type_, Class),
            (c, subClassOf, c),
            (c, dire_engine::model::consts::constants::owl::equivalentClass, c),
            (c, subClassOf, Thing),
            (Nothing, subClassOf, c),
            // and, by the transitivity of subClassOf,
            (Nothing, subClassOf, Thing),
        ])
    );
}

#[test]
fn property_chain_gives_the_uncle() {
    let (has_uncle, has_parent, has_brother, l, l2) = (100, 101, 102, 103, 104);
    let (x, y, z) = (200, 201, 202);
    let tbox: Vec<Triple> = vec![
        (has_uncle, propertyChainAxiom, l),
        (l, first, has_parent),
        (l, rest, l2),
        (l2, first, has_brother),
        (l2, rest, nil),
    ];
    let abox: Vec<Triple> = vec![(x, has_parent, y), (y, has_brother, z)];
    let (closure, lists) = owl2rl_tbox(&tbox);
    assert_eq!(lists, vec![(l, vec![has_parent, has_brother])]);
    let actual = owl2rl_abox(&closure, &lists, &abox);
    assert_eq!(
        sorted(actual),
        sorted(vec![
            (x, has_parent, y),
            (y, has_brother, z),
            (x, has_uncle, z),
            (Thing, type_, Class),
            (Nothing, type_, Class),
        ])
    );
}

#[test]
fn intersection_needs_every_class() {
    let (c, c0, c1, l, l2) = (100, 101, 102, 103, 104);
    let (x, y) = (200, 201);
    let tbox: Vec<Triple> = vec![
        (c, intersectionOf, l),
        (l, first, c0),
        (l, rest, l2),
        (l2, first, c1),
        (l2, rest, nil),
    ];
    let abox: Vec<Triple> = vec![(x, type_, c0), (x, type_, c1), (y, type_, c0)];
    let (closure, lists) = owl2rl_tbox(&tbox);
    let actual = owl2rl_abox(&closure, &lists, &abox);
    assert!(actual.contains(&(x, type_, c)));
    assert!(!actual.contains(&(y, type_, c)));
    // scm-int: the intersection is a subclass of each of its members.
    assert!(closure.contains(&(c, subClassOf, c0)));
    assert!(closure.contains(&(c, subClassOf, c1)));
}

#[test]
fn one_of_types_every_member() {
    let (c, l, m) = (100, 103, 200);
    let tbox: Vec<Triple> = vec![(c, oneOf, l), (l, first, m), (l, rest, nil)];
    let (closure, lists) = owl2rl_tbox(&tbox);
    let actual = owl2rl_abox(&closure, &lists, &Vec::new());
    assert!(actual.contains(&(m, type_, c)));
}

#[test]
fn empty_boxes_give_only_the_bootstrap_triples() {
    let (closure, lists) = owl2rl_tbox(&Vec::new());
    assert!(closure.is_empty());
    assert!(lists.is_empty());
    let actual = owl2rl_abox(&closure, &lists, &Vec::new());
    assert_eq!(sorted(actual), sorted(vec![(Thing, type_, Class), (Nothing, type_, Class)]));
}

#[test]
fn functional_property_equates_and_replaces() {
    let (p, q, x, y1, y2, w) = (100, 101, 200, 201, 202, 203);
    let tbox: Vec<Triple> = vec![(p, type_, FunctionalProperty)];
    let abox: Vec<Triple> = vec![(x, p, y1), (x, p, y2), (y1, q, w)];
    let (closure, lists) = owl2rl_tbox(&tbox);
    let actual = owl2rl_abox(&closure, &lists, &abox);
    // y1 and y2 are found equal, so what holds of one holds of the other.
    assert!(actual.contains(&(y2, q, w)));
    // The equality itself is kept apart from the assertions.
    assert!(!actual.contains(&(y1, sameAs, y2)));
}

#[test]
fn symmetric_property_and_self_loops() {
    let (p, x, y) = (100, 200, 201);
    let tbox: Vec<Triple> = vec![(p, type_, SymmetricProperty)];
    let abox: Vec<Triple> = vec![(x, p, y), (x, p, x)];
    let (closure, lists) = owl2rl_tbox(&tbox);
    let actual = owl2rl_abox(&closure, &lists, &abox);
    assert!(actual.contains(&(y, p, x)));
    assert!(actual.contains(&(x, p, x)));
}
