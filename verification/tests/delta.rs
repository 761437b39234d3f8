use dire_engine::delta::{accumulate, difference, support};

#[test]
fn accumulate_sorts_and_sums() {
    let state = vec![((1, 1, 1), 2), ((3, 0, 0), 1)];
    let batch = vec![((2, 9, 9), 1), ((1, 1, 1), -2), ((2, 9, 9), 4), ((0, 5, 5), -3), ((3, 0, 0), 1)];
    assert_eq!(
        accumulate(&state, &batch),
        Some(vec![((0, 5, 5), -3), ((2, 9, 9), 5), ((3, 0, 0), 2)])
    );
    // unsorted input with nothing to sum still comes out sorted
    assert_eq!(
        accumulate(&vec![], &vec![((2, 0, 0), 1), ((1, 0, 0), 1)]),
        Some(vec![((1, 0, 0), 1), ((2, 0, 0), 1)])
    );
    assert_eq!(accumulate(&vec![], &vec![]), Some(vec![]));
    assert_eq!(accumulate(&vec![], &vec![((1, 1, 1), 0)]), Some(vec![]));
}

#[test]
fn triples_are_ordered_by_subject_then_predicate_then_object() {
    let batch = vec![((1, 2, 0), 1), ((1, 1, 9), 1), ((0, 9, 9), 1), ((1, 1, 2), 1)];
    assert_eq!(
        accumulate(&vec![], &batch),
        Some(vec![((0, 9, 9), 1), ((1, 1, 2), 1), ((1, 1, 9), 1), ((1, 2, 0), 1)])
    );
}

#[test]
fn accumulate_refuses_what_does_not_sum_in_64_bits() {
    let t = (1, 1, 1);
    assert_eq!(accumulate(&vec![(t, i64::MAX)], &vec![(t, 1)]), None);
    assert_eq!(accumulate(&vec![], &vec![(t, i64::MIN)]), None);
    assert_eq!(accumulate(&vec![(t, i64::MAX - 1)], &vec![((2, 2, 2), 1)]).unwrap().len(), 2);
    assert_eq!(accumulate(&vec![((2, 2, 2), -i64::MAX)], &vec![]), Some(vec![((2, 2, 2), -i64::MAX)]));
}

#[test]
fn support_is_what_sums_above_zero() {
    let state = accumulate(&vec![], &vec![((1, 1, 1), 2), ((2, 2, 2), -1), ((3, 3, 3), 1), ((3, 3, 3), -1)])
        .unwrap();
    assert_eq!(support(&state), vec![(1, 1, 1)]);
}

#[test]
fn difference_is_plus_and_minus_one_in_order() {
    let old = vec![(5, 5, 5), (1, 1, 1), (3, 3, 3)];
    let new = vec![(3, 3, 3), (0, 0, 1), (9, 9, 9), (5, 5, 5)];
    // what the batch does not name comes in the order of the triples
    assert_eq!(
        difference(&new, &old, 7, &vec![]),
        vec![((0, 0, 1), 7, 1), ((1, 1, 1), 7, -1), ((9, 9, 9), 7, 1)]
    );
    assert_eq!(difference(&old, &old, 0, &vec![((1, 1, 1), 1)]), vec![]);
    assert_eq!(difference(&vec![], &vec![(1, 1, 1)], 2, &vec![]), vec![((1, 1, 1), 2, -1)]);
    assert_eq!(difference(&vec![(2, 0, 0), (1, 0, 0)], &vec![], usize::MAX, &vec![]), vec![
        ((1, 0, 0), usize::MAX, 1),
        ((2, 0, 0), usize::MAX, 1),
    ]);
}

#[test]
fn what_the_batch_names_comes_first_as_it_arrived() {
    let old = vec![(5, 5, 5), (1, 1, 1), (3, 3, 3)];
    let new = vec![(3, 3, 3), (0, 0, 1), (9, 9, 9), (5, 5, 5), (4, 4, 4)];
    let batch = vec![((9, 9, 9), 1), ((3, 3, 3), 1), ((1, 1, 1), -1), ((9, 9, 9), 2), ((4, 4, 4), 1)];
    assert_eq!(
        difference(&new, &old, 3, &batch),
        vec![((9, 9, 9), 3, 1), ((1, 1, 1), 3, -1), ((4, 4, 4), 3, 1), ((0, 0, 1), 3, 1)]
    );
}
