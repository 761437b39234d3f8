use dire_engine::materialization::common::{
    abox_domain_and_range_type_materialization, abox_sco_type_materialization,
    dummy_binary_materialization, dummy_unary_materialization, join_on_key,
};
use dire_engine::model::consts::constants::rdfs::{subClassOf, type_};
use dire_engine::model::types::{write_number, RuntimeLog};

#[test]
fn a_log_record_is_five_numbers_with_commas() {
    assert_eq!(RuntimeLog::new(0, 0, 0, 0, 0).to_string(), "0,0,0,0,0");
    assert_eq!(RuntimeLog::new(3, 1234567, 10, 9, 1).to_string(), "3,1234567,10,9,1");
    assert_eq!(
        RuntimeLog::new(1, u128::MAX, 2, 3, 4).to_string(),
        "1,340282366920938463463374607431768211455,2,3,4"
    );
    let log = RuntimeLog::new(1, 2, 3, 4, 5);
    assert_eq!((log.file, log.latency, log.added, log.removed, log.worker), (1, 2, 3, 4, 5));
}

#[test]
fn numbers_are_written_in_base_ten() {
    let mut s = String::from("x");
    write_number(1090, &mut s);
    write_number(0, &mut s);
    write_number(7, &mut s);
    assert_eq!(s, "x109007");
}

#[test]
fn a_join_pairs_what_shares_a_key() {
    let left = vec![(1, 10), (2, 20), (1, 11)];
    let right = vec![(1, (100, 101)), (3, (300, 301)), (1, (102, 103))];
    let mut out = join_on_key(&left, &right);
    out.sort_unstable();
    assert_eq!(
        out,
        vec![(10, (100, 101)), (10, (102, 103)), (11, (100, 101)), (11, (102, 103))]
    );
    assert_eq!(join_on_key(&vec![], &right), vec![]);
}

#[test]
fn type_upward_closure_as_a_join() {
    let (c1, c2, c3, x, y) = (100, 101, 102, 200, 201);
    let hierarchy = vec![(c1, (subClassOf, c2)), (c2, (subClassOf, c3))];
    let classes = vec![(c1, (x, type_)), (c2, (y, type_))];
    let mut out = abox_sco_type_materialization(&hierarchy, &classes);
    out.sort_unstable();
    assert_eq!(out, vec![(c2, (x, type_)), (c3, (y, type_))]);
}

#[test]
fn domain_and_range_as_joins() {
    let (p, q, c, d, s, o) = (100, 101, 300, 301, 200, 201);
    let domains = vec![(p, c)];
    let ranges = vec![(p, d), (q, d)];
    let properties = vec![(p, (s, o)), (q, (o, s))];
    let (by_domain, mut by_range) =
        abox_domain_and_range_type_materialization(&domains, &ranges, &properties);
    by_range.sort_unstable();
    assert_eq!(by_domain, vec![(c, s)]);
    assert_eq!(by_range, vec![(d, s), (d, o)]);
}

#[test]
fn the_stages_that_infer_nothing() {
    let a = vec![(1, 2, 3), (1, 2, 3), (4, 4, 4)];
    let b = vec![(9, 9, 9)];
    assert_eq!(dummy_unary_materialization(&a), a);
    assert_eq!(dummy_binary_materialization(&a, &b), b);
}
