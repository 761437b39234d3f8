use dire_engine::parser::load3enc;

#[test]
fn three_numbers_a_line() {
    assert_eq!(load3enc(b"1 2 3\n4 5 6\n"), vec![(1, 2, 3), (4, 5, 6)]);
    assert_eq!(load3enc(b"1 2 3"), vec![(1, 2, 3)]);
    assert_eq!(load3enc(b""), vec![]);
    assert_eq!(load3enc(b"\n\n"), vec![]);
    assert_eq!(load3enc(b"0 0 0\n"), vec![(0, 0, 0)]);
    assert_eq!(load3enc(b"007 08 9\n"), vec![(7, 8, 9)]);
}

#[test]
fn the_largest_identifier_fits_and_the_next_does_not() {
    assert_eq!(
        load3enc(b"4294967295 4294967295 4294967295\n"),
        vec![(u32::MAX, u32::MAX, u32::MAX)]
    );
    assert_eq!(load3enc(b"4294967296 1 1\n1 1 1\n"), vec![(1, 1, 1)]);
    assert_eq!(load3enc(b"1 99999999999999999999999999 1\n"), vec![]);
}

#[test]
fn lines_that_do_not_fit_are_skipped() {
    let text = b"1 2 3\nfoo bar baz\n4 5\n\n6 7 8\n 1 2 3\n1  2 3\n1 2 3 \n-1 2 3\n+1 2 3\n1 2 3x\n9 9 9\r\n1,2,3\n10 11 12";
    assert_eq!(load3enc(text), vec![(1, 2, 3), (6, 7, 8), (1, 2, 3), (10, 11, 12)]);
}

#[test]
fn what_follows_the_third_number_is_not_read() {
    assert_eq!(load3enc(b"1 2 3 4\n5 6 7 .\n"), vec![(1, 2, 3), (5, 6, 7)]);
}

#[test]
fn the_order_of_the_lines_is_kept() {
    assert_eq!(load3enc(b"3 3 3\n1 1 1\n2 2 2\n1 1 1\n"), vec![(3, 3, 3), (1, 1, 1), (2, 2, 2), (1, 1, 1)]);
}
