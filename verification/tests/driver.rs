use dire_engine::driver::{
    count, elapse, keeps_closure, phase_records, phases, tally, Action, Driver, Event, Phase,
};

#[test]
fn a_full_batch_is_drained_and_a_phase_reported() {
    let mut d = Driver::new(2, 3, 0);
    assert_eq!(d.phase, Phase::Ingest);
    assert_eq!(d.next(Event::Pending(0, 0)), Action::Poll);
    assert_eq!(d.next(Event::Pending(2, 0)), Action::Drain);
    assert_eq!(d.phase, Phase::Step);
    assert_eq!(d.next(Event::Ingested(2, 0, 7)), Action::Step);
    assert_eq!(d.next(Event::Stepped), Action::Poll);
    assert_eq!(d.phase, Phase::Ingest);
    assert_eq!(d.next(Event::Pending(0, 5)), Action::Drain);
    assert_eq!(d.next(Event::Ingested(3, 2, 4)), Action::Step);
    assert_eq!(d.next(Event::Stepped), Action::Poll);
    assert_eq!(d.next(Event::Pending(0, 0)), Action::Report(0, 11, 5, 2, 0));
    assert_eq!(d.phase, Phase::PhaseSync);
    let log = d.record();
    assert_eq!(log.to_string(), "0,11,5,2,0");
    assert_eq!(d.next(Event::Pending(0, 0)), Action::Wait);
    assert_eq!(d.next(Event::Command(false)), Action::Poll);
    assert_eq!((d.files_loaded, d.latency, d.added, d.removed, d.dirty), (1, 0, 0, 0, false));
    assert_eq!((d.total_latency, d.total_added, d.rounds), (11, 5, 2));
    // nothing new: nothing to report
    assert_eq!(d.next(Event::Pending(0, 0)), Action::Poll);
}

#[test]
fn a_partial_batch_waits_no_longer_than_the_patience() {
    let mut d = Driver::new(10, 3, 1);
    assert_eq!(d.next(Event::Pending(1, 0)), Action::Poll);
    assert_eq!(d.next(Event::Pending(1, 0)), Action::Poll);
    assert_eq!(d.next(Event::Pending(1, 2)), Action::Poll);
    assert_eq!(d.idle, 3);
    assert_eq!(d.next(Event::Pending(1, 2)), Action::Drain);
    assert_eq!(d.idle, 0);
    let mut impatient = Driver::new(10, 0, 1);
    assert_eq!(impatient.next(Event::Pending(0, 1)), Action::Drain);
}

#[test]
fn stop_flushes_and_leaves() {
    let mut d = Driver::new(1, 0, 4);
    assert_eq!(d.next(Event::Pending(1, 1)), Action::Drain);
    assert_eq!(d.next(Event::Ingested(2, 0, 1)), Action::Step);
    assert_eq!(d.next(Event::Stepped), Action::Poll);
    assert_eq!(d.next(Event::Pending(0, 0)), Action::Report(0, 1, 2, 0, 4));
    assert_eq!(d.next(Event::Command(true)), Action::Drain);
    assert_eq!(d.phase, Phase::FinalFlush);
    assert_eq!(d.next(Event::Ingested(0, 0, 0)), Action::Step);
    assert_eq!(d.next(Event::Stepped), Action::Close);
    assert_eq!(d.phase, Phase::Exit);
    assert_eq!(d.next(Event::Pending(5, 5)), Action::Close);
    assert_eq!(d.next(Event::Command(false)), Action::Close);
    assert_eq!(d.phase, Phase::Exit);
}

#[test]
fn counters_stop_at_the_top() {
    assert_eq!(count(usize::MAX, 1), usize::MAX);
    assert_eq!(count(usize::MAX - 1, 1), usize::MAX);
    assert_eq!(count(2, 3), 5);
    assert_eq!(elapse(u128::MAX - 1, 5), u128::MAX);
    assert_eq!(elapse(40, 2), 42);
}

#[test]
fn a_cutoff_splits_the_run_in_three() {
    let abox = vec![(1, 1, 1), (2, 2, 2), (3, 3, 3)];
    assert_eq!(
        phases(&abox, 1),
        vec![
            vec![((1, 1, 1), 1)],
            vec![((2, 2, 2), 1), ((3, 3, 3), 1)],
            vec![((2, 2, 2), -1), ((3, 3, 3), -1)],
        ]
    );
    let all = vec![vec![((1, 1, 1), 1), ((2, 2, 2), 1), ((3, 3, 3), 1)]];
    assert_eq!(phases(&abox, 0), all);
    assert_eq!(phases(&abox, 3), all);
    assert_eq!(phases(&abox, 9), all);
    assert_eq!(phases(&vec![], 0), vec![vec![]]);
}

#[test]
fn a_batch_is_counted_as_added_and_taken_away() {
    let tbox = vec![((1, 1, 1), 1), ((2, 2, 2), -1)];
    let abox = vec![((3, 3, 3), 1), ((4, 4, 4), -1), ((5, 5, 5), 0), ((6, 6, 6), 7)];
    assert_eq!(tally(&tbox, &abox), (4, 2));
    assert_eq!(tally(&vec![], &vec![]), (0, 0));
    assert_eq!(tally(&vec![], &vec![((1, 1, 1), -5)]), (0, 1));
}

#[test]
fn a_phase_has_a_record_for_each_worker_of_the_process() {
    let lines: Vec<String> = phase_records(2, 40, 7, 1, 4, 3).iter().map(|l| l.to_string()).collect();
    assert_eq!(lines, vec!["2,40,7,1,4", "2,0,0,0,5", "2,0,0,0,6"]);
    assert_eq!(phase_records(0, 1, 2, 3, 0, 0).len(), 1);
    assert_eq!(phase_records(0, 1, 2, 3, 0, 1).len(), 1);
    assert!(keeps_closure(0, 1));
    assert!(keeps_closure(4, 2));
    assert!(!keeps_closure(5, 2));
    assert!(keeps_closure(5, 0));
}
