use cpr::engine::{plan_units, SchedulerState};
use cpr::score::{Optimize, ResultFunc, Score};
use cpr::test_info::{TestInfo, TestResult, TestState};

fn s(units: f64) -> Score {
    Score { micros: (units * 1_000_000.0).round() as i64 }
}

/// The end-to-end scenario: two tests under `max`/`sum`; the first has an
/// incumbent scoring 5.0 and a fresh run scoring 7.0, the second no
/// incumbent and a fresh score of 3.0.
#[test]
fn end_to_end_two_tests_sum_max() {
    let mut st = SchedulerState::new(Optimize::Max, 2, 1);
    assert_eq!(st.tests.len(), 2);
    assert_eq!(st.tests[0].test_name, "001");
    assert_eq!(st.tests[1].test_name, "002");

    // Test 1: incumbent answer scores 5.0.
    st.record_first_score(0, s(5.0));
    assert_eq!(st.total.score, 5_000_000);
    st.start_run(0, String::new());
    assert_eq!(st.tests[0].state, TestState::Running);
    let adopted = st.apply_candidate(0, 0, s(7.0));
    assert!(adopted);
    assert_eq!(st.tests[0].prev_score.unwrap().micros, 7_000_000);
    assert_eq!(st.tests[0].result, TestResult::Better);
    st.complete_run(0);
    assert_eq!(st.tests[0].state, TestState::Completed);

    // Test 2: no incumbent; the fresh score is adopted unconditionally.
    st.start_run(1, String::new());
    let adopted2 = st.apply_candidate(1, 0, s(3.0));
    assert!(adopted2);
    st.complete_run(1);

    st.finish(ResultFunc::Sum);
    assert_eq!(st.total.score, 10_000_000);
    assert_eq!(st.total.delta, 5_000_000);
    assert!(st.total.finished);
}

#[test]
fn avg_divides_exactly_once_at_the_end() {
    let mut st = SchedulerState::new(Optimize::Max, 2, 1);
    st.apply_candidate(0, 0, s(7.0));
    st.apply_candidate(1, 0, s(3.0));
    st.finish(ResultFunc::Avg);
    assert_eq!(st.total.score, 5_000_000);
    assert_eq!(st.total.delta, 5_000_000);
}

/// Adoption monotonicity under `max`: the incumbent never decreases, and
/// ends at the extremum of the candidates against the original incumbent.
#[test]
fn adoption_is_monotonic_under_max() {
    let mut st = SchedulerState::new(Optimize::Max, 1, 4);
    st.record_first_score(0, s(5.0));
    let mut last = st.tests[0].prev_score.unwrap().micros;
    for (run, cand) in [(0, 3.0), (1, 9.0), (2, 7.0), (3, 9.0)] {
        st.apply_candidate(0, run, s(cand));
        let cur = st.tests[0].prev_score.unwrap().micros;
        assert!(cur >= last);
        last = cur;
    }
    assert_eq!(last, 9_000_000);
}

#[test]
fn adoption_is_monotonic_under_min() {
    let mut st = SchedulerState::new(Optimize::Min, 1, 3);
    st.record_first_score(0, s(5.0));
    st.apply_candidate(0, 0, s(6.0));
    assert_eq!(st.tests[0].prev_score.unwrap().micros, 5_000_000);
    assert_eq!(st.tests[0].result, TestResult::Worse);
    st.apply_candidate(0, 1, s(2.0));
    assert_eq!(st.tests[0].prev_score.unwrap().micros, 2_000_000);
    st.apply_candidate(0, 2, s(4.0));
    assert_eq!(st.tests[0].prev_score.unwrap().micros, 2_000_000);
}

/// Two concurrent improvements with equal scores: the answer file belongs
/// to the run that was weighed first; a later equal score never rewrites.
#[test]
fn answer_file_tracks_the_winning_run() {
    let mut st = SchedulerState::new(Optimize::Max, 1, 4);
    st.record_first_score(0, s(1.0));
    assert!(st.apply_candidate(0, 7, s(5.0)));
    assert!(!st.apply_candidate(0, 9, s(5.0)));
    assert_eq!(st.tests[0].adopted_run, Some(7));
    assert!(st.apply_candidate(0, 3, s(6.0)));
    assert_eq!(st.tests[0].adopted_run, Some(3));
    assert!(!st.apply_candidate(0, 8, s(2.0)));
    assert_eq!(st.tests[0].adopted_run, Some(3));
}

/// The aggregate equals the sum of the incumbents at every step.
#[test]
fn aggregate_matches_the_records() {
    let mut st = SchedulerState::new(Optimize::Max, 3, 1);
    st.record_first_score(0, s(1.5));
    st.record_first_score(2, s(2.5));
    st.apply_candidate(0, 0, s(2.0));
    st.apply_candidate(1, 0, s(4.0));
    st.apply_candidate(2, 0, s(1.0));
    let sum: i64 = st.tests.iter().filter_map(|t: &TestInfo| t.prev_score.map(|p| p.micros)).sum();
    assert_eq!(st.total.score, sum);
    assert_eq!(st.total.score, 8_500_000);
    assert_eq!(st.total.delta, 4_500_000);
}

/// A skipped test keeps its zero contribution and spawns no work.
#[test]
fn skipped_tests_contribute_nothing() {
    let mut st = SchedulerState::new(Optimize::Max, 2, 1);
    let before = st.total;
    st.mark_skipped(1);
    assert_eq!(st.tests[1].state, TestState::Skipped);
    assert_eq!(st.total, before);

    let units = plan_units(3, 2, &vec![2], &vec![]);
    assert_eq!(units, vec![(1, 0), (1, 1), (3, 0), (3, 1)]);
    let allow = plan_units(3, 1, &vec![], &vec![3]);
    assert_eq!(allow, vec![(3, 0)]);
    let none = plan_units(2, 2, &vec![1, 2], &vec![]);
    assert!(none.is_empty());
}

#[test]
fn failures_block_completion() {
    let mut st = SchedulerState::new(Optimize::Max, 1, 2);
    st.start_run(0, String::new());
    st.start_run(0, String::new());
    st.fail_run(0);
    assert_eq!(st.tests[0].state, TestState::Failed);
    assert_eq!(st.tests[0].runs, 1);
    assert_eq!(st.tests[0].running, 1);
    st.complete_run(0);
    // The recorded failure keeps the test from showing `Completed`.
    assert_eq!(st.tests[0].state, TestState::Failed);
    assert_eq!(st.tests[0].runs, 2);
}

#[test]
fn wrong_answers_are_recorded() {
    let mut st = SchedulerState::new(Optimize::Max, 1, 1);
    st.start_run(0, String::new());
    st.wrong_answer_run(0);
    assert_eq!(st.tests[0].state, TestState::WrongAnswer);
    assert_eq!(st.total.score, 0);
}

#[test]
fn cpu_time_accumulates() {
    let mut st = SchedulerState::new(Optimize::Max, 1, 2);
    st.add_cpu_time(0, 1500);
    st.add_cpu_time(0, 250);
    assert_eq!(st.tests[0].cpu_time_ms, 1750);
    assert_eq!(st.total.cpu_time, 1750);
}

#[test]
fn snapshots_mirror_the_live_state() {
    let mut st = SchedulerState::new(Optimize::Max, 2, 1);
    st.record_first_score(0, s(5.0));
    st.apply_candidate(0, 0, s(7.0));
    let (records, total) = st.snapshot();
    assert_eq!(records.len(), 2);
    assert_eq!(records[0].prev_score.unwrap().micros, 7_000_000);
    assert_eq!(records[1].prev_score, None);
    assert_eq!(total, st.total);
    assert_eq!(total.score, 7_000_000);
}

#[test]
fn fresh_records_start_queued() {
    let r = TestInfo::new(String::from("001"), 3);
    assert_eq!(r.state, TestState::Queue);
    assert_eq!(r.prev_score, None);
    assert_eq!(r.new_score, None);
    assert_eq!(r.runs, 0);
    assert_eq!(r.running, 0);
    assert_eq!(r.total_runs, 3);
    assert_eq!(r.result, TestResult::Same);
}
