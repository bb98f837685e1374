//! The scoring engine and the suite's shared state.
//!
//! All shared mutable state of a run — the per-test records and the
//! process-wide totals — lives in one `SchedulerState`.  Worker threads own
//! no state: they run processes, then report plain values (a parsed score, a
//! failure, an elapsed time) into the engine under one critical section per
//! event.  Every method here is one such event; the aggregate invariant —
//! the total score is exactly the sum of the adopted incumbent scores — is
//! maintained by each of them.

use vstd::prelude::*;

use crate::score::{div_trunc, score_div, spec_better, Optimize, ResultFunc, Score, SCORE_ABS_MAX};
use crate::test_info::{TestInfo, TestResult, TestState};
use crate::util::{test_name_chars, test_name_string};

verus! {

/// Most tests one suite may hold; keeps the suite-wide sums within `i64`.
pub const MAX_TESTS: usize = 4000;

/// Process-wide totals over all test records.
#[derive(Clone, Copy, PartialEq, Eq, Structural, Debug)]
pub struct TestSuiteInfo {
    /// Sum of the counted incumbent scores, in millionths of a unit; after
    /// an `avg` finish, that sum divided by the test count.
    pub score: i64,
    /// Sum of the signed improvements adopted this session, in millionths;
    /// divided the same way on an `avg` finish.
    pub delta: i64,
    /// Solution wall time accumulated over all runs, in milliseconds.
    pub cpu_time: u64,
    /// Set once, after the join barrier, before the finalize step.
    pub finished: bool,
}

/// Sum of the records' incumbent contributions.
pub open spec fn sum_contrib(s: Seq<TestInfo>) -> int
    decreases s.len(),
{
    if s.len() == 0 {
        0
    } else {
        sum_contrib(s.drop_last()) + s.last().contribution()
    }
}

/// Sum of the records' adopted improvements.
pub open spec fn sum_delta(s: Seq<TestInfo>) -> int
    decreases s.len(),
{
    if s.len() == 0 {
        0
    } else {
        sum_delta(s.drop_last()) + s.last().session_delta()
    }
}

proof fn lemma_sum_contrib_update(s: Seq<TestInfo>, i: int, r: TestInfo)
    requires
        0 <= i < s.len(),
    ensures
        sum_contrib(s.update(i, r)) == sum_contrib(s) - s[i].contribution() + r.contribution(),
    decreases s.len(),
{
    let t = s.update(i, r);
    if i == s.len() - 1 {
        assert(t.drop_last() =~= s.drop_last());
    } else {
        assert(t.drop_last() =~= s.drop_last().update(i, r));
        lemma_sum_contrib_update(s.drop_last(), i, r);
    }
}

proof fn lemma_sum_delta_update(s: Seq<TestInfo>, i: int, r: TestInfo)
    requires
        0 <= i < s.len(),
    ensures
        sum_delta(s.update(i, r)) == sum_delta(s) - s[i].session_delta() + r.session_delta(),
    decreases s.len(),
{
    let t = s.update(i, r);
    if i == s.len() - 1 {
        assert(t.drop_last() =~= s.drop_last());
    } else {
        assert(t.drop_last() =~= s.drop_last().update(i, r));
        lemma_sum_delta_update(s.drop_last(), i, r);
    }
}

proof fn lemma_sum_bounds(s: Seq<TestInfo>)
    requires
        forall|i: int| 0 <= i < s.len() ==> (#[trigger] s[i]).wf(),
    ensures
        -(s.len() as int) * SCORE_ABS_MAX <= sum_contrib(s) <= (s.len() as int) * SCORE_ABS_MAX,
        -(s.len() as int) * 2 * SCORE_ABS_MAX <= sum_delta(s) <= (s.len() as int) * 2
            * SCORE_ABS_MAX,
    decreases s.len(),
{
    if s.len() > 0 {
        assert(forall|i: int|
            0 <= i < s.drop_last().len() ==> (#[trigger] s.drop_last()[i]).wf());
        lemma_sum_bounds(s.drop_last());
        assert(s.last().wf());
    }
}

/// The best candidate once `c` is weighed in.  Ties keep the earlier
/// candidate, so an equal later score never displaces anything.
pub open spec fn best_candidate(r: TestInfo, c: Score, opt: Optimize) -> Score {
    match r.new_score {
        None => c,
        Some(b) => if spec_better(opt, c@, b@) {
            c
        } else {
            b
        },
    }
}

/// The adoption rule: a candidate becomes the new incumbent exactly when no
/// incumbent score exists yet, or it strictly improves both on the best
/// candidate tracked so far and on the incumbent as originally scored.
pub open spec fn spec_adopts(r: TestInfo, c: Score, opt: Optimize) -> bool {
    match r.prev_score {
        None => true,
        Some(_p) => {
            let best_ok = match r.new_score {
                None => true,
                Some(b) => spec_better(opt, c@, b@),
            };
            let first_ok = match r.first_score {
                None => true,
                Some(f) => spec_better(opt, c@, f@),
            };
            best_ok && first_ok
        },
    }
}

/// The delta sign shown after weighing `c`: where the candidate moved
/// against the incumbent as originally scored; an exact tie changes nothing.
pub open spec fn delta_sign(r: TestInfo, c: Score, opt: Optimize) -> TestResult {
    match r.first_score {
        Some(f) => if c@ == f@ {
            r.result
        } else if spec_better(opt, c@, f@) {
            TestResult::Better
        } else {
            TestResult::Worse
        },
        None => r.result,
    }
}

/// The record after candidate `c` from iteration `run` is weighed.
pub open spec fn apply_rec(r: TestInfo, run: usize, c: Score, opt: Optimize) -> TestInfo {
    let base = TestInfo {
        new_score: Some(best_candidate(r, c, opt)),
        result: delta_sign(r, c, opt),
        ..r
    };
    if spec_adopts(r, c, opt) {
        TestInfo { prev_score: Some(c), adopted_run: Some(run), ..base }
    } else {
        base
    }
}

/// Ordering facts the engine maintains among a record's scores: once an
/// adoption has happened, the incumbent is exactly the best candidate seen
/// and strictly improves on the incumbent as originally scored; before any
/// adoption, no candidate seen so far beats the incumbent.
pub open spec fn rec_ord(r: TestInfo, opt: Optimize) -> bool {
    &&& (r.adopted_run is Some ==> {
        &&& r.prev_score is Some
        &&& r.new_score == r.prev_score
        &&& (match r.first_score {
            Some(f) => spec_better(opt, r.prev_score->0@, f@),
            None => true,
        })
    })
    &&& (r.adopted_run is None && r.new_score is Some ==> r.prev_score is Some && !spec_better(
        opt,
        r.new_score->0@,
        r.prev_score->0@,
    ))
}

/// The shared state of one suite run: every test's record and the totals,
/// guarded by the caller's single critical section.
pub struct SchedulerState {
    pub tests: Vec<TestInfo>,
    pub total: TestSuiteInfo,
    pub optimize: Optimize,
}

impl SchedulerState {
    /// The suite-wide invariant.  While the run is in progress, the cached
    /// totals are exactly the sums over the records.
    pub open spec fn inv(self) -> bool {
        &&& self.tests@.len() <= MAX_TESTS
        &&& forall|i: int| 0 <= i < self.tests@.len() ==> (#[trigger] self.tests@[i]).wf()
        &&& forall|i: int|
            0 <= i < self.tests@.len() ==> rec_ord(#[trigger] self.tests@[i], self.optimize)
        &&& (!self.total.finished ==> self.total.score == sum_contrib(self.tests@)
            && self.total.delta == sum_delta(self.tests@))
    }

    /// Build the suite: one queued record per test, named by its one-based
    /// zero-padded index; all totals zero.
    pub fn new(optimize: Optimize, count: usize, total_runs: usize) -> (r: SchedulerState)
        requires
            1 <= count <= MAX_TESTS,
        ensures
            r.inv(),
            r.optimize == optimize,
            r.tests@.len() == count,
            r.total == (TestSuiteInfo { score: 0, delta: 0, cpu_time: 0, finished: false }),
            forall|i: int|
                0 <= i < count ==> {
                    let t = #[trigger] r.tests@[i];
                    &&& t.test_name@ == test_name_chars((i + 1) as nat)
                    &&& t.state == TestState::Queue
                    &&& t.prev_score is None
                    &&& t.first_score is None
                    &&& t.new_score is None
                    &&& t.adopted_run is None
                    &&& t.runs == 0
                    &&& t.running == 0
                    &&& t.total_runs == total_runs
                },
    {
        let mut tests: Vec<TestInfo> = Vec::new();
        let mut t: usize = 0;
        while t < count
            invariant
                t <= count <= MAX_TESTS,
                tests@.len() == t,
                forall|i: int|
                    0 <= i < t ==> {
                        let r = #[trigger] tests@[i];
                        &&& r.test_name@ == test_name_chars((i + 1) as nat)
                        &&& r.state == TestState::Queue
                        &&& r.prev_score is None
                        &&& r.first_score is None
                        &&& r.new_score is None
                        &&& r.adopted_run is None
                        &&& r.runs == 0
                        &&& r.running == 0
                        &&& r.total_runs == total_runs
                        &&& r.wf()
                        &&& r.contribution() == 0
                        &&& r.session_delta() == 0
                    },
                sum_contrib(tests@) == 0,
                sum_delta(tests@) == 0,
            decreases count - t,
        {
            let name = test_name_string((t + 1) as u64);
            let rec = TestInfo::new(name, total_runs);
            let ghost before = tests@;
            tests.push(rec);
            proof {
                assert(tests@.drop_last() =~= before);
            }
            t = t + 1;
        }
        SchedulerState {
            tests,
            total: TestSuiteInfo { score: 0, delta: 0, cpu_time: 0, finished: false },
            optimize,
        }
    }

    /// Record that a test is skipped: its state flips to `Skipped` and
    /// nothing else — in particular the totals — moves.
    pub fn mark_skipped(&mut self, i: usize)
        requires
            old(self).inv(),
            i < old(self).tests@.len(),
        ensures
            final(self).inv(),
            final(self).tests@ == old(self).tests@.update(
                i as int,
                (TestInfo { state: TestState::Skipped, ..old(self).tests@[i as int] }),
            ),
            final(self).total == old(self).total,
            final(self).optimize == old(self).optimize,
            final(self).tests@[i as int].state == TestState::Skipped,
            final(self).tests@[i as int].contribution()
                == old(self).tests@[i as int].contribution(),
    {
        let mut r = self.tests[i].duplicate();
        r.state = TestState::Skipped;
        proof {
            lemma_sum_contrib_update(self.tests@, i as int, r);
            lemma_sum_delta_update(self.tests@, i as int, r);
        }
        self.tests.set(i, r);
    }

    /// Record the display label of the moment a run last started.
    pub fn set_time_label(&mut self, i: usize, label: String)
        requires
            old(self).inv(),
            i < old(self).tests@.len(),
        ensures
            final(self).inv(),
            final(self).tests@ == old(self).tests@.update(
                i as int,
                (TestInfo { time: label, ..old(self).tests@[i as int] }),
            ),
            final(self).total == old(self).total,
            final(self).optimize == old(self).optimize,
    {
        let mut r = self.tests[i].duplicate();
        r.time = label;
        proof {
            lemma_sum_contrib_update(self.tests@, i as int, r);
            lemma_sum_delta_update(self.tests@, i as int, r);
        }
        self.tests.set(i, r);
    }

    /// The incumbent answer was scored, once per test, before any candidate
    /// for that test is weighed: both incumbent fields are set and the score
    /// is counted into the total.
    pub fn record_first_score(&mut self, i: usize, s: Score)
        requires
            old(self).inv(),
            i < old(self).tests@.len(),
            s.bounded(),
            old(self).tests@[i as int].prev_score is None,
            !old(self).total.finished,
        ensures
            final(self).inv(),
            final(self).tests@ == old(self).tests@.update(
                i as int,
                (TestInfo {
                    prev_score: Some(s),
                    first_score: Some(s),
                    ..old(self).tests@[i as int]
                }),
            ),
            final(self).total.score == old(self).total.score + s@,
            final(self).total.delta == old(self).total.delta,
            final(self).total.cpu_time == old(self).total.cpu_time,
            final(self).total.finished == old(self).total.finished,
            final(self).optimize == old(self).optimize,
    {
        let mut r = self.tests[i].duplicate();
        r.prev_score = Some(s);
        r.first_score = Some(s);
        proof {
            lemma_sum_contrib_update(self.tests@, i as int, r);
            lemma_sum_delta_update(self.tests@, i as int, r);
            lemma_sum_bounds(self.tests@);
            assert(self.tests@[i as int].wf());
        }
        self.total.score = self.total.score + s.micros;
        self.tests.set(i, r);
    }

    /// A run for test `i` starts: it is counted in flight, and the test
    /// shows `Running` unless a terminal state has already been recorded.
    pub fn start_run(&mut self, i: usize, label: String)
        requires
            old(self).inv(),
            i < old(self).tests@.len(),
            old(self).tests@[i as int].runs + old(self).tests@[i as int].running < old(
                self,
            ).tests@[i as int].total_runs,
        ensures
            final(self).inv(),
            final(self).tests@ == old(self).tests@.update(
                i as int,
                ({
                    let r = old(self).tests@[i as int];
                    TestInfo {
                        state: if r.state is Queue || r.state is Running {
                            TestState::Running
                        } else {
                            r.state
                        },
                        running: (r.running + 1) as usize,
                        time: label,
                        ..r
                    }
                }),
            ),
            final(self).total == old(self).total,
            final(self).optimize == old(self).optimize,
    {
        let mut r = self.tests[i].duplicate();
        r.state = match r.state {
            TestState::Queue => TestState::Running,
            TestState::Running => TestState::Running,
            other => other,
        };
        proof {
            assert(self.tests@[i as int].wf());
        }
        r.running = r.running + 1;
        r.time = label;
        proof {
            lemma_sum_contrib_update(self.tests@, i as int, r);
            lemma_sum_delta_update(self.tests@, i as int, r);
        }
        self.tests.set(i, r);
    }

    /// A run ended with the solution failing: the failure is recorded as the
    /// test's state and the run is moved from in-flight to completed.  No
    /// score moves.
    pub fn fail_run(&mut self, i: usize)
        requires
            old(self).inv(),
            i < old(self).tests@.len(),
            old(self).tests@[i as int].running >= 1,
        ensures
            final(self).inv(),
            final(self).tests@ == old(self).tests@.update(
                i as int,
                ({
                    let r = old(self).tests@[i as int];
                    TestInfo {
                        state: TestState::Failed,
                        running: (r.running - 1) as usize,
                        runs: (r.runs + 1) as usize,
                        ..r
                    }
                }),
            ),
            final(self).total == old(self).total,
            final(self).optimize == old(self).optimize,
    {
        let mut r = self.tests[i].duplicate();
        proof {
            assert(self.tests@[i as int].wf());
        }
        r.state = TestState::Failed;
        r.running = r.running - 1;
        r.runs = r.runs + 1;
        proof {
            lemma_sum_contrib_update(self.tests@, i as int, r);
            lemma_sum_delta_update(self.tests@, i as int, r);
        }
        self.tests.set(i, r);
    }

    /// A run ended with the scorer rejecting the fresh output: recorded like
    /// a failure, under the test's `WrongAnswer` state.
    pub fn wrong_answer_run(&mut self, i: usize)
        requires
            old(self).inv(),
            i < old(self).tests@.len(),
            old(self).tests@[i as int].running >= 1,
        ensures
            final(self).inv(),
            final(self).tests@ == old(self).tests@.update(
                i as int,
                ({
                    let r = old(self).tests@[i as int];
                    TestInfo {
                        state: TestState::WrongAnswer,
                        running: (r.running - 1) as usize,
                        runs: (r.runs + 1) as usize,
                        ..r
                    }
                }),
            ),
            final(self).total == old(self).total,
            final(self).optimize == old(self).optimize,
    {
        let mut r = self.tests[i].duplicate();
        proof {
            assert(self.tests@[i as int].wf());
        }
        r.state = TestState::WrongAnswer;
        r.running = r.running - 1;
        r.runs = r.runs + 1;
        proof {
            lemma_sum_contrib_update(self.tests@, i as int, r);
            lemma_sum_delta_update(self.tests@, i as int, r);
        }
        self.tests.set(i, r);
    }

    /// A run ended after its candidate was weighed: moved from in-flight to
    /// completed, and the test becomes `Completed` once every scheduled run
    /// is done and no failure was recorded.
    pub fn complete_run(&mut self, i: usize)
        requires
            old(self).inv(),
            i < old(self).tests@.len(),
            old(self).tests@[i as int].running >= 1,
        ensures
            final(self).inv(),
            final(self).tests@ == old(self).tests@.update(
                i as int,
                ({
                    let r = old(self).tests@[i as int];
                    let runs2 = (r.runs + 1) as usize;
                    TestInfo {
                        state: if runs2 == r.total_runs && (r.state is Queue
                            || r.state is Running) {
                            TestState::Completed
                        } else {
                            r.state
                        },
                        running: (r.running - 1) as usize,
                        runs: runs2,
                        ..r
                    }
                }),
            ),
            final(self).total == old(self).total,
            final(self).optimize == old(self).optimize,
    {
        let mut r = self.tests[i].duplicate();
        proof {
            assert(self.tests@[i as int].wf());
        }
        r.running = r.running - 1;
        r.runs = r.runs + 1;
        if r.runs == r.total_runs {
            r.state = match r.state {
                TestState::Queue => TestState::Completed,
                TestState::Running => TestState::Completed,
                other => other,
            };
        }
        proof {
            lemma_sum_contrib_update(self.tests@, i as int, r);
            lemma_sum_delta_update(self.tests@, i as int, r);
        }
        self.tests.set(i, r);
    }

    /// Account solution wall time to the test and the totals, saturating at
    /// the top of the counters.
    pub fn add_cpu_time(&mut self, i: usize, ms: u64)
        requires
            old(self).inv(),
            i < old(self).tests@.len(),
        ensures
            final(self).inv(),
            final(self).tests@ == old(self).tests@.update(
                i as int,
                ({
                    let r = old(self).tests@[i as int];
                    TestInfo {
                        cpu_time_ms: if r.cpu_time_ms + ms <= u64::MAX {
                            (r.cpu_time_ms + ms) as u64
                        } else {
                            u64::MAX
                        },
                        ..r
                    }
                }),
            ),
            final(self).total.cpu_time == if old(self).total.cpu_time + ms <= u64::MAX {
                (old(self).total.cpu_time + ms) as u64
            } else {
                u64::MAX
            },
            final(self).total.score == old(self).total.score,
            final(self).total.delta == old(self).total.delta,
            final(self).total.finished == old(self).total.finished,
            final(self).optimize == old(self).optimize,
    {
        let mut r = self.tests[i].duplicate();
        r.cpu_time_ms = if r.cpu_time_ms <= u64::MAX - ms {
            r.cpu_time_ms + ms
        } else {
            u64::MAX
        };
        self.total.cpu_time = if self.total.cpu_time <= u64::MAX - ms {
            self.total.cpu_time + ms
        } else {
            u64::MAX
        };
        proof {
            lemma_sum_contrib_update(self.tests@, i as int, r);
            lemma_sum_delta_update(self.tests@, i as int, r);
        }
        self.tests.set(i, r);
    }

    /// A run produced a legitimate candidate score: weigh it.  The best
    /// candidate for the test is kept, the delta sign is refreshed, and the
    /// candidate is adopted as the new incumbent — with both totals adjusted
    /// in the same step — exactly when the adoption rule says so.  The
    /// caller overwrites the answer file with this run's output exactly when
    /// `adopted` comes back true.
    pub fn apply_candidate(&mut self, i: usize, run: usize, c: Score) -> (adopted: bool)
        requires
            old(self).inv(),
            i < old(self).tests@.len(),
            c.bounded(),
            !old(self).total.finished,
        ensures
            final(self).inv(),
            adopted == spec_adopts(old(self).tests@[i as int], c, old(self).optimize),
            final(self).tests@ == old(self).tests@.update(
                i as int,
                apply_rec(old(self).tests@[i as int], run, c, old(self).optimize),
            ),
            final(self).total.score == old(self).total.score + if adopted {
                c@ - old(self).tests@[i as int].contribution()
            } else {
                0
            },
            final(self).total.delta == old(self).total.delta + if adopted {
                c@ - old(self).tests@[i as int].contribution()
            } else {
                0
            },
            final(self).total.cpu_time == old(self).total.cpu_time,
            final(self).total.finished == old(self).total.finished,
            final(self).optimize == old(self).optimize,
            adopted && old(self).tests@[i as int].prev_score is Some ==> spec_better(
                old(self).optimize,
                c@,
                old(self).tests@[i as int].prev_score->0@,
            ),
    {
        let ghost oldrec = self.tests@[i as int];
        proof {
            assert(oldrec.wf());
            assert(rec_ord(oldrec, self.optimize));
        }
        let opt = self.optimize;
        let mut r = self.tests[i].duplicate();

        // The adoption decision, over the record as it stands.
        let adopted = match r.prev_score {
            None => true,
            Some(_) => {
                let best_ok = match r.new_score {
                    None => true,
                    Some(b) => c.better_than(b, opt),
                };
                let first_ok = match r.first_score {
                    None => true,
                    Some(f) => c.better_than(f, opt),
                };
                best_ok && first_ok
            },
        };

        // Track the best candidate seen for this test.
        let nb = match r.new_score {
            None => c,
            Some(b) => if c.better_than(b, opt) {
                c
            } else {
                b
            },
        };
        r.new_score = Some(nb);

        // Refresh the delta sign against the original incumbent.
        match r.first_score {
            Some(f) => {
                if c.micros != f.micros {
                    r.result = if c.better_than(f, opt) {
                        TestResult::Better
                    } else {
                        TestResult::Worse
                    };
                }
            },
            None => {},
        }

        if adopted {
            let prior: i64 = match r.prev_score {
                Some(p) => p.micros,
                None => 0,
            };
            r.prev_score = Some(c);
            r.adopted_run = Some(run);
            proof {
                lemma_sum_bounds(self.tests@);
            }
            self.total.score = self.total.score - prior + c.micros;
            self.total.delta = self.total.delta - prior + c.micros;
        }
        proof {
            assert(r == apply_rec(oldrec, run, c, opt));
            lemma_sum_contrib_update(self.tests@, i as int, r);
            lemma_sum_delta_update(self.tests@, i as int, r);
        }
        self.tests.set(i, r);
        adopted
    }

    /// A snapshot for the reporter: copies of every record and of the
    /// totals, equal to the live state at the instant of the call.  Taken
    /// under the caller's critical section, so the reporter never observes
    /// a torn update.
    pub fn snapshot(&self) -> (r: (Vec<TestInfo>, TestSuiteInfo))
        ensures
            r.0@ == self.tests@,
            r.1 == self.total,
    {
        let mut v: Vec<TestInfo> = Vec::new();
        let mut i: usize = 0;
        proof {
            assert(v@ =~= self.tests@.take(0));
        }
        while i < self.tests.len()
            invariant
                0 <= i <= self.tests@.len(),
                v@ == self.tests@.take(i as int),
            decreases self.tests@.len() - i,
        {
            v.push(self.tests[i].duplicate());
            proof {
                assert(v@ =~= self.tests@.take(i as int + 1));
            }
            i = i + 1;
        }
        proof {
            assert(self.tests@.take(self.tests@.len() as int) =~= self.tests@);
        }
        (v, self.total)
    }

    /// The join barrier has been passed: mark the suite finished, and under
    /// the `avg` result function divide both totals by the test count,
    /// truncating toward zero — exactly once.
    pub fn finish(&mut self, result_func: ResultFunc)
        requires
            old(self).inv(),
            !old(self).total.finished,
            old(self).tests@.len() >= 1,
        ensures
            final(self).inv(),
            final(self).tests@ == old(self).tests@,
            final(self).optimize == old(self).optimize,
            final(self).total.finished,
            final(self).total.cpu_time == old(self).total.cpu_time,
            result_func is Sum ==> final(self).total.score == old(self).total.score
                && final(self).total.delta == old(self).total.delta,
            result_func is Avg ==> final(self).total.score == div_trunc(
                old(self).total.score as int,
                old(self).tests@.len() as int,
            ) && final(self).total.delta == div_trunc(
                old(self).total.delta as int,
                old(self).tests@.len() as int,
            ),
    {
        proof {
            lemma_sum_bounds(self.tests@);
        }
        match result_func {
            ResultFunc::Avg => {
                let n = self.tests.len();
                self.total.score = score_div(self.total.score, n);
                self.total.delta = score_div(self.total.delta, n);
            },
            ResultFunc::Sum => {},
        }
        self.total.finished = true;
    }
}

/// Plan the suite's work: one unit per (test, iteration) pair, for every
/// test the skip rules admit, in order.  A skipped test contributes no unit
/// at all — nothing will ever spawn a process for it.
pub fn plan_units(
    tests: usize,
    iterations: usize,
    skip_tests: &Vec<usize>,
    run_tests: &Vec<usize>,
) -> (units: Vec<(usize, usize)>)
    requires
        tests <= MAX_TESTS,
        iterations <= 1_000_000,
    ensures
        forall|j: int|
            0 <= j < units@.len() ==> {
                let u = #[trigger] units@[j];
                &&& 1 <= u.0 <= tests
                &&& u.1 < iterations
                &&& !crate::data::spec_skipped(u.0, skip_tests@, run_tests@)
            },
        forall|t: usize, k: usize|
            1 <= t <= tests && k < iterations && !crate::data::spec_skipped(
                t,
                skip_tests@,
                run_tests@,
            ) ==> units@.contains((t, k)),
        forall|j1: int, j2: int|
            0 <= j1 < j2 < units@.len() ==> (units@[j1].0 < units@[j2].0 || (units@[j1].0
                == units@[j2].0 && units@[j1].1 < units@[j2].1)),
{
    let mut units: Vec<(usize, usize)> = Vec::new();
    let mut t: usize = 1;
    while t <= tests
        invariant
            1 <= t <= tests + 1,
            tests <= MAX_TESTS,
            iterations <= 1_000_000,
            forall|j: int|
                0 <= j < units@.len() ==> {
                    let u = #[trigger] units@[j];
                    &&& 1 <= u.0 < t
                    &&& u.1 < iterations
                    &&& !crate::data::spec_skipped(u.0, skip_tests@, run_tests@)
                },
            forall|t2: usize, k: usize|
                1 <= t2 < t && k < iterations && !crate::data::spec_skipped(
                    t2,
                    skip_tests@,
                    run_tests@,
                ) ==> units@.contains((t2, k)),
            forall|j1: int, j2: int|
                0 <= j1 < j2 < units@.len() ==> (units@[j1].0 < units@[j2].0 || (units@[j1].0
                    == units@[j2].0 && units@[j1].1 < units@[j2].1)),
        decreases tests + 1 - t,
    {
        if !crate::data::should_skip(t, skip_tests, run_tests) {
            let mut k: usize = 0;
            while k < iterations
                invariant
                    0 <= k <= iterations,
                    1 <= t <= tests <= MAX_TESTS,
                    iterations <= 1_000_000,
                    !crate::data::spec_skipped(t, skip_tests@, run_tests@),
                    forall|j: int|
                        0 <= j < units@.len() ==> {
                            let u = #[trigger] units@[j];
                            &&& 1 <= u.0 <= t
                            &&& u.1 < iterations
                            &&& !crate::data::spec_skipped(u.0, skip_tests@, run_tests@)
                            &&& (u.0 == t ==> u.1 < k)
                        },
                    forall|t2: usize, k2: usize|
                        1 <= t2 < t && k2 < iterations && !crate::data::spec_skipped(
                            t2,
                            skip_tests@,
                            run_tests@,
                        ) ==> units@.contains((t2, k2)),
                    forall|k2: usize| k2 < k ==> units@.contains((t, k2)),
                    forall|j1: int, j2: int|
                        0 <= j1 < j2 < units@.len() ==> (units@[j1].0 < units@[j2].0 || (
                        units@[j1].0 == units@[j2].0 && units@[j1].1 < units@[j2].1)),
                decreases iterations - k,
            {
                let ghost before = units@;
                units.push((t, k));
                proof {
                    assert forall|t2: usize, k2: usize|
                        1 <= t2 < t && k2 < iterations && !crate::data::spec_skipped(
                            t2,
                            skip_tests@,
                            run_tests@,
                        ) implies units@.contains((t2, k2)) by {
                        assert(before.contains((t2, k2)));
                        lemma_push_contains(before, (t, k), (t2, k2));
                    }
                    assert forall|k2: usize| k2 < k + 1 implies units@.contains((t, k2)) by {
                        if k2 < k {
                            assert(before.contains((t, k2)));
                            lemma_push_contains(before, (t, k), (t, k2));
                        } else {
                            assert(units@[units@.len() - 1] == (t, k));
                        }
                    }
                }
                k = k + 1;
            }
        }
        t = t + 1;
    }
    units
}

proof fn lemma_push_contains<T>(s: Seq<T>, x: T, y: T)
    ensures
        s.contains(y) ==> s.push(x).contains(y),
{
    if s.contains(y) {
        let j = choose|j: int| 0 <= j < s.len() && s[j] == y;
        assert(s.push(x)[j] == y);
    }
}

// ------------------------------------------------------------------
// Laws of the engine.
// ------------------------------------------------------------------
/// Aggregate consistency: at any point before the suite is finished — in
/// particular right after the join barrier — the cached totals equal the
/// sums over the records: the total score is the sum of the adopted
/// incumbent scores, the total delta the sum of the adopted improvements.
pub proof fn lemma_aggregate_consistency(s: SchedulerState)
    requires
        s.inv(),
        !s.total.finished,
    ensures
        s.total.score == sum_contrib(s.tests@),
        s.total.delta == sum_delta(s.tests@),
{
}

/// Adoption monotonicity, step by step: whatever candidate is weighed, a
/// test's incumbent score never regresses — under `max` it is
/// non-decreasing, under `min` non-increasing.
pub proof fn lemma_adoption_monotonic(r: TestInfo, run: usize, c: Score, opt: Optimize)
    requires
        r.wf(),
        rec_ord(r, opt),
        r.prev_score is Some,
    ensures
        apply_rec(r, run, c, opt).prev_score is Some,
        opt is Max ==> apply_rec(r, run, c, opt).prev_score->0@ >= r.prev_score->0@,
        opt is Min ==> apply_rec(r, run, c, opt).prev_score->0@ <= r.prev_score->0@,
{
}

/// Adoption completeness: a candidate that strictly improves on the current
/// incumbent is always adopted — the rule never lets an improvement slip
/// past.
pub proof fn lemma_improvement_adopted(r: TestInfo, c: Score, opt: Optimize)
    requires
        r.wf(),
        rec_ord(r, opt),
        r.prev_score is Some,
        spec_better(opt, c@, r.prev_score->0@),
    ensures
        spec_adopts(r, c, opt),
{
}

/// The run of one test, seen whole: the candidates of its iterations in the
/// order the engine weighed them.
pub open spec fn apply_events(r: TestInfo, evs: Seq<(usize, Score)>, opt: Optimize) -> TestInfo
    decreases evs.len(),
{
    if evs.len() == 0 {
        r
    } else {
        apply_rec(apply_events(r, evs.drop_last(), opt), evs.last().0, evs.last().1, opt)
    }
}

/// The extremal candidate score of a run, under the configured direction;
/// among equals, the earliest.
pub open spec fn seq_best(evs: Seq<(usize, Score)>, opt: Optimize) -> Score
    recommends
        evs.len() > 0,
    decreases evs.len(),
{
    if evs.len() <= 1 {
        evs[0].1
    } else {
        let b = seq_best(evs.drop_last(), opt);
        if spec_better(opt, evs.last().1@, b@) {
            evs.last().1
        } else {
            b
        }
    }
}

proof fn lemma_seq_best_dominates(evs: Seq<(usize, Score)>, opt: Optimize)
    requires
        evs.len() > 0,
    ensures
        forall|m: int|
            0 <= m < evs.len() ==> !spec_better(opt, (#[trigger] evs[m]).1@, seq_best(evs, opt)@),
    decreases evs.len(),
{
    if evs.len() > 1 {
        lemma_seq_best_dominates(evs.drop_last(), opt);
        assert(forall|m: int|
            0 <= m < evs.len() - 1 ==> evs.drop_last()[m] == #[trigger] evs[m]);
    }
}

/// The record points at the single run whose output the answer file holds:
/// an event whose score is the adopted one, and the earliest with it — no
/// later writer with an equal or worse score has touched the file.
pub open spec fn winner_in(evs: Seq<(usize, Score)>, fin: TestInfo, opt: Optimize) -> bool {
    exists|j: int|
        #![trigger evs[j]]
        0 <= j < evs.len() && fin.adopted_run == Some(evs[j].0) && fin.prev_score == Some(
            evs[j].1,
        ) && (forall|m: int| 0 <= m < j ==> (#[trigger] evs[m]).1@ != evs[j].1@)
}

/// One test with a scored incumbent, over a whole run: the final incumbent
/// is the true extremum of the candidate sequence compared against the
/// original incumbent; if some candidate beats the incumbent, the answer
/// file holds exactly the first run that reached the extremal score, and
/// otherwise the original answer is untouched.
pub proof fn lemma_engine_run_with_incumbent(
    r0: TestInfo,
    f: Score,
    evs: Seq<(usize, Score)>,
    opt: Optimize,
)
    requires
        r0.prev_score == Some(f),
        r0.first_score == Some(f),
        r0.new_score is None,
        r0.adopted_run is None,
    ensures
        ({
            let fin = apply_events(r0, evs, opt);
            &&& fin.first_score == Some(f)
            &&& (evs.len() == 0 ==> fin == r0)
            &&& (evs.len() > 0 ==> fin.new_score == Some(seq_best(evs, opt)))
            &&& ((evs.len() == 0 || !spec_better(opt, seq_best(evs, opt)@, f@)) ==> fin.prev_score
                == Some(f) && fin.adopted_run is None)
            &&& ((evs.len() > 0 && spec_better(opt, seq_best(evs, opt)@, f@)) ==> fin.prev_score
                == Some(seq_best(evs, opt)) && winner_in(evs, fin, opt))
        }),
    decreases evs.len(),
{
    if evs.len() == 0 {
    } else {
        let evs2 = evs.drop_last();
        let e = evs.last();
        let c = e.1;
        let fin2 = apply_events(r0, evs2, opt);
        let fin = apply_rec(fin2, e.0, c, opt);
        lemma_engine_run_with_incumbent(r0, f, evs2, opt);
        if evs2.len() == 0 {
            assert(fin2 == r0);
            if spec_better(opt, c@, f@) {
                assert(winner_in(evs, fin, opt)) by {
                    assert(0 <= 0 < evs.len() && fin.adopted_run == Some(evs[0].0)
                        && fin.prev_score == Some(evs[0].1));
                }
            }
        } else {
            let b2 = seq_best(evs2, opt);
            lemma_seq_best_dominates(evs2, opt);
            assert(forall|m: int|
                0 <= m < evs.len() - 1 ==> evs2[m] == #[trigger] evs[m]);
            assert(seq_best(evs, opt) == if spec_better(opt, c@, b2@) {
                c
            } else {
                b2
            });
            if spec_better(opt, b2@, f@) {
                // An adoption has already happened.
                if spec_better(opt, c@, b2@) {
                    assert(spec_adopts(fin2, c, opt));
                    assert(winner_in(evs, fin, opt)) by {
                        let j = evs.len() - 1;
                        assert(0 <= j < evs.len() && fin.adopted_run == Some(evs[j].0)
                            && fin.prev_score == Some(evs[j].1));
                        assert(forall|m: int|
                            0 <= m < j ==> (#[trigger] evs[m]).1@ != evs[j].1@);
                    }
                } else {
                    assert(!spec_adopts(fin2, c, opt));
                    assert(winner_in(evs, fin, opt)) by {
                        let j2 = choose|j: int|
                            #![trigger evs2[j]]
                            0 <= j < evs2.len() && fin2.adopted_run == Some(evs2[j].0)
                                && fin2.prev_score == Some(evs2[j].1) && (forall|m: int|
                                0 <= m < j ==> (#[trigger] evs2[m]).1@ != evs2[j].1@);
                        assert(0 <= j2 < evs.len() && fin.adopted_run == Some(evs[j2].0)
                            && fin.prev_score == Some(evs[j2].1));
                        assert(forall|m: int|
                            0 <= m < j2 ==> (#[trigger] evs[m]).1@ != evs[j2].1@);
                    }
                }
            } else {
                // Nothing has beaten the original incumbent yet.
                if spec_better(opt, c@, b2@) && spec_better(opt, c@, f@) {
                    assert(spec_adopts(fin2, c, opt));
                    assert(winner_in(evs, fin, opt)) by {
                        let j = evs.len() - 1;
                        assert(0 <= j < evs.len() && fin.adopted_run == Some(evs[j].0)
                            && fin.prev_score == Some(evs[j].1));
                        assert(forall|m: int|
                            0 <= m < j ==> (#[trigger] evs[m]).1@ != evs[j].1@);
                    }
                } else {
                    assert(!spec_adopts(fin2, c, opt));
                }
            }
        }
    }
}

/// One test with no incumbent at all, over a whole run: the first candidate
/// is adopted unconditionally, and from then on the incumbent tracks the
/// extremum; at the end the answer file holds the first run that reached
/// the extremal score.
pub proof fn lemma_engine_run_fresh(r0: TestInfo, evs: Seq<(usize, Score)>, opt: Optimize)
    requires
        r0.prev_score is None,
        r0.first_score is None,
        r0.new_score is None,
        r0.adopted_run is None,
    ensures
        ({
            let fin = apply_events(r0, evs, opt);
            &&& fin.first_score is None
            &&& (evs.len() == 0 ==> fin == r0)
            &&& (evs.len() > 0 ==> fin.new_score == Some(seq_best(evs, opt)) && fin.prev_score
                == Some(seq_best(evs, opt)) && winner_in(evs, fin, opt))
        }),
    decreases evs.len(),
{
    if evs.len() == 0 {
    } else {
        let evs2 = evs.drop_last();
        let e = evs.last();
        let c = e.1;
        let fin2 = apply_events(r0, evs2, opt);
        let fin = apply_rec(fin2, e.0, c, opt);
        lemma_engine_run_fresh(r0, evs2, opt);
        if evs2.len() == 0 {
            assert(fin2 == r0);
            assert(winner_in(evs, fin, opt)) by {
                assert(0 <= 0 < evs.len() && fin.adopted_run == Some(evs[0].0)
                    && fin.prev_score == Some(evs[0].1));
            }
        } else {
            let b2 = seq_best(evs2, opt);
            lemma_seq_best_dominates(evs2, opt);
            assert(forall|m: int|
                0 <= m < evs.len() - 1 ==> evs2[m] == #[trigger] evs[m]);
            assert(seq_best(evs, opt) == if spec_better(opt, c@, b2@) {
                c
            } else {
                b2
            });
            if spec_better(opt, c@, b2@) {
                assert(spec_adopts(fin2, c, opt));
                assert(winner_in(evs, fin, opt)) by {
                    let j = evs.len() - 1;
                    assert(0 <= j < evs.len() && fin.adopted_run == Some(evs[j].0)
                        && fin.prev_score == Some(evs[j].1));
                    assert(forall|m: int| 0 <= m < j ==> (#[trigger] evs[m]).1@ != evs[j].1@);
                }
            } else {
                assert(!spec_adopts(fin2, c, opt));
                assert(winner_in(evs, fin, opt)) by {
                    let j2 = choose|j: int|
                        #![trigger evs2[j]]
                        0 <= j < evs2.len() && fin2.adopted_run == Some(evs2[j].0)
                            && fin2.prev_score == Some(evs2[j].1) && (forall|m: int|
                            0 <= m < j ==> (#[trigger] evs2[m]).1@ != evs2[j].1@);
                    assert(0 <= j2 < evs.len() && fin.adopted_run == Some(evs[j2].0)
                        && fin.prev_score == Some(evs[j2].1));
                    assert(forall|m: int|
                        0 <= m < j2 ==> (#[trigger] evs[m]).1@ != evs[j2].1@);
                }
            }
        }
    }
}

} // verus!
