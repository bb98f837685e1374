//! Per-test record: state, scores and iteration bookkeeping.

use vstd::prelude::*;

use crate::score::Score;

verus! {

/// Lifecycle of one test within a run of the suite.
#[derive(Clone, Copy, PartialEq, Eq, Structural, Debug)]
pub enum TestState {
    Running,
    Failed,
    WrongAnswer,
    Completed,
    Skipped,
    Queue,
}

/// How the latest legitimate candidate compared to the incumbent that was on
/// disk when the suite started.
#[derive(Clone, Copy, PartialEq, Eq, Structural, Debug)]
pub enum TestResult {
    Better,
    Same,
    Worse,
}

/// One test's record.  Mutated only through the scoring engine, under the
/// suite-wide critical section.
#[derive(Debug)]
pub struct TestInfo {
    /// Zero-padded test identifier.
    pub test_name: String,
    pub state: TestState,
    /// The incumbent: the score of the answer currently on disk.  Set when
    /// the existing answer is first scored, and again on every adoption.
    pub prev_score: Option<Score>,
    /// The incumbent as it was first scored this session; adoption never
    /// moves it.
    pub first_score: Option<Score>,
    /// The best candidate score any iteration has produced so far.
    pub new_score: Option<Score>,
    /// The iteration whose output the answer file holds, when an adoption
    /// has happened this session.
    pub adopted_run: Option<usize>,
    /// Display label for the moment the latest run started.
    pub time: String,
    /// Wall time spent running the solution for this test, in milliseconds.
    pub cpu_time_ms: u64,
    /// Iterations finished (successfully or not).
    pub runs: usize,
    /// Iterations currently in flight.
    pub running: usize,
    /// Iterations this suite will schedule for the test.
    pub total_runs: usize,
    pub result: TestResult,
}

impl TestInfo {
    /// Bookkeeping that every record satisfies at every instant.
    pub open spec fn wf(self) -> bool {
        &&& self.runs + self.running <= self.total_runs
        &&& (self.state is Completed ==> self.runs == self.total_runs)
        &&& (match self.prev_score {
            Some(s) => s.bounded(),
            None => true,
        })
        &&& (match self.first_score {
            Some(s) => s.bounded(),
            None => true,
        })
        &&& (match self.new_score {
            Some(s) => s.bounded(),
            None => true,
        })
        &&& (self.adopted_run is Some ==> self.prev_score is Some)
        &&& (self.first_score is Some ==> self.prev_score is Some)
        &&& (self.adopted_run is None ==> self.prev_score == self.first_score)
    }

    /// What this record contributes to the suite's total score.
    pub open spec fn contribution(self) -> int {
        match self.prev_score {
            Some(s) => s@,
            None => 0,
        }
    }

    /// What this record contributes to the suite's total delta: the distance
    /// its incumbent has moved this session, zero if nothing was adopted.
    pub open spec fn session_delta(self) -> int {
        if self.adopted_run is Some {
            self.contribution() - (match self.first_score {
                Some(s) => s@,
                None => 0,
            })
        } else {
            0
        }
    }

    /// A fresh record: queued, unscored, nothing run yet.
    pub fn new(test_name: String, total_runs: usize) -> (r: TestInfo)
        ensures
            r.test_name == test_name,
            r.state == TestState::Queue,
            r.prev_score is None,
            r.first_score is None,
            r.new_score is None,
            r.adopted_run is None,
            r.time@ == Seq::<char>::empty(),
            r.cpu_time_ms == 0,
            r.runs == 0,
            r.running == 0,
            r.total_runs == total_runs,
            r.result == TestResult::Same,
            r.wf(),
            r.contribution() == 0,
            r.session_delta() == 0,
    {
        TestInfo {
            test_name,
            state: TestState::Queue,
            prev_score: None,
            first_score: None,
            new_score: None,
            adopted_run: None,
            time: String::new(),
            cpu_time_ms: 0,
            runs: 0,
            running: 0,
            total_runs,
            result: TestResult::Same,
        }
    }

    /// An exact copy, field for field.
    pub fn duplicate(&self) -> (r: TestInfo)
        ensures
            r == *self,
    {
        TestInfo {
            test_name: self.test_name.clone(),
            state: self.state,
            prev_score: self.prev_score,
            first_score: self.first_score,
            new_score: self.new_score,
            adopted_run: self.adopted_run,
            time: self.time.clone(),
            cpu_time_ms: self.cpu_time_ms,
            runs: self.runs,
            running: self.running,
            total_runs: self.total_runs,
            result: self.result,
        }
    }
}

} // verus!
