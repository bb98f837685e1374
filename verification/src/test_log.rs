//! Per-test log bookkeeping for the external dashboard.

use vstd::prelude::*;

verus! {

/// Where a test's log lives, and what of it the dashboard has seen.
#[derive(Debug)]
pub struct TestLog {
    /// The log file beside the test, `<name>.log`.
    pub filename: String,
    /// The log text as last pushed; `None` until a dashboard page exists.
    pub content: Option<String>,
    pub page_id: String,
    pub block_id: String,
    /// Display time of the last push.
    pub last_update: String,
}

impl TestLog {
    /// A fresh log record for one test: nothing pushed yet.
    pub fn new(test_name: &str) -> (r: TestLog)
        ensures
            r.filename@ == test_name@ + ".log"@,
            r.content is None,
            r.page_id@ == Seq::<char>::empty(),
            r.block_id@ == Seq::<char>::empty(),
            r.last_update@ == Seq::<char>::empty(),
    {
        let mut filename = test_name.to_owned();
        filename.append(".log");
        TestLog {
            filename,
            content: None,
            page_id: String::new(),
            block_id: String::new(),
            last_update: String::new(),
        }
    }
}

} // verus!
