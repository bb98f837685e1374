//! Configuration and reporter data types.

use vstd::prelude::*;

use crate::score::{Optimize, ResultFunc};
use crate::util::{fix_unix_filename, fixed_filename, str_eq};

verus! {

/// Credentials of the external dashboard the reporter pushes to.
#[derive(Debug, Clone)]
pub struct NotionConfig {
    pub key: String,
    pub database: String,
}

/// How to reach and use the remote worker.
#[derive(Debug, Clone)]
pub struct RemoteConfig {
    /// Local port the worker's tunnel listens on.
    pub local_port: u16,
    /// Directory on the worker that mirrors the local workspace.
    pub workdir: String,
    /// Glob patterns naming the files to mirror.
    pub copy: Vec<String>,
    /// Commands to run remotely before any test work.
    pub prerun: Vec<Vec<String>>,
    /// The worker's advertised parallelism; the scheduler's pool size when
    /// remote execution is selected.
    pub threads: usize,
    /// Whether the scorer also runs remotely.
    pub score: bool,
}

/// The harness configuration, as the on-disk file provides it.  Optional
/// fields are filled by `normalize`.
#[derive(Debug, Clone)]
pub struct Config {
    pub tests: usize,
    /// `"min"` or `"max"`.
    pub optimize: String,
    /// `"sum"` or `"avg"`.
    pub result_func: String,
    /// Tests to skip outright.
    pub skip_tests: Option<Vec<usize>>,
    /// When non-empty, the only tests to run.
    pub run_tests: Option<Vec<usize>>,
    /// Decimal places shown for scores.
    pub precision: Option<usize>,
    pub threads: Option<usize>,
    /// Seconds added to clock readings for display.
    pub time_offset: Option<i64>,
    pub main: Option<Vec<String>>,
    pub scorer: Option<Vec<String>>,
    pub finalize: Option<Vec<String>>,
    pub notion: Option<NotionConfig>,
    pub remote: Option<RemoteConfig>,
}

/// Why a configuration is rejected.
#[derive(Clone, Copy, PartialEq, Eq, Structural, Debug)]
pub enum ConfigError {
    /// `optimize` is neither `"min"` nor `"max"`.
    BadOptimize,
    /// `result_func` is neither `"sum"` nor `"avg"`.
    BadResultFunc,
}

impl ConfigError {
    /// A diagnostic line for the fatal exit.
    pub fn message(&self) -> (r: &'static str)
        ensures
            *self is BadOptimize ==> r@ == "Optimize must be \"min\" or \"max\""@,
            *self is BadResultFunc ==> r@ == "Result function must be \"sum\" or \"avg\""@,
    {
        match self {
            ConfigError::BadOptimize => "Optimize must be \"min\" or \"max\"",
            ConfigError::BadResultFunc => "Result function must be \"sum\" or \"avg\"",
        }
    }
}

/// A test is left out of the run when the skip list names it, or when a
/// non-empty allow list does not.
pub open spec fn spec_skipped(t: usize, skip: Seq<usize>, run: Seq<usize>) -> bool {
    skip.contains(t) || (run.len() > 0 && !run.contains(t))
}

/// Decide whether test `t` is skipped.
pub fn should_skip(t: usize, skip_tests: &Vec<usize>, run_tests: &Vec<usize>) -> (r: bool)
    ensures
        r == spec_skipped(t, skip_tests@, run_tests@),
{
    if crate::util::contains_usize(skip_tests, t) {
        return true;
    }
    run_tests.len() > 0 && !crate::util::contains_usize(run_tests, t)
}

impl Config {
    /// The optimization direction, once `optimize` has been validated.
    pub fn direction(&self) -> (r: Option<Optimize>)
        ensures
            match r {
                Some(Optimize::Max) => self.optimize@ == "max"@,
                Some(Optimize::Min) => self.optimize@ == "min"@,
                None => self.optimize@ != "max"@ && self.optimize@ != "min"@,
            },
    {
        if str_eq(self.optimize.as_str(), "max") {
            Some(Optimize::Max)
        } else if str_eq(self.optimize.as_str(), "min") {
            Some(Optimize::Min)
        } else {
            None
        }
    }

    /// The result function, once `result_func` has been validated.
    pub fn result_mode(&self) -> (r: Option<ResultFunc>)
        ensures
            match r {
                Some(ResultFunc::Sum) => self.result_func@ == "sum"@,
                Some(ResultFunc::Avg) => self.result_func@ == "avg"@,
                None => self.result_func@ != "sum"@ && self.result_func@ != "avg"@,
            },
    {
        if str_eq(self.result_func.as_str(), "sum") {
            Some(ResultFunc::Sum)
        } else if str_eq(self.result_func.as_str(), "avg") {
            Some(ResultFunc::Avg)
        } else {
            None
        }
    }

    /// Validate the configuration and fill every optional field the harness
    /// reads: empty skip and allow lists, three decimal places, one thread,
    /// a three-hour display offset, and the conventional command names.
    pub fn normalize(self) -> (r: Result<Config, ConfigError>)
        ensures
            r is Ok <==> (self.optimize@ == "min"@ || self.optimize@ == "max"@) && (
            self.result_func@ == "sum"@ || self.result_func@ == "avg"@),
            r is Err ==> (r->Err_0 == ConfigError::BadOptimize <==> self.optimize@ != "min"@
                && self.optimize@ != "max"@),
            r is Ok ==> ({
                let c = r->Ok_0;
                &&& c.tests == self.tests
                &&& c.optimize == self.optimize
                &&& c.result_func == self.result_func
                &&& match self.skip_tests {
                    Some(v) => c.skip_tests == Some(v),
                    None => c.skip_tests is Some && c.skip_tests->0@.len() == 0,
                }
                &&& match self.run_tests {
                    Some(v) => c.run_tests == Some(v),
                    None => c.run_tests is Some && c.run_tests->0@.len() == 0,
                }
                &&& c.precision == Some(
                    match self.precision {
                        Some(p) => p,
                        None => 3usize,
                    },
                )
                &&& c.threads == Some(
                    match self.threads {
                        Some(t) => t,
                        None => 1usize,
                    },
                )
                &&& c.time_offset == Some(
                    match self.time_offset {
                        Some(o) => o,
                        None => 10800i64,
                    },
                )
                &&& match self.main {
                    Some(v) => c.main == Some(v),
                    None => c.main is Some && c.main->0@.len() == 1 && c.main->0@[0]@
                        == fixed_filename("main"@),
                }
                &&& match self.scorer {
                    Some(v) => c.scorer == Some(v),
                    None => c.scorer is Some && c.scorer->0@.len() == 1 && c.scorer->0@[0]@
                        == fixed_filename("scorer"@),
                }
                &&& match self.finalize {
                    Some(v) => c.finalize == Some(v),
                    None => c.finalize is Some && c.finalize->0@.len() == 1 && c.finalize->0@[0]@
                        == fixed_filename("finalize"@),
                }
                &&& c.notion == self.notion
                &&& c.remote == self.remote
            }),
    {
        let dir_ok = str_eq(self.optimize.as_str(), "min") || str_eq(self.optimize.as_str(), "max");
        if !dir_ok {
            return Err(ConfigError::BadOptimize);
        }
        let func_ok = str_eq(self.result_func.as_str(), "sum") || str_eq(
            self.result_func.as_str(),
            "avg",
        );
        if !func_ok {
            return Err(ConfigError::BadResultFunc);
        }
        let mut c = self;
        if c.skip_tests.is_none() {
            c.skip_tests = Some(Vec::new());
        }
        if c.run_tests.is_none() {
            c.run_tests = Some(Vec::new());
        }
        if c.precision.is_none() {
            c.precision = Some(3);
        }
        if c.threads.is_none() {
            c.threads = Some(1);
        }
        if c.time_offset.is_none() {
            c.time_offset = Some(10800);
        }
        if c.main.is_none() {
            let mut v: Vec<String> = Vec::new();
            v.push(fix_unix_filename("main"));
            c.main = Some(v);
        }
        if c.scorer.is_none() {
            let mut v: Vec<String> = Vec::new();
            v.push(fix_unix_filename("scorer"));
            c.scorer = Some(v);
        }
        if c.finalize.is_none() {
            let mut v: Vec<String> = Vec::new();
            v.push(fix_unix_filename("finalize"));
            c.finalize = Some(v);
        }
        Ok(c)
    }
}

/// A block of the external dashboard the reporter writes into.
#[derive(Debug, Clone)]
pub struct NotionBlock {
    pub block_id: String,
    pub page_id: String,
}

/// One colored, optionally linked piece of dashboard text.
#[derive(Debug, Clone)]
pub struct NotionTextChunk {
    pub text: String,
    pub color: String,
    pub link: Option<String>,
}

/// The shape of a text chunk, for specification.
pub struct ChunkView {
    pub text: Seq<char>,
    pub color: Seq<char>,
    pub link: Option<Seq<char>>,
}

impl View for NotionTextChunk {
    type V = ChunkView;

    open spec fn view(&self) -> ChunkView {
        ChunkView {
            text: self.text@,
            color: self.color@,
            link: match self.link {
                Some(l) => Some(l@),
                None => None,
            },
        }
    }
}

pub open spec fn views_of(s: Seq<NotionTextChunk>) -> Seq<ChunkView> {
    s.map_values(|c: NotionTextChunk| c@)
}

/// Two neighbouring chunks merge when they share a color and neither
/// carries a link.
pub open spec fn can_merge(a: ChunkView, b: ChunkView) -> bool {
    a.color == b.color && a.link is None && b.link is None
}

pub open spec fn merge_step(acc: Seq<ChunkView>, c: ChunkView) -> Seq<ChunkView> {
    if acc.len() > 0 && can_merge(acc.last(), c) {
        acc.update(acc.len() - 1, ChunkView { text: acc.last().text + c.text, ..acc.last() })
    } else {
        acc.push(c)
    }
}

/// The chunk list with mergeable neighbours folded together, left to right.
pub open spec fn merged_chunks(s: Seq<ChunkView>) -> Seq<ChunkView>
    decreases s.len(),
{
    if s.len() == 0 {
        Seq::<ChunkView>::empty()
    } else {
        merge_step(merged_chunks(s.drop_last()), s.last())
    }
}

/// Longest text one dashboard chunk may carry, in characters.
pub const MAX_CHUNK_LEN: usize = 1000;

/// One text cut into pieces of at most the chunk limit; empty text yields
/// no piece at all.
pub open spec fn split_text(t: Seq<char>, color: Seq<char>, link: Option<Seq<char>>) -> Seq<
    ChunkView,
>
    decreases t.len(),
{
    if t.len() == 0 {
        Seq::<ChunkView>::empty()
    } else if t.len() <= MAX_CHUNK_LEN {
        seq![ChunkView { text: t, color: color, link: link }]
    } else {
        seq![ChunkView { text: t.take(MAX_CHUNK_LEN as int), color: color, link: link }]
            + split_text(t.skip(MAX_CHUNK_LEN as int), color, link)
    }
}

/// Every chunk's text cut into bounded pieces, in order.
pub open spec fn split_chunks(s: Seq<ChunkView>) -> Seq<ChunkView>
    decreases s.len(),
{
    if s.len() == 0 {
        Seq::<ChunkView>::empty()
    } else {
        split_chunks(s.drop_last()) + split_text(s.last().text, s.last().color, s.last().link)
    }
}

impl NotionTextChunk {
    /// A plain piece of text in one color, with no link.
    pub fn new(text: &str, color: &str) -> (r: NotionTextChunk)
        ensures
            r.text@ == text@,
            r.color@ == color@,
            r.link is None,
    {
        NotionTextChunk { text: text.to_owned(), color: color.to_owned(), link: None }
    }

    /// An exact copy, field for field.
    fn duplicate(&self) -> (r: NotionTextChunk)
        ensures
            r@ == self@,
    {
        NotionTextChunk {
            text: self.text.clone(),
            color: self.color.clone(),
            link: match &self.link {
                Some(l) => Some(l.clone()),
                None => None,
            },
        }
    }

    /// Make a chunk list fit the dashboard's limits: neighbouring chunks of
    /// one color and no link are merged, and every text is then cut into
    /// pieces of at most the chunk limit.  The text, read across the list,
    /// is unchanged.
    pub fn fix_chunks_length(chunks: Vec<NotionTextChunk>) -> (r: Vec<NotionTextChunk>)
        ensures
            views_of(r@) == split_chunks(merged_chunks(views_of(chunks@))),
    {
        // First merge neighbours of one color.
        let mut merged: Vec<NotionTextChunk> = Vec::new();
        let mut i: usize = 0;
        proof {
            assert(views_of(chunks@.take(0)) =~= Seq::<ChunkView>::empty());
            assert(views_of(merged@) =~= Seq::<ChunkView>::empty());
        }
        while i < chunks.len()
            invariant
                0 <= i <= chunks@.len(),
                views_of(merged@) == merged_chunks(views_of(chunks@.take(i as int))),
            decreases chunks@.len() - i,
        {
            let c = &chunks[i];
            proof {
                assert(views_of(chunks@.take(i + 1)).drop_last() =~= views_of(
                    chunks@.take(i as int),
                ));
                assert(views_of(chunks@.take(i + 1)).last() == chunks@[i as int]@);
            }
            let mergeable = if merged.len() > 0 {
                let last = &merged[merged.len() - 1];
                last.link.is_none() && c.link.is_none() && crate::util::str_eq(
                    last.color.as_str(),
                    c.color.as_str(),
                )
            } else {
                false
            };
            if mergeable {
                let ghost pre = merged@;
                let mut last = match merged.pop() {
                    Some(l) => l,
                    None => {
                        proof {
                            assert(false);
                        }
                        NotionTextChunk::new("", "")
                    },
                };
                last.text.append(c.text.as_str());
                merged.push(last);
                proof {
                    assert(views_of(merged@) =~= merge_step(views_of(pre), chunks@[i as int]@));
                }
            } else {
                merged.push(c.duplicate());
                proof {
                    assert(views_of(merged@) =~= merge_step(
                        views_of(merged@.drop_last()),
                        chunks@[i as int]@,
                    ));
                    assert(views_of(merged@.drop_last()) =~= views_of(merged@).drop_last());
                }
            }
            i = i + 1;
        }
        proof {
            assert(chunks@.take(chunks@.len() as int) =~= chunks@);
        }

        // Then cut every text into bounded pieces.
        let mut out: Vec<NotionTextChunk> = Vec::new();
        let mut i: usize = 0;
        proof {
            assert(views_of(merged@.take(0)) =~= Seq::<ChunkView>::empty());
            assert(views_of(out@) =~= Seq::<ChunkView>::empty());
        }
        while i < merged.len()
            invariant
                0 <= i <= merged@.len(),
                views_of(merged@) == merged_chunks(views_of(chunks@)),
                views_of(out@) == split_chunks(views_of(merged@.take(i as int))),
            decreases merged@.len() - i,
        {
            let c = &merged[i];
            let ghost full = c.text@;
            let ghost cv = c@;
            let n = c.text.as_str().unicode_len();
            let mut pos: usize = 0;
            let ghost base = views_of(out@);
            proof {
                assert(full.skip(0) =~= full);
                assert(base + Seq::<ChunkView>::empty() =~= base);
            }
            while pos < n
                invariant
                    0 <= pos <= n,
                    n == full.len(),
                    full == c.text@,
                    cv == merged@[i as int]@,
                    0 <= i < merged@.len(),
                    c == &merged@[i as int],
                    split_text(full, cv.color, cv.link) == views_of(out@).skip(base.len() as int)
                        + split_text(full.skip(pos as int), cv.color, cv.link),
                    views_of(out@).take(base.len() as int) == base,
                    base.len() <= views_of(out@).len(),
                decreases n - pos,
            {
                let end = if n - pos > MAX_CHUNK_LEN {
                    pos + MAX_CHUNK_LEN
                } else {
                    n
                };
                let piece = c.text.as_str().substring_char(pos, end).to_owned();
                let link = match &c.link {
                    Some(l) => Some(l.clone()),
                    None => None,
                };
                let ghost pre = out@;
                out.push(NotionTextChunk { text: piece, color: c.color.clone(), link });
                proof {
                    let rem = full.skip(pos as int);
                    assert(views_of(out@).drop_last() =~= views_of(pre));
                    assert(views_of(out@).take(base.len() as int) =~= base);
                    if rem.len() > MAX_CHUNK_LEN {
                        assert(rem.take(MAX_CHUNK_LEN as int) =~= full.subrange(
                            pos as int,
                            end as int,
                        ));
                        assert(rem.skip(MAX_CHUNK_LEN as int) =~= full.skip(end as int));
                        assert(split_text(rem, cv.color, cv.link) == seq![
                            views_of(out@).last(),
                        ] + split_text(full.skip(end as int), cv.color, cv.link));
                    } else {
                        assert(rem =~= full.subrange(pos as int, end as int));
                        assert(full.skip(end as int).len() == 0);
                        assert(split_text(rem, cv.color, cv.link) == seq![
                            views_of(out@).last(),
                        ] + split_text(full.skip(end as int), cv.color, cv.link));
                    }
                    assert(views_of(out@).skip(base.len() as int) =~= views_of(pre).skip(
                        base.len() as int,
                    ).push(views_of(out@).last()));
                    assert(views_of(pre).skip(base.len() as int).push(views_of(out@).last())
                        + split_text(full.skip(end as int), cv.color, cv.link) =~= views_of(
                        pre,
                    ).skip(base.len() as int) + (seq![views_of(out@).last()] + split_text(
                        full.skip(end as int),
                        cv.color,
                        cv.link,
                    )));
                }
                pos = end;
            }
            proof {
                assert(full.skip(n as int).len() == 0);
                assert(views_of(out@).skip(base.len() as int) + Seq::<ChunkView>::empty()
                    =~= views_of(out@).skip(base.len() as int));
                assert(views_of(merged@.take(i + 1)).drop_last() =~= views_of(
                    merged@.take(i as int),
                ));
                assert(views_of(merged@.take(i + 1)).last() == cv);
                assert(views_of(out@) =~= base + views_of(out@).skip(base.len() as int));
                assert(views_of(out@) =~= split_chunks(views_of(merged@.take(i + 1))));
            }
            i = i + 1;
        }
        proof {
            assert(merged@.take(merged@.len() as int) =~= merged@);
        }
        out
    }
}

} // verus!
