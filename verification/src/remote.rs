//! The planning half of the remote sync protocol.
//!
//! Mirroring a workspace onto the remote worker is content-addressed: every
//! file is digested, the digests are offered, and only the files the peer
//! does not already have are encoded and uploaded, batched into chunks
//! bounded by a byte threshold.  This module computes all of those values —
//! digests, the needed-file selection, the chunk plan, the retry policy and
//! the poll-status meaning — from plain inputs; reading the files and
//! carrying the HTTP requests is the caller's business.

use vstd::prelude::*;

use base64ct::Encoding;
use md5::{Digest, Md5};

use crate::util::{dec_chars, decimal_string, str_eq};

verus! {

/// Raw bytes per upload chunk before it is closed.
pub const CHUNK_LIMIT: u64 = 1_000_000;

/// Bounded retries for a poll of a dispatched run.
pub const RUN_POLL_TRIES: u64 = 128;

/// Bounded retries for the file-transfer calls.
pub const TRANSFER_TRIES: u64 = 32;

/// Fixed delay between liveness probes, in seconds; the probe alone may
/// retry without bound.
pub const PING_DELAY_SECS: u64 = 1;

/// What the digest of a byte string is.  Relies on the `md5` digest being a
/// function of the input alone.
pub uninterp spec fn md5_of(data: Seq<u8>) -> Seq<u8>;

/// Relies on `Md5::digest` of the `md-5` crate: a 128-bit digest computed
/// from the input bytes alone.
#[verifier::external_body]
fn md5_digest(data: &[u8]) -> (r: Vec<u8>)
    ensures
        r@ == md5_of(data@),
        r@.len() == 16,
{
    Md5::digest(data).to_vec()
}

/// The lower-case hex character of a nibble.
pub open spec fn hex_digit_char(n: u8) -> char {
    if n < 10 {
        ((48 + n) as u8) as char
    } else {
        ((87 + n) as u8) as char
    }
}

/// A byte string in lower-case hex: two digits per byte, high nibble first.
pub open spec fn hex_of(b: Seq<u8>) -> Seq<char> {
    Seq::new(
        2 * b.len(),
        |i: int|
            if i % 2 == 0 {
                hex_digit_char(b[i / 2] >> 4u8)
            } else {
                hex_digit_char(b[i / 2] & 0x0fu8)
            },
    )
}

/// Relies on `base16ct::lower::encode_string`: lower-case hex, two digits
/// per byte; it panics above `usize::MAX / 2` input bytes.
#[verifier::external_body]
fn hex_lower(b: &[u8]) -> (r: String)
    requires
        b@.len() <= usize::MAX / 2,
    ensures
        r@ == hex_of(b@),
{
    base16ct::lower::encode_string(b)
}

/// What the standard padded base64 encoding of a byte string is.  Relies on
/// the encoding being a function of the input alone.
pub uninterp spec fn base64_of(data: Seq<u8>) -> Seq<char>;

/// Relies on `base64ct::Base64::encode_string`: standard padded base64,
/// four characters per three input bytes; it panics above `usize::MAX / 4`
/// input bytes.
#[verifier::external_body]
fn b64_encode(data: &[u8]) -> (r: String)
    requires
        data@.len() <= usize::MAX / 4,
    ensures
        r@ == base64_of(data@),
        r@.len() == 4 * ((data@.len() + 2) / 3),
{
    base64ct::Base64::encode_string(data)
}

/// Relies on `base64ct::Base64::decode_vec`: strict decoding, the inverse
/// of the encoder — a valid encoding decodes to exactly the bytes that
/// produce it, no other bytes encode to it, and anything else is rejected.
#[verifier::external_body]
fn b64_decode(s: &str) -> (r: Option<Vec<u8>>)
    ensures
        match r {
            Some(v) => base64_of(v@) == s@ && (forall|w: Seq<u8>|
                base64_of(w) == s@ ==> w == v@),
            None => forall|v: Seq<u8>| base64_of(v) != s@,
        },
{
    base64ct::Base64::decode_vec(s).ok()
}

/// Why a sync step cannot proceed.
#[derive(Clone, Copy, PartialEq, Eq, Structural, Debug)]
pub enum SyncError {
    /// The peer asked for a path the workspace scan did not produce.
    MissingFile,
    /// A fetched payload is not valid base64.
    BadPayload,
}

/// One file of the local workspace, as scanned from disk.
#[derive(Debug)]
pub struct WorkspaceFile {
    pub path: String,
    pub data: Vec<u8>,
    pub executable: bool,
}

/// One file as it goes over the wire.
#[derive(Debug)]
pub struct EncodedFile {
    pub path: String,
    /// The file's bytes in base64.
    pub data: String,
    pub executable: bool,
}

/// One bounded batch of encoded files.
#[derive(Debug)]
pub struct FileChunk {
    pub files: Vec<EncodedFile>,
}

/// The digest list offered to the peer: for every scanned file, its path
/// and the lower-case hex of its digest, in scan order.
pub fn digest_files(files: &Vec<WorkspaceFile>) -> (r: Vec<(String, String)>)
    ensures
        r@.len() == files@.len(),
        forall|i: int|
            0 <= i < r@.len() ==> (#[trigger] r@[i]).0@ == files@[i].path@ && r@[i].1@ == hex_of(
                md5_of(files@[i].data@),
            ),
{
    let mut r: Vec<(String, String)> = Vec::new();
    let mut i: usize = 0;
    while i < files.len()
        invariant
            0 <= i <= files@.len(),
            r@.len() == i,
            forall|j: int|
                0 <= j < i ==> (#[trigger] r@[j]).0@ == files@[j].path@ && r@[j].1@ == hex_of(
                    md5_of(files@[j].data@),
                ),
        decreases files@.len() - i,
    {
        let f = &files[i];
        let digest = md5_digest(f.data.as_slice());
        let hex = hex_lower(digest.as_slice());
        r.push((f.path.clone(), hex));
        i = i + 1;
    }
    r
}

/// Index of the first workspace file with the given path, or `-1`.
pub open spec fn find_path(files: Seq<WorkspaceFile>, p: Seq<char>) -> int
    decreases files.len(),
{
    if files.len() == 0 {
        -1
    } else if files[0].path@ == p {
        0
    } else {
        let r = find_path(files.skip(1), p);
        if r == -1 {
            -1
        } else {
            1 + r
        }
    }
}

proof fn lemma_find_path(files: Seq<WorkspaceFile>, p: Seq<char>)
    ensures
        find_path(files, p) == -1 || (0 <= find_path(files, p) < files.len()),
        find_path(files, p) >= 0 ==> files[find_path(files, p)].path@ == p,
        find_path(files, p) == -1 ==> forall|j: int|
            0 <= j < files.len() ==> (#[trigger] files[j]).path@ != p,
    decreases files.len(),
{
    if files.len() > 0 && files[0].path@ != p {
        lemma_find_path(files.skip(1), p);
        if find_path(files, p) == -1 {
            assert forall|j: int| 0 <= j < files.len() implies (#[trigger] files[j]).path@
                != p by {
                if j > 0 {
                    assert(files.skip(1)[j - 1] == files[j]);
                }
            }
        } else {
            assert(files.skip(1)[find_path(files.skip(1), p)] == files[find_path(files, p)]);
        }
    }
}

/// The files the peer asked for, in the order it asked, each found in the
/// workspace scan by path.  `Err` exactly when some needed path was never
/// scanned.
pub fn select_needed(files: &Vec<WorkspaceFile>, need: &Vec<String>) -> (r: Result<
    Vec<WorkspaceFile>,
    SyncError,
>)
    ensures
        r is Ok <==> (forall|j: int|
            0 <= j < need@.len() ==> find_path(files@, (#[trigger] need@[j])@) >= 0),
        r is Err ==> r->Err_0 == SyncError::MissingFile,
        r is Ok ==> ({
            let sel = r->Ok_0;
            &&& sel@.len() == need@.len()
            &&& forall|j: int|
                0 <= j < need@.len() ==> {
                    let w = files@[find_path(files@, need@[j]@)];
                    &&& (#[trigger] sel@[j]).path@ == w.path@
                    &&& sel@[j].data@ == w.data@
                    &&& sel@[j].executable == w.executable
                }
        }),
{
    let mut sel: Vec<WorkspaceFile> = Vec::new();
    let mut j: usize = 0;
    while j < need.len()
        invariant
            0 <= j <= need@.len(),
            sel@.len() == j,
            forall|j2: int|
                0 <= j2 < j ==> find_path(files@, (#[trigger] need@[j2])@) >= 0,
            forall|j2: int|
                0 <= j2 < j ==> {
                    let w = files@[find_path(files@, need@[j2]@)];
                    &&& (#[trigger] sel@[j2]).path@ == w.path@
                    &&& sel@[j2].data@ == w.data@
                    &&& sel@[j2].executable == w.executable
                },
        decreases need@.len() - j,
    {
        let p = &need[j];
        let mut i: usize = 0;
        let mut found = false;
        proof {
            assert(files@.skip(0) =~= files@);
        }
        while i < files.len() && !found
            invariant
                0 <= i <= files@.len(),
                found ==> i >= 1 && i - 1 == find_path(files@, p@) && files@[i - 1].path@ == p@,
                !found ==> forall|m: int| 0 <= m < i ==> (#[trigger] files@[m]).path@ != p@,
                !found ==> find_path(files@.skip(i as int), p@) >= 0 ==> find_path(files@, p@)
                    == i + find_path(files@.skip(i as int), p@),
                !found ==> find_path(files@.skip(i as int), p@) == -1 ==> find_path(files@, p@)
                    == -1,
            decreases files@.len() - i,
        {
            proof {
                lemma_find_path_step(files@, p@, i as int);
            }
            if str_eq(files[i].path.as_str(), p.as_str()) {
                found = true;
            }
            i = i + 1;
        }
        if !found {
            proof {
                assert(files@.skip(files@.len() as int).len() == 0);
            }
            return Err(SyncError::MissingFile);
        }
        let w = &files[i - 1];
        let copy = WorkspaceFile {
            path: w.path.clone(),
            data: vstd::slice::slice_to_vec(w.data.as_slice()),
            executable: w.executable,
        };
        sel.push(copy);
        j = j + 1;
    }
    Ok(sel)
}

proof fn lemma_find_path_step(files: Seq<WorkspaceFile>, p: Seq<char>, i: int)
    requires
        0 <= i < files.len(),
    ensures
        files[i].path@ == p ==> find_path(files.skip(i), p) == 0,
        files[i].path@ != p ==> find_path(files.skip(i), p) == if find_path(files.skip(i + 1), p)
            == -1 {
            -1int
        } else {
            1 + find_path(files.skip(i + 1), p)
        },
{
    assert(files.skip(i)[0] == files[i]);
    assert(files.skip(i).skip(1) =~= files.skip(i + 1));
}

// ------------------------------------------------------------------
// Chunked upload planning.
// ------------------------------------------------------------------
/// The chunking fold over the files' raw sizes: completed chunk lengths, and
/// the open chunk's file count and byte size.  A chunk closes as soon as its
/// size reaches the limit.
pub open spec fn chunk_fold(lens: Seq<int>, limit: int) -> (Seq<int>, int, int)
    decreases lens.len(),
{
    if lens.len() == 0 {
        (Seq::<int>::empty(), 0int, 0int)
    } else {
        let st = chunk_fold(lens.drop_last(), limit);
        let cnt = st.1 + 1;
        let size = st.2 + lens.last();
        if size >= limit {
            (st.0.push(cnt), 0int, 0int)
        } else {
            (st.0, cnt, size)
        }
    }
}

/// How many files each chunk of the plan holds, in order: the fold's
/// completed chunks, and the open chunk if any file is left in it.
pub open spec fn chunk_lens_of(lens: Seq<int>, limit: int) -> Seq<int> {
    let st = chunk_fold(lens, limit);
    if st.1 > 0 {
        st.0.push(st.1)
    } else {
        st.0
    }
}

pub open spec fn raw_lens(s: Seq<WorkspaceFile>) -> Seq<int> {
    s.map_values(|f: WorkspaceFile| f.data@.len() as int)
}

pub open spec fn chunk_lens(cs: Seq<FileChunk>) -> Seq<int> {
    cs.map_values(|c: FileChunk| c.files@.len() as int)
}

/// All the files of a chunk sequence, in order.
pub open spec fn chunks_files(cs: Seq<FileChunk>) -> Seq<EncodedFile>
    decreases cs.len(),
{
    if cs.len() == 0 {
        Seq::<EncodedFile>::empty()
    } else {
        chunks_files(cs.drop_last()) + cs.last().files@
    }
}

/// `e` is `w`, encoded for the wire.
pub open spec fn encodes(e: EncodedFile, w: WorkspaceFile) -> bool {
    &&& e.path@ == w.path@
    &&& e.data@ == base64_of(w.data@)
    &&& e.executable == w.executable
}

/// Encode the selected files and batch them into chunks: the chunks hold
/// exactly the selected files, encoded, in order; chunk sizes follow the
/// greedy rule — a chunk closes as soon as its raw bytes reach the limit.
/// No file means no chunk, so nothing at all is sent.
pub fn encode_chunks(selected: &Vec<WorkspaceFile>) -> (r: Vec<FileChunk>)
    requires
        forall|i: int|
            0 <= i < selected@.len() ==> (#[trigger] selected@[i]).data@.len() <= usize::MAX / 4,
    ensures
        chunk_lens(r@) == chunk_lens_of(raw_lens(selected@), CHUNK_LIMIT as int),
        chunks_files(r@).len() == selected@.len(),
        forall|j: int|
            0 <= j < selected@.len() ==> encodes(
                #[trigger] chunks_files(r@)[j],
                selected@[j],
            ),
        selected@.len() == 0 ==> r@.len() == 0,
        forall|i: int| 0 <= i < r@.len() ==> (#[trigger] r@[i]).files@.len() >= 1,
{
    let mut out: Vec<FileChunk> = Vec::new();
    let mut cur: Vec<EncodedFile> = Vec::new();
    let mut cur_size: u128 = 0;
    let mut i: usize = 0;
    proof {
        assert(raw_lens(selected@.take(0)) =~= Seq::<int>::empty());
        assert(chunk_lens(out@) =~= Seq::<int>::empty());
        assert(chunks_files(out@) + cur@ =~= Seq::<EncodedFile>::empty());
    }
    while i < selected.len()
        invariant
            0 <= i <= selected@.len(),
            forall|k: int|
                0 <= k < selected@.len() ==> (#[trigger] selected@[k]).data@.len() <= usize::MAX
                    / 4,
            chunk_lens(out@) == chunk_fold(raw_lens(selected@.take(i as int)), CHUNK_LIMIT as int).0,
            cur@.len() == chunk_fold(raw_lens(selected@.take(i as int)), CHUNK_LIMIT as int).1,
            cur_size as int == chunk_fold(
                raw_lens(selected@.take(i as int)),
                CHUNK_LIMIT as int,
            ).2,
            cur_size < CHUNK_LIMIT as u128,
            chunks_files(out@).len() + cur@.len() == i,
            forall|j: int|
                0 <= j < i ==> encodes(
                    #[trigger] (chunks_files(out@) + cur@)[j],
                    selected@[j],
                ),
            forall|k: int| 0 <= k < out@.len() ==> (#[trigger] out@[k]).files@.len() >= 1,
        decreases selected@.len() - i,
    {
        let f = &selected[i];
        let e = EncodedFile {
            path: f.path.clone(),
            data: b64_encode(f.data.as_slice()),
            executable: f.executable,
        };
        let ghost pre_out = out@;
        let ghost pre_cur = cur@;
        cur.push(e);
        cur_size = cur_size + f.data.len() as u128;
        proof {
            assert(raw_lens(selected@.take(i + 1)).drop_last() =~= raw_lens(
                selected@.take(i as int),
            ));
            assert(raw_lens(selected@.take(i + 1)).last() == selected@[i as int].data@.len());
            assert(chunks_files(pre_out) + cur@ =~= (chunks_files(pre_out) + pre_cur).push(e));
        }
        if cur_size >= CHUNK_LIMIT as u128 {
            let ghost closed = cur@;
            let done = cur;
            cur = Vec::new();
            cur_size = 0;
            let ghost pre_push = out@;
            out.push(FileChunk { files: done });
            proof {
                assert(out@.drop_last() =~= pre_push);
                assert(out@.last().files@ == closed);
                assert(chunks_files(out@) =~= chunks_files(pre_push) + closed);
                assert(chunk_lens(out@) =~= chunk_lens(pre_push).push(closed.len() as int));
                assert(chunks_files(out@) + cur@ =~= chunks_files(out@));
            }
        }
        i = i + 1;
    }
    proof {
        assert(selected@.take(selected@.len() as int) =~= selected@);
    }
    if cur.len() > 0 {
        let ghost closed = cur@;
        let ghost pre_push = out@;
        let done = cur;
        out.push(FileChunk { files: done });
        proof {
            assert(out@.drop_last() =~= pre_push);
            assert(out@.last().files@ == closed);
            assert(chunks_files(out@) =~= chunks_files(pre_push) + closed);
            assert(chunk_lens(out@) =~= chunk_lens(pre_push).push(closed.len() as int));
        }
    } else {
        proof {
            assert(chunks_files(out@) + cur@ =~= chunks_files(out@));
        }
    }
    out
}

/// The raw sizes of the files the peer asked for.
pub open spec fn needed_lens(files: Seq<WorkspaceFile>, need: Seq<String>) -> Seq<int> {
    Seq::new(need.len(), |j: int| files[find_path(files, need[j]@)].data@.len() as int)
}

/// The whole upload plan: find each needed file in the workspace scan,
/// encode it, and batch the lot into bounded chunks.  An empty needed set
/// yields an empty plan — nothing is uploaded at all; otherwise the chunks
/// hold exactly the needed files, in the peer's order.
pub fn plan_upload(files: &Vec<WorkspaceFile>, need: &Vec<String>) -> (r: Result<
    Vec<FileChunk>,
    SyncError,
>)
    requires
        forall|i: int|
            0 <= i < files@.len() ==> (#[trigger] files@[i]).data@.len() <= usize::MAX / 4,
    ensures
        r is Ok <==> (forall|j: int|
            0 <= j < need@.len() ==> find_path(files@, (#[trigger] need@[j])@) >= 0),
        r is Err ==> r->Err_0 == SyncError::MissingFile,
        r is Ok ==> ({
            let ch = r->Ok_0;
            &&& chunks_files(ch@).len() == need@.len()
            &&& forall|j: int|
                0 <= j < need@.len() ==> encodes(
                    #[trigger] chunks_files(ch@)[j],
                    files@[find_path(files@, need@[j]@)],
                )
            &&& chunk_lens(ch@) == chunk_lens_of(needed_lens(files@, need@), CHUNK_LIMIT as int)
            &&& (need@.len() == 0 ==> ch@.len() == 0)
            &&& forall|i: int| 0 <= i < ch@.len() ==> (#[trigger] ch@[i]).files@.len() >= 1
        }),
{
    let selected = match select_needed(files, need) {
        Ok(s) => s,
        Err(e) => {
            return Err(e);
        },
    };
    proof {
        assert forall|j: int| 0 <= j < selected@.len() implies (#[trigger] selected@[j]).data@.len()
            <= usize::MAX / 4 by {
            lemma_find_path(files@, need@[j]@);
        }
    }
    let chunks = encode_chunks(&selected);
    proof {
        assert(raw_lens(selected@) =~= needed_lens(files@, need@));
        assert forall|j: int| 0 <= j < need@.len() implies encodes(
            #[trigger] chunks_files(chunks@)[j],
            files@[find_path(files@, need@[j]@)],
        ) by {
            assert(encodes(chunks_files(chunks@)[j], selected@[j]));
        }
    }
    Ok(chunks)
}

// ------------------------------------------------------------------
// Dispatch, fetch and retry policy.
// ------------------------------------------------------------------
/// A dispatched run succeeded exactly when the poll answered `ok`; any
/// other answer — or an exhausted retry budget — counts as failure.
pub fn run_status_ok(status: &str) -> (r: bool)
    ensures
        r == (status@ == "ok"@),
{
    str_eq(status, "ok")
}

/// Decode a fetched file's payload.  `Ok` exactly when the payload is the
/// base64 of some byte string — those bytes and no others, so a fetch of an
/// encoded file hands back precisely the file's bytes; anything else is a
/// protocol error.
pub fn decode_file_payload(data: &str) -> (r: Result<Vec<u8>, SyncError>)
    ensures
        match r {
            Ok(v) => base64_of(v@) == data@ && (forall|w: Seq<u8>|
                base64_of(w) == data@ ==> w == v@),
            Err(e) => e == SyncError::BadPayload && (forall|v: Seq<u8>| base64_of(v) != data@),
        },
{
    match b64_decode(data) {
        Some(v) => Ok(v),
        None => Err(SyncError::BadPayload),
    }
}

/// Linearly increasing backoff: before retry `attempt` the caller sleeps
/// `attempt` seconds.
pub fn backoff_delay_secs(attempt: u64) -> (r: u64)
    ensures
        r == attempt,
{
    attempt
}

/// Whether another attempt is allowed under a bounded retry budget.
pub fn may_retry(attempt: u64, tries: u64) -> (r: bool)
    ensures
        r == (attempt < tries),
{
    attempt < tries
}

/// The worker's base URL: it is reached through a local tunnel on the
/// configured port.
pub fn remote_base_url(port: u16) -> (r: String)
    ensures
        r@ == "http://localhost:"@ + dec_chars(port as nat),
{
    let mut s = String::from_str("http://localhost:");
    let d = decimal_string(port as u64);
    s.append(d.as_str());
    s
}

} // verus!
