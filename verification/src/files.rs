//! Serving files: the directory matcher with its traversal guard, and the
//! staged file-response pipeline.
//!
//! The directory matcher consumes the whole remaining path, rejecting any
//! segment that starts with `..` before a single byte is joined onto the
//! base directory.  The pipeline turns the outcomes of opening a file and
//! reading its length into a response — 404, 500, or 200 with a
//! `content-length` header and a streamed body — and
//! [`FileStreamState::apply_read`] is the per-read step of the copy loop
//! that feeds that body under backpressure.

use vstd::prelude::*;
use crate::error::Failure;
use crate::path::parses_as_u32;
use crate::route::{first_seg, RouteCursor, SLASH};

verus! {

/// The byte `'.'`.
pub const DOT: u8 = 46;

/// Whether a segment of `s` starts at position `i`: the very start of `s`,
/// or just after a separator.  The position at the end of `s` counts, for
/// the empty segment after a trailing separator.
pub open spec fn seg_start(s: Seq<u8>, i: int) -> bool {
    0 <= i <= s.len() && (i == 0 || s[i - 1] == SLASH)
}

/// Whether the two bytes at `i` are `".."`.
pub open spec fn dotdot_at(s: Seq<u8>, i: int) -> bool {
    i + 1 < s.len() && s[i] == DOT && s[i + 1] == DOT
}

/// Whether any segment of `s` is equal to, or prefixed by, `".."`.  Both
/// dots of such a prefix are segment bytes — neither can be a separator —
/// so this holds exactly when some segment start is followed by two dots.
pub open spec fn has_traversal(s: Seq<u8>) -> bool {
    exists|i: int| seg_start(s, i) && dotdot_at(s, i)
}

/// The base directory joined with every segment of `rest` in order: each
/// segment — the empty ones from doubled or trailing separators included —
/// is appended verbatim after one separator.  Since the segments of `rest`
/// are themselves separated by single separators, the whole is the base,
/// one separator, and `rest` itself.
pub open spec fn joined(base: Seq<u8>, rest: Seq<u8>) -> Seq<u8> {
    base + seq![SLASH] + rest
}

/// An owned filesystem path naming the file a response will serve,
/// assembled once by [`dir`] or given whole to [`file`].
pub struct File {
    path: Vec<u8>,
}

impl File {
    /// The bytes of the path.
    pub closed spec fn path_spec(self) -> Seq<u8> {
        self.path@
    }

    /// The path to open, for the caller that performs the open.
    pub fn path(&self) -> (p: &Vec<u8>)
        ensures
            p@ == self.path_spec(),
    {
        &self.path
    }
}

/// A route that always serves the one file at `path`.
pub fn file(path: Vec<u8>) -> (f: File)
    ensures
        f.path_spec() == path@,
{
    File { path }
}

/// The directory matcher: validate every remaining segment against `..`
/// traversal, and only then join all of them onto `base`, consuming the
/// whole remaining path.  A single bad segment anywhere fails the match
/// with `BadRequest` before any path is assembled, and leaves the cursor
/// unchanged.
pub fn dir(cursor: &mut RouteCursor, base: &[u8]) -> (r: Result<File, Failure>)
    requires
        old(cursor).wf(),
    ensures
        final(cursor).wf(),
        final(cursor).full_path() == old(cursor).full_path(),
        r is Ok <==> !has_traversal(old(cursor).remaining()),
        r matches Ok(f) ==> f.path_spec() == joined(base@, old(cursor).remaining())
            && final(cursor).remaining().len() == 0,
        r is Err ==> final(cursor).offset() == old(cursor).offset() && r == Err::<File, Failure>(
            Failure::BadRequest,
        ),
{
    let rem = cursor.remaining_slice();
    let mut i: usize = 0;
    while i < rem.len()
        invariant
            cursor.wf(),
            cursor.full_path() == old(cursor).full_path(),
            cursor.offset() == old(cursor).offset(),
            rem@ == old(cursor).remaining(),
            0 <= i <= rem@.len(),
            forall|k: int| 0 <= k < i ==> !(seg_start(rem@, k) && dotdot_at(rem@, k)),
        decreases rem@.len() - i,
    {
        let at_start = i == 0 || rem[i - 1] == SLASH;
        if at_start && i + 1 < rem.len() && rem[i] == DOT && rem[i + 1] == DOT {
            proof {
                assert(seg_start(rem@, i as int) && dotdot_at(rem@, i as int));
            }
            return Err(Failure::BadRequest);
        }
        i = i + 1;
    }
    proof {
        assert(!has_traversal(rem@)) by {
            if has_traversal(rem@) {
                let w = choose|w: int| seg_start(rem@, w) && dotdot_at(rem@, w);
                assert(!(seg_start(rem@, w) && dotdot_at(rem@, w)));
            }
        }
    }
    let mut out: Vec<u8> = Vec::new();
    let mut bi: usize = 0;
    while bi < base.len()
        invariant
            cursor.wf(),
            cursor.full_path() == old(cursor).full_path(),
            cursor.offset() == old(cursor).offset(),
            rem@ == old(cursor).remaining(),
            0 <= bi <= base@.len(),
            out@ == base@.take(bi as int),
        decreases base@.len() - bi,
    {
        out.push(base[bi]);
        proof {
            assert(out@ =~= base@.take(bi + 1));
        }
        bi = bi + 1;
    }
    proof {
        assert(out@ =~= base@);
    }
    out.push(SLASH);
    let mut ri: usize = 0;
    while ri < rem.len()
        invariant
            cursor.wf(),
            cursor.full_path() == old(cursor).full_path(),
            cursor.offset() == old(cursor).offset(),
            rem@ == old(cursor).remaining(),
            0 <= ri <= rem@.len(),
            out@ == base@ + seq![SLASH] + rem@.take(ri as int),
        decreases rem@.len() - ri,
    {
        out.push(rem[ri]);
        proof {
            assert(out@ =~= base@ + seq![SLASH] + rem@.take(ri + 1));
        }
        ri = ri + 1;
    }
    proof {
        assert(out@ =~= joined(base@, rem@));
    }
    cursor.consume_all();
    Ok(File { path: out })
}

/// What a failed attempt to open the file meant.
#[derive(Clone, Copy, Debug, PartialEq, Eq, Structural)]
pub enum OpenError {
    /// The file does not exist: the response will be a 404.
    NotFound,
    /// Any other I/O failure: treated conservatively as a server error.
    Other,
}

/// What kind of body a response carries.
#[derive(Clone, Copy, Debug, PartialEq, Eq, Structural)]
pub enum Body {
    /// No bytes at all, as on every error response.
    Empty,
    /// A live byte stream fed by the copy loop.
    Stream,
}

/// The response handed to the transport layer: a status code, the
/// `content-length` header when one is set, and the kind of body.
#[derive(Clone, Copy, Debug)]
pub struct Response {
    pub status: u16,
    pub content_length: Option<u64>,
    pub body: Body,
}

/// First pipeline stage: turn the outcome of opening the file into either
/// a terminal error response — 404 when the file does not exist, 500 on
/// any other failure, both with empty bodies — or `None`, meaning the open
/// succeeded and the pipeline proceeds to the metadata stage.
pub fn file_reply(open_result: Result<(), OpenError>) -> (r: Option<Response>)
    ensures
        r is None <==> open_result is Ok,
        open_result == Err::<(), OpenError>(OpenError::NotFound) ==> (r matches Some(resp)
            && resp.status == 404 && resp.content_length is None && resp.body == Body::Empty),
        open_result == Err::<(), OpenError>(OpenError::Other) ==> (r matches Some(resp)
            && resp.status == 500 && resp.content_length is None && resp.body == Body::Empty),
{
    match open_result {
        Ok(()) => None,
        Err(OpenError::NotFound) => Some(
            Response { status: 404, content_length: None, body: Body::Empty },
        ),
        Err(OpenError::Other) => Some(
            Response { status: 500, content_length: None, body: Body::Empty },
        ),
    }
}

/// Second pipeline stage: turn the outcome of reading the file's length
/// into the response.  On success: status 200, a `content-length` equal to
/// the length, a streamed body, and the copy-loop state that will feed it.
/// On failure: a terminal 500 with an empty body and no stream.
pub fn file_metadata(meta: Result<u64, ()>) -> (r: (Response, Option<FileStreamState>))
    ensures
        meta matches Ok(len) ==> ({
            &&& r.0.status == 200
            &&& r.0.content_length == Some(len)
            &&& r.0.body == Body::Stream
            &&& r.1 matches Some(st)
            &&& st.wf()
            &&& st.total() == len
            &&& st.remaining_count() == len
            &&& st.sent() == Seq::<u8>::empty()
        }),
        meta is Err ==> r.0.status == 500 && r.0.content_length is None && r.0.body == Body::Empty
            && r.1 is None,
{
    match meta {
        Ok(len) => (
            Response { status: 200, content_length: Some(len), body: Body::Stream },
            Some(FileStreamState::new(len)),
        ),
        Err(()) => (Response { status: 500, content_length: None, body: Body::Empty }, None),
    }
}

/// State of the copy loop that feeds a streamed body: how many bytes may
/// still be sent before the declared `content-length` is reached, plus the
/// history of bytes already sent, kept in ghost form so the loop's driver
/// can account for every byte.
pub struct FileStreamState {
    remaining: u64,
    total: Ghost<u64>,
    sent: Ghost<Seq<u8>>,
}

impl FileStreamState {
    /// Bytes that may still be sent.
    pub closed spec fn remaining_count(self) -> u64 {
        self.remaining
    }

    /// The declared length this stream set out to send.
    pub closed spec fn total(self) -> u64 {
        self.total@
    }

    /// Every byte sent so far, in order.
    pub closed spec fn sent(self) -> Seq<u8> {
        self.sent@
    }

    /// What was sent and what may still be sent always account together
    /// for the declared length.
    pub open spec fn wf(self) -> bool {
        self.sent().len() + self.remaining_count() == self.total()
    }

    /// A fresh stream that owes exactly `len` bytes.
    pub fn new(len: u64) -> (st: Self)
        ensures
            st.wf(),
            st.total() == len,
            st.remaining_count() == len,
            st.sent() == Seq::<u8>::empty(),
    {
        FileStreamState { remaining: len, total: Ghost(len), sent: Ghost(Seq::empty()) }
    }

    /// Whether the loop still owes bytes; when it does not, the loop stops
    /// without another read.
    pub fn needs_more(&self) -> (b: bool)
        ensures
            b == (self.remaining_count() > 0),
    {
        self.remaining > 0
    }

    /// One step of the copy loop, applied to the bytes one disk read
    /// produced.  An empty read — end of file before the declared length
    /// was exhausted — stops the stream early, sending nothing.  A read
    /// longer than what is owed is truncated to exactly the owed bytes;
    /// otherwise the whole chunk is sent and the debt shrinks by its
    /// length.  The returned chunk, when there is one, is what the loop
    /// must hand to the outbound channel.
    pub fn apply_read(&mut self, chunk: Vec<u8>) -> (out: Option<Vec<u8>>)
        requires
            old(self).wf(),
        ensures
            final(self).wf(),
            final(self).total() == old(self).total(),
            chunk@.len() == 0 ==> out is None
                && final(self).remaining_count() == old(self).remaining_count()
                && final(self).sent() == old(self).sent(),
            chunk@.len() > 0 && chunk@.len() > old(self).remaining_count() ==> (out matches Some(c)
                && c@ == chunk@.take(old(self).remaining_count() as int)
                && final(self).remaining_count() == 0
                && final(self).sent() == old(self).sent() + chunk@.take(
                old(self).remaining_count() as int,
            )),
            chunk@.len() > 0 && chunk@.len() <= old(self).remaining_count() ==> (out matches Some(c)
                && c@ == chunk@ && final(self).remaining_count() == old(self).remaining_count()
                - chunk@.len() && final(self).sent() == old(self).sent() + chunk@),
    {
        let n = chunk.len();
        if n == 0 {
            return None;
        }
        let mut chunk = chunk;
        if (n as u64) > self.remaining {
            let keep = self.remaining as usize;
            chunk.truncate(keep);
            proof {
                self.sent@ = self.sent@ + chunk@;
            }
            self.remaining = 0;
            Some(chunk)
        } else {
            self.remaining = self.remaining - (n as u64);
            proof {
                self.sent@ = self.sent@ + chunk@;
            }
            Some(chunk)
        }
    }
}

/// When a stream's declared length is the file's length, every byte it
/// sent came from the file in order, and its debt has reached zero, the
/// bytes sent are, all together, exactly the file's bytes.
pub proof fn lemma_stream_round_trip(st: FileStreamState, file: Seq<u8>)
    requires
        st.wf(),
        st.remaining_count() == 0,
        st.total() == file.len(),
        st.sent() == file.take(st.sent().len() as int),
    ensures
        st.sent() == file,
{
    assert(file.take(file.len() as int) =~= file);
}

/// A failed match leaves the cursor exactly as it was — each matcher's
/// contract says so — and each matcher's outcome depends on the unmatched
/// suffix alone: retrying any failed match on the unchanged cursor fails
/// the same way, with the same failure.
pub proof fn lemma_retry_identical(a: RouteCursor, b: RouteCursor, pattern: Seq<u8>)
    requires
        a.remaining() == b.remaining(),
    ensures
        (first_seg(a.remaining()) == pattern) == (first_seg(b.remaining()) == pattern),
        parses_as_u32(first_seg(a.remaining())) == parses_as_u32(first_seg(b.remaining())),
        (a.remaining().len() == 0) == (b.remaining().len() == 0),
        has_traversal(a.remaining()) == has_traversal(b.remaining()),
{
}

} // verus!
