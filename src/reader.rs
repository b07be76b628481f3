//! The delimiter-scanning reader.
//!
//! `SafeBuf` holds the current window of input, a cursor into it and the tail
//! accumulator. It never touches a socket or a file itself: each call of
//! `read_step` makes one decision and tells the caller which outside action
//! comes next (hand in the next chunk, write bytes to the spill target) or how
//! the read ended. The caller repeats `read_step` until it returns `Done` or
//! `Failed`; those calls together are one `read_until`.
use vstd::prelude::*;

use crate::response::{decimal, decimal_of};
use crate::server::ServerLimits;
use crate::text::{chars_of, concat, string_of};

verus! {

/// Why a read failed.
#[derive(Debug, Clone, Copy, PartialEq, Eq, Structural)]
pub enum ReadError {
    /// The delimiter is longer than the window that was read.
    DelimiterTooLong,
    /// More bytes than the in-memory limit piled up without a delimiter.
    MemoryLimit(usize),
    /// The spill target received more bytes than the file-size limit.
    FileSizeLimit(usize),
}

/// The sentence that names each read failure.
pub open spec fn read_message(e: ReadError) -> Seq<char> {
    match e {
        ReadError::DelimiterTooLong => "delimiter is longer than the window"@,
        ReadError::MemoryLimit(n) => "BUF_STRING_LIMIT("@ + decimal(n as nat) + ") was reached"@,
        ReadError::FileSizeLimit(n) => "FILE_SIZE_LIMIT("@ + decimal(n as nat) + ") was reached"@,
    }
}

impl ReadError {
    /// A sentence that names the failure and the limit.
    pub fn message(&self) -> (r: String)
        ensures
            r@ == read_message(*self),
    {
        let r = match self {
            ReadError::DelimiterTooLong => {
                return "delimiter is longer than the window".to_owned();
            },
            ReadError::MemoryLimit(n) => concat(
                &concat(&chars_of("BUF_STRING_LIMIT("), &decimal_of(*n)),
                &chars_of(") was reached"),
            ),
            ReadError::FileSizeLimit(n) => concat(
                &concat(&chars_of("FILE_SIZE_LIMIT("), &decimal_of(*n)),
                &chars_of(") was reached"),
            ),
        };
        string_of(&r)
    }
}

/// How a completed read delivered its bytes.
#[derive(Debug)]
pub enum ReadOutcome {
    /// The bytes before the delimiter, held in memory.
    InMemory(Vec<u8>),
    /// The bytes before the delimiter went to the spill target.
    Spilled,
}

/// What the caller of `read_step` does next.
#[derive(Debug)]
pub enum ReadStep {
    /// The window is used up: read the next chunk of the stream and pass it to
    /// `fill` (an empty chunk means the stream has ended).
    NeedChunk,
    /// Write `data` to the file at `path`; `append` is false for the first
    /// write of a read, which creates or truncates the file.
    Write { path: String, data: Vec<u8>, append: bool },
    /// The read is complete.
    Done(ReadOutcome),
    /// The read failed.
    Failed(ReadError),
}

/// What remains to be reported after a write that ended a read.
#[derive(Debug, Clone, Copy, PartialEq, Eq, Structural)]
pub enum Pending {
    Nothing,
    Finished,
    Fail(ReadError),
}

/// True when `d` occurs in `s` at position `i`.
pub open spec fn occurs_at(s: Seq<u8>, i: int, d: Seq<u8>) -> bool {
    0 <= i && i + d.len() <= s.len() && s.subrange(i, i + d.len()) == d
}

/// True when `d` occurs somewhere in `s`.
pub open spec fn occurs_in(s: Seq<u8>, d: Seq<u8>) -> bool {
    exists|i: int| occurs_at(s, i, d)
}

/// Sum that stops at the largest `usize`.
pub open spec fn sat_add(a: nat, b: nat) -> nat {
    if a + b > usize::MAX {
        usize::MAX as nat
    } else {
        a + b
    }
}

/// How a read ends once its last bytes `bytes` are known: returned from
/// memory, or written to the spill target and reported on the next step.
pub open spec fn finished(s: SafeBuf, bytes: Seq<u8>, found: bool, t: SafeBuf, r: ReadStep) -> bool {
    &&& t.target().is_none()
    &&& t.found() == found
    &&& match s.target() {
        None => {
            &&& r matches ReadStep::Done(ReadOutcome::InMemory(v))
            &&& v@ == bytes
            &&& t.idle()
        },
        Some(p) => {
            &&& r matches ReadStep::Write { path, data, append }
            &&& path@ == p
            &&& data@ == bytes
            &&& append == (s.spill_count() > 0)
            &&& t.spilled() == s.spilled() + bytes
            &&& t.taken() == t.spilled()
            &&& t.pending() == Pending::Finished
        },
    }
}

/// The effect of `fill`: the chunk becomes the window, nothing else moves.
pub open spec fn fill_spec(s: SafeBuf, chunk: Seq<u8>, t: SafeBuf) -> bool {
    &&& t.wf()
    &&& t.rest() == chunk
    &&& t.window_len() == chunk.len()
    &&& t.taken() == s.taken()
    &&& t.spilled() == s.spilled()
    &&& t.tail() == s.tail()
    &&& t.delim() == s.delim()
    &&& t.target() == s.target()
    &&& t.spill_count() == s.spill_count()
    &&& t.limits() == s.limits()
    &&& t.pending() == s.pending()
    &&& t.at_end() == (chunk.len() == 0)
}

/// The windows `ws`, one after the other.
pub open spec fn joined(ws: Seq<Seq<u8>>) -> Seq<u8>
    decreases ws.len(),
{
    if ws.len() == 0 {
        seq![]
    } else {
        joined(ws.drop_last()) + ws.last()
    }
}

/// The whole effect of one `read_step`, from state `s` to state `t` with
/// result `r`.
pub open spec fn read_step_spec(s: SafeBuf, d: Seq<u8>, t: SafeBuf, r: ReadStep) -> bool {
    t.wf() && t.limits() == s.limits() && t.delim() == d && read_step_cases(s, d, t, r)
}

/// The cases of `read_step_spec`.
pub open spec fn read_step_cases(s: SafeBuf, d: Seq<u8>, t: SafeBuf, r: ReadStep) -> bool {
    let w = s.rest();
    match s.pending() {
        Pending::Finished => {
            &&& r matches ReadStep::Done(ReadOutcome::Spilled)
            &&& t.idle()
            &&& t.target().is_none()
            &&& t.rest() == w
            &&& t.found() == s.found()
        },
        Pending::Fail(e) => {
            &&& r matches ReadStep::Failed(e2)
            &&& e2 == e
            &&& t.idle()
            &&& t.target().is_none()
        },
        Pending::Nothing => if w.len() == 0 {
            if !s.at_end() {
                &&& r matches ReadStep::NeedChunk
                &&& t.rest().len() == 0
                &&& t.taken() == s.taken()
                &&& t.spilled() == s.spilled()
                &&& t.tail() == s.tail()
                &&& t.target() == s.target()
                &&& t.spill_count() == s.spill_count()
                &&& t.pending() == Pending::Nothing
            } else {
                &&& finished(s, s.tail(), false, t, r)
                &&& t.rest().len() == 0
            }
        } else if d.len() > s.window_len() {
            &&& r matches ReadStep::Failed(ReadError::DelimiterTooLong)
            &&& t.idle()
            &&& t.target().is_none()
        } else if occurs_in(s.tail() + w, d) {
            match_step(s, d, t, r)
        } else {
            no_match_step(s, d, t, r)
        },
    }
}

/// A step that meets the delimiter: the read ends at its first occurrence in
/// the held tail followed by the rest of the window.
pub open spec fn match_step(s: SafeBuf, d: Seq<u8>, t: SafeBuf, r: ReadStep) -> bool {
    let c = s.tail() + s.rest();
    let g = c.len() - t.rest().len() - d.len();
    &&& s.tail().len() < g + d.len()
    &&& occurs_at(c, g, d)
    &&& forall|j: int| 0 <= j < g ==> !occurs_at(c, j, d)
    &&& t.rest() == c.subrange(g + d.len(), c.len() as int)
    &&& finished(s, c.subrange(0, g), true, t, r)
}

/// A step that does not meet the delimiter: the rest of the window joins the
/// tail, which is then held to the limits.
pub open spec fn no_match_step(s: SafeBuf, d: Seq<u8>, t: SafeBuf, r: ReadStep) -> bool {
    let w = s.rest();
    let tail = s.tail() + w;
    let lim = s.limits();
    &&& t.rest().len() == 0
    &&& match s.target() {
        Some(p) => if lim.file_buf_size_limit > 0 && tail.len() > lim.file_buf_size_limit {
            let cut = tail.len() - kept(tail.len(), d.len());
            let data_s = tail.subrange(0, cut);
            let count = sat_add(s.spill_count(), data_s.len());
            &&& r matches ReadStep::Write { path, data, append }
            &&& path@ == p
            &&& data@ == data_s
            &&& append == (s.spill_count() > 0)
            &&& t.spilled() == s.spilled() + data_s
            &&& t.pending() == Pending::Nothing ==> {
                &&& t.taken() == s.taken() + w
                &&& t.tail() == tail.subrange(cut, tail.len() as int)
            }
            &&& t.target() == s.target()
            &&& t.spill_count() == count
            &&& t.pending() == (if lim.file_size_limit > 0 && count > lim.file_size_limit {
                Pending::Fail(ReadError::FileSizeLimit(lim.file_size_limit))
            } else {
                Pending::Nothing
            })
        } else {
            &&& t.taken() == s.taken() + w
            &&& r matches ReadStep::NeedChunk
            &&& t.tail() == tail
            &&& t.spilled() == s.spilled()
            &&& t.target() == s.target()
            &&& t.spill_count() == s.spill_count()
            &&& t.pending() == Pending::Nothing
        },
        None => if lim.buf_string_limit > 0 && tail.len() > lim.buf_string_limit {
            &&& r matches ReadStep::Failed(ReadError::MemoryLimit(m))
            &&& m == lim.buf_string_limit
            &&& t.idle()
            &&& t.target().is_none()
        } else {
            &&& t.taken() == s.taken() + w
            &&& r matches ReadStep::NeedChunk
            &&& t.tail() == tail
            &&& t.spilled() == s.spilled()
            &&& t.target().is_none()
            &&& t.pending() == Pending::Nothing
        },
    }
}

/// How many bytes of a tail of `len` bytes stay in memory when it is flushed:
/// the last `dlen - 1`, which a delimiter split across two reads may begin in.
pub open spec fn kept(len: nat, dlen: nat) -> nat {
    if len + 1 < dlen {
        len
    } else {
        (dlen - 1) as nat
    }
}

/// An occurrence that ends inside the first part lies in the first part.
proof fn lemma_occurs_in_front(a: Seq<u8>, b: Seq<u8>, j: int, d: Seq<u8>)
    requires
        occurs_at(a + b, j, d),
        j + d.len() <= a.len(),
    ensures
        occurs_at(a, j, d),
{
    assert((a + b).subrange(j, j + d.len()) =~= a.subrange(j, j + d.len()));
}

/// Occurrences in the second part, shifted by the length of the first.
proof fn lemma_occurs_behind(a: Seq<u8>, b: Seq<u8>, j: int, d: Seq<u8>)
    requires
        0 <= j,
    ensures
        occurs_at(a + b, a.len() + j, d) == occurs_at(b, j, d),
{
    if j + d.len() <= b.len() {
        assert((a + b).subrange(a.len() + j, a.len() + j + d.len()) =~= b.subrange(j, j + d.len()));
    }
}

/// A piece of a sequence without occurrences has none either.
proof fn lemma_no_occurrence_in_piece(c: Seq<u8>, x: int, y: int, d: Seq<u8>)
    requires
        0 <= x <= y <= c.len(),
        !occurs_in(c, d),
    ensures
        !occurs_in(c.subrange(x, y), d),
{
    assert forall|j: int| !occurs_at(c.subrange(x, y), j, d) by {
        if occurs_at(c.subrange(x, y), j, d) {
            assert(c.subrange(x, y).subrange(j, j + d.len()) =~= c.subrange(x + j, x + j + d.len()));
            assert(occurs_at(c, x + j, d));
        }
    }
}

pub struct SafeBuf {
    buf: Vec<u8>,
    index: usize,
    buf_tail: Vec<u8>,
    file_path: Option<String>,
    file_size: usize,
    end_seen: bool,
    found: bool,
    pending: Pending,
    limits: ServerLimits,
    /// Bytes of the stream that the current read has moved past.
    taken: Ghost<Seq<u8>>,
    /// Bytes that the current read has handed out for writing.
    spilled: Ghost<Seq<u8>>,
    /// The delimiter of the current read.
    delim: Ghost<Seq<u8>>,
}

impl SafeBuf {
    /// The unscanned rest of the window.
    pub closed spec fn rest(&self) -> Seq<u8> {
        self.buf@.subrange(self.index as int, self.buf@.len() as int)
    }

    /// Bytes that the current read has moved past: delivered to the spill
    /// target or held in the tail.
    pub closed spec fn taken(&self) -> Seq<u8> {
        self.taken@
    }

    /// Bytes that the current read has handed out for writing to the spill target.
    pub closed spec fn spilled(&self) -> Seq<u8> {
        self.spilled@
    }

    /// Bytes held in memory by the current read.
    pub closed spec fn tail(&self) -> Seq<u8> {
        self.buf_tail@
    }

    pub closed spec fn target(&self) -> Option<Seq<char>> {
        match self.file_path {
            Some(p) => Some(p@),
            None => None,
        }
    }

    pub closed spec fn limits(&self) -> ServerLimits {
        self.limits
    }

    /// The last completed read ended at its delimiter rather than at the end
    /// of the stream.
    pub closed spec fn found(&self) -> bool {
        self.found
    }

    /// Whether the last completed read ended at its delimiter.
    pub fn delimiter_found(&self) -> (r: bool)
        ensures
            r == self.found(),
    {
        self.found
    }

    /// The last chunk handed in was empty: the stream has ended.
    pub closed spec fn at_end(&self) -> bool {
        self.end_seen
    }

    /// Length of the whole current window, scanned part included.
    pub closed spec fn window_len(&self) -> nat {
        self.buf@.len()
    }

    /// Bytes written to the spill target so far by the current read, as counted
    /// for the file-size limit.
    pub closed spec fn spill_count(&self) -> nat {
        self.file_size as nat
    }

    /// The delimiter that the current read looks for.
    pub closed spec fn delim(&self) -> Seq<u8> {
        self.delim@
    }

    pub closed spec fn pending(&self) -> Pending {
        self.pending
    }

    /// No read is under way: nothing is held back and nothing is owed.
    pub open spec fn idle(&self) -> bool {
        &&& self.taken().len() == 0
        &&& self.tail().len() == 0
        &&& self.pending() == Pending::Nothing
    }

    pub closed spec fn wf(&self) -> bool {
        &&& self.wf_core()
        &&& (self.buf_tail@.len() > 0 ==> !occurs_in(self.buf_tail@, self.delim@))
        &&& (self.spilled@.len() > 0 && self.pending == Pending::Nothing ==> self.buf_tail@.len() + 1
            >= self.delim@.len())
        &&& (self.file_path.is_none() && self.limits.buf_string_limit > 0
            ==> self.buf_tail@.len() <= self.limits.buf_string_limit)
    }

    /// Everything of `wf` but the memory bound, which a completed read may
    /// pass for its last window.
    closed spec fn wf_core(&self) -> bool {
        &&& self.index <= self.buf@.len()
        &&& self.taken@ == self.spilled@ + self.buf_tail@
        &&& (self.file_path.is_none() && self.pending != Pending::Finished ==> self.spilled@.len()
            == 0)
        &&& (self.pending != Pending::Nothing ==> self.buf_tail@.len() == 0)
        &&& (self.pending == Pending::Finished ==> self.file_path.is_none())
        &&& (self.file_path.is_none() ==> self.file_size == 0)
    }

    /// Between steps a reader without a spill target holds no more than the
    /// in-memory limit, where that limit is set.
    pub proof fn lemma_wf_bounds(&self)
        requires
            self.wf(),
        ensures
            self.target().is_none() && self.limits().buf_string_limit > 0 ==> self.tail().len()
                <= self.limits().buf_string_limit,
            self.taken() == self.spilled() + self.tail(),
            self.target().is_none() && self.pending() != Pending::Finished ==> self.spilled().len()
                == 0,
            self.tail().len() > 0 ==> !occurs_in(self.tail(), self.delim()),
            self.spilled().len() > 0 && self.pending() == Pending::Nothing ==> self.tail().len() + 1
                >= self.delim().len(),
    {
    }

    /// A reader with an empty window, no spill target and the given limits.
    pub fn new(limits: ServerLimits) -> (r: SafeBuf)
        ensures
            r.wf(),
            r.idle(),
            r.rest().len() == 0,
            r.target().is_none(),
            r.limits() == limits,
            r.spill_count() == 0,
            !r.at_end(),
    {
        SafeBuf {
            buf: Vec::new(),
            index: 0,
            buf_tail: Vec::new(),
            file_path: None,
            file_size: 0,
            end_seen: false,
            found: false,
            pending: Pending::Nothing,
            limits,
            taken: Ghost(Seq::empty()),
            spilled: Ghost(Seq::empty()),
            delim: Ghost(Seq::empty()),
        }
    }

    /// Hands the next chunk of the stream to the reader; an empty chunk marks
    /// the end of the stream.
    pub fn fill(&mut self, chunk: Vec<u8>)
        requires
            old(self).wf(),
            old(self).rest().len() == 0,
            old(self).pending() == Pending::Nothing,
        ensures
            fill_spec(*old(self), chunk@, *final(self)),
    {
        self.end_seen = chunk.len() == 0;
        self.buf = chunk;
        self.index = 0;
        proof {
            assert(self.buf@.subrange(0, self.buf@.len() as int) == self.buf@);
        }
    }

    /// Sends what the following reads deliver to the file at `path`, until a
    /// read completes; the count of bytes written starts again at zero.
    pub fn set_file_path(&mut self, path: &str)
        requires
            old(self).wf(),
            old(self).idle(),
        ensures
            final(self).wf(),
            final(self).idle(),
            final(self).target() == Some(path@),
            final(self).spill_count() == 0,
            final(self).rest() == old(self).rest(),
            final(self).at_end() == old(self).at_end(),
            final(self).limits() == old(self).limits(),
    {
        self.file_size = 0;
        self.file_path = Some(path.to_owned());
    }

    /// Keeps what the following reads deliver in memory.
    pub fn clear_file_name(&mut self)
        requires
            old(self).wf(),
            old(self).idle(),
        ensures
            final(self).wf(),
            final(self).idle(),
            final(self).target().is_none(),
            final(self).spill_count() == 0,
            final(self).rest() == old(self).rest(),
            final(self).at_end() == old(self).at_end(),
            final(self).limits() == old(self).limits(),
    {
        self.file_size = 0;
        self.file_path = None;
        self.spilled = Ghost(Seq::empty());
        self.taken = Ghost(Seq::empty());
    }

    /// Appends the window's bytes `lo..hi` to the tail.
    fn take_range(&mut self, lo: usize, hi: usize)
        requires
            lo <= hi <= old(self).buf@.len(),
        ensures
            final(self).buf_tail@ == old(self).buf_tail@ + old(self).buf@.subrange(lo as int, hi as int),
            final(self).buf == old(self).buf,
            final(self).index == old(self).index,
            final(self).file_path == old(self).file_path,
            final(self).file_size == old(self).file_size,
            final(self).end_seen == old(self).end_seen,
            final(self).pending == old(self).pending,
            final(self).limits == old(self).limits,
            final(self).taken == old(self).taken,
            final(self).spilled == old(self).spilled,
            final(self).delim == old(self).delim,
    {
        let mut k: usize = lo;
        while k < hi
            invariant
                lo <= k <= hi <= self.buf@.len(),
                self.buf_tail@ == old(self).buf_tail@ + old(self).buf@.subrange(lo as int, k as int),
                self.buf == old(self).buf,
                self.index == old(self).index,
                self.file_path == old(self).file_path,
                self.file_size == old(self).file_size,
                self.end_seen == old(self).end_seen,
                self.pending == old(self).pending,
                self.limits == old(self).limits,
                self.taken == old(self).taken,
                self.spilled == old(self).spilled,
                self.delim == old(self).delim,
            decreases hi - k,
        {
            let b = self.buf[k];
            self.buf_tail.push(b);
            k = k + 1;
            proof {
                assert(old(self).buf@.subrange(lo as int, k as int) == old(self).buf@.subrange(
                    lo as int,
                    k - 1,
                ).push(b));
            }
        }
    }

    /// True when `delimiter` stands in the window at position `i`.
    fn matches_at(&self, i: usize, delimiter: &[u8]) -> (r: bool)
        requires
            i + delimiter@.len() <= self.buf@.len(),
        ensures
            r == (self.buf@.subrange(i as int, i + delimiter@.len()) == delimiter@),
    {
        let n = self.buf.len();
        let mut k: usize = 0;
        while k < delimiter.len()
            invariant
                n == self.buf@.len(),
                i + delimiter@.len() <= self.buf@.len(),
                k <= delimiter@.len(),
                forall|j: int| 0 <= j < k ==> self.buf@[i + j] == delimiter@[j],
            decreases delimiter@.len() - k,
        {
            if self.buf[i + k] != delimiter[k] {
                proof {
                    assert(self.buf@.subrange(i as int, i + delimiter@.len())[k as int]
                        != delimiter@[k as int]);
                }
                return false;
            }
            k = k + 1;
        }
        proof {
            assert(self.buf@.subrange(i as int, i + delimiter@.len()) == delimiter@);
        }
        true
    }

    /// Ends the current read, after the tail has received its last bytes.
    fn finish(&mut self, found: bool) -> (r: ReadStep)
        requires
            old(self).wf_core(),
            old(self).pending == Pending::Nothing,
        ensures
            final(self).delim() == old(self).delim(),
            final(self).found() == found,
            final(self).wf(),
            final(self).rest() == old(self).rest(),
            final(self).limits() == old(self).limits(),
            final(self).target().is_none(),
            old(self).target().is_none() ==> {
                &&& r matches ReadStep::Done(ReadOutcome::InMemory(v))
                &&& v@ == old(self).tail()
                &&& final(self).idle()
            },
            old(self).target() matches Some(p) ==> {
                &&& r matches ReadStep::Write { path, data, append }
                &&& path@ == p
                &&& data@ == old(self).tail()
                &&& append == (old(self).file_size > 0)
                &&& final(self).spilled() == old(self).spilled() + old(self).tail()
                &&& final(self).taken() == final(self).spilled()
                &&& final(self).pending() == Pending::Finished
            },
    {
        self.found = found;
        let mut data: Vec<u8> = Vec::new();
        std::mem::swap(&mut data, &mut self.buf_tail);
        let mut target: Option<String> = None;
        std::mem::swap(&mut target, &mut self.file_path);
        match target {
            Some(path) => {
                let append = self.file_size > 0;
                self.file_size = 0;
                self.pending = Pending::Finished;
                self.spilled = Ghost(self.spilled@ + data@);
                self.taken = Ghost(self.spilled@);
                ReadStep::Write { path, data, append }
            },
            None => {
                self.taken = Ghost(Seq::empty());
                ReadStep::Done(ReadOutcome::InMemory(data))
            },
        }
    }

    /// True when `delimiter` stands at position `i` of the tail followed by
    /// the rest of the window, starting inside the tail.
    fn straddle_at(&self, i: usize, delimiter: &[u8]) -> (r: bool)
        requires
            self.index <= self.buf@.len(),
            i < self.buf_tail@.len(),
            self.buf_tail@.len() - i < delimiter@.len(),
        ensures
            r == occurs_at(self.buf_tail@ + self.rest(), i as int, delimiter@),
    {
        let ghost c = self.buf_tail@ + self.rest();
        let tl = self.buf_tail.len();
        let n = self.buf.len();
        let dlen = delimiter.len();
        let inside = tl - i;
        proof {
            assert(c.len() == tl + n - self.index);
        }
        if dlen - inside > n - self.index {
            return false;
        }
        let mut k: usize = 0;
        while k < dlen
            invariant
                tl == self.buf_tail@.len(),
                n == self.buf@.len(),
                self.index <= n,
                i < tl,
                inside == tl - i,
                dlen == delimiter@.len(),
                inside <= dlen,
                dlen - inside <= n - self.index,
                c == self.buf_tail@ + self.rest(),
                k <= dlen,
                forall|j: int| 0 <= j < k ==> c[i + j] == delimiter@[j],
            decreases dlen - k,
        {
            let b = if k < inside {
                self.buf_tail[i + k]
            } else {
                self.buf[self.index + (k - inside)]
            };
            proof {
                assert(b == c[i + k]);
            }
            if b != delimiter[k] {
                proof {
                    if occurs_at(c, i as int, delimiter@) {
                        assert(c.subrange(i as int, i + dlen)[k as int] == c[i + k]);
                    }
                }
                return false;
            }
            k = k + 1;
        }
        proof {
            assert(c.subrange(i as int, i + dlen) =~= delimiter@);
        }
        true
    }

    /// The first position of `delimiter` in the tail followed by the rest of
    /// the window. The tail holds no whole occurrence, so only its last
    /// `delimiter.len() - 1` bytes are looked at again.
    fn find_first(&self, delimiter: &[u8]) -> (r: Option<(bool, usize)>)
        requires
            self.index < self.buf@.len(),
            0 < delimiter@.len() <= self.buf@.len(),
            self.buf_tail@.len() > 0 ==> !occurs_in(self.buf_tail@, delimiter@),
        ensures
            ({
                let c = self.buf_tail@ + self.rest();
                &&& r matches Some((in_tail, p)) ==> {
                    let g = if in_tail {
                        p as int
                    } else {
                        self.buf_tail@.len() + p - self.index
                    };
                    &&& in_tail ==> p < self.buf_tail@.len()
                    &&& !in_tail ==> self.index <= p && p + delimiter@.len() <= self.buf@.len()
                    &&& occurs_at(c, g, delimiter@)
                    &&& forall|j: int| 0 <= j < g ==> !occurs_at(c, j, delimiter@)
                    &&& self.buf_tail@.len() < g + delimiter@.len()
                }
                &&& r is None ==> !occurs_in(c, delimiter@)
            }),
    {
        let ghost c = self.buf_tail@ + self.rest();
        let n = self.buf.len();
        let tl = self.buf_tail.len();
        let dlen = delimiter.len();
        let mut p: usize = if tl >= dlen - 1 { tl - (dlen - 1) } else { 0 };
        proof {
            assert(c.len() == tl + n - self.index);
            assert forall|j: int| 0 <= j < p implies !occurs_at(c, j, delimiter@) by {
                if occurs_at(c, j, delimiter@) {
                    lemma_occurs_in_front(self.buf_tail@, self.rest(), j, delimiter@);
                }
            }
        }
        while p < tl
            invariant
                c == self.buf_tail@ + self.rest(),
                tl == self.buf_tail@.len(),
                n == self.buf@.len(),
                self.index < n,
                c.len() == tl + n - self.index,
                dlen == delimiter@.len(),
                0 < dlen <= n,
                p <= tl,
                tl - p < dlen,
                forall|j: int| 0 <= j < p ==> !occurs_at(c, j, delimiter@),
            decreases tl - p,
        {
            if self.straddle_at(p, delimiter) {
                return Some((true, p));
            }
            p = p + 1;
        }
        let last = n - dlen;
        let mut i: usize = self.index;
        while i <= last
            invariant
                c == self.buf_tail@ + self.rest(),
                tl == self.buf_tail@.len(),
                self.index <= i,
                last + dlen == n,
                n == self.buf@.len(),
                c.len() == tl + n - self.index,
                dlen == delimiter@.len(),
                dlen > 0,
                forall|j: int| 0 <= j < tl + i - self.index ==> !occurs_at(c, j, delimiter@),
            decreases last + 1 - i,
        {
            proof {
                lemma_occurs_behind(self.buf_tail@, self.rest(), i - self.index, delimiter@);
                if i + dlen <= n {
                    assert(self.rest().subrange(i - self.index, i - self.index + dlen) =~= self.buf@.subrange(
                        i as int,
                        i + dlen,
                    ));
                }
            }
            if self.matches_at(i, delimiter) {
                return Some((false, i));
            }
            i = i + 1;
        }
        proof {
            assert forall|j: int| !occurs_at(c, j, delimiter@) by {
                if occurs_at(c, j, delimiter@) {
                    assert(j + dlen <= c.len());
                }
            }
        }
        None
    }

    /// One step of `read_until(delimiter)`: reports what is owed from an
    /// earlier write, asks for a chunk when the window is used up, else scans
    /// the held tail's last bytes and the rest of the window for the
    /// delimiter, so that a delimiter split across two reads is found.
    pub fn read_step(&mut self, delimiter: &[u8]) -> (r: ReadStep)
        requires
            old(self).wf(),
            delimiter@.len() > 0,
            old(self).taken().len() > 0 ==> old(self).delim() == delimiter@,
        ensures
            final(self).wf(),
            final(self).limits() == old(self).limits(),
            read_step_spec(*old(self), delimiter@, *final(self), r),
    {
        self.delim = Ghost(delimiter@);
        match self.pending {
            Pending::Finished => {
                self.pending = Pending::Nothing;
                self.taken = Ghost(Seq::empty());
                self.spilled = Ghost(Seq::empty());
                return ReadStep::Done(ReadOutcome::Spilled);
            },
            Pending::Fail(e) => {
                self.reset();
                return ReadStep::Failed(e);
            },
            Pending::Nothing => {},
        }
        if self.index == self.buf.len() {
            if !self.end_seen {
                // the unscanned part of the window is empty: refill it
                self.buf = Vec::new();
                self.index = 0;
                return ReadStep::NeedChunk;
            }
            self.end_seen = false;
            return self.finish(false);
        }
        let dlen = delimiter.len();
        if dlen > self.buf.len() {
            self.reset();
            return ReadStep::Failed(ReadError::DelimiterTooLong);
        }
        match self.find_first(delimiter) {
            Some((in_tail, p)) => self.take_through(in_tail, p, delimiter),
            None => self.take_window(delimiter),
        }
    }

    /// Ends the read at the occurrence found at `p` of the tail (`in_tail`)
    /// or of the window.
    fn take_through(&mut self, in_tail: bool, p: usize, delimiter: &[u8]) -> (r: ReadStep)
        requires
            old(self).wf(),
            old(self).pending == Pending::Nothing,
            old(self).delim@ == delimiter@,
            old(self).index < old(self).buf@.len(),
            0 < delimiter@.len() <= old(self).buf@.len(),
            ({
                let c = old(self).buf_tail@ + old(self).rest();
                let g = if in_tail {
                    p as int
                } else {
                    old(self).buf_tail@.len() + p - old(self).index
                };
                &&& in_tail ==> p < old(self).buf_tail@.len()
                &&& !in_tail ==> old(self).index <= p && p + delimiter@.len() <= old(self).buf@.len()
                &&& occurs_at(c, g, delimiter@)
                &&& forall|j: int| 0 <= j < g ==> !occurs_at(c, j, delimiter@)
                &&& old(self).buf_tail@.len() < g + delimiter@.len()
            }),
        ensures
            final(self).wf(),
            final(self).limits() == old(self).limits(),
            final(self).delim() == old(self).delim(),
            match_step(*old(self), delimiter@, *final(self), r),
    {
        let ghost c = self.buf_tail@ + self.rest();
        let tl = self.buf_tail.len();
        let n = self.buf.len();
        let dlen = delimiter.len();
        proof {
            assert(c.len() == tl + n - self.index);
        }
        let ghost g = if in_tail {
            p as int
        } else {
            tl + p - self.index
        };
        if in_tail {
            let _dropped = self.buf_tail.split_off(p);
            self.index = self.index + (dlen - (tl - p));
        } else {
            let start = self.index;
            self.take_range(start, p);
            self.index = p + dlen;
        }
        self.taken = Ghost(self.spilled@ + self.buf_tail@);
        proof {
            assert(self.buf_tail@ =~= c.subrange(0, g));
            assert(self.rest() =~= c.subrange(g + dlen, c.len() as int));
        }
        self.finish(true)
    }

    /// Moves the rest of the window, which holds no delimiter, to the tail and
    /// holds the tail to the limits.
    fn take_window(&mut self, delimiter: &[u8]) -> (r: ReadStep)
        requires
            old(self).wf(),
            old(self).pending == Pending::Nothing,
            old(self).delim@ == delimiter@,
            old(self).index < old(self).buf@.len(),
            0 < delimiter@.len() <= old(self).buf@.len(),
            !occurs_in(old(self).buf_tail@ + old(self).rest(), delimiter@),
        ensures
            final(self).wf(),
            final(self).limits() == old(self).limits(),
            final(self).delim() == old(self).delim(),
            no_match_step(*old(self), delimiter@, *final(self), r),
    {
        let ghost c = self.buf_tail@ + self.rest();
        let dlen = delimiter.len();
        // no delimiter: move the rest of the window to the tail
        let ghost r0 = self.rest();
        let len = self.buf.len();
        self.take_range(self.index, len);
        self.taken = Ghost(self.taken@ + r0);
        proof {
            assert(self.taken@ =~= self.spilled@ + self.buf_tail@);
            assert(self.buf_tail@ =~= c);
        }
        self.buf = Vec::new();
        self.index = 0;
        match &self.file_path {
            Some(path) => {
                let chunk_limit = self.limits.file_buf_size_limit;
                if chunk_limit > 0 && self.buf_tail.len() > chunk_limit {
                    let path = path.clone();
                    let append = self.file_size > 0;
                    let total = self.buf_tail.len();
                    let keep = if total < dlen - 1 { total } else { dlen - 1 };
                    let kept_bytes = self.buf_tail.split_off(total - keep);
                    let mut data: Vec<u8> = kept_bytes;
                    std::mem::swap(&mut data, &mut self.buf_tail);
                    self.file_size = self.file_size.saturating_add(data.len());
                    self.spilled = Ghost(self.spilled@ + data@);
                    proof {
                        assert(c.subrange(0, (total - keep) as int) + c.subrange((total - keep) as int, total as int) =~= c);
                        assert(self.taken@ =~= self.spilled@ + self.buf_tail@);
                        lemma_no_occurrence_in_piece(c, (total - keep) as int, total as int, delimiter@);
                    }
                    let total_limit = self.limits.file_size_limit;
                    if total_limit > 0 && self.file_size > total_limit {
                        self.pending = Pending::Fail(ReadError::FileSizeLimit(total_limit));
                        // a failure is owed: the tail is dropped with the read
                        self.buf_tail = Vec::new();
                        self.taken = Ghost(self.spilled@);
                    }
                    return ReadStep::Write { path, data, append };
                }
            },
            None => {
                let mem_limit = self.limits.buf_string_limit;
                if mem_limit > 0 && self.buf_tail.len() > mem_limit {
                    self.reset();
                    return ReadStep::Failed(ReadError::MemoryLimit(mem_limit));
                }
            },
        }
        ReadStep::NeedChunk
    }

    /// Drops the current read after a failure.
    fn reset(&mut self)
        requires
            old(self).wf_core(),
        ensures
            final(self).delim() == old(self).delim(),
            final(self).wf(),
            final(self).idle(),
            final(self).target().is_none(),
            final(self).rest().len() == 0,
            final(self).limits() == old(self).limits(),
    {
        self.buf = Vec::new();
        self.index = 0;
        self.buf_tail = Vec::new();
        self.file_path = None;
        self.file_size = 0;
        self.end_seen = false;
        self.pending = Pending::Nothing;
        self.taken = Ghost(Seq::empty());
        self.spilled = Ghost(Seq::empty());
    }
}

/// The windows before `i`, joined, begin the windows joined.
proof fn lemma_joined_prefix(ws: Seq<Seq<u8>>, i: int)
    requires
        0 <= i <= ws.len(),
    ensures
        joined(ws.subrange(0, i)).len() <= joined(ws).len(),
        joined(ws).subrange(0, joined(ws.subrange(0, i)).len() as int) == joined(ws.subrange(0, i)),
    decreases ws.len(),
{
    if i == ws.len() {
        assert(ws.subrange(0, i) =~= ws);
        assert(joined(ws).subrange(0, joined(ws).len() as int) =~= joined(ws));
    } else {
        lemma_joined_prefix(ws.drop_last(), i);
        assert(ws.drop_last().subrange(0, i) =~= ws.subrange(0, i));
        let p = joined(ws.subrange(0, i));
        assert(joined(ws).subrange(0, p.len() as int) =~= joined(ws.drop_last()).subrange(0, p.len() as int));
    }
}

/// An occurrence in a prefix is an occurrence in the whole.
proof fn lemma_occurs_in_prefix(s: Seq<u8>, n: int, j: int, d: Seq<u8>)
    requires
        0 <= n <= s.len(),
        occurs_at(s.subrange(0, n), j, d),
    ensures
        occurs_at(s, j, d),
{
    assert(s.subrange(0, n).subrange(j, j + d.len()) =~= s.subrange(j, j + d.len()));
}

/// A step over a window that neither ends nor fails the read moves the
/// whole window to what the read has taken.
proof fn lemma_window_step(s: SafeBuf, d: Seq<u8>, t: SafeBuf, r: ReadStep)
    requires
        s.wf(),
        s.pending() == Pending::Nothing,
        0 < d.len(),
        s.rest().len() > 0 ==> d.len() <= s.window_len(),
        read_step_spec(s, d, t, r),
        r is NeedChunk || (r is Write && t.pending() == Pending::Nothing),
        !occurs_in(s.tail() + s.rest(), d),
    ensures
        t.wf(),
        t.taken() == s.taken() + s.rest(),
        t.target() == s.target(),
        t.pending() == Pending::Nothing,
        t.rest().len() == 0,
        t.delim() == d,
{
    if s.rest().len() == 0 {
        assert(s.taken() + s.rest() =~= s.taken());
    }
}

/// One whole `read_until`: step `i` goes from `pre[i]` to `post[i]` with
/// result `rs[i]`; every step but the last asks for a chunk, and the next
/// window `ws[i + 1]` is handed in; `ws[0]` is the window the read started
/// with. With a spill target a step may instead flush the tail (then no chunk
/// is handed in and `ws[i + 1]` is empty).
pub open spec fn is_run(
    pre: Seq<SafeBuf>,
    post: Seq<SafeBuf>,
    rs: Seq<ReadStep>,
    ws: Seq<Seq<u8>>,
    d: Seq<u8>,
    last: int,
) -> bool {
    &&& 0 <= last < rs.len()
    &&& pre.len() == rs.len()
    &&& post.len() == rs.len()
    &&& ws.len() == last + 1
    &&& pre[0].wf()
    &&& pre[0].idle()
    &&& pre[0].rest() == ws[0]
    &&& forall|i: int| 0 <= i < rs.len() ==> read_step_spec(#[trigger] pre[i], d, post[i], rs[i])
    &&& forall|i: int|
        0 <= i < last ==> (rs[i] is NeedChunk && fill_spec(#[trigger] post[i], ws[i + 1], pre[i + 1]))
            || (rs[i] is Write && post[i].pending() == Pending::Nothing && pre[i + 1] == post[i]
            && ws[i + 1].len() == 0)
}

/// Through a run, as long as the stream so far holds no delimiter, each
/// window joins what the read has taken.
proof fn lemma_run_takes(
    pre: Seq<SafeBuf>,
    post: Seq<SafeBuf>,
    rs: Seq<ReadStep>,
    ws: Seq<Seq<u8>>,
    d: Seq<u8>,
    last: int,
    i: int,
)
    requires
        is_run(pre, post, rs, ws, d, last),
        0 < d.len(),
        0 <= i <= last,
        forall|j: int| 0 <= j < i ==> !occurs_in(#[trigger] joined(ws.subrange(0, j + 1)), d),
        forall|j: int| 0 <= j <= last && ws[j].len() > 0 ==> d.len() <= (#[trigger] pre[j]).window_len(),
    ensures
        pre[i].wf(),
        pre[i].taken() == joined(ws.subrange(0, i)),
        pre[i].pending() == Pending::Nothing,
        pre[i].target() == pre[0].target(),
        pre[i].limits() == pre[0].limits(),
        pre[i].rest() == ws[i],
        pre[i].taken().len() > 0 ==> pre[i].delim() == d,
    decreases i,
{
    if i == 0 {
        assert(ws.subrange(0, 0) =~= Seq::<Seq<u8>>::empty());
    } else {
        lemma_run_takes(pre, post, rs, ws, d, last, i - 1);
        let j = i - 1;
        let s = pre[j];
        s.lemma_wf_bounds();
        assert(read_step_spec(s, d, post[j], rs[j]));
        assert(ws.subrange(0, i).drop_last() =~= ws.subrange(0, j));
        let taken_w = s.taken() + s.rest();
        assert(taken_w == joined(ws.subrange(0, i)));
        assert(!occurs_in(taken_w, d));
        // the tail followed by the window is the end of what is taken so far
        assert(s.tail() + s.rest() =~= taken_w.subrange(s.spilled().len() as int, taken_w.len() as int));
        lemma_no_occurrence_in_piece(taken_w, s.spilled().len() as int, taken_w.len() as int, d);
        lemma_window_step(s, d, post[j], rs[j]);
        if rs[j] is NeedChunk {
            assert(fill_spec(post[j], ws[j + 1], pre[j + 1]));
        }
    }
}

/// A read with no spill target over a stream with no delimiter returns
/// every byte of the stream once the stream ends (no in-memory limit set).
pub proof fn lemma_run_without_delimiter(
    pre: Seq<SafeBuf>,
    post: Seq<SafeBuf>,
    rs: Seq<ReadStep>,
    ws: Seq<Seq<u8>>,
    d: Seq<u8>,
    last: int,
)
    requires
        is_run(pre, post, rs, ws, d, last),
        0 < d.len(),
        pre[0].target().is_none(),
        pre[0].limits().buf_string_limit == 0,
        !occurs_in(joined(ws), d),
        forall|j: int| 0 <= j <= last && ws[j].len() > 0 ==> d.len() <= (#[trigger] pre[j]).window_len(),
        !(rs[last] is NeedChunk),
    ensures
        rs[last] matches ReadStep::Done(ReadOutcome::InMemory(v)) && v@ == joined(ws),
        !post[last].found(),
{
    assert forall|j: int| 0 <= j < last implies !occurs_in(#[trigger] joined(ws.subrange(0, j + 1)), d) by {
        lemma_joined_prefix(ws, j + 1);
        let pj = joined(ws.subrange(0, j + 1));
        if occurs_in(pj, d) {
            let q = choose|q: int| occurs_at(pj, q, d);
            lemma_occurs_in_prefix(joined(ws), pj.len() as int, q, d);
        }
    }
    lemma_run_takes(pre, post, rs, ws, d, last, last);
    let s = pre[last];
    s.lemma_wf_bounds();
    assert(read_step_spec(s, d, post[last], rs[last]));
    assert(ws.subrange(0, last + 1) =~= ws);
    assert(ws.drop_last() =~= ws.subrange(0, last));
    assert(s.tail() + s.rest() == joined(ws));
    if ws[last].len() == 0 {
        assert(s.tail() + s.rest() =~= s.tail());
    }
}

/// A read with no spill target over a stream whose one occurrence of the
/// delimiter, at `k`, ends in the last window read (it may begin in an
/// earlier one) returns the bytes before it and leaves the window right
/// after it.
pub proof fn lemma_run_to_delimiter(
    pre: Seq<SafeBuf>,
    post: Seq<SafeBuf>,
    rs: Seq<ReadStep>,
    ws: Seq<Seq<u8>>,
    d: Seq<u8>,
    last: int,
    k: int,
)
    requires
        is_run(pre, post, rs, ws, d, last),
        0 < d.len(),
        pre[0].target().is_none(),
        pre[0].limits().buf_string_limit == 0,
        forall|j: int| 0 <= j <= last && ws[j].len() > 0 ==> d.len() <= (#[trigger] pre[j]).window_len(),
        occurs_at(joined(ws), k, d),
        forall|j: int| j != k ==> !occurs_at(joined(ws), j, d),
        k + d.len() > joined(ws.drop_last()).len(),
    ensures
        rs[last] matches ReadStep::Done(ReadOutcome::InMemory(v)) && v@ == joined(ws).subrange(0, k),
        post[last].rest() == joined(ws).subrange(k + d.len(), joined(ws).len() as int),
        post[last].found(),
{
    assert(ws.drop_last() =~= ws.subrange(0, last));
    assert forall|j: int| 0 <= j < last implies !occurs_in(#[trigger] joined(ws.subrange(0, j + 1)), d) by {
        lemma_joined_prefix(ws, j + 1);
        lemma_joined_prefix(ws.subrange(0, last), j + 1);
        assert(ws.subrange(0, last).subrange(0, j + 1) =~= ws.subrange(0, j + 1));
        let pj = joined(ws.subrange(0, j + 1));
        if occurs_in(pj, d) {
            let q = choose|q: int| occurs_at(pj, q, d);
            lemma_occurs_in_prefix(joined(ws), pj.len() as int, q, d);
        }
    }
    lemma_run_takes(pre, post, rs, ws, d, last, last);
    let s = pre[last];
    s.lemma_wf_bounds();
    assert(read_step_spec(s, d, post[last], rs[last]));
    assert(ws.subrange(0, last + 1) =~= ws);
    let c = s.tail() + s.rest();
    assert(c == joined(ws));
    assert(s.rest().len() > 0);
    assert(occurs_in(c, d));
    let g = c.len() - post[last].rest().len() - d.len();
    assert(g == k);
}

/// With a nonzero in-memory limit and no spill target, a read over a stream
/// with no delimiter whose bytes pass the limit fails with the limit error.
pub proof fn lemma_run_memory_limit(
    pre: Seq<SafeBuf>,
    post: Seq<SafeBuf>,
    rs: Seq<ReadStep>,
    ws: Seq<Seq<u8>>,
    d: Seq<u8>,
    last: int,
)
    requires
        is_run(pre, post, rs, ws, d, last),
        0 < d.len(),
        pre[0].target().is_none(),
        pre[0].limits().buf_string_limit > 0,
        !occurs_in(joined(ws), d),
        forall|j: int| 0 <= j <= last && ws[j].len() > 0 ==> d.len() <= (#[trigger] pre[j]).window_len(),
        joined(ws).len() > pre[0].limits().buf_string_limit,
        !(rs[last] is NeedChunk),
    ensures
        rs[last] matches ReadStep::Failed(ReadError::MemoryLimit(m)) && m == pre[0].limits().buf_string_limit,
{
    assert forall|j: int| 0 <= j < last implies !occurs_in(#[trigger] joined(ws.subrange(0, j + 1)), d) by {
        lemma_joined_prefix(ws, j + 1);
        let pj = joined(ws.subrange(0, j + 1));
        if occurs_in(pj, d) {
            let q = choose|q: int| occurs_at(pj, q, d);
            lemma_occurs_in_prefix(joined(ws), pj.len() as int, q, d);
        }
    }
    lemma_run_takes(pre, post, rs, ws, d, last, last);
    let s = pre[last];
    s.lemma_wf_bounds();
    assert(read_step_spec(s, d, post[last], rs[last]));
    assert(ws.subrange(0, last + 1) =~= ws);
    assert(ws.drop_last() =~= ws.subrange(0, last));
    assert(s.tail() + s.rest() == joined(ws));
}

/// A read with a spill target over a stream whose one occurrence of the
/// delimiter, at `k`, ends in the last window read, writes to the target in
/// all exactly the bytes before the occurrence (what `lemma_run_to_delimiter`
/// shows a read without target returns), whatever was flushed on the way;
/// the first write of the read creates the file.
pub proof fn lemma_spill_run_to_delimiter(
    pre: Seq<SafeBuf>,
    post: Seq<SafeBuf>,
    rs: Seq<ReadStep>,
    ws: Seq<Seq<u8>>,
    d: Seq<u8>,
    last: int,
    k: int,
)
    requires
        is_run(pre, post, rs, ws, d, last),
        0 < d.len(),
        pre[0].target().is_some(),
        pre[0].spill_count() == 0,
        forall|j: int| 0 <= j <= last && ws[j].len() > 0 ==> d.len() <= (#[trigger] pre[j]).window_len(),
        occurs_at(joined(ws), k, d),
        forall|j: int| j != k ==> !occurs_at(joined(ws), j, d),
        k + d.len() > joined(ws.drop_last()).len(),
    ensures
        rs[last] matches ReadStep::Write { .. },
        post[last].spilled() == joined(ws).subrange(0, k),
        post[last].pending() == Pending::Finished,
        post[last].rest() == joined(ws).subrange(k + d.len(), joined(ws).len() as int),
{
    assert(ws.drop_last() =~= ws.subrange(0, last));
    assert forall|j: int| 0 <= j < last implies !occurs_in(#[trigger] joined(ws.subrange(0, j + 1)), d) by {
        lemma_joined_prefix(ws, j + 1);
        lemma_joined_prefix(ws.subrange(0, last), j + 1);
        assert(ws.subrange(0, last).subrange(0, j + 1) =~= ws.subrange(0, j + 1));
        let pj = joined(ws.subrange(0, j + 1));
        if occurs_in(pj, d) {
            let q = choose|q: int| occurs_at(pj, q, d);
            lemma_occurs_in_prefix(joined(ws), pj.len() as int, q, d);
        }
    }
    lemma_run_takes(pre, post, rs, ws, d, last, last);
    let s = pre[last];
    assert(read_step_spec(s, d, post[last], rs[last]));
    assert(ws.subrange(0, last + 1) =~= ws);
    assert(s.taken() + s.rest() == joined(ws));
    lemma_spill_last_step(s, d, post[last], rs[last], joined(ws), k);
}

/// The step of a spilling read that meets the delimiter's only occurrence,
/// at `k` of `tw`, which ends in the window.
#[verifier::rlimit(40)]
proof fn lemma_spill_last_step(s: SafeBuf, d: Seq<u8>, t: SafeBuf, r: ReadStep, tw: Seq<u8>, k: int)
    requires
        s.wf(),
        s.pending() == Pending::Nothing,
        s.target().is_some(),
        s.taken().len() > 0 ==> s.delim() == d,
        0 < d.len(),
        s.rest().len() > 0 ==> d.len() <= s.window_len(),
        read_step_spec(s, d, t, r),
        tw == s.taken() + s.rest(),
        occurs_at(tw, k, d),
        forall|j: int| j != k ==> !occurs_at(tw, j, d),
        k + d.len() > s.taken().len(),
    ensures
        r matches ReadStep::Write { .. },
        t.spilled() == tw.subrange(0, k),
        t.pending() == Pending::Finished,
        t.rest() == tw.subrange(k + d.len(), tw.len() as int),
{
    s.lemma_wf_bounds();
    let sp = s.spilled().len() as int;
    let c = s.tail() + s.rest();
    assert(c =~= tw.subrange(sp, tw.len() as int));
    assert(s.rest().len() > 0);
    if sp > 0 {
        assert(s.delim() == d);
    }
    assert(k >= sp);
    assert(c.subrange(k - sp, k - sp + d.len()) =~= tw.subrange(k, k + d.len()));
    assert(occurs_at(c, k - sp, d));
    assert(occurs_in(c, d));
    let g = c.len() - t.rest().len() - d.len();
    assert(occurs_at(c, g, d));
    assert(c.subrange(g, g + d.len()) =~= tw.subrange(sp + g, sp + g + d.len()));
    assert(occurs_at(tw, sp + g, d));
    if g > k - sp {
        assert(!occurs_at(c, k - sp, d));
    }
    assert(g == k - sp);
    assert(s.spilled() + c.subrange(0, g) =~= tw.subrange(0, k));
    assert(t.rest() =~= tw.subrange(k + d.len(), tw.len() as int));
}

/// Every step makes progress: it ends the read, owes only the report that
/// ends it, or uses up the whole window, so that the next step needs a new
/// chunk (or ends the read at the end of the stream).
pub proof fn lemma_step_progress(s: SafeBuf, d: Seq<u8>, t: SafeBuf, r: ReadStep)
    requires
        s.wf(),
        0 < d.len(),
        read_step_spec(s, d, t, r),
    ensures
        r is Done || r is Failed || t.pending() != Pending::Nothing || t.rest().len() == 0,
{
}

/// At the end of the stream a read returns everything it has taken.
pub proof fn lemma_end_of_stream(s: SafeBuf, d: Seq<u8>, t: SafeBuf, r: ReadStep)
    requires
        s.wf(),
        s.pending() == Pending::Nothing,
        s.target().is_none(),
        s.rest().len() == 0,
        s.at_end(),
        read_step_spec(s, d, t, r),
    ensures
        r matches ReadStep::Done(ReadOutcome::InMemory(v)) && v@ == s.taken(),
        t.idle(),
{
}

/// Without a spill target and with a nonzero in-memory limit, a reader never
/// holds more than the limit between steps, and a step that would pass it
/// fails with the limit error.
pub proof fn lemma_memory_bound(s: SafeBuf, d: Seq<u8>, t: SafeBuf, r: ReadStep)
    requires
        s.wf(),
        t.wf(),
        s.target().is_none(),
        s.limits().buf_string_limit > 0,
        s.pending() == Pending::Nothing,
        s.rest().len() > 0,
        d.len() <= s.window_len(),
        !occurs_in(s.tail() + s.rest(), d),
        s.tail().len() + s.rest().len() > s.limits().buf_string_limit,
        read_step_spec(s, d, t, r),
    ensures
        s.tail().len() <= s.limits().buf_string_limit,
        r matches ReadStep::Failed(ReadError::MemoryLimit(m)) && m == s.limits().buf_string_limit,
        t.idle(),
{
    s.lemma_wf_bounds();
}

} // verus!
