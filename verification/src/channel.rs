//! The transport boundary: line-oriented duplex character streams.
//!
//! A session consumes anything that can hand it one line at a time and
//! take flushed text back.  The traits model a stream's state as plain
//! character sequences: `instream` is what remains to be read, `sent`
//! is what has been written and flushed, `pending` is written but not
//! yet flushed.  `Stream` composes an independently owned readable
//! half and writable half into one duplex handle; `MemReader` and
//! `MemWriter` are in-memory halves used to script a peer.

use vstd::prelude::*;

verus! {

broadcast use vstd::seq::group_seq_axioms;

/// A transport-level failure (connection reset, broken pipe); always
/// fatal to the session that meets it.
#[derive(Debug, PartialEq, Eq)]
pub struct IoFault;

/// Length of the first line of `s`, including its `'\n'` terminator if
/// one is present; the whole of `s` otherwise.
pub open spec fn line_len(s: Seq<char>) -> int
    decreases s.len(),
{
    if s.len() == 0 {
        0
    } else if s[0] == '\n' {
        1
    } else {
        1 + line_len(s.drop_first())
    }
}

pub open spec fn first_line(s: Seq<char>) -> Seq<char> {
    s.take(line_len(s))
}

pub open spec fn rest_lines(s: Seq<char>) -> Seq<char> {
    s.skip(line_len(s))
}

pub proof fn lemma_line_len(s: Seq<char>)
    ensures
        0 <= line_len(s) <= s.len(),
        s.len() > 0 ==> 1 <= line_len(s),
    decreases s.len(),
{
    if s.len() > 0 && s[0] != '\n' {
        lemma_line_len(s.drop_first());
    }
}

/// If `k` is the position of the first newline, the first line runs up
/// to and including it.
pub proof fn lemma_line_len_at(s: Seq<char>, k: int)
    requires
        0 <= k < s.len(),
        s[k] == '\n',
        forall|q: int| 0 <= q < k ==> s[q] != '\n',
    ensures
        line_len(s) == k + 1,
    decreases k,
{
    if k > 0 {
        lemma_line_len_at(s.drop_first(), k - 1);
    }
}

/// A stream segment without a newline is one whole line.
pub proof fn lemma_line_len_none(s: Seq<char>)
    requires
        forall|q: int| 0 <= q < s.len() ==> s[q] != '\n',
    ensures
        line_len(s) == s.len(),
    decreases s.len(),
{
    if s.len() > 0 {
        lemma_line_len_none(s.drop_first());
    }
}

/// The readable half of a transport.
pub trait ReadHalf: Sized {
    /// The characters not yet handed out.
    spec fn instream(&self) -> Seq<char>;

    /// Whether this half never reports a transport fault: what an
    /// in-memory peer guarantees and a real socket cannot.
    spec fn fault_free(&self) -> bool;

    /// Blocks until one line (terminator included, if the stream did
    /// not end first) is available and hands it out; `None` signals a
    /// clean end of stream.
    fn read_line(&mut self) -> (r: Result<Option<String>, IoFault>)
        ensures
            old(self).fault_free() ==> r is Ok && final(self).fault_free(),
            (match r {
                Ok(Some(l)) => old(self).instream().len() > 0 && l@ == first_line(
                    old(self).instream(),
                ) && final(self).instream() == rest_lines(old(self).instream()),
                Ok(None) => old(self).instream().len() == 0 && *final(self) == *old(self),
                Err(_) => true,
            }),
    ;
}

/// The writable half of a transport.
pub trait WriteHalf: Sized {
    /// What has been written and flushed.
    spec fn sent(&self) -> Seq<char>;

    /// What has been written but not yet flushed.
    spec fn pending(&self) -> Seq<char>;

    /// Whether this half never reports a transport fault.
    spec fn fault_free(&self) -> bool;

    fn write_text(&mut self, chunk: &str) -> (r: Result<(), IoFault>)
        ensures
            old(self).fault_free() ==> r is Ok && final(self).fault_free(),
            (match r {
                Ok(_) => final(self).pending() == old(self).pending() + chunk@ && final(self).sent() == old(self).sent(),
                Err(_) => true,
            }),
    ;

    fn flush(&mut self) -> (r: Result<(), IoFault>)
        ensures
            old(self).fault_free() ==> r is Ok && final(self).fault_free(),
            (match r {
                Ok(_) => final(self).sent() == old(self).sent() + old(self).pending()
                    && final(self).pending() == Seq::<char>::empty(),
                Err(_) => true,
            }),
    ;
}

/// A full duplex line stream: both capabilities on one handle.
pub trait Channel: Sized {
    spec fn instream(&self) -> Seq<char>;

    spec fn sent(&self) -> Seq<char>;

    spec fn pending(&self) -> Seq<char>;

    /// Whether this stream never reports a transport fault.
    spec fn fault_free(&self) -> bool;

    fn read_line(&mut self) -> (r: Result<Option<String>, IoFault>)
        ensures
            old(self).fault_free() ==> r is Ok && final(self).fault_free(),
            (match r {
                Ok(Some(l)) => old(self).instream().len() > 0 && l@ == first_line(
                    old(self).instream(),
                ) && final(self).instream() == rest_lines(old(self).instream()) && final(self).sent() == old(self).sent() && final(self).pending() == old(self).pending(),
                Ok(None) => old(self).instream().len() == 0 && *final(self) == *old(self),
                Err(_) => true,
            }),
    ;

    fn write_text(&mut self, chunk: &str) -> (r: Result<(), IoFault>)
        ensures
            old(self).fault_free() ==> r is Ok && final(self).fault_free(),
            (match r {
                Ok(_) => final(self).pending() == old(self).pending() + chunk@ && final(self).sent() == old(self).sent() && final(self).instream() == old(self).instream(),
                Err(_) => true,
            }),
    ;

    fn flush(&mut self) -> (r: Result<(), IoFault>)
        ensures
            old(self).fault_free() ==> r is Ok && final(self).fault_free(),
            (match r {
                Ok(_) => final(self).sent() == old(self).sent() + old(self).pending()
                    && final(self).pending() == Seq::<char>::empty() && final(self).instream() == old(self).instream(),
                Err(_) => true,
            }),
    ;
}

/// Composes a readable half and a writable half into one duplex
/// handle: reads are routed to `r`, writes to `w`, nothing is merged
/// or buffered beyond what the halves do themselves.
pub struct Stream<R, W> {
    r: R,
    w: W,
}

impl<R, W> Stream<R, W> {
    pub closed spec fn read_half(&self) -> R {
        self.r
    }

    pub closed spec fn write_half(&self) -> W {
        self.w
    }

    pub fn new(r: R, w: W) -> (s: Self)
        ensures
            s.read_half() == r,
            s.write_half() == w,
    {
        Stream { r, w }
    }

    pub fn into_inner(self) -> (rw: (R, W))
        ensures
            rw.0 == self.read_half(),
            rw.1 == self.write_half(),
    {
        (self.r, self.w)
    }

    pub fn get_ref_read(&self) -> (x: &R)
        ensures
            *x == self.read_half(),
    {
        &self.r
    }

    pub fn get_mut_read(&mut self) -> (x: &mut R)
        ensures
            *x == old(self).read_half(),
            final(self).read_half() == *final(x),
            final(self).write_half() == old(self).write_half(),
    {
        &mut self.r
    }

    pub fn get_ref_write(&self) -> (x: &W)
        ensures
            *x == self.write_half(),
    {
        &self.w
    }

    pub fn get_mut_write(&mut self) -> (x: &mut W)
        ensures
            *x == old(self).write_half(),
            final(self).write_half() == *final(x),
            final(self).read_half() == old(self).read_half(),
    {
        &mut self.w
    }
}

impl<R: ReadHalf, W: WriteHalf> Channel for Stream<R, W> {
    closed spec fn instream(&self) -> Seq<char> {
        self.r.instream()
    }

    closed spec fn sent(&self) -> Seq<char> {
        self.w.sent()
    }

    closed spec fn pending(&self) -> Seq<char> {
        self.w.pending()
    }

    closed spec fn fault_free(&self) -> bool {
        self.r.fault_free() && self.w.fault_free()
    }

    fn read_line(&mut self) -> (r: Result<Option<String>, IoFault>) {
        self.r.read_line()
    }

    fn write_text(&mut self, chunk: &str) -> (r: Result<(), IoFault>) {
        self.w.write_text(chunk)
    }

    fn flush(&mut self) -> (r: Result<(), IoFault>) {
        self.w.flush()
    }
}

/// A `Stream`'s model is its halves' model.
pub proof fn lemma_stream_model<R: ReadHalf, W: WriteHalf>(s: &Stream<R, W>)
    ensures
        s.instream() == s.read_half().instream(),
        s.sent() == s.write_half().sent(),
        s.pending() == s.write_half().pending(),
        s.fault_free() == (s.read_half().fault_free() && s.write_half().fault_free()),
{
}

/// An in-memory readable half holding a scripted peer's output.
pub struct MemReader {
    data: String,
}

impl MemReader {
    pub fn new(text: String) -> (r: MemReader)
        ensures
            r.instream() == text@,
            r.fault_free(),
    {
        MemReader { data: text }
    }
}

impl ReadHalf for MemReader {
    closed spec fn instream(&self) -> Seq<char> {
        self.data@
    }

    closed spec fn fault_free(&self) -> bool {
        true
    }

    fn read_line(&mut self) -> (r: Result<Option<String>, IoFault>) {
        let s = self.data.as_str();
        let n = s.unicode_len();
        if n == 0 {
            return Ok(None);
        }
        let mut k: usize = 0;
        while k < n && s.get_char(k) != '\n'
            invariant
                n == s@.len(),
                k <= n,
                forall|q: int| 0 <= q < k ==> s@[q] != '\n',
            decreases n - k,
        {
            k = k + 1;
        }
        let e: usize = if k < n {
            proof {
                lemma_line_len_at(s@, k as int);
            }
            k + 1
        } else {
            proof {
                lemma_line_len_none(s@);
            }
            n
        };
        let line = s.substring_char(0, e).to_owned();
        let rest = s.substring_char(e, n).to_owned();
        self.data = rest;
        Ok(Some(line))
    }
}

/// A readable half whose transport has failed: every read reports a
/// fault, as a reset connection does.
pub struct BrokenReader;

impl ReadHalf for BrokenReader {
    closed spec fn instream(&self) -> Seq<char> {
        Seq::empty()
    }

    closed spec fn fault_free(&self) -> bool {
        false
    }

    fn read_line(&mut self) -> (r: Result<Option<String>, IoFault>) {
        Err(IoFault)
    }
}

/// An in-memory writable half recording what a session writes.
pub struct MemWriter {
    done: String,
    queued: String,
}

impl MemWriter {
    pub fn new() -> (w: MemWriter)
        ensures
            w.sent() == Seq::<char>::empty(),
            w.pending() == Seq::<char>::empty(),
            w.fault_free(),
    {
        MemWriter { done: String::new(), queued: String::new() }
    }

    /// A copy of everything written and flushed so far.
    pub fn sent_text(&self) -> (r: String)
        ensures
            r@ == self.sent(),
    {
        self.done.clone()
    }
}

impl WriteHalf for MemWriter {
    closed spec fn sent(&self) -> Seq<char> {
        self.done@
    }

    closed spec fn pending(&self) -> Seq<char> {
        self.queued@
    }

    closed spec fn fault_free(&self) -> bool {
        true
    }

    fn write_text(&mut self, chunk: &str) -> (r: Result<(), IoFault>) {
        self.queued.append(chunk);
        Ok(())
    }

    fn flush(&mut self) -> (r: Result<(), IoFault>) {
        self.done.append(self.queued.as_str());
        self.queued = String::new();
        Ok(())
    }
}

} // verus!
