//! Staging buffers for buffered readers and writers.
//!
//! A buffer never reads or writes by itself. It tells its driver what to do
//! with the stream (`plan`), lends out the memory involved, and is told what
//! came of it. Every operation keeps `position <= filled <= capacity` on the
//! read side and `position <= capacity` on the write side, and no byte is
//! lost, repeated or reordered on its way through.
use vstd::prelude::*;

verus! {

/// What a buffered reader does with a request.
#[derive(Clone, Copy, PartialEq, Eq, Debug, Structural)]
pub enum ReadPlan {
    /// Staged bytes are waiting: copy this many of them to the caller.
    /// The stream is not touched.
    Serve(usize),
    /// Nothing is staged and the request is at least as large as the buffer:
    /// read from the stream straight into the caller's memory.
    Direct,
    /// Nothing is staged and the request is smaller than the buffer: read
    /// once into the buffer, up to its capacity, then serve from it.
    Refill,
}

/// The read side: one buffer of fixed capacity, of which the bytes between
/// the position and the filled length are staged.
pub struct AsyncBufRead {
    buf: Vec<u8>,
    pos: usize,
    cap: usize,
}

impl AsyncBufRead {
    /// The invariant: `position <= filled <= capacity`, and the capacity is
    /// not zero.
    pub closed spec fn wf(&self) -> bool {
        &&& self.pos <= self.cap
        &&& self.cap <= self.buf@.len()
        &&& self.buf@.len() > 0
    }

    /// The size of the buffer.
    pub closed spec fn capacity(&self) -> nat {
        self.buf@.len()
    }

    /// The staged bytes: read from the stream and not yet handed out,
    /// oldest first.
    pub closed spec fn staged(&self) -> Seq<u8> {
        self.buf@.subrange(self.pos as int, self.cap as int)
    }

    /// What `plan` answers to a request for `want` bytes.
    pub open spec fn plan_of(&self, want: usize) -> ReadPlan {
        if self.staged().len() > 0 {
            if want <= self.staged().len() {
                ReadPlan::Serve(want)
            } else {
                ReadPlan::Serve(self.staged().len() as usize)
            }
        } else if want >= self.capacity() {
            ReadPlan::Direct
        } else {
            ReadPlan::Refill
        }
    }

    /// An empty buffer of the given capacity.
    pub fn new(capacity: usize) -> (r: Self)
        requires
            capacity > 0,
        ensures
            r.wf(),
            r.capacity() == capacity,
            r.staged() == Seq::<u8>::empty(),
    {
        AsyncBufRead { buf: vec![0u8; capacity], pos: 0, cap: 0 }
    }

    /// The number of staged bytes.
    pub fn staged_len(&self) -> (n: usize)
        requires
            self.wf(),
        ensures
            n == self.staged().len(),
    {
        self.cap - self.pos
    }

    /// Decides how a request for `want` bytes is met.
    pub fn plan(&self, want: usize) -> (p: ReadPlan)
        requires
            self.wf(),
        ensures
            p == self.plan_of(want),
    {
        if self.pos < self.cap {
            let have: usize = self.cap - self.pos;
            if want <= have {
                ReadPlan::Serve(want)
            } else {
                ReadPlan::Serve(have)
            }
        } else if want >= self.buf.len() {
            ReadPlan::Direct
        } else {
            ReadPlan::Refill
        }
    }

    /// Copies staged bytes to the front of `out`: as many as are staged, or
    /// as many as `out` holds if that is fewer. The bytes copied leave the
    /// buffer; the rest of `out` keeps what it held. What the caller got,
    /// followed by what is still staged, is what was staged before.
    pub fn serve(&mut self, out: &mut [u8]) -> (n: usize)
        requires
            old(self).wf(),
        ensures
            final(self).wf(),
            final(self).capacity() == old(self).capacity(),
            n == if old(out)@.len() <= old(self).staged().len() {
                old(out)@.len()
            } else {
                old(self).staged().len()
            },
            final(out)@ == old(self).staged().take(n as int) + old(out)@.skip(n as int),
            final(self).staged() == old(self).staged().skip(n as int),
            final(out)@.take(n as int) + final(self).staged() == old(self).staged(),
    {
        let have: usize = self.cap - self.pos;
        let n: usize = if out.len() <= have { out.len() } else { have };
        let start: usize = self.pos;
        let mut i: usize = 0;
        while i < n
            invariant
                i <= n,
                n <= out@.len(),
                start + n <= self.cap,
                self.cap <= self.buf@.len(),
                start == self.pos,
                *self == *old(self),
                out@.len() == old(out)@.len(),
                forall|k: int| 0 <= k < i ==> out@[k] == self.buf@[start + k],
                forall|k: int| i <= k < out@.len() ==> out@[k] == old(out)@[k],
            decreases n - i,
        {
            out[i] = self.buf[start + i];
            i += 1;
        }
        self.pos = start + n;
        proof {
            assert(out@ =~= old(self).staged().take(n as int) + old(out)@.skip(n as int));
            assert(self.staged() =~= old(self).staged().skip(n as int));
            assert(out@.take(n as int) + self.staged() =~= old(self).staged());
        }
        n
    }

    /// Lends out the whole buffer for one read from the stream. Only an
    /// empty buffer is refilled, so nothing staged can be overwritten. What
    /// holds of the buffer when the loan ends is stated for a slice that
    /// has kept its length, as every slice does.
    pub fn refill_target(&mut self) -> (target: &mut [u8])
        requires
            old(self).wf(),
            old(self).staged().len() == 0,
        ensures
            target@ == old(self).memory(),
            final(self).memory() == final(target)@,
            final(target)@.len() == target@.len() ==> {
                &&& final(self).wf()
                &&& final(self).capacity() == old(self).capacity()
                &&& final(self).staged().len() == 0
            },
    {
        self.buf.as_mut_slice()
    }

    /// The buffer's memory, staged or not.
    pub closed spec fn memory(&self) -> Seq<u8> {
        self.buf@
    }

    /// Records that a read into the buffer delivered `n` bytes: they are
    /// now staged, in the order in which they were read.
    pub fn refilled(&mut self, n: usize)
        requires
            old(self).wf(),
            old(self).staged().len() == 0,
            n <= old(self).capacity(),
        ensures
            final(self).wf(),
            final(self).capacity() == old(self).capacity(),
            final(self).memory() == old(self).memory(),
            final(self).staged() == old(self).memory().take(n as int),
    {
        self.cap = n;
        self.pos = 0;
        proof {
            assert(self.staged() =~= old(self).memory().take(n as int));
        }
    }
}

/// What a buffered writer does with a request.
#[derive(Clone, Copy, PartialEq, Eq, Debug, Structural)]
pub struct WritePlan {
    /// Write out everything staged before anything else is done.
    pub flush_first: bool,
    /// Hand the caller's bytes to the stream as they are; otherwise they
    /// are staged.
    pub direct: bool,
}

/// The write side: one buffer of fixed capacity, filled from the front.
pub struct AsyncBufWrite {
    buf: Vec<u8>,
    pos: usize,
}

impl AsyncBufWrite {
    /// The invariant: `position <= capacity`, and the capacity is not zero.
    pub closed spec fn wf(&self) -> bool {
        &&& self.pos <= self.buf@.len()
        &&& self.buf@.len() > 0
    }

    /// The size of the buffer.
    pub closed spec fn capacity(&self) -> nat {
        self.buf@.len()
    }

    /// The staged bytes: accepted from the caller and not yet written to the
    /// stream, oldest first.
    pub closed spec fn staged(&self) -> Seq<u8> {
        self.buf@.subrange(0, self.pos as int)
    }

    /// What `plan` answers to a write of `len` bytes: the bytes go straight
    /// to the stream when they would fill the buffer on their own, and what
    /// is staged is written out first when they go straight or do not fit
    /// behind it.
    pub open spec fn plan_of(&self, len: usize) -> WritePlan {
        WritePlan {
            flush_first: self.staged().len() > 0 && (len >= self.capacity() || self.capacity()
                - self.staged().len() < len),
            direct: len >= self.capacity(),
        }
    }

    /// What a flush writes to the stream: everything staged, in one piece,
    /// or nothing at all when nothing is staged.
    pub open spec fn flush_payload(&self) -> Option<Seq<u8>> {
        if self.staged().len() > 0 {
            Some(self.staged())
        } else {
            None
        }
    }

    /// An empty buffer of the given capacity.
    pub fn new(capacity: usize) -> (r: Self)
        requires
            capacity > 0,
        ensures
            r.wf(),
            r.capacity() == capacity,
            r.staged() == Seq::<u8>::empty(),
    {
        AsyncBufWrite { buf: vec![0u8; capacity], pos: 0 }
    }

    /// Decides how a write of `len` bytes is met.
    pub fn plan(&self, len: usize) -> (p: WritePlan)
        requires
            self.wf(),
        ensures
            p == self.plan_of(len),
    {
        let direct = len >= self.buf.len();
        let crowded = self.buf.len() - self.pos < len;
        WritePlan { flush_first: self.pos > 0 && (direct || crowded), direct }
    }

    /// The staged bytes, for the write that flushes them. An empty slice
    /// means that a flush has nothing to write.
    pub fn pending(&self) -> (bytes: &[u8])
        requires
            self.wf(),
        ensures
            bytes@ == self.staged(),
            self.flush_payload() == if bytes@.len() > 0 {
                Some(bytes@)
            } else {
                None
            },
    {
        vstd::slice::slice_subrange(self.buf.as_slice(), 0, self.pos)
    }

    /// Records that everything staged has been written to the stream.
    pub fn flushed(&mut self)
        requires
            old(self).wf(),
        ensures
            final(self).wf(),
            final(self).capacity() == old(self).capacity(),
            final(self).staged() == Seq::<u8>::empty(),
    {
        self.pos = 0;
        proof {
            assert(self.staged() =~= Seq::<u8>::empty());
        }
    }

    /// Stages `data` behind what is staged already and reports its length.
    pub fn stage(&mut self, data: &[u8]) -> (n: usize)
        requires
            old(self).wf(),
            data@.len() <= old(self).capacity() - old(self).staged().len(),
        ensures
            final(self).wf(),
            final(self).capacity() == old(self).capacity(),
            final(self).staged() == old(self).staged() + data@,
            n == data@.len(),
    {
        let n: usize = data.len();
        let start: usize = self.pos;
        let mut i: usize = 0;
        while i < n
            invariant
                i <= n,
                n == data@.len(),
                start + n <= self.buf.len(),
                self.buf@.len() == old(self).buf@.len(),
                self.pos == start,
                start == old(self).pos,
                forall|k: int| 0 <= k < start ==> self.buf@[k] == old(self).buf@[k],
                forall|k: int| 0 <= k < i ==> self.buf@[start + k] == data@[k],
            decreases n - i,
        {
            self.buf[start + i] = data[i];
            i += 1;
        }
        self.pos = start + n;
        proof {
            assert(self.staged() =~= old(self).staged() + data@);
        }
        n
    }
}

/// A write smaller than the capacity, into an empty buffer, is staged whole
/// and leaves the stream alone; the flush that follows writes exactly those
/// bytes, in one piece. A write of at least the capacity is never staged.
pub proof fn lemma_staged_write_is_flushed_whole(
    before: AsyncBufWrite,
    after: AsyncBufWrite,
    data: Seq<u8>,
    len: usize,
)
    requires
        before.wf(),
        len == data.len(),
    ensures
        len >= before.capacity() ==> before.plan_of(len).direct,
        (len < before.capacity() && before.staged().len() == 0) ==> before.plan_of(len)
            == (WritePlan { flush_first: false, direct: false }),
        (0 < len < before.capacity() && before.staged().len() == 0 && after.staged()
            == before.staged() + data) ==> after.flush_payload() == Some(data),
{
    if 0 < len < before.capacity() && before.staged().len() == 0 && after.staged()
        == before.staged() + data {
        assert(after.staged() =~= data);
    }
}

/// A stream with a read buffer and a write buffer in front of it.
pub struct AsyncBufStream<T> {
    read_buf: AsyncBufRead,
    write_buf: AsyncBufWrite,
    inner: T,
}

impl<T> AsyncBufStream<T> {
    /// The read side.
    pub closed spec fn reader(&self) -> AsyncBufRead {
        self.read_buf
    }

    /// The write side.
    pub closed spec fn writer(&self) -> AsyncBufWrite {
        self.write_buf
    }

    /// The stream behind the buffers.
    pub closed spec fn inner(&self) -> T {
        self.inner
    }

    /// Puts two empty buffers of `buf_size` bytes each in front of `stream`.
    pub fn new(stream: T, buf_size: usize) -> (r: Self)
        requires
            buf_size > 0,
        ensures
            r.inner() == stream,
            r.reader().wf(),
            r.reader().capacity() == buf_size,
            r.reader().staged() == Seq::<u8>::empty(),
            r.writer().wf(),
            r.writer().capacity() == buf_size,
            r.writer().staged() == Seq::<u8>::empty(),
    {
        Self {
            read_buf: AsyncBufRead::new(buf_size),
            write_buf: AsyncBufWrite::new(buf_size),
            inner: stream,
        }
    }

    /// The stream behind the buffers. What is staged stays staged.
    pub fn get_inner(&mut self) -> (stream: &mut T)
        ensures
            *stream == old(self).inner(),
            final(self).inner() == *final(stream),
            final(self).reader() == old(self).reader(),
            final(self).writer() == old(self).writer(),
    {
        &mut self.inner
    }

    /// The two buffers and the stream, each on its own, for a driver that
    /// moves bytes between them.
    pub fn parts(&mut self) -> (p: (&mut AsyncBufRead, &mut AsyncBufWrite, &mut T))
        ensures
            *p.0 == old(self).reader(),
            *p.1 == old(self).writer(),
            *p.2 == old(self).inner(),
            final(self).reader() == *final(p.0),
            final(self).writer() == *final(p.1),
            final(self).inner() == *final(p.2),
    {
        (&mut self.read_buf, &mut self.write_buf, &mut self.inner)
    }
}

} // verus!
