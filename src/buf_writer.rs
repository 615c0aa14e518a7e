use crate::fixed_vec::{record_bytes, FixedVec, RecordShape};
use crate::layout::{round_up, Extent, MAX_SIZE};
use crate::table::TableError;
use vstd::prelude::*;

verus! {

/// State of a writer as (records buffered, flushes done) after a flush that
/// succeeds: a non-empty buffer is emptied and counted, an empty one is left
/// alone.
pub open spec fn flush_step(s: (nat, nat)) -> (nat, nat) {
    if s.0 > 0 {
        (0, s.1 + 1)
    } else {
        s
    }
}

/// State after one push into a writer of threshold `buf_len`, followed by
/// the flush that the push asks for, if it asks for one.
pub open spec fn push_step(buf_len: nat, s: (nat, nat)) -> (nat, nat) {
    if s.0 + 1 >= buf_len {
        flush_step((s.0 + 1, s.1))
    } else {
        (s.0 + 1, s.1)
    }
}

/// State after `n` pushes into a fresh writer of threshold `buf_len`.
pub open spec fn pushes(buf_len: nat, n: nat) -> (nat, nat)
    decreases n,
{
    if n == 0 {
        (0, 0)
    } else {
        push_step(buf_len, pushes(buf_len, (n - 1) as nat))
    }
}

/// Buffers records in memory and hands them to the table in batches: once
/// `buf_len` records are buffered a push asks for a flush, and a flush
/// appends the whole buffer as one batch and empties it.
pub struct PacketTableBufWriter {
    buffer: FixedVec,
    buf_len: usize,
    flushes: Ghost<nat>,
}

impl PacketTableBufWriter {
    pub closed spec fn buffer_view(&self) -> FixedVec {
        self.buffer
    }

    pub closed spec fn spec_buf_len(&self) -> nat {
        self.buf_len as nat
    }

    /// Number of flushes that emptied the buffer so far.
    pub closed spec fn flushes(&self) -> nat {
        self.flushes@
    }

    /// (records buffered, flushes done).
    pub open spec fn state(&self) -> (nat, nat) {
        (self.buffer_view().spec_len(), self.flushes())
    }

    pub closed spec fn wf(&self) -> bool {
        self.buffer.wf()
    }

    /// A writer for records of `shape` that flushes every `buf_len`
    /// records.
    pub fn new_unsized(shape: RecordShape, buf_len: usize) -> (r: PacketTableBufWriter)
        requires
            shape.wf(),
            buf_len * shape.spec_stride() <= MAX_SIZE,
        ensures
            r.wf(),
            r.buffer_view().shape() == shape,
            r.spec_buf_len() == buf_len,
            r.state() == (0nat, 0nat),
            r.buffer_view().records() == Seq::<Seq<u8>>::empty(),
    {
        PacketTableBufWriter {
            buffer: FixedVec::with_capacity(shape, buf_len),
            buf_len,
            flushes: Ghost(0),
        }
    }

    /// A writer for fixed-size records of extent `ext`; `None` when the
    /// extent is not valid or the buffer would be too large.
    pub fn new(ext: Extent, buf_len: usize) -> (r: Option<PacketTableBufWriter>)
        ensures
            r is Some ==> {
                let w = r->0;
                &&& w.wf()
                &&& w.buffer_view().shape().spec_header_extent() == ext
                &&& w.buffer_view().shape().spec_tail_len() == 0
                &&& w.spec_buf_len() == buf_len
                &&& w.state() == (0nat, 0nat)
            },
            r is None <==> !ext.wf() || buf_len * RecordShape::fixed_stride(ext) > MAX_SIZE,
    {
        let ext = match Extent::new(ext.size, ext.align) {
            Some(e) => e,
            None => return None,
        };
        let shape = match RecordShape::fixed(ext) {
            Some(s) => s,
            None => return None,
        };
        let stride = shape.stride();
        match buf_len.checked_mul(stride) {
            Some(b) => {
                if b <= MAX_SIZE {
                    Some(PacketTableBufWriter::new_unsized(shape, buf_len))
                } else {
                    None
                }
            },
            None => None,
        }
    }

    /// The records buffered so far.
    pub fn buffer(&self) -> (r: &FixedVec)
        ensures
            *r == self.buffer_view(),
    {
        &self.buffer
    }

    /// Buffers a record built from `header` and `tail`. Returns whether the
    /// buffer has reached `buf_len` records, in which case the caller
    /// flushes.
    pub fn push_with(&mut self, header: &[u8], tail: &[u8]) -> (flush_due: bool)
        requires
            old(self).wf(),
            header@.len() == old(self).buffer_view().shape().spec_header_size(),
            tail@.len() == old(self).buffer_view().shape().spec_tail_size(),
            old(self).buffer_view().spec_len() + 1 <= usize::MAX,
            (old(self).buffer_view().spec_len() + 1) * old(self).buffer_view().shape().spec_stride() <= MAX_SIZE,
        ensures
            final(self).wf(),
            final(self).spec_buf_len() == old(self).spec_buf_len(),
            final(self).buffer_view().shape() == old(self).buffer_view().shape(),
            final(self).state() == (old(self).state().0 + 1, old(self).state().1),
            final(self).buffer_view().records() == old(self).buffer_view().records().push(
                record_bytes(old(self).buffer_view().shape(), header@, tail@),
            ),
            flush_due == (final(self).state().0 >= final(self).spec_buf_len()),
    {
        self.buffer.push_with(header, tail);
        self.buffer.len() >= self.buf_len
    }

    /// Buffers a copy of `record`, a whole record of the buffer's shape.
    /// Returns whether the caller flushes.
    pub fn push_clone(&mut self, record: &[u8]) -> (flush_due: bool)
        requires
            old(self).wf(),
            record@.len() == old(self).buffer_view().shape().spec_stride(),
            old(self).buffer_view().spec_len() + 1 <= usize::MAX,
            (old(self).buffer_view().spec_len() + 1) * old(self).buffer_view().shape().spec_stride() <= MAX_SIZE,
        ensures
            final(self).wf(),
            final(self).spec_buf_len() == old(self).spec_buf_len(),
            final(self).buffer_view().shape() == old(self).buffer_view().shape(),
            final(self).state() == (old(self).state().0 + 1, old(self).state().1),
            final(self).buffer_view().records() == old(self).buffer_view().records().push(
                record@,
            ),
            flush_due == (final(self).state().0 >= final(self).spec_buf_len()),
    {
        self.buffer.push_clone(record);
        self.buffer.len() >= self.buf_len
    }

    /// Buffers a fixed-size value given as its bytes. Returns whether the
    /// caller flushes.
    pub fn push(&mut self, value: &[u8]) -> (flush_due: bool)
        requires
            old(self).wf(),
            old(self).buffer_view().shape().spec_tail_size() == 0,
            value@.len() == old(self).buffer_view().shape().spec_header_size(),
            old(self).buffer_view().spec_len() + 1 <= usize::MAX,
            (old(self).buffer_view().spec_len() + 1) * old(self).buffer_view().shape().spec_stride() <= MAX_SIZE,
        ensures
            final(self).wf(),
            final(self).spec_buf_len() == old(self).spec_buf_len(),
            final(self).buffer_view().shape() == old(self).buffer_view().shape(),
            final(self).state() == (old(self).state().0 + 1, old(self).state().1),
            final(self).buffer_view().records() == old(self).buffer_view().records().push(
                record_bytes(old(self).buffer_view().shape(), value@, Seq::empty()),
            ),
            flush_due == (final(self).state().0 >= final(self).spec_buf_len()),
    {
        let empty: Vec<u8> = Vec::new();
        self.push_with(value, empty.as_slice())
    }

    /// Whether a flush has anything to append: the buffer is not empty.
    pub fn needs_flush(&self) -> (r: bool)
        requires
            self.wf(),
        ensures
            r == (self.state().0 > 0),
    {
        !self.buffer.is_empty()
    }

    /// Completes a flush: `appended` is the outcome of appending the whole
    /// buffer to the table as one batch. On success the buffer is emptied;
    /// on failure it is kept and the error returned. With an empty buffer
    /// nothing was to be appended and this does nothing.
    pub fn flush(&mut self, appended: Result<(), TableError>) -> (r: Result<(), TableError>)
        requires
            old(self).wf(),
        ensures
            final(self).wf(),
            final(self).spec_buf_len() == old(self).spec_buf_len(),
            final(self).buffer_view().shape() == old(self).buffer_view().shape(),
            old(self).state().0 == 0 ==> r is Ok && final(self).state() == old(self).state(),
            old(self).state().0 > 0 ==> r == appended,
            r is Ok ==> final(self).state() == flush_step(old(self).state()),
            r is Ok ==> final(self).buffer_view().records() == Seq::<Seq<u8>>::empty(),
            r is Err ==> final(self).state() == old(self).state(),
            r is Err ==> final(self).buffer_view().records() == old(self).buffer_view().records(),
            final(self).buffer_view().spec_capacity() == old(self).buffer_view().spec_capacity(),
    {
        if self.buffer.is_empty() {
            return Ok(());
        }
        match appended {
            Ok(()) => {
                self.buffer.clear();
                self.flushes = Ghost(self.flushes@ + 1);
                appended
            },
            Err(_) => appended,
        }
    }
}

impl RecordShape {
    /// The stride of fixed-size records of extent `ext`.
    pub open spec fn fixed_stride(ext: Extent) -> nat {
        round_up(ext.size as nat, ext.align as nat)
    }
}

/// Flush-threshold law: with a threshold of `buf_len` (at least 1) and
/// flushes that succeed, `buf_len` pushes into a fresh writer make exactly
/// one flush and leave nothing buffered; `buf_len - 1` pushes make no flush
/// and leave `buf_len - 1` records, which the flush at the end of the
/// writer's use appends as exactly one more flush.
pub proof fn lemma_flush_threshold(buf_len: nat)
    requires
        buf_len >= 1,
    ensures
        pushes(buf_len, buf_len) == (0nat, 1nat),
        pushes(buf_len, (buf_len - 1) as nat) == ((buf_len - 1) as nat, 0nat),
        flush_step(pushes(buf_len, (buf_len - 1) as nat)) == if buf_len > 1 {
            (0nat, 1nat)
        } else {
            (0nat, 0nat)
        },
{
    lemma_pushes_below(buf_len, (buf_len - 1) as nat);
}

/// Fewer than `buf_len` pushes into a fresh writer make no flush.
proof fn lemma_pushes_below(buf_len: nat, n: nat)
    requires
        n < buf_len,
    ensures
        pushes(buf_len, n) == (n, 0nat),
    decreases n,
{
    if n > 0 {
        lemma_pushes_below(buf_len, (n - 1) as nat);
    }
}

} // verus!
