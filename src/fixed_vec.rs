use crate::descriptor::{array_extent, array_extent_of, record_fields};
use crate::layout::{
    compound_layout, compute, extend_spec, field_offsets, layout_fields, lemma_compound_layout,
    lemma_pow2_pos, lemma_round_up, padded_extent, round_up, Extent, MAX_SIZE,
};
use vstd::prelude::*;

verus! {

/// The shape shared by every record of one container: a header followed by
/// a tail of `tail_len` elements, laid out as one compound.
#[derive(Clone, Copy, Debug)]
pub struct RecordShape {
    header: Extent,
    elem: Extent,
    tail_len: usize,
    tail_offset: usize,
    stride: usize,
}

impl RecordShape {
    pub closed spec fn spec_header_extent(&self) -> Extent {
        self.header
    }

    pub closed spec fn spec_elem_extent(&self) -> Extent {
        self.elem
    }

    /// Number of elements in the tail of every record.
    pub closed spec fn spec_tail_len(&self) -> nat {
        self.tail_len as nat
    }

    /// Byte offset of the tail within a record.
    pub closed spec fn spec_tail_offset(&self) -> nat {
        self.tail_offset as nat
    }

    /// Size in bytes of the header.
    pub closed spec fn spec_header_size(&self) -> nat {
        self.header.size as nat
    }

    /// Size in bytes of the tail.
    pub closed spec fn spec_tail_size(&self) -> nat {
        (self.elem.size * self.tail_len) as nat
    }

    /// Size in bytes of one record, padding included.
    pub closed spec fn spec_stride(&self) -> nat {
        self.stride as nat
    }

    pub closed spec fn wf(&self) -> bool {
        let tail = array_extent(self.elem, self.tail_len);
        &&& tail is Some
        &&& compound_layout(record_fields(self.header, tail->0)) is Some
        &&& self.stride == padded_extent(record_fields(self.header, tail->0)).size
        &&& self.tail_offset == field_offsets(record_fields(self.header, tail->0))[1]
        &&& self.header.size <= self.tail_offset
        &&& self.tail_offset + self.elem.size * self.tail_len <= self.stride
        &&& self.stride <= MAX_SIZE
    }

    /// The shape of records made of a header of extent `header` followed by
    /// `tail_len` elements of extent `elem`; `None` when a record would
    /// exceed `MAX_SIZE`.
    pub fn new(header: Extent, elem: Extent, tail_len: usize) -> (r: Option<RecordShape>)
        requires
            header.wf(),
            elem.wf(),
        ensures
            r is Some <==> array_extent(elem, tail_len) is Some && compound_layout(
                record_fields(header, array_extent(elem, tail_len)->0),
            ) is Some,
            r is Some ==> {
                let s = r->0;
                let fields = record_fields(header, array_extent(elem, tail_len)->0);
                &&& s.wf()
                &&& s.spec_header_extent() == header
                &&& s.spec_elem_extent() == elem
                &&& s.spec_tail_len() == tail_len
                &&& s.spec_stride() == padded_extent(fields).size
                &&& s.spec_tail_offset() == field_offsets(fields)[1]
            },
    {
        let tail = match array_extent_of(elem, tail_len) {
            Some(t) => t,
            None => return None,
        };
        let mut fields: Vec<Extent> = Vec::new();
        fields.push(header);
        fields.push(tail);
        proof {
            assert(fields@ =~= record_fields(header, tail));
        }
        match compute(&fields) {
            None => None,
            Some(l) => {
                proof {
                    lemma_compound_layout(fields@);
                    assert(l.offsets@[0] + fields@[0].size <= l.offsets@[1]);
                    assert(l.offsets@[1] + fields@[1].size <= l.extent.size);
                }
                Some(
                    RecordShape {
                        header,
                        elem,
                        tail_len,
                        tail_offset: l.offsets[1],
                        stride: l.extent.size,
                    },
                )
            },
        }
    }

    /// The shape of fixed-size records of extent `ext`: a header with an
    /// empty tail.
    pub fn fixed(ext: Extent) -> (r: Option<RecordShape>)
        requires
            ext.wf(),
        ensures
            r is Some,
            r->0.wf(),
            r->0.spec_header_extent() == ext,
            r->0.spec_tail_len() == 0,
            r->0.spec_tail_size() == 0,
            r->0.spec_stride() == round_up(ext.size as nat, ext.align as nat),
    {
        let unit = Extent::unit();
        proof {
            let fields = record_fields(ext, unit);
            let a = ext.align as nat;
            lemma_pow2_pos(a);
            lemma_round_up(0, a);
            lemma_round_up(ext.size as nat, 1);
            assert(array_extent(unit, 0) == Some(unit));
            assert(fields.drop_last() =~= seq![ext]);
            assert(seq![ext].drop_last() =~= Seq::<Extent>::empty());
            assert(extend_spec(unit, ext) == Some((ext, 0usize)));
            assert(layout_fields(Seq::<Extent>::empty()) == Some((unit, Seq::<usize>::empty())));
            assert(Seq::<usize>::empty().push(0usize) =~= seq![0usize]);
            assert(layout_fields(seq![ext]) == Some((ext, seq![0usize])));
            assert(seq![0usize].push(ext.size) =~= seq![0usize, ext.size]);
            assert(extend_spec(ext, unit) == Some((ext, ext.size)));
            assert(layout_fields(fields) == Some((ext, seq![0usize, ext.size])));
        }
        RecordShape::new(ext, unit, 0)
    }

    pub fn stride(&self) -> (r: usize)
        requires
            self.wf(),
        ensures
            r == self.spec_stride(),
    {
        self.stride
    }

    pub fn header_size(&self) -> (r: usize)
        requires
            self.wf(),
        ensures
            r == self.spec_header_size(),
    {
        self.header.size
    }

    pub fn tail_offset(&self) -> (r: usize)
        requires
            self.wf(),
        ensures
            r == self.spec_tail_offset(),
    {
        self.tail_offset
    }

    pub fn tail_size(&self) -> (r: usize)
        requires
            self.wf(),
        ensures
            r == self.spec_tail_size(),
    {
        self.elem.size * self.tail_len
    }

    pub fn tail_len(&self) -> (r: usize)
        requires
            self.wf(),
        ensures
            r == self.spec_tail_len(),
    {
        self.tail_len
    }
}

/// `n` zero bytes.
pub open spec fn zeros(n: nat) -> Seq<u8> {
    Seq::new(n, |i: int| 0u8)
}

/// The bytes of one record of `shape`: the header, zero padding up to the
/// tail, the tail, and zero padding up to the stride.
pub open spec fn record_bytes(shape: RecordShape, header: Seq<u8>, tail: Seq<u8>) -> Seq<u8> {
    header + zeros((shape.spec_tail_offset() - shape.spec_header_size()) as nat) + tail + zeros(
        (shape.spec_stride() - shape.spec_tail_offset() - shape.spec_tail_size()) as nat,
    )
}

/// The header bytes of a record of `shape`.
pub open spec fn record_header(shape: RecordShape, rec: Seq<u8>) -> Seq<u8> {
    rec.subrange(0, shape.spec_header_size() as int)
}

/// The tail bytes of a record of `shape`.
pub open spec fn record_tail(shape: RecordShape, rec: Seq<u8>) -> Seq<u8> {
    rec.subrange(
        shape.spec_tail_offset() as int,
        (shape.spec_tail_offset() + shape.spec_tail_size()) as int,
    )
}

/// `bytes` cut into `n` consecutive records of `stride` bytes each.
pub open spec fn chunks(bytes: Seq<u8>, n: nat, stride: nat) -> Seq<Seq<u8>> {
    Seq::new(n, |i: int| bytes.subrange(i * stride, i * stride + stride))
}

/// Cutting a concatenation into records gives the records of each part.
pub proof fn lemma_chunks_append(a: Seq<u8>, b: Seq<u8>, n: nat, m: nat, stride: nat)
    requires
        a.len() == n * stride,
        b.len() == m * stride,
    ensures
        chunks(a + b, n + m, stride) == chunks(a, n, stride) + chunks(b, m, stride),
{
    let l = chunks(a + b, n + m, stride);
    let r = chunks(a, n, stride) + chunks(b, m, stride);
    assert forall|i: int| 0 <= i < n + m implies #[trigger] l[i] == r[i] by {
        if i < n {
            assert(i * stride + stride <= n * stride) by (nonlinear_arith)
                requires
                    0 <= i < n,
            ;
            assert(i * stride >= 0) by (nonlinear_arith)
                requires
                    0 <= i,
            ;
            assert((a + b).subrange(i * stride, i * stride + stride) =~= a.subrange(
                i * stride,
                i * stride + stride,
            ));
        } else {
            let j = i - n;
            assert(i * stride == n * stride + j * stride) by (nonlinear_arith)
                requires
                    j == i - n,
            ;
            assert(j * stride + stride <= m * stride) by (nonlinear_arith)
                requires
                    0 <= j < m,
            ;
            assert(j * stride >= 0) by (nonlinear_arith)
                requires
                    0 <= j,
            ;
            assert((a + b).subrange(i * stride, i * stride + stride) =~= b.subrange(
                j * stride,
                j * stride + stride,
            ));
        }
    }
    assert(l =~= r);
}

/// Cutting the concatenation of records of `stride` bytes gives back the
/// records.
pub proof fn lemma_chunks_flatten(w: Seq<Seq<u8>>, stride: nat)
    requires
        forall|i: int| 0 <= i < w.len() ==> (#[trigger] w[i]).len() == stride,
    ensures
        w.flatten().len() == w.len() * stride,
        chunks(w.flatten(), w.len(), stride) == w,
    decreases w.len(),
{
    if w.len() == 0 {
        assert(chunks(w.flatten(), 0, stride) =~= w);
    } else {
        let rest = w.drop_first();
        assert forall|i: int| 0 <= i < rest.len() implies (#[trigger] rest[i]).len() == stride by {
            assert(rest[i] == w[i + 1]);
        }
        lemma_chunks_flatten(rest, stride);
        assert(w.flatten() == w[0] + rest.flatten());
        assert(w.len() * stride == stride + rest.len() * stride) by (nonlinear_arith)
            requires
                rest.len() == w.len() - 1,
        ;
        assert(1 * stride == stride);
        lemma_chunks_append(w[0], rest.flatten(), 1, rest.len(), stride);
        assert(0 * stride == 0);
        assert(w[0].subrange(0, stride as int) =~= w[0]);
        assert(chunks(w[0], 1, stride) =~= seq![w[0]]);
        assert(seq![w[0]] + rest =~= w);
    }
}

/// A record built from a header and a tail holds them back: its header
/// bytes are the header and its tail bytes are the tail.
pub proof fn lemma_record_parts(shape: RecordShape, header: Seq<u8>, tail: Seq<u8>)
    requires
        shape.wf(),
        header.len() == shape.spec_header_size(),
        tail.len() == shape.spec_tail_size(),
    ensures
        record_bytes(shape, header, tail).len() == shape.spec_stride(),
        record_header(shape, record_bytes(shape, header, tail)) == header,
        record_tail(shape, record_bytes(shape, header, tail)) == tail,
{
    reveal(RecordShape::wf);
    let rec = record_bytes(shape, header, tail);
    assert(record_header(shape, rec) =~= header);
    assert(record_tail(shape, rec) =~= tail);
}

/// A growable container of records that share one shape. Records are kept
/// as bytes, one after another, each `stride` bytes long; only whole
/// records are ever added, so every byte before `len * stride` belongs to
/// an initialized record.
pub struct FixedVec {
    shape: RecordShape,
    data: Vec<u8>,
    len: usize,
    cap: usize,
}

impl FixedVec {
    pub closed spec fn shape(&self) -> RecordShape {
        self.shape
    }

    /// Number of records.
    pub closed spec fn spec_len(&self) -> nat {
        self.len as nat
    }

    /// Number of records that fit before the container grows.
    pub closed spec fn spec_capacity(&self) -> nat {
        self.cap as nat
    }

    /// The bytes of all records, in order.
    pub closed spec fn bytes(&self) -> Seq<u8> {
        self.data@
    }

    /// The records, each as its bytes.
    pub open spec fn records(&self) -> Seq<Seq<u8>> {
        chunks(self.bytes(), self.spec_len(), self.shape().spec_stride())
    }

    pub closed spec fn wf(&self) -> bool {
        &&& self.shape.wf()
        &&& self.data@.len() == self.len * self.shape.spec_stride()
        &&& self.len <= self.cap
        &&& self.cap * self.shape.spec_stride() <= MAX_SIZE
    }

    /// An empty container for records of `shape`, with room for `capacity`
    /// records.
    pub fn with_capacity(shape: RecordShape, capacity: usize) -> (r: FixedVec)
        requires
            shape.wf(),
            capacity * shape.spec_stride() <= MAX_SIZE,
        ensures
            r.wf(),
            r.shape() == shape,
            r.spec_len() == 0,
            r.spec_capacity() == capacity,
            r.records() == Seq::<Seq<u8>>::empty(),
    {
        let data: Vec<u8> = Vec::with_capacity(capacity * shape.stride());
        let r = FixedVec { shape, data, len: 0, cap: capacity };
        proof {
            assert(r.records() =~= Seq::<Seq<u8>>::empty());
        }
        r
    }

    /// An empty container for records of `shape`.
    pub fn new(shape: RecordShape) -> (r: FixedVec)
        requires
            shape.wf(),
        ensures
            r.wf(),
            r.shape() == shape,
            r.spec_len() == 0,
            r.records() == Seq::<Seq<u8>>::empty(),
    {
        FixedVec::with_capacity(shape, 0)
    }

    pub fn len(&self) -> (r: usize)
        requires
            self.wf(),
        ensures
            r == self.spec_len(),
    {
        self.len
    }

    pub fn is_empty(&self) -> (r: bool)
        requires
            self.wf(),
        ensures
            r == (self.spec_len() == 0),
    {
        self.len == 0
    }

    pub fn capacity(&self) -> (r: usize)
        requires
            self.wf(),
        ensures
            r == self.spec_capacity(),
    {
        self.cap
    }

    pub fn record_shape(&self) -> (r: RecordShape)
        requires
            self.wf(),
        ensures
            r == self.shape(),
    {
        self.shape
    }

    /// The bytes of all records, in order, as handed to a bulk write.
    pub fn as_bytes(&self) -> (r: &[u8])
        requires
            self.wf(),
        ensures
            r@ == self.bytes(),
            r@.len() == self.spec_len() * self.shape().spec_stride(),
    {
        self.data.as_slice()
    }

    /// Grows the capacity so that at least `additional` more records fit;
    /// never shrinks it, and leaves the records as they are.
    pub fn reserve(&mut self, additional: usize)
        requires
            old(self).wf(),
            old(self).spec_len() + additional <= usize::MAX,
            (old(self).spec_len() + additional) * old(self).shape().spec_stride() <= MAX_SIZE,
        ensures
            final(self).wf(),
            final(self).shape() == old(self).shape(),
            final(self).spec_len() == old(self).spec_len(),
            final(self).records() == old(self).records(),
            final(self).bytes() == old(self).bytes(),
            final(self).spec_capacity() >= old(self).spec_len() + additional,
            final(self).spec_capacity() >= old(self).spec_capacity(),
    {
        let want = self.len + additional;
        if want > self.cap {
            proof {
                let stride = self.shape.spec_stride();
                assert(additional * stride <= (self.len + additional) * stride) by (nonlinear_arith);
            }
            self.data.reserve(additional * self.shape.stride());
            self.cap = want;
        }
    }

    /// Removes every record; the capacity stays.
    pub fn clear(&mut self)
        requires
            old(self).wf(),
        ensures
            final(self).wf(),
            final(self).shape() == old(self).shape(),
            final(self).spec_len() == 0,
            final(self).records() == Seq::<Seq<u8>>::empty(),
            final(self).spec_capacity() == old(self).spec_capacity(),
    {
        self.data.clear();
        self.len = 0;
        proof {
            assert(self.records() =~= Seq::<Seq<u8>>::empty());
        }
    }

    /// Makes room for one more record, doubling the capacity when it is
    /// reached (or growing it by one where doubling would not fit).
    fn grow_for_one(&mut self)
        requires
            old(self).wf(),
            old(self).spec_len() + 1 <= usize::MAX,
            (old(self).spec_len() + 1) * old(self).shape().spec_stride() <= MAX_SIZE,
        ensures
            final(self).wf(),
            final(self).shape() == old(self).shape(),
            final(self).spec_len() == old(self).spec_len(),
            final(self).bytes() == old(self).bytes(),
            final(self).spec_len() < final(self).spec_capacity(),
            final(self).spec_capacity() >= old(self).spec_capacity(),
    {
        if self.len == self.cap {
            let stride = self.shape.stride();
            let extra: usize = if self.cap == 0 {
                1
            } else {
                self.cap
            };
            let fits = match self.cap.checked_add(extra) {
                Some(n) => match n.checked_mul(stride) {
                    Some(b) => b <= MAX_SIZE,
                    None => false,
                },
                None => false,
            };
            if fits {
                self.reserve(extra);
            } else {
                self.reserve(1);
            }
        }
    }

    /// Appends a record built from `header` and `tail`: the header at the
    /// start, the tail at the tail offset, and zero bytes in the padding.
    /// The container grows first when it is full, so its length never
    /// exceeds its capacity.
    pub fn push_with(&mut self, header: &[u8], tail: &[u8])
        requires
            old(self).wf(),
            header@.len() == old(self).shape().spec_header_size(),
            tail@.len() == old(self).shape().spec_tail_size(),
            old(self).spec_len() + 1 <= usize::MAX,
            (old(self).spec_len() + 1) * old(self).shape().spec_stride() <= MAX_SIZE,
        ensures
            final(self).wf(),
            final(self).shape() == old(self).shape(),
            final(self).spec_len() == old(self).spec_len() + 1,
            final(self).spec_len() <= final(self).spec_capacity(),
            final(self).spec_capacity() >= old(self).spec_capacity(),
            final(self).records() == old(self).records().push(
                record_bytes(old(self).shape(), header@, tail@),
            ),
    {
        self.grow_for_one();
        let ghost before = self.data@;
        let shape = self.shape;
        proof {
            reveal(RecordShape::wf);
        }
        push_bytes(&mut self.data, header);
        push_zeros(&mut self.data, shape.tail_offset() - shape.header_size());
        push_bytes(&mut self.data, tail);
        push_zeros(&mut self.data, shape.stride() - shape.tail_offset() - shape.tail_size());
        proof {
            let rec = record_bytes(shape, header@, tail@);
            assert(self.data@ =~= before + rec);
            lemma_record_parts(shape, header@, tail@);
            lemma_chunks_append(before, rec, self.len as nat, 1, shape.spec_stride());
            assert(0 * shape.spec_stride() == 0);
            assert(rec.subrange(0, rec.len() as int) =~= rec);
            assert(chunks(rec, 1, shape.spec_stride()) =~= seq![rec]);
            assert(self.data@.len() == (self.len + 1) * shape.spec_stride()) by (nonlinear_arith)
                requires
                    self.data@.len() == before.len() + shape.spec_stride(),
                    before.len() == self.len * shape.spec_stride(),
            ;
        }
        self.len = self.len + 1;
    }

    /// Appends a copy of `record`, a whole record of this container's shape.
    pub fn push_clone(&mut self, record: &[u8])
        requires
            old(self).wf(),
            record@.len() == old(self).shape().spec_stride(),
            old(self).spec_len() + 1 <= usize::MAX,
            (old(self).spec_len() + 1) * old(self).shape().spec_stride() <= MAX_SIZE,
        ensures
            final(self).wf(),
            final(self).shape() == old(self).shape(),
            final(self).spec_len() == old(self).spec_len() + 1,
            final(self).spec_len() <= final(self).spec_capacity(),
            final(self).spec_capacity() >= old(self).spec_capacity(),
            final(self).records() == old(self).records().push(record@),
    {
        self.grow_for_one();
        let ghost before = self.data@;
        push_bytes(&mut self.data, record);
        proof {
            let stride = self.shape.spec_stride();
            lemma_chunks_append(before, record@, self.len as nat, 1, stride);
            assert(0 * stride == 0);
            assert(record@.subrange(0, record@.len() as int) =~= record@);
            assert(chunks(record@, 1, stride) =~= seq![record@]);
            assert(self.data@.len() == (self.len + 1) * stride) by (nonlinear_arith)
                requires
                    self.data@.len() == before.len() + stride,
                    before.len() == self.len * stride,
            ;
        }
        self.len = self.len + 1;
    }

    /// Appends `count` records whose bytes were filled by other means (a
    /// bulk read). Returns `false`, changing nothing, unless `bytes` holds
    /// exactly `count` records.
    pub fn append_raw(&mut self, count: usize, bytes: &[u8]) -> (r: bool)
        requires
            old(self).wf(),
        ensures
            final(self).wf(),
            final(self).shape() == old(self).shape(),
            r == (bytes@.len() == count * old(self).shape().spec_stride() && old(self).spec_len()
                + count <= usize::MAX && (old(self).spec_len() + count) * old(
                self,
            ).shape().spec_stride() <= MAX_SIZE),
            r ==> final(self).spec_len() == old(self).spec_len() + count,
            r ==> final(self).records() == old(self).records() + chunks(
                bytes@,
                count as nat,
                old(self).shape().spec_stride(),
            ),
            r ==> final(self).spec_capacity() >= final(self).spec_len(),
            !r ==> *final(self) == *old(self),
    {
        let stride = self.shape.stride();
        let blen = bytes.len();
        proof {
            self.lemma_size_bound();
        }
        let total = match count.checked_mul(stride) {
            Some(t) => t,
            None => return false,
        };
        if blen != total {
            return false;
        }
        if self.len.checked_add(count).is_none() {
            return false;
        }
        proof {
            assert((self.len + count) * stride == self.len * stride + count * stride)
                by (nonlinear_arith);
        }
        if total > MAX_SIZE - self.data.len() {
            return false;
        }
        self.reserve(count);
        let ghost before = self.data@;
        push_bytes(&mut self.data, bytes);
        proof {
            lemma_chunks_append(before, bytes@, self.len as nat, count as nat, stride as nat);
        }
        self.len = self.len + count;
        true
    }

    proof fn lemma_size_bound(&self)
        requires
            self.wf(),
        ensures
            self.spec_len() * self.shape().spec_stride() <= MAX_SIZE,
            self.spec_len() <= self.spec_capacity(),
    {
        let s = self.shape.spec_stride();
        assert(self.len * s <= self.cap * s) by (nonlinear_arith)
            requires
                self.len <= self.cap,
        ;
    }

    /// The bytes of record `index`, if there is one.
    pub fn get(&self, index: usize) -> (r: Option<Vec<u8>>)
        requires
            self.wf(),
        ensures
            r is Some <==> index < self.spec_len(),
            r is Some ==> r->0@ == self.records()[index as int],
    {
        if index < self.len {
            Some(self.get_unchecked(index))
        } else {
            None
        }
    }

    /// The bytes of record `index`, which the caller has checked is in
    /// range.
    pub fn get_unchecked(&self, index: usize) -> (r: Vec<u8>)
        requires
            self.wf(),
            index < self.spec_len(),
        ensures
            r@ == self.records()[index as int],
    {
        let stride = self.shape.stride();
        proof {
            lemma_in_bounds(index as nat, self.len as nat, stride as nat);
            self.lemma_size_bound();
        }
        copy_range(&self.data, index * stride, index * stride + stride)
    }

    /// The header bytes of record `index`.
    pub fn header(&self, index: usize) -> (r: Vec<u8>)
        requires
            self.wf(),
            index < self.spec_len(),
        ensures
            r@ == record_header(self.shape(), self.records()[index as int]),
    {
        let stride = self.shape.stride();
        proof {
            reveal(RecordShape::wf);
            lemma_in_bounds(index as nat, self.len as nat, stride as nat);
            self.lemma_size_bound();
        }
        let start = index * stride;
        let r = copy_range(&self.data, start, start + self.shape.header_size());
        proof {
            assert(r@ =~= record_header(self.shape(), self.records()[index as int]));
        }
        r
    }

    /// The tail bytes of record `index`.
    pub fn tail(&self, index: usize) -> (r: Vec<u8>)
        requires
            self.wf(),
            index < self.spec_len(),
        ensures
            r@ == record_tail(self.shape(), self.records()[index as int]),
    {
        let stride = self.shape.stride();
        proof {
            reveal(RecordShape::wf);
            lemma_in_bounds(index as nat, self.len as nat, stride as nat);
            self.lemma_size_bound();
        }
        let start = index * stride + self.shape.tail_offset();
        let r = copy_range(&self.data, start, start + self.shape.tail_size());
        proof {
            assert(r@ =~= record_tail(self.shape(), self.records()[index as int]));
        }
        r
    }
}

/// Capacity law: a well-formed container never holds more records than its
/// capacity, whatever sequence of `push_with` calls led to it.
pub proof fn lemma_len_within_capacity(v: &FixedVec)
    requires
        v.wf(),
    ensures
        v.spec_len() <= v.spec_capacity(),
        v.bytes().len() == v.spec_len() * v.shape().spec_stride(),
{
}

/// The records of `shape` pushed from the given headers and tails, in
/// order.
pub open spec fn pushed(shape: RecordShape, headers: Seq<Seq<u8>>, tails: Seq<Seq<u8>>) -> Seq<
    Seq<u8>,
> {
    Seq::new(headers.len(), |i: int| record_bytes(shape, headers[i], tails[i]))
}

/// Round-trip law: for a container whose records were pushed from the
/// given headers and tails, cutting its bytes (as one bulk write stores them
/// and one bulk read of all records returns them, which is what
/// `append_raw` takes) back into records yields every header and every tail
/// byte for byte.
pub proof fn lemma_round_trip(v: FixedVec, headers: Seq<Seq<u8>>, tails: Seq<Seq<u8>>)
    requires
        v.wf(),
        headers.len() == tails.len(),
        forall|i: int|
            0 <= i < headers.len() ==> (#[trigger] headers[i]).len() == v.shape().spec_header_size(),
        forall|i: int|
            0 <= i < tails.len() ==> (#[trigger] tails[i]).len() == v.shape().spec_tail_size(),
        v.records() == pushed(v.shape(), headers, tails),
    ensures
        ({
            let back = chunks(v.bytes(), headers.len(), v.shape().spec_stride());
            &&& back.len() == headers.len()
            &&& forall|i: int|
                0 <= i < headers.len() ==> record_header(v.shape(), #[trigger] back[i])
                    == headers[i] && record_tail(v.shape(), back[i]) == tails[i]
        }),
{
    let back = chunks(v.bytes(), headers.len(), v.shape().spec_stride());
    assert(v.records().len() == headers.len());
    assert(v.spec_len() == headers.len());
    assert forall|i: int| 0 <= i < headers.len() implies record_header(
        v.shape(),
        #[trigger] back[i],
    ) == headers[i] && record_tail(v.shape(), back[i]) == tails[i] by {
        assert(back[i] == v.records()[i]);
        lemma_record_parts(v.shape(), headers[i], tails[i]);
    }
}

proof fn lemma_in_bounds(i: nat, n: nat, s: nat)
    requires
        i < n,
    ensures
        i * s + s <= n * s,
        0 <= i * s,
{
    assert(i * s + s <= n * s) by (nonlinear_arith)
        requires
            i < n,
    ;
}

fn push_bytes(dst: &mut Vec<u8>, src: &[u8])
    ensures
        final(dst)@ == old(dst)@ + src@,
{
    let mut i: usize = 0;
    let ghost start = dst@;
    while i < src.len()
        invariant
            i <= src@.len(),
            dst@ == start + src@.subrange(0, i as int),
        decreases src@.len() - i,
    {
        dst.push(src[i]);
        i = i + 1;
        proof {
            assert(src@.subrange(0, i as int) =~= src@.subrange(0, i - 1).push(src@[i - 1]));
        }
    }
    proof {
        assert(src@.subrange(0, src@.len() as int) =~= src@);
    }
}

fn push_zeros(dst: &mut Vec<u8>, n: usize)
    ensures
        final(dst)@ == old(dst)@ + zeros(n as nat),
{
    let mut i: usize = 0;
    let ghost start = dst@;
    while i < n
        invariant
            i <= n,
            dst@ == start + zeros(i as nat),
        decreases n - i,
    {
        dst.push(0u8);
        i = i + 1;
        proof {
            assert(zeros(i as nat) =~= zeros((i - 1) as nat).push(0u8));
        }
    }
}

fn copy_range(src: &Vec<u8>, start: usize, end: usize) -> (r: Vec<u8>)
    requires
        start <= end <= src@.len(),
    ensures
        r@ == src@.subrange(start as int, end as int),
{
    let mut r: Vec<u8> = Vec::with_capacity(end - start);
    let mut i: usize = start;
    while i < end
        invariant
            start <= i <= end <= src@.len(),
            r@ == src@.subrange(start as int, i as int),
        decreases end - i,
    {
        r.push(src[i]);
        i = i + 1;
        proof {
            assert(src@.subrange(start as int, i as int) =~= src@.subrange(
                start as int,
                i - 1,
            ).push(src@[i - 1]));
        }
    }
    r
}

} // verus!
