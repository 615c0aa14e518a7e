use crate::descriptor::{
    array_extent, is_record_descriptor, record_fields, unsized_slice_descriptor, TypeDescriptor,
};
use crate::fixed_vec::{chunks, lemma_chunks_flatten, FixedVec};
use crate::layout::{compound_layout, Extent, MAX_SIZE};
use vstd::prelude::*;
use vstd::string::StrSliceExecFns;

verus! {

/// The engine's code for an identifier that refers to no object.
pub const BAD_ID: i32 = -1;

/// The packet type of a packet table.
#[derive(Clone, Copy, Debug, PartialEq, Eq, Structural)]
pub enum PacketTableType {
    /// Fixed-length packets.
    Fixed,
    /// Variable-length packets.
    VarLen,
}

impl PacketTableType {
    /// The packet type that the storage engine reports as `raw`: 0 for
    /// fixed-length packets, 1 for variable-length ones; a negative value is
    /// an engine failure, any other value is not a packet type.
    pub open spec fn spec_from_raw(raw: i32) -> Result<PacketTableType, TableError> {
        if raw == 0 {
            Ok(PacketTableType::Fixed)
        } else if raw == 1 {
            Ok(PacketTableType::VarLen)
        } else if raw < 0 {
            Err(TableError::Engine)
        } else {
            Err(TableError::Invalid)
        }
    }

    pub fn from_raw(raw: i32) -> (r: Result<PacketTableType, TableError>)
        ensures
            r == PacketTableType::spec_from_raw(raw),
            raw == 0 <==> r == Ok::<PacketTableType, TableError>(PacketTableType::Fixed),
            raw == 1 <==> r == Ok::<PacketTableType, TableError>(PacketTableType::VarLen),
            raw < 0 <==> r == Err::<PacketTableType, TableError>(TableError::Engine),
            (raw > 1) <==> r == Err::<PacketTableType, TableError>(TableError::Invalid),
    {
        if raw == 0 {
            Ok(PacketTableType::Fixed)
        } else if raw == 1 {
            Ok(PacketTableType::VarLen)
        } else if raw < 0 {
            Err(TableError::Engine)
        } else {
            Err(TableError::Invalid)
        }
    }
}

/// Why an operation on a table failed.
#[derive(Clone, Copy, Debug, PartialEq, Eq, Structural)]
pub enum TableError {
    /// No chunk size and no chunking property at creation.
    Configuration,
    /// A name that the engine cannot take as a path string.
    NameEncoding,
    /// The storage engine reported a failure.
    Engine,
    /// A read past the table's current number of records.
    Bounds,
    /// The handle or a value from the engine is not a valid table object.
    Invalid,
}

/// What the library knows of a dataset-creation property list: the
/// engine's identifier for it and the chunk size it sets, if any.
#[derive(Clone, Copy, Debug)]
pub struct PropertyList {
    pub id: i64,
    pub chunk: Option<usize>,
}

/// `name` holds no NUL character, so it can be passed as a C string.
pub open spec fn encodable_name(name: Seq<char>) -> bool {
    forall|i: int| 0 <= i < name.len() ==> name[i] != '\0'
}

/// Whether creation has the chunking it needs: a chunk size, or a property
/// list that sets one.
pub open spec fn has_chunking(chunk: Option<usize>, plist: Option<PropertyList>) -> bool {
    chunk is Some || (plist is Some && plist->0.chunk is Some)
}

fn check_name(name: &str) -> (r: bool)
    ensures
        r == encodable_name(name@),
{
    let n = name.unicode_len();
    let mut i: usize = 0;
    while i < n
        invariant
            i <= n,
            n == name@.len(),
            forall|j: int| 0 <= j < i ==> name@[j] != '\0',
        decreases n - i,
    {
        if name.get_char(i) == '\0' {
            return false;
        }
        i = i + 1;
    }
    true
}

/// The request that the storage engine carries out to create a table.
#[derive(Debug)]
pub struct CreateRequest {
    /// Identifier of the group the table is created in.
    pub loc: i64,
    pub name: String,
    pub dtype: TypeDescriptor,
    /// Chunk size, 0 where the property list gives it.
    pub chunk: usize,
    /// Identifier of the property list, if one was set.
    pub plist: Option<i64>,
}

/// A builder of a packet table that has no type yet. It needs a chunk size
/// or a property list that sets one; the chunk size wins over the list.
#[derive(Clone, Copy, Debug)]
pub struct PacketTableBuilder {
    pub loc: i64,
    pub chunk: Option<usize>,
    pub plist: Option<PropertyList>,
}

impl PacketTableBuilder {
    /// A builder of a table in the group `loc`, with neither chunk size nor
    /// property list.
    pub fn new(loc: i64) -> (r: PacketTableBuilder)
        ensures
            r.loc == loc,
            r.chunk is None,
            r.plist is None,
    {
        PacketTableBuilder { loc, chunk: None, plist: None }
    }

    /// Sets the property list.
    pub fn plist(self, plist: PropertyList) -> (r: PacketTableBuilder)
        ensures
            r == (PacketTableBuilder { plist: Some(plist), ..self }),
    {
        PacketTableBuilder { plist: Some(plist), ..self }
    }

    /// Sets the chunk size.
    pub fn chunk(self, chunk: usize) -> (r: PacketTableBuilder)
        ensures
            r == (PacketTableBuilder { chunk: Some(chunk), ..self }),
    {
        PacketTableBuilder { chunk: Some(chunk), ..self }
    }

    /// Gives the table the type `dtype`.
    pub fn dtype_as(self, dtype: TypeDescriptor) -> (r: PacketTableBuilderTyped)
        ensures
            r.builder == self,
            r.dtype == dtype,
    {
        PacketTableBuilderTyped { builder: self, dtype }
    }

    /// Gives the table the type of records made of a header followed by
    /// `len` elements; `None` when such a record would be too large.
    pub fn dtype_unsized(
        self,
        header: TypeDescriptor,
        header_extent: Extent,
        elem: TypeDescriptor,
        elem_extent: Extent,
        len: usize,
    ) -> (r: Option<PacketTableBuilderTyped>)
        requires
            header_extent.wf(),
            elem_extent.wf(),
        ensures
            r is Some <==> array_extent(elem_extent, len) is Some && compound_layout(
                record_fields(header_extent, array_extent(elem_extent, len)->0),
            ) is Some,
            r is Some ==> r->0.builder == self && is_record_descriptor(
                r->0.dtype,
                header,
                header_extent,
                seq!['s', 'l', 'i', 'c', 'e'],
                TypeDescriptor::FixedArray(Box::new(elem), len),
                array_extent(elem_extent, len)->0,
            ),
    {
        match unsized_slice_descriptor(header, header_extent, elem, elem_extent, len) {
            Some(d) => Some(self.dtype_as(d.0)),
            None => None,
        }
    }

    /// Checks the creation settings and, when they are complete, gives the
    /// request for the engine. Fails with `Configuration` when there is
    /// neither a chunk size nor a property list that sets one, and with
    /// `NameEncoding` when `name` holds a NUL character; both before any
    /// request exists.
    pub fn create(self, name: &str, dtype: TypeDescriptor) -> (r: Result<
        CreateRequest,
        TableError,
    >)
        ensures
            !has_chunking(self.chunk, self.plist) <==> r == Err::<CreateRequest, TableError>(
                TableError::Configuration,
            ),
            has_chunking(self.chunk, self.plist) && !encodable_name(name@) <==> r
                == Err::<CreateRequest, TableError>(TableError::NameEncoding),
            r is Ok <==> has_chunking(self.chunk, self.plist) && encodable_name(name@),
            r is Ok ==> {
                let q = r->Ok_0;
                &&& q.loc == self.loc
                &&& q.name@ == name@
                &&& q.dtype == dtype
                &&& q.chunk == (match self.chunk {
                    Some(c) => c,
                    None => 0,
                })
                &&& q.plist == (match self.plist {
                    Some(p) => Some(p.id),
                    None => None,
                })
            },
    {
        let chunked = match self.chunk {
            Some(_) => true,
            None => match self.plist {
                Some(p) => p.chunk.is_some(),
                None => false,
            },
        };
        if !chunked {
            return Err(TableError::Configuration);
        }
        if !check_name(name) {
            return Err(TableError::NameEncoding);
        }
        let chunk = match self.chunk {
            Some(c) => c,
            None => 0,
        };
        let plist = match self.plist {
            Some(p) => Some(p.id),
            None => None,
        };
        Ok(CreateRequest { loc: self.loc, name: name.to_owned(), dtype, chunk, plist })
    }
}

/// A builder of a packet table with its type.
#[derive(Debug)]
pub struct PacketTableBuilderTyped {
    pub builder: PacketTableBuilder,
    pub dtype: TypeDescriptor,
}

impl PacketTableBuilderTyped {
    /// Sets the property list.
    pub fn plist(self, plist: PropertyList) -> (r: PacketTableBuilderTyped)
        ensures
            r.builder == (PacketTableBuilder { plist: Some(plist), ..self.builder }),
            r.dtype == self.dtype,
    {
        PacketTableBuilderTyped { builder: self.builder.plist(plist), dtype: self.dtype }
    }

    /// Sets the chunk size.
    pub fn chunk(self, chunk: usize) -> (r: PacketTableBuilderTyped)
        ensures
            r.builder == (PacketTableBuilder { chunk: Some(chunk), ..self.builder }),
            r.dtype == self.dtype,
    {
        PacketTableBuilderTyped { builder: self.builder.chunk(chunk), dtype: self.dtype }
    }

    /// Checks the settings and gives the creation request; see
    /// `PacketTableBuilder::create`.
    pub fn create(self, name: &str) -> (r: Result<CreateRequest, TableError>)
        ensures
            !has_chunking(self.builder.chunk, self.builder.plist) <==> r == Err::<
                CreateRequest,
                TableError,
            >(TableError::Configuration),
            has_chunking(self.builder.chunk, self.builder.plist) && !encodable_name(
                name@,
            ) <==> r == Err::<CreateRequest, TableError>(TableError::NameEncoding),
            r is Ok <==> has_chunking(self.builder.chunk, self.builder.plist) && encodable_name(
                name@,
            ),
            r is Ok ==> {
                let q = r->Ok_0;
                &&& q.loc == self.builder.loc
                &&& q.name@ == name@
                &&& q.dtype == self.dtype
                &&& q.chunk == (match self.builder.chunk {
                    Some(c) => c,
                    None => 0,
                })
                &&& q.plist == (match self.builder.plist {
                    Some(p) => Some(p.id),
                    None => None,
                })
            },
    {
        self.builder.create(name, self.dtype)
    }
}

/// A window of records to read: `len` records from index `start`.
#[derive(Clone, Copy, Debug, PartialEq, Eq, Structural)]
pub struct ReadRequest {
    pub start: u64,
    pub len: usize,
}

/// Handle of an open packet table: the engine's identifier and the read
/// cursor used by sequential reads. Writes always go to the end of the
/// table; the cursor only moves through `read_next_unsized`, `set_index`
/// and `reset_index`.
#[derive(Debug)]
pub struct PacketTable {
    id: i64,
    index: u64,
}

impl PacketTable {
    pub closed spec fn spec_id(&self) -> i64 {
        self.id
    }

    /// The read cursor.
    pub closed spec fn spec_index(&self) -> u64 {
        self.index
    }

    /// The handle of the table that the engine knows as `id`, with its
    /// cursor at 0.
    pub fn from_id(id: i64) -> (r: PacketTable)
        ensures
            r.spec_id() == id,
            r.spec_index() == 0,
    {
        PacketTable { id, index: 0 }
    }

    /// A builder of a table in the group `loc`.
    pub fn builder(loc: i64) -> (r: PacketTableBuilder)
        ensures
            r.loc == loc,
            r.chunk is None,
            r.plist is None,
    {
        PacketTableBuilder::new(loc)
    }

    /// A cursor over the records one by one, starting at the first; the
    /// table's own read cursor is not involved.
    pub fn iter(&self) -> (r: TableIter)
        ensures
            r.next == 0,
    {
        TableIter::new()
    }

    /// The packet type, from the engine's answer `raw`; see
    /// `PacketTableType::from_raw`.
    pub fn table_type(&self, raw: i32) -> (r: Result<PacketTableType, TableError>)
        ensures
            r == PacketTableType::spec_from_raw(raw),
    {
        PacketTableType::from_raw(raw)
    }

    pub fn id(&self) -> (r: i64)
        ensures
            r == self.spec_id(),
    {
        self.id
    }

    /// The read cursor.
    pub fn index(&self) -> (r: u64)
        ensures
            r == self.spec_index(),
    {
        self.index
    }

    /// Moves the read cursor back to 0.
    pub fn reset_index(&mut self)
        ensures
            final(self).spec_index() == 0,
            final(self).spec_id() == old(self).spec_id(),
    {
        self.index = 0;
    }

    /// Moves the read cursor to `index`.
    pub fn set_index(&mut self, index: u64)
        ensures
            final(self).spec_index() == index,
            final(self).spec_id() == old(self).spec_id(),
    {
        self.index = index;
    }

    /// The object type of the handle, given the engine's answer `raw` for
    /// its identifier and `ntypes`, the number of object types the engine
    /// knows: `BAD_ID` for a non-positive identifier or an answer out of
    /// range, the answer otherwise.
    pub fn id_type(&self, raw: i32, ntypes: i32) -> (r: i32)
        ensures
            r == if self.spec_id() <= 0 || raw <= BAD_ID || raw >= ntypes {
                BAD_ID
            } else {
                raw
            },
    {
        if self.id <= 0 {
            BAD_ID
        } else if raw > BAD_ID && raw < ntypes {
            raw
        } else {
            BAD_ID
        }
    }

    /// Checks the engine's answer to a validity query: a negative answer
    /// means the identifier no longer refers to a live table.
    pub fn validate(&self, raw: i32) -> (r: Result<(), TableError>)
        ensures
            raw >= 0 <==> r is Ok,
            raw < 0 <==> r == Err::<(), TableError>(TableError::Invalid),
    {
        if raw >= 0 {
            Ok(())
        } else {
            Err(TableError::Invalid)
        }
    }

    /// The window of `len` records from `start`, in a table that holds
    /// `num_packets` records; `Bounds` when it runs past the end. The
    /// cursor is not involved.
    pub fn read(&self, start: u64, len: usize, num_packets: u64) -> (r: Result<
        ReadRequest,
        TableError,
    >)
        ensures
            r is Ok <==> start + len <= num_packets,
            r is Ok ==> r->Ok_0 == (ReadRequest { start, len }),
            r is Err ==> r == Err::<ReadRequest, TableError>(TableError::Bounds),
    {
        if start > num_packets || len as u64 > num_packets - start {
            Err(TableError::Bounds)
        } else {
            Ok(ReadRequest { start, len })
        }
    }

    /// The window of `len` records at the cursor, in a table that holds
    /// `num_packets` records; `Bounds` when it runs past the end.
    pub fn read_next(&self, len: usize, num_packets: u64) -> (r: Result<
        ReadRequest,
        TableError,
    >)
        ensures
            r is Ok <==> self.spec_index() + len <= num_packets,
            r is Ok ==> r->Ok_0 == (ReadRequest { start: self.spec_index(), len }),
            r is Err ==> r == Err::<ReadRequest, TableError>(TableError::Bounds),
    {
        self.read(self.index, len, num_packets)
    }

    /// Stores the records that the engine returned for `req` at the end of
    /// `buffer`. An engine failure, or bytes that are not `req.len` records
    /// of the buffer's shape, leave the buffer as it was. The cursor is not
    /// involved.
    pub fn read_unsized(
        &self,
        req: ReadRequest,
        fetched: Result<Vec<u8>, TableError>,
        buffer: &mut FixedVec,
    ) -> (r: Result<(), TableError>)
        requires
            old(buffer).wf(),
        ensures
            final(buffer).wf(),
            final(buffer).shape() == old(buffer).shape(),
            fetched is Err ==> r == Err::<(), TableError>(fetched->Err_0) && *final(buffer) == *old(buffer),
            fetched is Ok ==> (r is Ok <==> fills(*old(buffer), req, fetched->Ok_0@)),
            r is Ok ==> final(buffer).records() == old(buffer).records() + chunks(
                fetched->Ok_0@,
                req.len as nat,
                old(buffer).shape().spec_stride(),
            ),
            r is Err ==> *final(buffer) == *old(buffer),
            fetched is Ok && r is Err ==> r == Err::<(), TableError>(TableError::Engine),
    {
        match fetched {
            Err(e) => Err(e),
            Ok(bytes) => {
                if buffer.append_raw(req.len, bytes.as_slice()) {
                    Ok(())
                } else {
                    Err(TableError::Engine)
                }
            },
        }
    }

    /// Like `read_unsized` for a window at the cursor; on success the cursor
    /// moves past the window.
    pub fn read_next_unsized(
        &mut self,
        req: ReadRequest,
        fetched: Result<Vec<u8>, TableError>,
        buffer: &mut FixedVec,
    ) -> (r: Result<(), TableError>)
        requires
            old(buffer).wf(),
            req.start == old(self).spec_index(),
            old(self).spec_index() + req.len <= u64::MAX,
        ensures
            final(buffer).wf(),
            final(buffer).shape() == old(buffer).shape(),
            final(self).spec_id() == old(self).spec_id(),
            fetched is Err ==> r == Err::<(), TableError>(fetched->Err_0),
            fetched is Ok ==> (r is Ok <==> fills(*old(buffer), req, fetched->Ok_0@)),
            r is Ok ==> final(buffer).records() == old(buffer).records() + chunks(
                fetched->Ok_0@,
                req.len as nat,
                old(buffer).shape().spec_stride(),
            ),
            r is Ok ==> final(self).spec_index() == old(self).spec_index() + req.len,
            r is Err ==> *final(buffer) == *old(buffer) && final(self).spec_index() == old(
                self,
            ).spec_index(),
    {
        let r = self.read_unsized(req, fetched, buffer);
        if r.is_ok() {
            self.index = self.index + req.len as u64;
        }
        r
    }
}

/// The engine's bytes for `req` fit in `buffer`: exactly `req.len` records
/// of its shape, within the size limits.
pub open spec fn fills(buffer: FixedVec, req: ReadRequest, bytes: Seq<u8>) -> bool {
    let stride = buffer.shape().spec_stride();
    &&& bytes.len() == req.len * stride
    &&& buffer.spec_len() + req.len <= usize::MAX
    &&& (buffer.spec_len() + req.len) * stride <= MAX_SIZE
}

/// The records that `k` successive sequential reads of `len` records each
/// return from a table holding `contents`, with the cursor starting at
/// `start`, concatenated; and where the cursor ends.
pub open spec fn read_next_k(contents: Seq<Seq<u8>>, start: nat, len: nat, k: nat) -> (Seq<
    Seq<u8>,
>, nat)
    decreases k,
{
    if k == 0 {
        (Seq::empty(), start)
    } else {
        let prev = read_next_k(contents, start, len, (k - 1) as nat);
        (prev.0 + contents.subrange(prev.1 as int, (prev.1 + len) as int), prev.1 + len)
    }
}

/// Sequential-read law: `k` reads of `len` records from cursor `start`
/// advance the cursor by `k * len` and return consecutive, non-overlapping
/// windows whose concatenation is the single window of `k * len` records
/// at `start`.
pub proof fn lemma_read_next_windows(contents: Seq<Seq<u8>>, start: nat, len: nat, k: nat)
    requires
        start + k * len <= contents.len(),
    ensures
        read_next_k(contents, start, len, k) == (
            contents.subrange(start as int, (start + k * len) as int),
            start + k * len,
        ),
    decreases k,
{
    if k > 0 {
        assert(start + (k - 1) * len + len == start + k * len) by (nonlinear_arith);
        assert((k - 1) * len <= k * len) by (nonlinear_arith)
            requires
                k > 0,
        ;
        assert(0 <= (k - 1) * len) by (nonlinear_arith)
            requires
                k > 0,
        ;
        lemma_read_next_windows(contents, start, len, (k - 1) as nat);
        let mid = start + (k - 1) * len;
        let prev = read_next_k(contents, start, len, (k - 1) as nat);
        assert(prev.1 == mid);
        assert(prev.0 == contents.subrange(start as int, mid));
        assert(contents.subrange(start as int, mid) + contents.subrange(mid, mid + len)
            =~= contents.subrange(start as int, (start + k * len) as int));
    } else {
        assert(k * len == 0) by (nonlinear_arith)
            requires
                k == 0,
        ;
        assert(contents.subrange(start as int, start as int) =~= Seq::<Seq<u8>>::empty());
    }
}

/// Where the engine returns the bytes of the requested window, reading it
/// into a buffer adds exactly the records of that window.
pub proof fn lemma_window_records(contents: Seq<Seq<u8>>, req: ReadRequest, stride: nat)
    requires
        req.start + req.len <= contents.len(),
        forall|i: int| 0 <= i < contents.len() ==> (#[trigger] contents[i]).len() == stride,
    ensures
        chunks(
            contents.subrange(req.start as int, req.start + req.len).flatten(),
            req.len as nat,
            stride,
        ) == contents.subrange(req.start as int, req.start + req.len),
{
    let w = contents.subrange(req.start as int, req.start + req.len);
    assert forall|i: int| 0 <= i < w.len() implies (#[trigger] w[i]).len() == stride by {
        assert(w[i] == contents[req.start + i]);
    }
    lemma_chunks_flatten(w, stride);
}

/// A cursor over a table's records one at a time, independent of the
/// table's own read cursor.
#[derive(Clone, Copy, Debug, PartialEq, Eq, Structural)]
pub struct TableIter {
    pub next: u64,
}

impl TableIter {
    /// A cursor at the first record.
    pub fn new() -> (r: TableIter)
        ensures
            r.next == 0,
    {
        TableIter { next: 0 }
    }

    /// The next record to read, given the table's current number of records
    /// (checked again at every step, so records appended meanwhile are
    /// seen); `None` at the end.
    pub fn next_request(&mut self, num_packets: u64) -> (r: Option<ReadRequest>)
        ensures
            old(self).next < num_packets <==> r is Some,
            r is Some ==> r->0 == (ReadRequest { start: old(self).next, len: 1 })
                && final(self).next == old(self).next + 1,
            r is None ==> *final(self) == *old(self),
    {
        if self.next < num_packets {
            let start = self.next;
            self.next = self.next + 1;
            Some(ReadRequest { start, len: 1 })
        } else {
            None
        }
    }
}

} // verus!
