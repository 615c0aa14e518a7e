use hdf5_hl::buf_writer::PacketTableBufWriter;
use hdf5_hl::descriptor::{IntSize, TypeDescriptor};
use hdf5_hl::fixed_vec::{FixedVec, RecordShape};
use hdf5_hl::layout::Extent;
use hdf5_hl::table::{
    PacketTable, PacketTableBuilder, PacketTableType, PropertyList, ReadRequest, TableError,
    TableIter, BAD_ID,
};

// The records a storage engine holds for one table, as bytes.
struct Stored {
    bytes: Vec<u8>,
    stride: usize,
    writes: usize,
}

impl Stored {
    fn new(stride: usize) -> Stored {
        Stored { bytes: Vec::new(), stride, writes: 0 }
    }

    fn num_packets(&self) -> u64 {
        (self.bytes.len() / self.stride) as u64
    }

    fn append(&mut self, bytes: &[u8]) -> Result<(), TableError> {
        self.bytes.extend_from_slice(bytes);
        self.writes += 1;
        Ok(())
    }

    fn read(&self, req: ReadRequest) -> Result<Vec<u8>, TableError> {
        let start = req.start as usize * self.stride;
        let end = start + req.len * self.stride;
        if end > self.bytes.len() {
            return Err(TableError::Engine);
        }
        Ok(self.bytes[start..end].to_vec())
    }
}

fn i32_shape() -> RecordShape {
    RecordShape::fixed(Extent::new(4, 4).unwrap()).unwrap()
}

fn ints(v: &FixedVec) -> Vec<i32> {
    (0..v.len())
        .map(|i| i32::from_ne_bytes(v.header(i).try_into().unwrap()))
        .collect()
}

fn read_all(table: &PacketTable, store: &Stored, start: u64, len: usize) -> Vec<i32> {
    let req = table.read(start, len, store.num_packets()).unwrap();
    let mut buf = FixedVec::new(i32_shape());
    table.read_unsized(req, store.read(req), &mut buf).unwrap();
    ints(&buf)
}

fn read_next(table: &mut PacketTable, store: &Stored, len: usize) -> Vec<i32> {
    let req = table.read_next(len, store.num_packets()).unwrap();
    let mut buf = FixedVec::new(i32_shape());
    table.read_next_unsized(req, store.read(req), &mut buf).unwrap();
    ints(&buf)
}

#[test]
fn basic() {
    let vec = vec![1, 1, 4, 5, 1, 4];
    let req = PacketTableBuilder::new(1)
        .chunk(16)
        .dtype_as(TypeDescriptor::Integer(IntSize::U4))
        .create("data")
        .unwrap();
    assert_eq!(req.chunk, 16);
    assert_eq!(req.name, "data");
    assert_eq!(req.plist, None);

    let mut store = Stored::new(4);
    {
        let mut records = FixedVec::new(i32_shape());
        for x in &vec {
            records.push_with(&i32::to_ne_bytes(*x), &[]);
        }
        store.append(records.as_bytes()).unwrap();
    }
    let mut table = PacketTable::from_id(7);
    assert_eq!(store.num_packets(), 6);
    assert_eq!(read_all(&table, &store, 0, 6), &[1, 1, 4, 5, 1, 4]);
    {
        let mut it = TableIter::new();
        let mut read_data = Vec::new();
        while let Some(req) = it.next_request(store.num_packets()) {
            let mut buf = FixedVec::new(i32_shape());
            table.read_unsized(req, store.read(req), &mut buf).unwrap();
            read_data.extend(ints(&buf));
        }
        assert_eq!(read_data, &[1, 1, 4, 5, 1, 4]);
        assert_eq!(table.index(), 0);
    }
    {
        table.reset_index();
        assert_eq!(table.index(), 0);
        assert_eq!(read_next(&mut table, &store, 6), &[1, 1, 4, 5, 1, 4]);
        assert_eq!(table.index(), 6);
    }
}

#[test]
fn read_leaves_cursor_and_read_next_tiles() {
    let mut store = Stored::new(4);
    let mut records = FixedVec::new(i32_shape());
    for x in 0..12i32 {
        records.push_with(&x.to_ne_bytes(), &[]);
    }
    store.append(records.as_bytes()).unwrap();
    let mut table = PacketTable::from_id(3);
    table.set_index(2);
    for _ in 0..3 {
        assert_eq!(read_all(&table, &store, 1, 4), &[1, 2, 3, 4]);
        assert_eq!(table.index(), 2);
    }
    table.reset_index();
    let mut joined = Vec::new();
    for k in 0..3 {
        let w = read_next(&mut table, &store, 3);
        assert_eq!(w, ((3 * k)..(3 * k + 3)).collect::<Vec<i32>>());
        joined.extend(w);
        assert_eq!(table.index(), 3 * (k as u64 + 1));
    }
    assert_eq!(joined, read_all(&table, &store, 0, 9));
}

#[test]
fn read_past_end_is_bounds_error() {
    let table = PacketTable::from_id(3);
    assert_eq!(table.read(5, 2, 6), Err(TableError::Bounds));
    assert_eq!(table.read(7, 0, 6), Err(TableError::Bounds));
    assert_eq!(table.read(4, 2, 6), Ok(ReadRequest { start: 4, len: 2 }));
    let mut t = PacketTable::from_id(3);
    t.set_index(5);
    assert_eq!(t.read_next(2, 6), Err(TableError::Bounds));
    assert_eq!(t.index(), 5);
}

#[test]
fn failed_read_keeps_cursor_and_buffer() {
    let mut table = PacketTable::from_id(3);
    let req = table.read_next(2, 10).unwrap();
    let mut buf = FixedVec::new(i32_shape());
    let r = table.read_next_unsized(req, Err(TableError::Engine), &mut buf);
    assert_eq!(r, Err(TableError::Engine));
    assert_eq!(table.index(), 0);
    assert_eq!(buf.len(), 0);
    let r = table.read_next_unsized(req, Ok(vec![0; 7]), &mut buf);
    assert_eq!(r, Err(TableError::Engine));
    assert_eq!(table.index(), 0);
}

#[test]
fn create_without_chunking_fails() {
    let b = PacketTableBuilder::new(1).dtype_as(TypeDescriptor::Boolean);
    assert_eq!(b.create("data").unwrap_err(), TableError::Configuration);
    let b = PacketTableBuilder::new(1)
        .plist(PropertyList { id: 9, chunk: None })
        .dtype_as(TypeDescriptor::Boolean);
    assert_eq!(b.create("data").unwrap_err(), TableError::Configuration);
}

#[test]
fn create_with_chunking_property() {
    let req = PacketTableBuilder::new(1)
        .dtype_as(TypeDescriptor::Boolean)
        .plist(PropertyList { id: 9, chunk: Some(32) })
        .create("t")
        .unwrap();
    assert_eq!(req.chunk, 0);
    assert_eq!(req.plist, Some(9));
    let req = PacketTableBuilder::new(1)
        .plist(PropertyList { id: 9, chunk: None })
        .chunk(8)
        .dtype_as(TypeDescriptor::Boolean)
        .create("t")
        .unwrap();
    assert_eq!(req.chunk, 8);
    assert_eq!(req.plist, Some(9));
}

#[test]
fn create_with_nul_in_name_fails() {
    let b = PacketTableBuilder::new(1).chunk(16).dtype_as(TypeDescriptor::Boolean);
    assert_eq!(b.create("da\0ta").unwrap_err(), TableError::NameEncoding);
}

#[test]
fn dtype_unsized_builds_compound() {
    let b = PacketTableBuilder::new(1)
        .chunk(4)
        .dtype_unsized(
            TypeDescriptor::Unsigned(IntSize::U4),
            Extent::new(4, 4).unwrap(),
            TypeDescriptor::Unsigned(IntSize::U8),
            Extent::new(8, 8).unwrap(),
            6,
        )
        .unwrap();
    match b.dtype {
        TypeDescriptor::Compound(ref c) => assert_eq!(c.size, 56),
        _ => unreachable!(),
    }
}

#[test]
fn packet_table_type_codes() {
    assert_eq!(PacketTableType::from_raw(0), Ok(PacketTableType::Fixed));
    assert_eq!(PacketTableType::from_raw(1), Ok(PacketTableType::VarLen));
    assert_eq!(PacketTableType::from_raw(-1), Err(TableError::Engine));
    assert_eq!(PacketTableType::from_raw(2), Err(TableError::Invalid));
}

#[test]
fn validate_and_id_type() {
    let t = PacketTable::from_id(5);
    assert_eq!(t.id(), 5);
    assert_eq!(t.validate(0), Ok(()));
    assert_eq!(t.validate(-1), Err(TableError::Invalid));
    assert_eq!(t.id_type(5, 20), 5);
    assert_eq!(t.id_type(25, 20), BAD_ID);
    assert_eq!(PacketTable::from_id(0).id_type(5, 20), BAD_ID);
}

#[test]
fn iterator_sees_new_records() {
    let mut it = TableIter::new();
    assert_eq!(it.next_request(1), Some(ReadRequest { start: 0, len: 1 }));
    assert_eq!(it.next_request(1), None);
    assert_eq!(it.next_request(2), Some(ReadRequest { start: 1, len: 1 }));
    assert_eq!(it.next, 2);
}

fn run_writer(buf_len: usize, n: i32) -> (Stored, usize) {
    let mut store = Stored::new(4);
    let mut w = PacketTableBufWriter::new(Extent::new(4, 4).unwrap(), buf_len).unwrap();
    let mut flushes = 0;
    for x in 0..n {
        if w.push(&x.to_ne_bytes()) {
            let outcome = store.append(w.buffer().as_bytes());
            w.flush(outcome).unwrap();
            flushes += 1;
        }
    }
    assert!(w.buffer().len() < buf_len.max(1));
    let during = flushes;
    // End of the writer's use.
    if w.needs_flush() {
        let outcome = store.append(w.buffer().as_bytes());
        w.flush(outcome).unwrap();
        flushes += 1;
    }
    assert_eq!(w.flush(Ok(())), Ok(()));
    assert_eq!(store.writes, flushes);
    assert_eq!(w.buffer().len(), 0);
    (store, during)
}

#[test]
fn writer_flushes_at_threshold() {
    let (store, during) = run_writer(16, 16);
    assert_eq!(during, 1);
    assert_eq!(store.writes, 1);
    assert_eq!(store.num_packets(), 16);
}

#[test]
fn writer_flushes_remainder_at_end() {
    let (store, during) = run_writer(16, 15);
    assert_eq!(during, 0);
    assert_eq!(store.writes, 1);
    assert_eq!(store.num_packets(), 15);
}

#[test]
fn writer_keeps_order_across_batches() {
    let (store, during) = run_writer(4, 10);
    assert_eq!(during, 2);
    assert_eq!(store.writes, 3);
    let table = PacketTable::from_id(1);
    assert_eq!(read_all(&table, &store, 0, 10), (0..10).collect::<Vec<i32>>());
}

#[test]
fn writer_keeps_buffer_when_append_fails() {
    let mut w = PacketTableBufWriter::new(Extent::new(4, 4).unwrap(), 2).unwrap();
    assert!(!w.push(&1i32.to_ne_bytes()));
    assert!(w.push(&2i32.to_ne_bytes()));
    assert_eq!(w.flush(Err(TableError::Engine)), Err(TableError::Engine));
    assert_eq!(w.buffer().len(), 2);
    assert_eq!(w.flush(Ok(())), Ok(()));
    assert_eq!(w.buffer().len(), 0);
}

#[test]
fn writer_push_with_records() {
    let shape = RecordShape::new(Extent::new(2, 2).unwrap(), Extent::new(1, 1).unwrap(), 3).unwrap();
    let mut w = PacketTableBufWriter::new_unsized(shape, 8);
    assert!(!w.push_with(&[1, 2], &[3, 4, 5]));
    assert!(!w.push_clone(&[9, 9, 9, 9, 9, 9]));
    assert_eq!(w.buffer().get(0).unwrap(), vec![1, 2, 3, 4, 5, 0]);
    assert_eq!(w.buffer().get(1).unwrap(), vec![9, 9, 9, 9, 9, 9]);
}
