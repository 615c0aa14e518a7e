use crate::layout::{
    compound_layout, field_offsets, fields_extent, layout_fields, lemma_pow2_pos, lemma_round_up,
    padded_extent, Extent,
};
use vstd::prelude::*;

verus! {

/// Width of an integer type.
#[derive(Clone, Copy, Debug, PartialEq, Eq, Structural)]
pub enum IntSize {
    U1,
    U2,
    U4,
    U8,
}

/// Width of a floating-point type.
#[derive(Clone, Copy, Debug, PartialEq, Eq, Structural)]
pub enum FloatSize {
    U4,
    U8,
}

/// Portable description of how a value is stored.
#[derive(Debug)]
pub enum TypeDescriptor {
    Integer(IntSize),
    Unsigned(IntSize),
    Float(FloatSize),
    Boolean,
    Compound(CompoundType),
    FixedArray(Box<TypeDescriptor>, usize),
    FixedAscii(usize),
    FixedUnicode(usize),
    VarLenArray(Box<TypeDescriptor>),
    VarLenAscii,
    VarLenUnicode,
}

/// One field of a compound: its name, its type, its byte offset from the
/// start of the compound, and its position in declaration order.
#[derive(Debug)]
pub struct CompoundField {
    pub name: String,
    pub ty: TypeDescriptor,
    pub offset: usize,
    pub index: usize,
}

/// A compound type: its fields and its padded size.
#[derive(Debug)]
pub struct CompoundType {
    pub fields: Vec<CompoundField>,
    pub size: usize,
}

/// Builds the descriptor of a compound record from its fields, listed in
/// declaration order, each with its descriptor and its native extent.
pub struct DescriptorBuilder {
    acc: Extent,
    fields: Vec<CompoundField>,
    extents: Ghost<Seq<Extent>>,
}

impl DescriptorBuilder {
    /// The native extents of the fields added so far.
    pub closed spec fn extents(&self) -> Seq<Extent> {
        self.extents@
    }

    /// The fields added so far, with their offsets.
    pub closed spec fn fields(&self) -> Seq<CompoundField> {
        self.fields@
    }

    pub closed spec fn wf(&self) -> bool {
        &&& layout_fields(self.extents@) is Some
        &&& self.acc.wf()
        &&& fields_extent(self.extents@) == self.acc
        &&& self.fields@.len() == self.extents@.len()
        &&& field_offsets(self.extents@).len() == self.extents@.len()
        &&& forall|i: int|
            0 <= i < self.fields@.len() ==> (#[trigger] self.fields@[i]).offset
                == field_offsets(self.extents@)[i] && self.fields@[i].index == i
    }

    /// A builder with no field.
    pub fn new() -> (r: DescriptorBuilder)
        ensures
            r.wf(),
            r.extents() == Seq::<Extent>::empty(),
            r.fields() == Seq::<CompoundField>::empty(),
    {
        DescriptorBuilder { acc: Extent::unit(), fields: Vec::new(), extents: Ghost(Seq::empty()) }
    }

    /// Adds the next field: it is placed at the first multiple of its
    /// alignment at or after the end of the previous field. `None` when the
    /// record would exceed `MAX_SIZE`.
    pub fn field(self, name: String, ty: TypeDescriptor, extent: Extent) -> (r: Option<
        DescriptorBuilder,
    >)
        requires
            self.wf(),
            extent.wf(),
        ensures
            r is Some <==> layout_fields(self.extents().push(extent)) is Some,
            r is Some ==> {
                let b = r->0;
                let k = self.fields().len() as int;
                &&& b.wf()
                &&& b.extents() == self.extents().push(extent)
                &&& b.fields().len() == k + 1
                &&& b.fields().take(k) == self.fields()
                &&& b.fields()[k].name@ == name@
                &&& b.fields()[k].ty == ty
                &&& b.fields()[k].offset == field_offsets(b.extents())[k]
                &&& b.fields()[k].index == k
            },
    {
        let ghost exts = self.extents@.push(extent);
        proof {
            assert(exts.drop_last() =~= self.extents@);
            assert(exts.last() == extent);
        }
        let DescriptorBuilder { acc, mut fields, extents } = self;
        match acc.extend(extent) {
            None => None,
            Some(step) => {
                let index = fields.len();
                let ghost old_fields = fields@;
                fields.push(CompoundField { name, ty, offset: step.1, index });
                proof {
                    assert(field_offsets(exts) == field_offsets(self.extents@).push(step.1));
                    assert(fields@.take(index as int) =~= old_fields);
                    assert forall|i: int| 0 <= i < fields@.len() implies (
                    #[trigger] fields@[i]).offset == field_offsets(exts)[i]
                        && fields@[i].index == i by {
                        if i < index {
                            assert(fields@[i] == old_fields[i]);
                        }
                    }
                }
                Some(DescriptorBuilder { acc: step.0, fields, extents: Ghost(exts) })
            },
        }
    }

    /// The padded extent of the record built so far.
    pub fn extent(&self) -> (r: Extent)
        requires
            self.wf(),
        ensures
            r == padded_extent(self.extents()),
            r.wf(),
    {
        self.acc.pad_to_align()
    }

    /// The compound descriptor of the record. `footprint` is the record's
    /// true extent in memory; it must equal the computed one, otherwise the
    /// field list does not describe the record.
    pub fn finish(self, footprint: Extent) -> (r: TypeDescriptor)
        requires
            self.wf(),
            padded_extent(self.extents()) == footprint,
        ensures
            r matches TypeDescriptor::Compound(c) && c.fields@ == self.fields() && c.size
                == footprint.size,
    {
        let padded = self.acc.pad_to_align();
        TypeDescriptor::Compound(CompoundType { fields: self.fields, size: padded.size })
    }
}

/// Descriptor of a slice of `len` elements described by `elem`.
pub fn slice_descriptor(elem: TypeDescriptor, len: usize) -> (r: TypeDescriptor)
    ensures
        r == TypeDescriptor::FixedArray(Box::new(elem), len),
{
    TypeDescriptor::FixedArray(Box::new(elem), len)
}

/// Descriptor of a string of `len` bytes.
pub fn str_descriptor(len: usize) -> (r: TypeDescriptor)
    ensures
        r == TypeDescriptor::FixedUnicode(len),
{
    TypeDescriptor::FixedUnicode(len)
}

/// Extent of `len` consecutive elements of extent `elem`, if it is valid.
pub open spec fn array_extent(elem: Extent, len: usize) -> Option<Extent> {
    let size = elem.size * len;
    let e = Extent { size: size as usize, align: elem.align };
    if size <= usize::MAX && e.wf() {
        Some(e)
    } else {
        None
    }
}

/// Extent of `len` consecutive elements of extent `elem`; `None` when it
/// would exceed `MAX_SIZE`.
pub fn array_extent_of(elem: Extent, len: usize) -> (r: Option<Extent>)
    ensures
        r == array_extent(elem, len),
{
    match elem.size.checked_mul(len) {
        None => None,
        Some(size) => Extent::new(size, elem.align),
    }
}

/// The two extents of a record made of a header followed by a tail.
pub open spec fn record_fields(header: Extent, tail: Extent) -> Seq<Extent> {
    seq![header, tail]
}

/// What the descriptor of a header-plus-tail record states: a compound with
/// the field `header` at offset 0 and the tail field `tail_name` after it, at
/// the offset that the layout gives, with the record's padded size.
pub open spec fn is_record_descriptor(
    d: TypeDescriptor,
    header: TypeDescriptor,
    header_extent: Extent,
    tail_name: Seq<char>,
    tail: TypeDescriptor,
    tail_extent: Extent,
) -> bool {
    let exts = record_fields(header_extent, tail_extent);
    d matches TypeDescriptor::Compound(c) && c.size == padded_extent(exts).size
        && c.fields@.len() == 2 && c.fields@[0].name@ == seq!['h', 'e', 'a', 'd', 'e', 'r']
        && c.fields@[0].ty == header && c.fields@[0].offset == 0 && c.fields@[0].index == 0
        && c.fields@[1].name@ == tail_name && c.fields@[1].ty == tail && c.fields@[1].offset
        == field_offsets(exts)[1] && c.fields@[1].index == 1
}

fn record_descriptor(
    header: TypeDescriptor,
    header_extent: Extent,
    tail_name: String,
    tail: TypeDescriptor,
    tail_extent: Extent,
) -> (r: Option<(TypeDescriptor, Extent)>)
    requires
        header_extent.wf(),
        tail_extent.wf(),
    ensures
        r is Some <==> compound_layout(record_fields(header_extent, tail_extent)) is Some,
        r is Some ==> (r->0).1 == padded_extent(record_fields(header_extent, tail_extent))
            && is_record_descriptor(
            (r->0).0,
            header,
            header_extent,
            tail_name@,
            tail,
            tail_extent,
        ),
{
    let exts = Ghost(record_fields(header_extent, tail_extent));
    proof {
        reveal_strlit("header");
        assert(exts@.take(1).drop_last() =~= Seq::<Extent>::empty());
        assert(exts@.take(1) =~= seq![header_extent]);
        assert(exts@.drop_last() =~= seq![header_extent]);
        assert(seq![header_extent].push(tail_extent) =~= exts@);
        assert(seq![header_extent].drop_last() =~= Seq::<Extent>::empty());
        assert(Seq::<Extent>::empty().push(header_extent) =~= seq![header_extent]);
    }
    let b = DescriptorBuilder::new();
    let b = match b.field("header".to_owned(), header, header_extent) {
        Some(b) => b,
        None => return None,
    };
    let b = match b.field(tail_name, tail, tail_extent) {
        Some(b) => b,
        None => return None,
    };
    proof {
        assert(b.extents() =~= exts@);
        assert(b.fields()[0] == b.fields().take(1)[0]);
        lemma_pow2_pos(header_extent.align as nat);
        lemma_round_up(0, header_extent.align as nat);
        assert(field_offsets(exts@)[0] == 0);
        assert(b.fields()[0].offset == 0);
        assert(b.fields()[0].name@ == "header"@);
        assert(b.fields()[1].name@ == tail_name@);
    }
    let ext = b.extent();
    let d = b.finish(ext);
    proof {
        assert("header"@ =~= seq!['h', 'e', 'a', 'd', 'e', 'r']);
        if let TypeDescriptor::Compound(c) = &d {
            assert(c.size == padded_extent(exts@).size);
            assert(c.fields@.len() == 2);
            assert(c.fields@[0].ty == header);
            assert(c.fields@[1].ty == tail);
            assert(c.fields@[1].offset == field_offsets(exts@)[1]);
            assert(c.fields@[1].index == 1);
            assert(c.fields@[0].index == 0);
        }
        assert(is_record_descriptor(d, header, header_extent, tail_name@, tail, tail_extent));
    }
    Some((d, ext))
}

/// Descriptor of a record made of a header followed by `len` elements: a
/// compound of the fields `header` and `slice`, the latter a fixed array of
/// `len` elements. Also returns the record's extent. `None` when the record
/// would exceed `MAX_SIZE`.
pub fn unsized_slice_descriptor(
    header: TypeDescriptor,
    header_extent: Extent,
    elem: TypeDescriptor,
    elem_extent: Extent,
    len: usize,
) -> (r: Option<(TypeDescriptor, Extent)>)
    requires
        header_extent.wf(),
        elem_extent.wf(),
    ensures
        r is Some <==> array_extent(elem_extent, len) is Some && compound_layout(
            record_fields(header_extent, array_extent(elem_extent, len)->0),
        ) is Some,
        r is Some ==> {
            let tail_extent = array_extent(elem_extent, len)->0;
            &&& (r->0).1 == padded_extent(record_fields(header_extent, tail_extent))
            &&& is_record_descriptor(
                (r->0).0,
                header,
                header_extent,
                seq!['s', 'l', 'i', 'c', 'e'],
                TypeDescriptor::FixedArray(Box::new(elem), len),
                tail_extent,
            )
        },
{
    let tail_extent = match array_extent_of(elem_extent, len) {
        Some(e) => e,
        None => return None,
    };
    let name = "slice".to_owned();
    proof {
        reveal_strlit("slice");
        assert(name@ =~= seq!['s', 'l', 'i', 'c', 'e']);
    }
    record_descriptor(header, header_extent, name, slice_descriptor(elem, len), tail_extent)
}

/// Descriptor of a record made of a header followed by a string of `len`
/// bytes: a compound of the fields `header` and `str`. Also returns the
/// record's extent. `None` when the record would exceed `MAX_SIZE`.
pub fn unsized_str_descriptor(header: TypeDescriptor, header_extent: Extent, len: usize) -> (r:
    Option<(TypeDescriptor, Extent)>)
    requires
        header_extent.wf(),
    ensures
        r is Some <==> array_extent(Extent { size: 1, align: 1 }, len) is Some && compound_layout(
            record_fields(header_extent, Extent { size: len, align: 1 }),
        ) is Some,
        r is Some ==> {
            let tail_extent = Extent { size: len, align: 1 };
            &&& (r->0).1 == padded_extent(record_fields(header_extent, tail_extent))
            &&& is_record_descriptor(
                (r->0).0,
                header,
                header_extent,
                seq!['s', 't', 'r'],
                TypeDescriptor::FixedUnicode(len),
                tail_extent,
            )
        },
{
    let byte = Extent { size: 1, align: 1 };
    proof {
        lemma_byte_extent();
    }
    let tail_extent = match array_extent_of(byte, len) {
        Some(e) => e,
        None => return None,
    };
    let name = "str".to_owned();
    proof {
        reveal_strlit("str");
        assert(name@ =~= seq!['s', 't', 'r']);
        assert(tail_extent == Extent { size: len, align: 1 });
    }
    record_descriptor(header, header_extent, name, str_descriptor(len), tail_extent)
}

proof fn lemma_byte_extent()
    ensures
        (Extent { size: 1, align: 1 }).wf(),
{
    assert(1nat % 1nat == 0);
}

} // verus!
