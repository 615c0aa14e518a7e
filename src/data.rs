use crate::fixed_vec::{FixedVec, RecordShape};
use vstd::prelude::*;

verus! {

/// Records to store in a dataset or attribute: one record, or a container
/// of them.
pub enum UnsizedData<'a> {
    /// One record of the given shape, as its bytes.
    Scalar(RecordShape, &'a [u8]),
    /// Every record of a container.
    Vec(&'a FixedVec),
}

impl<'a> UnsizedData<'a> {
    pub open spec fn wf(&self) -> bool {
        match self {
            UnsizedData::Scalar(s, b) => s.wf() && b@.len() == s.spec_stride(),
            UnsizedData::Vec(v) => v.wf(),
        }
    }

    /// The dimensions of the stored object: none for one record, the number
    /// of records for a container.
    pub fn shape(&self) -> (r: Vec<usize>)
        requires
            self.wf(),
        ensures
            self is Scalar ==> r@ == Seq::<usize>::empty(),
            self matches UnsizedData::Vec(v) ==> r@ == seq![v.spec_len() as usize],
    {
        match self {
            UnsizedData::Scalar(_, _) => Vec::new(),
            UnsizedData::Vec(v) => {
                let mut r: Vec<usize> = Vec::new();
                r.push(v.len());
                proof {
                    assert(r@ =~= seq![v.spec_len() as usize]);
                }
                r
            },
        }
    }

    /// The shape shared by the records.
    pub fn metadata(&self) -> (r: RecordShape)
        requires
            self.wf(),
        ensures
            self matches UnsizedData::Scalar(s, _) ==> r == s,
            self matches UnsizedData::Vec(v) ==> r == v.shape(),
    {
        match self {
            UnsizedData::Scalar(s, _) => *s,
            UnsizedData::Vec(v) => v.record_shape(),
        }
    }

    /// The bytes of all records, in order.
    pub fn bytes(&self) -> (r: &[u8])
        requires
            self.wf(),
        ensures
            self matches UnsizedData::Scalar(_, b) ==> r@ == b@,
            self matches UnsizedData::Vec(v) ==> r@ == v.bytes(),
    {
        match self {
            UnsizedData::Scalar(_, b) => b,
            UnsizedData::Vec(v) => v.as_bytes(),
        }
    }
}

} // verus!
