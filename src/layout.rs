use vstd::arithmetic::div_mod::*;
use vstd::prelude::*;

verus! {

/// The largest size, in bytes, that a layout may have once padded.
pub const MAX_SIZE: usize = isize::MAX as usize;

/// `a` is a power of two.
pub open spec fn is_pow2(a: nat) -> bool
    decreases a,
{
    if a == 1 {
        true
    } else if a < 2 || a % 2 != 0 {
        false
    } else {
        is_pow2(a / 2)
    }
}

/// The smallest multiple of `a` that is at least `n`.
pub open spec fn round_up(n: nat, a: nat) -> nat
    recommends
        a > 0,
{
    if n % a == 0 {
        n
    } else {
        (n + (a - n % a)) as nat
    }
}

pub open spec fn max_nat(a: nat, b: nat) -> nat {
    if a >= b {
        a
    } else {
        b
    }
}

/// Size and alignment of a value, as an ABI lays it out.
#[derive(Clone, Copy, Debug, PartialEq, Eq, Structural)]
pub struct Extent {
    pub size: usize,
    pub align: usize,
}

impl Extent {
    /// A valid extent: its alignment is a power of two and its padded size
    /// stays within `MAX_SIZE`.
    pub open spec fn wf(self) -> bool {
        is_pow2(self.align as nat) && round_up(self.size as nat, self.align as nat) <= MAX_SIZE
    }

    /// The extent of the unit value: size 0, alignment 1.
    pub fn unit() -> (r: Extent)
        ensures
            r.size == 0,
            r.align == 1,
            r.wf(),
    {
        proof {
            lemma_small_mod(0, 1);
        }
        Extent { size: 0, align: 1 }
    }

    /// An extent of the given size and alignment, if it is valid.
    pub fn new(size: usize, align: usize) -> (r: Option<Extent>)
        ensures
            r is Some <==> (Extent { size, align }).wf(),
            r is Some ==> r->0 == (Extent { size, align }),
    {
        if !is_power_of_two(align) {
            return None;
        }
        match round_up_checked(size, align) {
            Some(p) => {
                if p <= MAX_SIZE {
                    Some(Extent { size, align })
                } else {
                    None
                }
            },
            None => None,
        }
    }

    /// The size padded up to a multiple of the alignment.
    pub fn pad_to_align(&self) -> (r: Extent)
        requires
            self.wf(),
        ensures
            r.size == round_up(self.size as nat, self.align as nat),
            r.align == self.align,
            r.wf(),
            r.size as nat % r.align as nat == 0,
    {
        proof { lemma_pow2_pos(self.align as nat); }
        let p = round_up_checked(self.size, self.align);
        let size = p.unwrap();
        proof {
            lemma_round_up(self.size as nat, self.align as nat);
            lemma_round_up(size as nat, self.align as nat);
        }
        Extent { size, align: self.align }
    }

    /// Appends a field of extent `next` after `self`: the field starts at the
    /// first multiple of its alignment at or after the current size, and the
    /// alignment becomes the larger of the two. `None` when the result would
    /// exceed `MAX_SIZE`.
    pub fn extend(&self, next: Extent) -> (r: Option<(Extent, usize)>)
        requires
            self.wf(),
            next.wf(),
        ensures
            r == extend_spec(*self, next),
            r is Some ==> (r->0).0.wf(),
    {
        proof { lemma_pow2_pos(next.align as nat); }
        let offset = match round_up_checked(self.size, next.align) {
            Some(o) => o,
            None => return None,
        };
        let size = match offset.checked_add(next.size) {
            Some(s) => s,
            None => return None,
        };
        let align = if self.align >= next.align {
            self.align
        } else {
            next.align
        };
        proof { lemma_pow2_pos(align as nat); }
        match round_up_checked(size, align) {
            Some(p) => {
                if p <= MAX_SIZE {
                    Some((Extent { size, align }, offset))
                } else {
                    None
                }
            },
            None => None,
        }
    }
}

/// What `Extent::extend` gives: the new extent and the offset of the field.
pub open spec fn extend_spec(acc: Extent, next: Extent) -> Option<(Extent, usize)> {
    let offset = round_up(acc.size as nat, next.align as nat);
    let size = (offset + next.size) as nat;
    let align = max_nat(acc.align as nat, next.align as nat);
    if round_up(size, align) <= MAX_SIZE {
        Some((Extent { size: size as usize, align: align as usize }, offset as usize))
    } else {
        None
    }
}

/// The layout of `fields` placed one after another in declaration order,
/// before the final padding: the accumulated extent and each field's offset.
/// `None` when some step would exceed `MAX_SIZE`.
pub open spec fn layout_fields(fields: Seq<Extent>) -> Option<(Extent, Seq<usize>)>
    decreases fields.len(),
{
    if fields.len() == 0 {
        Some((Extent { size: 0, align: 1 }, Seq::empty()))
    } else {
        match layout_fields(fields.drop_last()) {
            None => None,
            Some(prev) => match extend_spec(prev.0, fields.last()) {
                None => None,
                Some(step) => Some((step.0, prev.1.push(step.1))),
            },
        }
    }
}

/// The accumulated extent of a layout that fits.
pub open spec fn fields_extent(fields: Seq<Extent>) -> Extent {
    match layout_fields(fields) {
        Some(l) => l.0,
        None => Extent { size: 0, align: 1 },
    }
}

/// The field offsets of a layout that fits.
pub open spec fn field_offsets(fields: Seq<Extent>) -> Seq<usize> {
    match layout_fields(fields) {
        Some(l) => l.1,
        None => Seq::empty(),
    }
}

/// The padded extent of a compound that fits.
pub open spec fn padded_extent(fields: Seq<Extent>) -> Extent {
    match compound_layout(fields) {
        Some(l) => l.0,
        None => Extent { size: 0, align: 1 },
    }
}

/// Every extent of the list is valid.
pub open spec fn all_wf(fields: Seq<Extent>) -> bool {
    forall|i: int| 0 <= i < fields.len() ==> #[trigger] fields[i].wf()
}

/// The padded extent of a compound made of `fields`, with the offsets of its
/// fields.
pub open spec fn compound_layout(fields: Seq<Extent>) -> Option<(Extent, Seq<usize>)> {
    match layout_fields(fields) {
        None => None,
        Some(l) => Some((
            Extent {
                size: round_up(l.0.size as nat, l.0.align as nat) as usize,
                align: l.0.align,
            },
            l.1,
        )),
    }
}

/// Result of laying out a compound: its padded extent and the offset of each
/// field, in declaration order.
#[derive(Clone, Debug)]
pub struct CompoundLayout {
    pub extent: Extent,
    pub offsets: Vec<usize>,
}

/// Lays out `fields` in declaration order: each field starts at the first
/// multiple of its alignment at or after the end of the previous one, the
/// alignment is the largest seen, and the total size is padded up to it.
/// With no field the result has size 0 and alignment 1.
pub fn compute(fields: &Vec<Extent>) -> (r: Option<CompoundLayout>)
    requires
        all_wf(fields@),
    ensures
        r is Some <==> compound_layout(fields@) is Some,
        r is Some ==> (r->0.extent, r->0.offsets@) == compound_layout(fields@)->0,
{
    let mut acc = Extent::unit();
    let mut offsets: Vec<usize> = Vec::new();
    let mut i: usize = 0;
    while i < fields.len()
        invariant
            i <= fields.len(),
            all_wf(fields@),
            acc.wf(),
            layout_fields(fields@.take(i as int)) == Some((acc, offsets@)),
        decreases fields.len() - i,
    {
        proof {
            assert(fields@.take(i as int + 1).drop_last() == fields@.take(i as int));
            assert(fields@.take(i as int + 1).last() == fields@[i as int]);
        }
        match acc.extend(fields[i]) {
            Some(step) => {
                acc = step.0;
                offsets.push(step.1);
            },
            None => {
                proof {
                    lemma_layout_none_grows(fields@, i as int + 1);
                    assert(fields@.take(fields.len() as int) == fields@);
                }
                return None;
            },
        }
        i = i + 1;
    }
    proof {
        assert(fields@.take(fields.len() as int) == fields@);
    }
    let extent = acc.pad_to_align();
    Some(CompoundLayout { extent, offsets })
}

/// Once a prefix of the fields does not fit, no longer prefix fits.
proof fn lemma_layout_none_grows(fields: Seq<Extent>, i: int)
    requires
        0 <= i <= fields.len(),
        layout_fields(fields.take(i)) is None,
    ensures
        layout_fields(fields) is None,
    decreases fields.len() - i,
{
    if i < fields.len() {
        assert(fields.take(i + 1).drop_last() == fields.take(i));
        lemma_layout_none_grows(fields, i + 1);
    } else {
        assert(fields.take(i) == fields);
    }
}

/// Facts about every layout of a list of valid fields: one offset per field,
/// each a multiple of its field's alignment, each field ending at or before
/// the start of the next one and at or before the accumulated size, and a
/// valid accumulated extent whose alignment is that of some field or 1.
proof fn lemma_layout_fields(fields: Seq<Extent>)
    requires
        all_wf(fields),
        layout_fields(fields) is Some,
    ensures
        ({
            let (acc, offs) = layout_fields(fields)->0;
            &&& acc.wf()
            &&& offs.len() == fields.len()
            &&& forall|i: int|
                0 <= i < fields.len() ==> (#[trigger] offs[i]) as nat % fields[i].align as nat == 0
            &&& forall|i: int| 0 <= i < fields.len() ==> #[trigger] offs[i] + fields[i].size <= acc.size
            &&& forall|i: int, j: int|
                0 <= i < j < fields.len() ==> #[trigger] offs[i] + fields[i].size <= #[trigger] offs[j]
            &&& forall|i: int| 0 <= i < fields.len() ==> (#[trigger] fields[i]).align <= acc.align
        }),
    decreases fields.len(),
{
    if fields.len() > 0 {
        let init = fields.drop_last();
        assert forall|i: int| 0 <= i < init.len() implies #[trigger] init[i].wf() by {
            assert(init[i] == fields[i]);
        }
        lemma_layout_fields(init);
        let (prev, poffs) = layout_fields(init)->0;
        let next = fields.last();
        let (acc, offs) = layout_fields(fields)->0;
        assert(fields[fields.len() - 1].wf());
        lemma_pow2_pos(next.align as nat);
        lemma_round_up(prev.size as nat, next.align as nat);
        let align = max_nat(prev.align as nat, next.align as nat);
        lemma_pow2_pos(align);
        lemma_round_up((round_up(prev.size as nat, next.align as nat) + next.size) as nat, align);
        assert(offs == poffs.push(round_up(prev.size as nat, next.align as nat) as usize));
        assert forall|i: int| 0 <= i < fields.len() implies (#[trigger] offs[i]) as nat
            % fields[i].align as nat == 0 by {
            if i < init.len() {
                assert(offs[i] == poffs[i]);
                assert(init[i] == fields[i]);
            }
        }
        assert forall|i: int| 0 <= i < fields.len() implies #[trigger] offs[i] + fields[i].size
            <= acc.size by {
            if i < init.len() {
                assert(offs[i] == poffs[i]);
                assert(init[i] == fields[i]);
                assert(poffs[i] + init[i].size <= prev.size);
            }
        }
        assert forall|i: int, j: int|
            0 <= i < j < fields.len() implies #[trigger] offs[i] + fields[i].size
            <= #[trigger] offs[j] by {
            assert(offs[i] == poffs[i]);
            assert(init[i] == fields[i]);
            if j < init.len() {
                assert(offs[j] == poffs[j]);
                assert(init[j] == fields[j]);
                assert(poffs[i] + init[i].size <= poffs[j]);
            } else {
                assert(poffs[i] + init[i].size <= prev.size);
            }
        }
        assert forall|i: int| 0 <= i < fields.len() implies (#[trigger] fields[i]).align
            <= acc.align by {
            if i < init.len() {
                assert(init[i] == fields[i]);
                assert(init[i].align <= prev.align);
            }
        }
    }
}

/// Layout law: for any list of valid fields that fits, the offsets are
/// non-decreasing in declaration order, fields do not overlap, each offset is
/// a multiple of its field's alignment, every field lies within the padded
/// size, the compound's alignment is a power of two no smaller than any
/// field's, and the padded size is a multiple of it.
pub proof fn lemma_compound_layout(fields: Seq<Extent>)
    requires
        all_wf(fields),
        compound_layout(fields) is Some,
    ensures
        ({
            let (ext, offs) = compound_layout(fields)->0;
            &&& ext.wf()
            &&& offs.len() == fields.len()
            &&& ext.size as nat % ext.align as nat == 0
            &&& forall|i: int, j: int| 0 <= i <= j < fields.len() ==> offs[i] <= offs[j]
            &&& forall|i: int, j: int|
                0 <= i < j < fields.len() ==> #[trigger] offs[i] + fields[i].size <= #[trigger] offs[j]
            &&& forall|i: int|
                0 <= i < fields.len() ==> (#[trigger] offs[i]) as nat % fields[i].align as nat == 0
            &&& forall|i: int| 0 <= i < fields.len() ==> #[trigger] offs[i] + fields[i].size <= ext.size
            &&& forall|i: int| 0 <= i < fields.len() ==> (#[trigger] fields[i]).align <= ext.align
        }),
{
    lemma_layout_fields(fields);
    let (acc, offs) = layout_fields(fields)->0;
    let (ext, _) = compound_layout(fields)->0;
    lemma_pow2_pos(acc.align as nat);
    lemma_round_up(acc.size as nat, acc.align as nat);
    lemma_round_up(ext.size as nat, ext.align as nat);
    assert forall|i: int, j: int| 0 <= i <= j < fields.len() implies offs[i] <= offs[j] by {
        if i < j {
            assert(offs[i] + fields[i].size <= offs[j]);
        }
    }
    assert forall|i: int| 0 <= i < fields.len() implies (#[trigger] fields[i]).align <= ext.align by {
        assert(fields[i].align <= acc.align);
    }
    assert forall|i: int| 0 <= i < fields.len() implies #[trigger] offs[i] + fields[i].size
        <= ext.size by {
        assert(offs[i] + fields[i].size <= acc.size);
    }
}

pub proof fn lemma_pow2_pos(a: nat)
    requires
        is_pow2(a),
    ensures
        a >= 1,
    decreases a,
{
    if a != 1 {
        lemma_pow2_pos(a / 2);
    }
}

/// Facts on `round_up`: it is a multiple of `a`, at least `n`, and less than
/// `n + a`.
pub proof fn lemma_round_up(n: nat, a: nat)
    requires
        a > 0,
    ensures
        round_up(n, a) % a == 0,
        n <= round_up(n, a) < n + a,
        n % a == 0 ==> round_up(n, a) == n,
{
    lemma_fundamental_div_mod(n as int, a as int);
    lemma_mod_bound(n as int, a as int);
    if n % a != 0 {
        let q = n as int / a as int;
        assert(n + (a - n % a) == (q + 1) * a) by (nonlinear_arith)
            requires
                n == a * q + n % a,
        ;
        lemma_mod_multiples_basic(q + 1, a as int);
    }
}

fn is_power_of_two(a: usize) -> (r: bool)
    ensures
        r == is_pow2(a as nat),
{
    let mut x: usize = a;
    while x >= 2 && x % 2 == 0
        invariant
            is_pow2(x as nat) == is_pow2(a as nat),
        decreases x,
    {
        x = x / 2;
    }
    x == 1
}

fn round_up_checked(n: usize, a: usize) -> (r: Option<usize>)
    requires
        a > 0,
    ensures
        r is Some <==> round_up(n as nat, a as nat) <= usize::MAX,
        r is Some ==> r->0 == round_up(n as nat, a as nat),
{
    let rem = n % a;
    if rem == 0 {
        Some(n)
    } else {
        n.checked_add(a - rem)
    }
}

} // verus!
