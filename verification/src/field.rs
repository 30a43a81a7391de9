//! Occupancy grid: a bitset with one bit per cell, set exactly when some
//! snake body segment occupies that cell, plus index arithmetic between
//! linear bit indices and grid points.

use vstd::prelude::*;

use crate::types::FieldPoint;

verus! {

// ---------------------------------------------------------------------------
// Trusted view of the outside bitset.
// ---------------------------------------------------------------------------

#[verifier::external_type_specification]
#[verifier::external_body]
pub struct ExFixedBitSet(fixedbitset::FixedBitSet);

/// The bits a `FixedBitSet` holds, in index order.
pub uninterp spec fn bits_of(b: fixedbitset::FixedBitSet) -> Seq<bool>;

/// How many entries of `s` are set.
pub open spec fn count_trues(s: Seq<bool>) -> nat
    decreases s.len(),
{
    if s.len() == 0 {
        0
    } else {
        count_trues(s.drop_last()) + if s.last() {
            1nat
        } else {
            0nat
        }
    }
}

/// Relies on `FixedBitSet::with_capacity`: a set of `bits` bits, all zero.
#[verifier::external_body]
fn bitset_with_capacity(bits: usize) -> (r: fixedbitset::FixedBitSet)
    ensures
        bits_of(r).len() == bits,
        forall|i: int| 0 <= i < bits ==> !bits_of(r)[i],
{
    fixedbitset::FixedBitSet::with_capacity(bits)
}

/// Relies on `FixedBitSet::contains`: the bit at `i`, or false when `i` is
/// out of range.
#[verifier::external_body]
fn bitset_contains(b: &fixedbitset::FixedBitSet, i: usize) -> (r: bool)
    ensures
        r == (i < bits_of(*b).len() && bits_of(*b)[i as int]),
{
    b.contains(i)
}

/// Relies on `FixedBitSet::set`, which panics out of range and otherwise
/// writes exactly the addressed bit.
#[verifier::external_body]
fn bitset_set(b: &mut fixedbitset::FixedBitSet, i: usize, enabled: bool)
    requires
        i < bits_of(*old(b)).len(),
    ensures
        bits_of(*final(b)) == bits_of(*old(b)).update(i as int, enabled),
{
    b.set(i, enabled)
}

/// Relies on `FixedBitSet::count_ones` over the full range: the number of
/// set bits.
#[verifier::external_body]
fn bitset_count_ones(b: &fixedbitset::FixedBitSet) -> (r: usize)
    ensures
        r == count_trues(bits_of(*b)),
{
    b.count_ones(..)
}

// ---------------------------------------------------------------------------
// The verified grid.
// ---------------------------------------------------------------------------

/// A `width` x `height` toroidal grid; bit `y * width + x` is set exactly
/// when the cell `(x, y)` is occupied by a snake body segment.
#[derive(Debug)]
pub struct Field {
    pub width: u16,
    pub height: u16,
    pub bit_set: fixedbitset::FixedBitSet,
}

impl View for Field {
    type V = Seq<bool>;

    open spec fn view(&self) -> Seq<bool> {
        bits_of(self.bit_set)
    }
}

impl Field {
    /// Basic shape: positive dimensions whose product both fits the `u16`
    /// index space and equals the bit count.
    pub open spec fn wf(self) -> bool {
        &&& self.width >= 1
        &&& self.height >= 1
        &&& self.width * self.height <= u16::MAX
        &&& self@.len() == self.width * self.height
    }

    /// The linear bit index of `p`.
    pub open spec fn spec_idx(self, p: FieldPoint) -> int {
        p.y * self.width + p.x
    }

    /// Whether `p` addresses a cell of this grid.
    pub open spec fn in_bounds(self, p: FieldPoint) -> bool {
        p.x < self.width && p.y < self.height
    }

    /// An in-bounds point has an index below `width * height`.
    pub proof fn lemma_idx_bounds(self, p: FieldPoint)
        requires
            self.wf(),
            self.in_bounds(p),
        ensures
            0 <= self.spec_idx(p) < self.width * self.height,
    {
        let w = self.width as int;
        let h = self.height as int;
        assert(p.y * w + p.x < w * h) by (nonlinear_arith)
            requires
                0 <= p.x < w,
                0 <= p.y < h,
        ;
    }

    /// An empty grid of the given dimensions.
    pub fn new(width: u16, height: u16) -> (r: Field)
        requires
            width >= 1,
            height >= 1,
            width * height <= u16::MAX,
        ensures
            r.wf(),
            r.width == width,
            r.height == height,
            forall|i: int| 0 <= i < r@.len() ==> !r@[i],
    {
        let bit_set = bitset_with_capacity((width as usize) * (height as usize));
        Field { width, height, bit_set }
    }

    /// The linear index of `p`, for addressing bits and for the wire format.
    pub fn to_idx(&self, p: &FieldPoint) -> (r: u16)
        requires
            self.wf(),
            self.in_bounds(*p),
        ensures
            r == self.spec_idx(*p),
    {
        proof {
            self.lemma_idx_bounds(*p);
        }
        p.y * self.width + p.x
    }

    /// The point whose linear index is `idx`.
    pub fn from_idx(&self, idx: u16) -> (r: FieldPoint)
        requires
            self.wf(),
            idx < self.width * self.height,
        ensures
            self.in_bounds(r),
            self.spec_idx(r) == idx,
            r.x == idx % self.width,
            r.y == idx / self.width,
    {
        let r = FieldPoint { x: idx % self.width, y: idx / self.width };
        proof {
            let w = self.width as int;
            let h = self.height as int;
            vstd::arithmetic::div_mod::lemma_fundamental_div_mod(idx as int, w);
            assert(idx as int == (idx as int / w) * w + (idx as int % w)) by (nonlinear_arith)
                requires
                    idx as int == w * (idx as int / w) + (idx as int % w),
            ;
            assert(idx as int / w < h) by (nonlinear_arith)
                requires
                    (idx as int) < w * h,
                    w >= 1,
                    idx as int == (idx as int / w) * w + (idx as int % w),
                    0 <= idx as int % w < w,
            ;
        }
        r
    }

    /// Whether the cell at `p` is occupied.
    pub fn filled(&self, p: &FieldPoint) -> (r: bool)
        requires
            self.wf(),
            self.in_bounds(*p),
        ensures
            r == self@[self.spec_idx(*p)],
    {
        proof {
            self.lemma_idx_bounds(*p);
        }
        self.idx_filled(self.to_idx(p))
    }

    /// Whether the cell with linear index `idx` is occupied.
    pub fn idx_filled(&self, idx: u16) -> (r: bool)
        requires
            self.wf(),
            idx < self.width * self.height,
        ensures
            r == self@[idx as int],
    {
        bitset_contains(&self.bit_set, idx as usize)
    }

    /// Marks or clears the cell at `p`.
    pub fn set(&mut self, p: &FieldPoint, enabled: bool)
        requires
            old(self).wf(),
            old(self).in_bounds(*p),
        ensures
            final(self).wf(),
            final(self).width == old(self).width,
            final(self).height == old(self).height,
            final(self)@ == old(self)@.update(old(self).spec_idx(*p), enabled),
    {
        proof {
            self.lemma_idx_bounds(*p);
        }
        let idx = self.to_idx(p);
        bitset_set(&mut self.bit_set, idx as usize, enabled)
    }

    /// How many cells are occupied.
    pub fn total_occupied(&self) -> (r: usize)
        ensures
            r == count_trues(self@),
    {
        bitset_count_ones(&self.bit_set)
    }
}

} // verus!
