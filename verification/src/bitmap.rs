//! Sets of document ids, held as `roaring` bitmaps.
//!
//! `roaring` is not verified here. What this crate relies on is written down
//! once, in the contracts of the small functions of this module, over
//! [`bitmap_ids`]: the set of ids that a bitmap holds.

use roaring::RoaringBitmap;
use vstd::prelude::*;

verus! {

/// `roaring::RoaringBitmap`, a set of 32-bit integers. Nothing is known of
/// its inside; what it holds is spoken of by [`bitmap_ids`].
#[verifier::external_type_specification]
#[verifier::external_body]
pub struct ExRoaringBitmap(RoaringBitmap);

/// The document ids that a bitmap holds.
pub uninterp spec fn bitmap_ids(bitmap: RoaringBitmap) -> Set<u32>;

/// `RoaringBitmap::new`: a bitmap that holds no id.
#[verifier::external_body]
pub(crate) fn empty_bitmap() -> (bitmap: RoaringBitmap)
    ensures
        bitmap_ids(bitmap) == Set::<u32>::empty(),
{
    RoaringBitmap::new()
}

/// `RoaringBitmap::clone`: a bitmap that holds the same ids.
#[verifier::external_body]
pub(crate) fn copy_bitmap(bitmap: &RoaringBitmap) -> (copy: RoaringBitmap)
    ensures
        bitmap_ids(copy) == bitmap_ids(*bitmap),
{
    bitmap.clone()
}

/// `RoaringBitmap::union_with`: afterwards `output` holds the ids it held
/// before together with those of `other`.
#[verifier::external_body]
#[allow(deprecated)]
pub(crate) fn union_into(output: &mut RoaringBitmap, other: &RoaringBitmap)
    ensures
        bitmap_ids(*final(output)) == bitmap_ids(*old(output)).union(bitmap_ids(*other)),
{
    output.union_with(other)
}

/// `lhs | rhs` on two bitmaps: the ids that either holds.
#[verifier::external_body]
pub(crate) fn union_of(lhs: RoaringBitmap, rhs: RoaringBitmap) -> (both: RoaringBitmap)
    ensures
        bitmap_ids(both) == bitmap_ids(lhs).union(bitmap_ids(rhs)),
{
    lhs | rhs
}

/// `lhs & rhs` on two bitmaps: the ids that both hold.
#[verifier::external_body]
pub(crate) fn intersection_of(lhs: RoaringBitmap, rhs: RoaringBitmap) -> (common: RoaringBitmap)
    ensures
        bitmap_ids(common) == bitmap_ids(lhs).intersect(bitmap_ids(rhs)),
{
    lhs & rhs
}

/// `lhs - rhs` on two bitmaps: the ids of `lhs` that `rhs` does not hold.
#[verifier::external_body]
pub(crate) fn difference_of(lhs: RoaringBitmap, rhs: RoaringBitmap) -> (rest: RoaringBitmap)
    ensures
        bitmap_ids(rest) == bitmap_ids(lhs).difference(bitmap_ids(rhs)),
{
    lhs - rhs
}

} // verus!
