//! Type-level tags for schema-authoring front ends that want the planner's
//! two structural validations surfaced at compile time: the total size must
//! be a whole number of bytes, and every enum discriminant must lie below the
//! variant count. A front end maps the computed remainder (or the comparison
//! outcome) to one of these tag types; only the passing tag implements the
//! marker trait, so a failing schema does not type-check. The run-time
//! planner and validator enforce the same rules with exact contracts.

use vstd::prelude::*;

verus! {

/// Implemented only by the remainder tag that stands for a byte-aligned
/// total, `ZeroMod8`.
pub trait TotalSizeIsMultipleOfEightBits {

}

/// The total bit size leaves remainder zero modulo eight.
pub struct ZeroMod8;

/// The total bit size leaves remainder one modulo eight.
pub struct OneMod8;

/// The total bit size leaves remainder two modulo eight.
pub struct TwoMod8;

/// The total bit size leaves remainder three modulo eight.
pub struct ThreeMod8;

/// The total bit size leaves remainder four modulo eight.
pub struct FourMod8;

/// The total bit size leaves remainder five modulo eight.
pub struct FiveMod8;

/// The total bit size leaves remainder six modulo eight.
pub struct SixMod8;

/// The total bit size leaves remainder seven modulo eight.
pub struct SevenMod8;

impl TotalSizeIsMultipleOfEightBits for ZeroMod8 {

}

/// Implemented only by the outcome tag that stands for a discriminant below
/// the variant count, `True`.
pub trait DiscriminantInRange {

}

/// The outcome tag of a comparison that held.
pub struct True;

/// The outcome tag of a comparison that failed.
pub struct False;

impl DiscriminantInRange for True {

}

/// Maps a type-level computation to its tag type.
pub trait Tag {
    type T;
}

/// The type-level comparison `V < count`, carried as its boolean outcome.
pub struct CheckRange<const V: usize, const B: bool>;

impl<const V: usize> Tag for CheckRange<V, true> {
    type T = True;
}

impl<const V: usize> Tag for CheckRange<V, false> {
    type T = False;
}

/// A front end asserts a discriminant is in range by requiring this trait of
/// the comparison's tag.
pub trait CheckRangeTrait<T: DiscriminantInRange> {

}

/// The type-level remainder of the total bit size modulo eight.
pub struct CheckMod<const M: usize>;

impl Tag for CheckMod<0> {
    type T = ZeroMod8;
}

impl Tag for CheckMod<1> {
    type T = OneMod8;
}

impl Tag for CheckMod<2> {
    type T = TwoMod8;
}

impl Tag for CheckMod<3> {
    type T = ThreeMod8;
}

impl Tag for CheckMod<4> {
    type T = FourMod8;
}

impl Tag for CheckMod<5> {
    type T = FiveMod8;
}

impl Tag for CheckMod<6> {
    type T = SixMod8;
}

impl Tag for CheckMod<7> {
    type T = SevenMod8;
}

/// A front end asserts byte alignment by requiring this trait of the
/// remainder's tag.
pub trait CheckModTrait<T: TotalSizeIsMultipleOfEightBits> {

}

} // verus!
