//! Colorspace and bit-depth descriptions, taken from `zune_core`.
use vstd::prelude::*;
use zune_core::bit_depth::{BitDepth, BitType};
use zune_core::colorspace::ColorSpace;

verus! {

#[verifier::external_type_specification]
pub struct ExColorSpace(ColorSpace);

#[verifier::external_type_specification]
pub struct ExBitType(BitType);

#[verifier::external_type_specification]
pub struct ExBitDepth(BitDepth);

/// Number of planes that a colorspace holds.
pub open spec fn components_of(c: ColorSpace) -> nat {
    match c {
        ColorSpace::RGB | ColorSpace::YCbCr | ColorSpace::BGR => 3,
        ColorSpace::RGBA | ColorSpace::YCCK | ColorSpace::CMYK | ColorSpace::BGRA => 4,
        ColorSpace::Luma => 1,
        ColorSpace::LumaA => 2,
        _ => 0,
    }
}

/// Whether the last plane of a colorspace is an alpha plane.
pub open spec fn alpha_of(c: ColorSpace) -> bool {
    c == ColorSpace::RGBA || c == ColorSpace::LumaA || c == ColorSpace::BGRA
}

/// Relies on zune_core's `ColorSpace::num_components`: its per-variant table.
pub assume_specification[ ColorSpace::num_components ](c: &ColorSpace) -> (r: usize)
    ensures
        r as nat == components_of(*c),
;

/// Relies on zune_core's `ColorSpace::has_alpha`: RGBA, LumaA and BGRA carry alpha.
pub assume_specification[ ColorSpace::has_alpha ](c: &ColorSpace) -> (r: bool)
    ensures
        r == alpha_of(*c),
;

/// Largest sample value of a bit depth.
pub open spec fn max_value_of(d: BitDepth) -> nat {
    match d {
        BitDepth::Eight => 255,
        BitDepth::Sixteen => 65535,
        BitDepth::Float32 => 1,
        _ => 0,
    }
}

/// Element kind in which a (known) bit depth stores its samples.
pub open spec fn bit_type_of(d: BitDepth) -> BitType {
    match d {
        BitDepth::Eight => BitType::U8,
        BitDepth::Sixteen => BitType::U16,
        _ => BitType::F32,
    }
}

/// Relies on zune_core's `BitDepth::max_value`: 255, 65535, 1 and 0 by variant.
pub assume_specification[ BitDepth::max_value ](d: BitDepth) -> (r: u16)
    ensures
        r as nat == max_value_of(d),
;

/// Relies on zune_core's `BitDepth::bit_type`, which panics on `Unknown`.
pub assume_specification[ BitDepth::bit_type ](d: BitDepth) -> (r: BitType)
    requires
        d != BitDepth::Unknown,
    ensures
        r == bit_type_of(d),
;

/// Relies on the derived `Clone` of zune_core's `BitType`, a `Copy` enum.
pub assume_specification[ <BitType as core::clone::Clone>::clone ](b: &BitType) -> (r: BitType)
    ensures
        r == *b,
;

/// Relies on the derived `PartialEq` of zune_core's `BitType`: equal variants.
pub assume_specification[ <BitType as core::cmp::PartialEq>::eq ](a: &BitType, b: &BitType) -> (r: bool)
    ensures
        r == (*a == *b),
;

} // verus!
