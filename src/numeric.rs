//! The numeric policy: how each stored sample type widens to an accumulator and
//! how an accumulator value narrows back.
use vstd::prelude::*;
use zune_core::bit_depth::BitType;
use crate::channel::{data_kind, data_values, ChannelData};

verus! {

/// `v` clamped to `[lo, hi]`.
pub open spec fn clamp(v: int, lo: int, hi: int) -> int {
    if v < lo {
        lo
    } else if v > hi {
        hi
    } else {
        v
    }
}

/// An integer sample type that channels can store and filters can compute with.
pub trait NumOps: Copy + Sized {
    /// The element kind that tags channels of this type.
    spec fn kind_spec() -> BitType;

    /// The sample's value as a mathematical integer.
    spec fn to_int(self) -> int;

    /// Largest value the type holds.
    spec fn max_int() -> int;

    fn element_kind() -> (r: BitType)
        ensures
            r == Self::kind_spec(),
    ;

    /// Widens a sample to the signed accumulator type.
    fn widen(self) -> (r: i32)
        ensures
            r as int == self.to_int(),
    ;

    /// Narrows an accumulator value back, saturating at the type's bounds.
    fn from_clamped(v: i64) -> (r: Self)
        ensures
            r.to_int() == clamp(v as int, 0, Self::max_int()),
    ;

    /// The zero sample.
    fn zero() -> (r: Self)
        ensures
            r.to_int() == 0,
    ;

    /// Whether `d` stores samples of this type.
    spec fn holds(d: ChannelData) -> bool;

    /// The samples of `d`, where `d` stores this type.
    spec fn seq_of(d: ChannelData) -> Seq<Self>;

    /// A view of the samples of `d`, if `d` stores this type.
    fn view_in(d: &ChannelData) -> (r: Option<&[Self]>)
        ensures
            r.is_some() == Self::holds(*d),
            r matches Some(s) ==> s@ == Self::seq_of(*d),
    ;

    /// A mutable view of the samples of `d`, if `d` stores this type; what is
    /// written through it becomes the samples of `d`.
    fn view_in_mut(d: &mut ChannelData) -> (r: Option<&mut [Self]>)
        ensures
            r.is_some() == Self::holds(*old(d)),
            r matches Some(s) ==> s@ == Self::seq_of(*old(d)),
            r matches Some(s) ==> Self::holds(*final(d)) && Self::seq_of(*final(d)) == final(s)@,
            r is None ==> *final(d) == *old(d),
            data_kind(*final(d)) == data_kind(*old(d)),
    ;

    /// Storage holding exactly the samples of `v`.
    fn wrap(v: Vec<Self>) -> (d: ChannelData)
        ensures
            Self::holds(d),
            Self::seq_of(d) == v@,
    ;

    /// Appends `x` to `d` if `d` stores this type; leaves `d` alone otherwise.
    fn push_in(d: &mut ChannelData, x: Self) -> (ok: bool)
        ensures
            ok == Self::holds(*old(d)),
            ok ==> Self::holds(*final(d)) && Self::seq_of(*final(d)) == Self::seq_of(*old(d)).push(x),
            !ok ==> *final(d) == *old(d),
    ;

    proof fn lemma_holds(d: ChannelData)
        ensures
            Self::holds(d) <==> data_kind(d) == Self::kind_spec(),
            Self::holds(d) ==> Self::seq_of(d).len() == data_values(d).len(),
            Self::holds(d) ==> forall|i: int|
                0 <= i < data_values(d).len() ==> #[trigger] data_values(d)[i] == Self::seq_of(d)[i].to_int(),
    ;

    proof fn lemma_range(x: Self)
        ensures
            0 <= x.to_int() <= Self::max_int(),
            Self::max_int() <= 65535,
    ;

    proof fn lemma_injective(x: Self, y: Self)
        ensures
            x.to_int() == y.to_int() ==> x == y,
    ;
}

impl NumOps for u8 {
    open spec fn kind_spec() -> BitType {
        BitType::U8
    }

    open spec fn to_int(self) -> int {
        self as int
    }

    open spec fn max_int() -> int {
        255
    }

    fn element_kind() -> (r: BitType) {
        BitType::U8
    }

    fn widen(self) -> (r: i32) {
        self as i32
    }

    fn from_clamped(v: i64) -> (r: u8) {
        if v < 0 {
            0
        } else if v > 255 {
            255
        } else {
            v as u8
        }
    }

    fn zero() -> (r: u8) {
        0
    }

    open spec fn holds(d: ChannelData) -> bool {
        d is U8
    }

    open spec fn seq_of(d: ChannelData) -> Seq<u8> {
        match d {
            ChannelData::U8(v) => v@,
            _ => Seq::empty(),
        }
    }

    fn view_in(d: &ChannelData) -> (r: Option<&[u8]>) {
        match d {
            ChannelData::U8(v) => Some(v.as_slice()),
            _ => None,
        }
    }

    fn view_in_mut(d: &mut ChannelData) -> (r: Option<&mut [u8]>) {
        match d {
            ChannelData::U8(v) => Some(v.as_mut_slice()),
            _ => None,
        }
    }

    fn wrap(v: Vec<u8>) -> (d: ChannelData) {
        ChannelData::U8(v)
    }

    fn push_in(d: &mut ChannelData, x: u8) -> (ok: bool) {
        match d {
            ChannelData::U8(v) => {
                v.push(x);
                true
            },
            _ => false,
        }
    }

    proof fn lemma_holds(d: ChannelData) {
    }

    proof fn lemma_range(x: u8) {
    }

    proof fn lemma_injective(x: u8, y: u8) {
    }
}

impl NumOps for u16 {
    open spec fn kind_spec() -> BitType {
        BitType::U16
    }

    open spec fn to_int(self) -> int {
        self as int
    }

    open spec fn max_int() -> int {
        65535
    }

    fn element_kind() -> (r: BitType) {
        BitType::U16
    }

    fn widen(self) -> (r: i32) {
        self as i32
    }

    fn from_clamped(v: i64) -> (r: u16) {
        if v < 0 {
            0
        } else if v > 65535 {
            65535
        } else {
            v as u16
        }
    }

    fn zero() -> (r: u16) {
        0
    }

    open spec fn holds(d: ChannelData) -> bool {
        d is U16
    }

    open spec fn seq_of(d: ChannelData) -> Seq<u16> {
        match d {
            ChannelData::U16(v) => v@,
            _ => Seq::empty(),
        }
    }

    fn view_in(d: &ChannelData) -> (r: Option<&[u16]>) {
        match d {
            ChannelData::U16(v) => Some(v.as_slice()),
            _ => None,
        }
    }

    fn view_in_mut(d: &mut ChannelData) -> (r: Option<&mut [u16]>) {
        match d {
            ChannelData::U16(v) => Some(v.as_mut_slice()),
            _ => None,
        }
    }

    fn wrap(v: Vec<u16>) -> (d: ChannelData) {
        ChannelData::U16(v)
    }

    fn push_in(d: &mut ChannelData, x: u16) -> (ok: bool) {
        match d {
            ChannelData::U16(v) => {
                v.push(x);
                true
            },
            _ => false,
        }
    }

    proof fn lemma_holds(d: ChannelData) {
    }

    proof fn lemma_range(x: u16) {
    }

    proof fn lemma_injective(x: u16, y: u16) {
    }
}

} // verus!
