//! Typed channel storage: one plane of samples tagged with its element kind.
use vstd::prelude::*;
use zune_core::bit_depth::BitType;
use crate::errors::ImageErrors;
use crate::numeric::NumOps;

verus! {

/// The samples of a channel, one variant per element kind. Single-precision
/// float samples are held by their bit patterns.
#[derive(Clone)]
pub enum ChannelData {
    U8(Vec<u8>),
    U16(Vec<u16>),
    F32(Vec<u32>),
}

/// Element kind of a storage variant.
pub open spec fn data_kind(d: ChannelData) -> BitType {
    match d {
        ChannelData::U8(_) => BitType::U8,
        ChannelData::U16(_) => BitType::U16,
        ChannelData::F32(_) => BitType::F32,
    }
}

/// The samples of a storage variant as integers (float samples by their bits).
pub open spec fn data_values(d: ChannelData) -> Seq<int> {
    match d {
        ChannelData::U8(v) => v@.map_values(|x: u8| x as int),
        ChannelData::U16(v) => v@.map_values(|x: u16| x as int),
        ChannelData::F32(v) => v@.map_values(|x: u32| x as int),
    }
}

/// One plane of samples together with its element kind.
#[derive(Clone)]
pub struct Channel {
    data: ChannelData,
}

impl Channel {
    /// The element kind the channel stores.
    pub closed spec fn kind(&self) -> BitType {
        data_kind(self.data)
    }

    /// The channel's samples as integers.
    pub closed spec fn values(&self) -> Seq<int> {
        data_values(self.data)
    }

    /// The samples of a channel of kind `T`, typed.
    pub closed spec fn samples<T: NumOps>(&self) -> Seq<T> {
        T::seq_of(self.data)
    }

    /// An empty channel of kind `T`.
    pub fn new<T: NumOps>() -> (r: Channel)
        ensures
            r.kind() == T::kind_spec(),
            r.values().len() == 0,
    {
        let r = Channel { data: T::wrap(Vec::new()) };
        proof {
            T::lemma_holds(r.data);
        }
        r
    }

    /// A channel of `length` zero samples of the given kind.
    pub fn new_with_bit_type(length: usize, kind: BitType) -> (r: Channel)
        ensures
            r.kind() == kind,
            r.values() == Seq::new(length as nat, |i: int| 0int),
    {
        let data = match kind {
            BitType::U8 => ChannelData::U8(vec![0u8; length]),
            BitType::U16 => ChannelData::U16(vec![0u16; length]),
            _ => ChannelData::F32(vec![0u32; length]),
        };
        let r = Channel { data };
        assert(r.values() =~= Seq::new(length as nat, |i: int| 0int));
        r
    }

    /// A channel of kind `T` holding `v`.
    pub fn from_vec<T: NumOps>(v: Vec<T>) -> (r: Channel)
        ensures
            r.kind() == T::kind_spec(),
            r.samples::<T>() == v@,
            r.values() == v@.map_values(|x: T| x.to_int()),
    {
        let r = Channel { data: T::wrap(v) };
        proof {
            T::lemma_holds(r.data);
            assert(r.values() =~= v@.map_values(|x: T| x.to_int()));
        }
        r
    }

    /// Number of samples.
    pub fn len(&self) -> (r: usize)
        ensures
            r == self.values().len(),
    {
        match &self.data {
            ChannelData::U8(v) => v.len(),
            ChannelData::U16(v) => v.len(),
            ChannelData::F32(v) => v.len(),
        }
    }

    /// Whether the channel holds no samples.
    pub fn is_empty(&self) -> (r: bool)
        ensures
            r == (self.values().len() == 0),
    {
        self.len() == 0
    }

    /// The element kind the channel stores.
    pub fn get_bit_type(&self) -> (r: BitType)
        ensures
            r == self.kind(),
    {
        match &self.data {
            ChannelData::U8(_) => BitType::U8,
            ChannelData::U16(_) => BitType::U16,
            ChannelData::F32(_) => BitType::F32,
        }
    }

    /// A typed view of the samples, if the channel stores kind `T`.
    pub fn reinterpret_as<T: NumOps>(&self) -> (r: Result<&[T], ImageErrors>)
        ensures
            r is Ok <==> self.kind() == T::kind_spec(),
            r matches Ok(s) ==> s@ == self.samples::<T>() && s@.len() == self.values().len()
                && forall|i: int| 0 <= i < s@.len() ==> #[trigger] s@[i].to_int() == self.values()[i],
            r matches Err(e) ==> e == ImageErrors::TypeMismatch(self.kind(), T::kind_spec()),
    {
        proof {
            T::lemma_holds(self.data);
        }
        match T::view_in(&self.data) {
            Some(s) => Ok(s),
            None => Err(ImageErrors::TypeMismatch(self.get_bit_type(), T::element_kind())),
        }
    }

    /// A mutable typed view of the samples, if the channel stores kind `T`;
    /// what is written through it becomes the channel's samples.
    pub fn reinterpret_as_mut<T: NumOps>(&mut self) -> (r: Result<&mut [T], ImageErrors>)
        ensures
            r is Ok <==> old(self).kind() == T::kind_spec(),
            r matches Ok(s) ==> s@ == old(self).samples::<T>() && s@.len() == old(self).values().len(),
            r matches Ok(s) ==> final(self).kind() == old(self).kind() && final(self).samples::<T>() == final(s)@,
            r matches Err(e) ==> e == ImageErrors::TypeMismatch(old(self).kind(), T::kind_spec())
                && *final(self) == *old(self),
    {
        proof {
            T::lemma_holds(self.data);
        }
        let kind = self.get_bit_type();
        match T::view_in_mut(&mut self.data) {
            Some(s) => Ok(s),
            None => Err(ImageErrors::TypeMismatch(kind, T::element_kind())),
        }
    }

    /// The integer values of a channel of kind `T` are those of its typed samples.
    pub proof fn lemma_values_of_samples<T: NumOps>(&self)
        requires
            self.kind() == T::kind_spec(),
        ensures
            self.values() == self.samples::<T>().map_values(|x: T| x.to_int()),
    {
        T::lemma_holds(self.data);
        assert(self.values() =~= self.samples::<T>().map_values(|x: T| x.to_int()));
    }

    /// Appends one sample; fails without change if the channel is not of kind `T`.
    pub fn push<T: NumOps>(&mut self, value: T) -> (r: Result<(), ImageErrors>)
        ensures
            r is Ok <==> old(self).kind() == T::kind_spec(),
            r is Ok ==> final(self).kind() == old(self).kind()
                && final(self).values() == old(self).values().push(value.to_int()),
            r matches Err(e) ==> e == ImageErrors::TypeMismatch(old(self).kind(), T::kind_spec())
                && *final(self) == *old(self),
    {
        proof {
            T::lemma_holds(self.data);
        }
        let kind = self.get_bit_type();
        let ok = T::push_in(&mut self.data, value);
        proof {
            T::lemma_holds(self.data);
            if ok {
                assert(self.values() =~= old(self).values().push(value.to_int()));
            }
        }
        if ok {
            Ok(())
        } else {
            Err(ImageErrors::TypeMismatch(kind, T::element_kind()))
        }
    }

    /// Appends samples in order; fails without change if the channel is not of kind `T`.
    pub fn extend<T: NumOps>(&mut self, values: &[T]) -> (r: Result<(), ImageErrors>)
        ensures
            r is Ok <==> old(self).kind() == T::kind_spec(),
            r is Ok ==> final(self).kind() == old(self).kind()
                && final(self).values() == old(self).values() + values@.map_values(|x: T| x.to_int()),
            r matches Err(e) ==> e == ImageErrors::TypeMismatch(old(self).kind(), T::kind_spec())
                && *final(self) == *old(self),
    {
        let kind = self.get_bit_type();
        if kind != T::element_kind() {
            return Err(ImageErrors::TypeMismatch(kind, T::element_kind()));
        }
        let mut i: usize = 0;
        while i < values.len()
            invariant
                0 <= i <= values@.len(),
                self.kind() == T::kind_spec(),
                self.values() == old(self).values() + values@.subrange(0, i as int).map_values(|x: T| x.to_int()),
            decreases values@.len() - i,
        {
            let r = self.push(values[i]);
            proof {
                assert(values@.subrange(0, i + 1).map_values(|x: T| x.to_int())
                    =~= values@.subrange(0, i as int).map_values(|x: T| x.to_int()).push(values@[i as int].to_int()));
            }
            i = i + 1;
        }
        assert(values@.subrange(0, values@.len() as int) =~= values@);
        Ok(())
    }
}

} // verus!
