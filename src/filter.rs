//! Running a filter over a frame: gating on the element kinds a filter
//! supports, and filtering one channel through padding and traversal.
use vstd::prelude::*;
use zune_core::bit_depth::{BitDepth, BitType};
use zune_core::colorspace::ColorSpace;
use crate::channel::Channel;
use crate::errors::ImageErrors;
use crate::frame::{committed_outcome, sequential_outcome, window_len, Frame};
use crate::kinds::{bit_type_of, components_of};
use crate::numeric::NumOps;
use crate::pad::{pad, pad_fits, replicated, PadMethod};
use crate::spatial::{kernel_gives, spatial, window_at};

verus! {

/// Ok when `depth`'s element kind is among `supported`; otherwise the error
/// naming the filter and the kind.
pub fn check_supported(name: &'static str, supported: &[BitType], depth: BitDepth) -> (r: Result<(), ImageErrors>)
    requires
        depth != BitDepth::Unknown,
    ensures
        r is Ok <==> supported@.contains(bit_type_of(depth)),
        r is Err ==> r == Err::<(), ImageErrors>(ImageErrors::OperationNotImplemented(name, bit_type_of(depth))),
{
    let kind = depth.bit_type();
    let mut i: usize = 0;
    while i < supported.len()
        invariant
            kind == bit_type_of(depth),
            0 <= i <= supported@.len(),
            forall|j: int| 0 <= j < i ==> supported@[j] != kind,
        decreases supported@.len() - i,
    {
        if supported[i] == kind {
            return Ok(());
        }
        i = i + 1;
    }
    Err(ImageErrors::OperationNotImplemented(name, kind))
}

/// Runs a filter on the channels of `frame` that `colorspace` covers, alpha
/// excluded: fails with `OperationNotImplemented`, leaving the frame as it
/// was, when `depth`'s kind is not among `supported`; otherwise replaces each
/// channel in order by what `per_channel` computes from it, stopping at the
/// first failure.
pub fn execute_filter<F: Fn(&Channel) -> Result<Channel, ImageErrors>>(
    frame: &mut Frame,
    colorspace: ColorSpace,
    depth: BitDepth,
    name: &'static str,
    supported: &[BitType],
    per_channel: F,
) -> (r: Result<(), ImageErrors>)
    requires
        depth != BitDepth::Unknown,
        components_of(colorspace) <= old(frame).channels_spec().len(),
        forall|c: &Channel| #[trigger] per_channel.requires((c,)),
    ensures
        !supported@.contains(bit_type_of(depth)) ==> r == Err::<(), ImageErrors>(
            ImageErrors::OperationNotImplemented(name, bit_type_of(depth)),
        ) && *final(frame) == *old(frame),
        supported@.contains(bit_type_of(depth)) ==> sequential_outcome(
            old(frame).channels_spec(),
            final(frame).channels_spec(),
            window_len(colorspace, true) as int,
            per_channel,
            r,
        ) && final(frame).duration_spec() == old(frame).duration_spec(),
{
    check_supported(name, supported, depth)?;
    frame.map_channels(colorspace, true, per_channel)
}

/// The samples of a `width` by `height` plane padded by replication by
/// `radius` on every side.
pub open spec fn padded_plane<T>(src: Seq<T>, width: int, height: int, radius: int) -> Seq<T> {
    Seq::new(
        ((width + 2 * radius) * (height + 2 * radius)) as nat,
        |i: int| replicated(src, width, height, radius, radius, i % (width + 2 * radius), i / (width + 2 * radius)),
    )
}

/// Outcome of filtering one `width` by `height` channel as kind `T` with the
/// window function `f`: `TypeMismatch` for a channel of another kind;
/// otherwise a channel of the same kind whose every sample is what `f`
/// returns on the window around the matching position of the plane padded by
/// replication by `radius`.
pub open spec fn channel_filtered<T: NumOps, F: Fn(&[T]) -> T>(
    channel: &Channel,
    width: int,
    height: int,
    radius: int,
    f: F,
    r: Result<Channel, ImageErrors>,
) -> bool {
    &&& r is Ok <==> channel.kind() == T::kind_spec()
    &&& r matches Err(e) ==> e == ImageErrors::TypeMismatch(channel.kind(), T::kind_spec())
    &&& r matches Ok(c) ==> {
        let padded = padded_plane(channel.samples::<T>(), width, height, radius);
        &&& c.kind() == channel.kind()
        &&& c.samples::<T>().len() == width * height
        &&& forall|p: int| 0 <= p < width * height ==> #[trigger] kernel_gives(
            f,
            window_at(padded, width + 2 * radius, 2 * radius + 1, p % width, p / width),
            c.samples::<T>()[p],
        )
    }
}

/// Filters one `width` by `height` channel of kind `T` with the window
/// function `f`: the plane is padded by replication by `radius`, and each
/// output sample is what `f` returns on the `(2 * radius + 1)`-square window
/// around the matching position. The input channel is not changed; a channel
/// of another kind gives `TypeMismatch`.
pub fn filter_channel<T: NumOps, F: Fn(&[T]) -> T>(
    channel: &Channel,
    width: usize,
    height: usize,
    radius: usize,
    f: F,
) -> (r: Result<Channel, ImageErrors>)
    requires
        channel.values().len() == width * height,
        pad_fits(width as int, height as int, radius as int, radius as int),
        forall|a: &[T]| #[trigger] f.requires((a,)),
    ensures
        channel_filtered(channel, width as int, height as int, radius as int, f, r),
{
    let src = channel.reinterpret_as::<T>()?;
    if width == 0 || height == 0 {
        let empty: Vec<T> = Vec::new();
        proof {
            assert(width * height == 0) by (nonlinear_arith)
                requires width == 0 || height == 0;
        }
        return Ok(Channel::from_vec(empty));
    }
    let padded = pad(src, width, height, radius, radius, PadMethod::Replicate);
    assert(padded@ =~= padded_plane(src@, width as int, height as int, radius as int));
    let mut dest: Vec<T> = Vec::new();
    let total = src.len();
    let mut i: usize = 0;
    while i < total
        invariant
            0 <= i <= total,
            dest@.len() == i,
        decreases total - i,
    {
        dest.push(T::zero());
        i = i + 1;
    }
    spatial(padded.as_slice(), dest.as_mut_slice(), radius, width, height, f);
    Ok(Channel::from_vec(dest))
}

/// Filters one channel at the element kind of `depth`: with `kernel8` on 8-bit
/// samples, with `kernel16` on 16-bit samples; any other kind gives
/// `OperationNotImplemented`. A channel whose stored kind differs from
/// `depth`'s gives `TypeMismatch` and is never read as the other kind.
pub fn filter_channel_at_depth<F8: Fn(&[u8]) -> u8, F16: Fn(&[u16]) -> u16>(
    channel: &Channel,
    depth: BitDepth,
    width: usize,
    height: usize,
    radius: usize,
    name: &'static str,
    kernel8: F8,
    kernel16: F16,
) -> (r: Result<Channel, ImageErrors>)
    requires
        depth != BitDepth::Unknown,
        channel.values().len() == width * height,
        pad_fits(width as int, height as int, radius as int, radius as int),
        forall|a: &[u8]| #[trigger] kernel8.requires((a,)),
        forall|a: &[u16]| #[trigger] kernel16.requires((a,)),
    ensures
        bit_type_of(depth) == BitType::U8 ==> channel_filtered(channel, width as int, height as int, radius as int, kernel8, r),
        bit_type_of(depth) == BitType::U16 ==> channel_filtered(channel, width as int, height as int, radius as int, kernel16, r),
        bit_type_of(depth) == BitType::F32 ==> r == Err::<Channel, ImageErrors>(
            ImageErrors::OperationNotImplemented(name, BitType::F32),
        ),
{
    match depth.bit_type() {
        BitType::U8 => filter_channel::<u8, F8>(channel, width, height, radius, kernel8),
        BitType::U16 => filter_channel::<u16, F16>(channel, width, height, radius, kernel16),
        kind => Err(ImageErrors::OperationNotImplemented(name, kind)),
    }
}

/// A filter's per-channel function is deterministic: one input channel, one result.
pub open spec fn deterministic<F: Fn(&Channel) -> Result<Channel, ImageErrors>>(f: F) -> bool {
    forall|c: &Channel, a: Result<Channel, ImageErrors>, b: Result<Channel, ImageErrors>|
        #[trigger] f.ensures((c,), a) && #[trigger] f.ensures((c,), b) ==> a == b
}

/// Running a deterministic per-channel function channel by channel in order,
/// and running it on every channel independently (in parallel) and then
/// committing the results, report the same outcome; where that outcome is
/// success, they leave identical channels.
pub proof fn lemma_parallel_matches_sequential<F: Fn(&Channel) -> Result<Channel, ImageErrors>>(
    f: F,
    before: Seq<Channel>,
    n: int,
    sequential: Seq<Channel>,
    r_sequential: Result<(), ImageErrors>,
    results: Seq<Result<Channel, ImageErrors>>,
    parallel: Seq<Channel>,
    r_parallel: Result<(), ImageErrors>,
)
    requires
        deterministic(f),
        0 <= n <= before.len(),
        results.len() == n,
        forall|i: int| 0 <= i < n ==> f.ensures((&before[i],), #[trigger] results[i]),
        sequential_outcome(before, sequential, n, f, r_sequential),
        committed_outcome(before, parallel, n, results, r_parallel),
    ensures
        r_sequential is Ok <==> r_parallel is Ok,
        r_sequential is Err ==> r_sequential == r_parallel,
        r_sequential is Ok ==> sequential == parallel,
{
    match r_sequential {
        Ok(_) => {
            assert forall|i: int| 0 <= i < n implies (#[trigger] results[i]) is Ok
                && results[i] == Ok::<Channel, ImageErrors>(sequential[i]) by {
                assert(f.ensures((&before[i],), Ok::<Channel, ImageErrors>(sequential[i])));
            }
            assert(sequential =~= parallel);
            assert(r_parallel is Ok);
        },
        Err(e) => {
            let k = choose|k: int|
                0 <= k < n && #[trigger] f.ensures((&before[k],), Err::<Channel, ImageErrors>(e))
                    && (forall|i: int| 0 <= i < k ==> f.ensures((&before[i],), Ok::<Channel, ImageErrors>(#[trigger] sequential[i])))
                    && (forall|i: int| k <= i < n ==> #[trigger] sequential[i] == before[i]);
            assert(results[k] == Err::<Channel, ImageErrors>(e));
            assert forall|i: int| 0 <= i < k implies (#[trigger] results[i]) is Ok by {
                assert(f.ensures((&before[i],), Ok::<Channel, ImageErrors>(sequential[i])));
            }
            let e2 = r_parallel->Err_0;
            let k2 = choose|k2: int|
                0 <= k2 < n && #[trigger] results[k2] == Err::<Channel, ImageErrors>(e2)
                    && forall|i: int| 0 <= i < k2 ==> (#[trigger] results[i]) is Ok;
            if k2 < k {
            } else if k < k2 {
            }
            assert(k == k2);
        },
    }
}

} // verus!
