//! A frame: an ordered group of channels forming one planar image.
use vstd::prelude::*;
use zune_core::bit_depth::BitType;
use zune_core::colorspace::ColorSpace;
use crate::channel::Channel;
use crate::errors::ImageErrors;
use crate::kinds::{alpha_of, components_of};
use crate::numeric::NumOps;

verus! {

/// Number of channels that a view under `colorspace` covers: the colorspace's
/// components, less the trailing alpha plane when alpha is ignored.
pub open spec fn window_len(colorspace: ColorSpace, ignore_alpha: bool) -> nat {
    if ignore_alpha && alpha_of(colorspace) {
        (components_of(colorspace) - 1) as nat
    } else {
        components_of(colorspace)
    }
}

/// Every one of the first `n` channels stores kind `k`.
pub open spec fn all_of_kind(chs: Seq<Channel>, n: int, k: BitType) -> bool {
    forall|i: int| 0 <= i < n ==> #[trigger] chs[i].kind() == k
}

/// The shortest length among the first `n` channels (`n >= 1`).
pub open spec fn min_len(chs: Seq<Channel>, n: nat) -> nat
    decreases n,
{
    if n <= 1 {
        chs[0].values().len()
    } else {
        let m = min_len(chs, (n - 1) as nat);
        let l = chs[n - 1].values().len();
        if l < m {
            l
        } else {
            m
        }
    }
}

/// Component `k` of RGBA pixel `p` built from `n` planes.
pub open spec fn rgba_value(chs: Seq<Channel>, n: nat, p: int, k: int) -> int {
    if n == 1 {
        if k < 3 { chs[0].values()[p] } else { 255 }
    } else if n == 2 {
        if k < 3 { chs[0].values()[p] } else { chs[1].values()[p] }
    } else if n == 3 {
        if k < 3 { chs[k].values()[p] } else { 255 }
    } else {
        chs[k].values()[p]
    }
}

/// Low byte first reading of two bytes.
pub open spec fn le_value(b0: u8, b1: u8) -> int {
    b0 as int + 256 * (b1 as int)
}

/// High byte first reading of two bytes.
pub open spec fn be_value(b0: u8, b1: u8) -> int {
    256 * (b0 as int) + b1 as int
}

/// Relies on `u16::to_ne_bytes`: the two bytes of `v` in the host's byte order,
/// which is one of the two orders.
#[verifier::external_body]
fn native_bytes(v: u16) -> (r: [u8; 2])
    ensures
        le_value(r[0], r[1]) == v as int || be_value(r[0], r[1]) == v as int,
{
    v.to_ne_bytes()
}

proof fn lemma_min_len(chs: Seq<Channel>, n: nat)
    requires
        1 <= n <= chs.len(),
    ensures
        forall|i: int| 0 <= i < n ==> min_len(chs, n) <= #[trigger] chs[i].values().len(),
        exists|i: int| 0 <= i < n && min_len(chs, n) == #[trigger] chs[i].values().len(),
    decreases n,
{
    if n > 1 {
        lemma_min_len(chs, (n - 1) as nat);
    }
}

/// Sample `p` of a channel of kind `T`.
fn sample_at<T: NumOps>(ch: &Channel, p: usize) -> (r: T)
    requires
        ch.kind() == T::kind_spec(),
        p < ch.values().len(),
    ensures
        r.to_int() == ch.values()[p as int],
{
    match ch.reinterpret_as::<T>() {
        Ok(s) => s[p],
        Err(_) => T::zero(),
    }
}

/// Bytes `2 * i` and `2 * i + 1` of `r` hold sample `i / n` of channel
/// `i % n`, low byte first when `le` is set and high byte first otherwise.
pub open spec fn holds_native_sample(r: Seq<u8>, chs: Seq<Channel>, n: int, i: int, le: bool) -> bool {
    let v = chs[i % n].values()[i / n];
    if le {
        le_value(r[2 * i], r[2 * i + 1]) == v
    } else {
        be_value(r[2 * i], r[2 * i + 1]) == v
    }
}

/// The first `count` samples of the interleaved planes all stand in `r` in
/// one byte order: low byte first when `le` is set, high byte first otherwise.
pub open spec fn native_samples(r: Seq<u8>, chs: Seq<Channel>, n: int, count: int, le: bool) -> bool {
    forall|i: int| 0 <= i < count ==> #[trigger] holds_native_sample(r, chs, n, i, le)
}

/// The shortest length among the first `n` channels.
fn min_len_exec(chs: &Vec<Channel>, n: usize) -> (m: usize)
    requires
        1 <= n <= chs@.len(),
    ensures
        m == min_len(chs@, n as nat),
{
    let mut m = chs[0].len();
    let mut i: usize = 1;
    while i < n
        invariant
            1 <= i <= n <= chs@.len(),
            m == min_len(chs@, i as nat),
        decreases n - i,
    {
        let l = chs[i].len();
        if l < m {
            m = l;
        }
        i = i + 1;
    }
    m
}

/// Ok when each of the first `n` channels stores `kind`; else the first that
/// does not, as an error.
fn check_kinds(chs: &Vec<Channel>, n: usize, kind: BitType) -> (r: Result<(), ImageErrors>)
    requires
        n <= chs@.len(),
    ensures
        r is Ok <==> all_of_kind(chs@, n as int, kind),
        r matches Err(e) ==> exists|i: int|
            0 <= i < n && all_of_kind(chs@, i, kind) && #[trigger] chs@[i].kind() != kind
                && e == ImageErrors::WrongElementKind(chs@[i].kind(), kind),
{
    let mut i: usize = 0;
    while i < n
        invariant
            n <= chs@.len(),
            0 <= i <= n,
            all_of_kind(chs@, i as int, kind),
        decreases n - i,
    {
        let k = chs[i].get_bit_type();
        if k != kind {
            return Err(ImageErrors::WrongElementKind(k, kind));
        }
        i = i + 1;
    }
    Ok(())
}

/// Component `k` of RGBA pixel `p` built from `n` planes of bytes.
fn rgba_component(chs: &Vec<Channel>, n: usize, p: usize, k: usize) -> (r: u8)
    requires
        1 <= n <= 4,
        n <= chs@.len(),
        all_of_kind(chs@, n as int, BitType::U8),
        p < min_len(chs@, n as nat),
        k < 4,
    ensures
        r as int == rgba_value(chs@, n as nat, p as int, k as int),
{
    proof {
        lemma_min_len(chs@, n as nat);
        assert(chs@[0].kind() == BitType::U8);
        assert(p < chs@[0].values().len());
    }
    if n == 1 {
        if k < 3 { sample_at::<u8>(&chs[0], p) } else { 255 }
    } else if n == 2 {
        if k < 3 {
            sample_at::<u8>(&chs[0], p)
        } else {
            assert(chs@[1].kind() == BitType::U8 && p < chs@[1].values().len());
            sample_at::<u8>(&chs[1], p)
        }
    } else if n == 3 {
        if k < 3 {
            assert(chs@[k as int].kind() == BitType::U8 && p < chs@[k as int].values().len());
            sample_at::<u8>(&chs[k], p)
        } else {
            255
        }
    } else {
        assert(chs@[k as int].kind() == BitType::U8 && p < chs@[k as int].values().len());
        sample_at::<u8>(&chs[k], p)
    }
}

/// Outcome of replacing, in order, each of the first `n` channels by what `f`
/// computes from it and stopping at the first failure: the channels before
/// it replaced, it and those after unchanged.
pub open spec fn sequential_outcome<F: Fn(&Channel) -> Result<Channel, ImageErrors>>(
    before: Seq<Channel>,
    after: Seq<Channel>,
    n: int,
    f: F,
    r: Result<(), ImageErrors>,
) -> bool {
    &&& after.len() == before.len()
    &&& forall|i: int| n <= i < before.len() ==> #[trigger] after[i] == before[i]
    &&& match r {
        Ok(_) => forall|i: int| 0 <= i < n ==> f.ensures((&before[i],), Ok::<Channel, ImageErrors>(#[trigger] after[i])),
        Err(e) => exists|k: int|
            0 <= k < n && #[trigger] f.ensures((&before[k],), Err::<Channel, ImageErrors>(e))
                && (forall|i: int| 0 <= i < k ==> f.ensures((&before[i],), Ok::<Channel, ImageErrors>(#[trigger] after[i])))
                && (forall|i: int| k <= i < n ==> #[trigger] after[i] == before[i]),
    }
}

/// Outcome of committing per-channel results computed independently: each of
/// the first `n` channels whose result succeeded is replaced by it, the others
/// are kept, and the first failure, if any, is reported.
pub open spec fn committed_outcome(
    before: Seq<Channel>,
    after: Seq<Channel>,
    n: int,
    results: Seq<Result<Channel, ImageErrors>>,
    r: Result<(), ImageErrors>,
) -> bool {
    &&& after.len() == before.len()
    &&& forall|i: int| n <= i < before.len() ==> #[trigger] after[i] == before[i]
    &&& forall|i: int| 0 <= i < n ==> #[trigger] after[i] == match results[i] {
        Ok(c) => c,
        Err(_) => before[i],
    }
    &&& r is Ok <==> forall|i: int| 0 <= i < n ==> (#[trigger] results[i]) is Ok
    &&& r matches Err(e) ==> exists|k: int|
        0 <= k < n && #[trigger] results[k] == Err::<Channel, ImageErrors>(e)
            && forall|i: int| 0 <= i < k ==> (#[trigger] results[i]) is Ok
}

/// A single image frame: its channels and how long it is shown.
#[derive(Clone)]
pub struct Frame {
    channels: Vec<Channel>,
    duration: u64,
}

impl Frame {
    /// The frame's channels, in order.
    pub closed spec fn channels_spec(&self) -> Seq<Channel> {
        self.channels@
    }

    /// The frame's duration.
    pub closed spec fn duration_spec(&self) -> u64 {
        self.duration
    }

    /// A frame of the given channels with duration 0.
    pub fn new(channels: Vec<Channel>) -> (r: Frame)
        ensures
            r.channels_spec() == channels@,
            r.duration_spec() == 0,
    {
        Frame { channels, duration: 0 }
    }

    /// A frame of the given channels and duration.
    pub fn new_with_duration(channels: Vec<Channel>, duration: u64) -> (r: Frame)
        ensures
            r.channels_spec() == channels@,
            r.duration_spec() == duration,
    {
        Frame { channels, duration }
    }

    /// How long the frame is shown.
    pub fn duration(&self) -> (r: u64)
        ensures
            r == self.duration_spec(),
    {
        self.duration
    }

    /// Number of channels.
    pub fn len(&self) -> (r: usize)
        ensures
            r == self.channels_spec().len(),
    {
        self.channels.len()
    }

    /// Appends a channel.
    pub fn add(&mut self, channel: Channel)
        ensures
            final(self).channels_spec() == old(self).channels_spec().push(channel),
            final(self).duration_spec() == old(self).duration_spec(),
    {
        self.channels.push(channel);
    }

    /// Replaces all channels.
    pub fn set_channels(&mut self, channels: Vec<Channel>)
        ensures
            final(self).channels_spec() == channels@,
            final(self).duration_spec() == old(self).duration_spec(),
    {
        self.channels = channels;
    }

    /// The channels that `colorspace` covers, without the trailing alpha plane
    /// when `ignore_alpha` is set and the colorspace has one.
    pub fn get_channels_ref(&self, colorspace: ColorSpace, ignore_alpha: bool) -> (r: &[Channel])
        requires
            components_of(colorspace) <= self.channels_spec().len(),
        ensures
            r@ == self.channels_spec().subrange(0, window_len(colorspace, ignore_alpha) as int),
    {
        let n = Self::window_count(colorspace, ignore_alpha);
        &self.channels.as_slice()[0..n]
    }

    /// Mutable access to the channels that `get_channels_ref` returns; the
    /// channels past them are left as they are.
    pub fn get_channels_mut(&mut self, colorspace: ColorSpace, ignore_alpha: bool) -> (r: &mut [Channel])
        requires
            components_of(colorspace) <= old(self).channels_spec().len(),
        ensures
            r@ == old(self).channels_spec().subrange(0, window_len(colorspace, ignore_alpha) as int),
            final(self).channels_spec() == final(r)@ + old(self).channels_spec().subrange(
                window_len(colorspace, ignore_alpha) as int,
                old(self).channels_spec().len() as int,
            ),
            final(self).duration_spec() == old(self).duration_spec(),
    {
        let n = Self::window_count(colorspace, ignore_alpha);
        let (head, _tail) = self.channels.as_mut_slice().split_at_mut(n);
        head
    }

    /// Interleaves the 8-bit planes that `colorspace` covers into RGBA pixels
    /// (`L,L,L,255`, `L,L,L,A`, `c1,c2,c3,255` or `c1,c2,c3,c4`), as many as
    /// both `out_pixel` and the planes hold; the rest of `out_pixel` is kept.
    /// Only the covered planes need be 8-bit.
    pub fn flatten_rgba(&mut self, colorspace: ColorSpace, out_pixel: &mut [u8]) -> (r: Result<(), ImageErrors>)
        requires
            components_of(colorspace) <= old(self).channels_spec().len(),
        ensures
            *final(self) == *old(self),
            ({
                let chs = old(self).channels_spec();
                let n = components_of(colorspace);
                let w = if (old(out_pixel)@.len() / 4) < min_len(chs, n) {
                    old(out_pixel)@.len() / 4
                } else {
                    min_len(chs, n)
                };
                &&& r is Ok <==> all_of_kind(chs, n as int, BitType::U8) && 1 <= n <= 4
                &&& r is Err ==> final(out_pixel)@ == old(out_pixel)@
                &&& !all_of_kind(chs, n as int, BitType::U8) ==> (r matches Err(e)
                    && exists|i: int| 0 <= i < n && all_of_kind(chs, i, BitType::U8)
                        && #[trigger] chs[i].kind() != BitType::U8
                        && e == ImageErrors::WrongElementKind(chs[i].kind(), BitType::U8))
                &&& all_of_kind(chs, n as int, BitType::U8) && !(1 <= n <= 4)
                    ==> r == Err::<(), ImageErrors>(ImageErrors::UnsupportedComponentCount(n as usize))
                &&& r is Ok ==> final(out_pixel)@.len() == old(out_pixel)@.len()
                    && (forall|i: int| 0 <= i < 4 * w ==> #[trigger] final(out_pixel)@[i] as int
                        == rgba_value(chs, n, i / 4, i % 4))
                    && (forall|i: int| 4 * w <= i < old(out_pixel)@.len() ==> #[trigger] final(out_pixel)@[i]
                        == old(out_pixel)@[i])
            }),
    {
        let n = colorspace.num_components();
        check_kinds(&self.channels, n, BitType::U8)?;
        if n < 1 || n > 4 {
            return Err(ImageErrors::UnsupportedComponentCount(n));
        }
        let m = min_len_exec(&self.channels, n);
        let w = if out_pixel.len() / 4 < m { out_pixel.len() / 4 } else { m };
        let mut i: usize = 0;
        while i < 4 * w
            invariant
                w <= m == min_len(self.channels@, n as nat),
                1 <= n <= 4,
                n == components_of(colorspace),
                n <= self.channels@.len(),
                all_of_kind(self.channels@, n as int, BitType::U8),
                4 * w <= out_pixel@.len() == old(out_pixel)@.len(),
                0 <= i <= 4 * w,
                forall|j: int| 0 <= j < i ==> #[trigger] out_pixel@[j] as int
                    == rgba_value(self.channels@, n as nat, j / 4, j % 4),
                forall|j: int| i <= j < out_pixel@.len() ==> #[trigger] out_pixel@[j] == old(out_pixel)@[j],
            decreases 4 * w - i,
        {
            let v = rgba_component(&self.channels, n, i / 4, i % 4);
            out_pixel[i] = v;
            i = i + 1;
        }
        Ok(())
    }

    /// Interleaves the planes that `colorspace` covers, all of kind `T`, into
    /// one sequence: sample `i` is sample `i / n` of plane `i % n`, over as many
    /// pixels as the shortest plane holds.
    pub fn flatten<T: NumOps>(&self, colorspace: ColorSpace) -> (r: Vec<T>)
        requires
            1 <= components_of(colorspace) <= 4,
            components_of(colorspace) <= self.channels_spec().len(),
            all_of_kind(self.channels_spec(), components_of(colorspace) as int, T::kind_spec()),
            components_of(colorspace) * min_len(self.channels_spec(), components_of(colorspace)) <= usize::MAX,
        ensures
            ({
                let chs = self.channels_spec();
                let n = components_of(colorspace) as int;
                &&& r@.len() == n * min_len(chs, n as nat)
                &&& forall|i: int| 0 <= i < r@.len() ==> #[trigger] r@[i].to_int() == chs[i % n].values()[i / n]
            }),
    {
        let n = colorspace.num_components();
        let m = min_len_exec(&self.channels, n);
        let total = n * m;
        let mut out: Vec<T> = Vec::new();
        let mut i: usize = 0;
        while i < total
            invariant
                1 <= n <= 4,
                n <= self.channels@.len(),
                total == n * m,
                m == min_len(self.channels@, n as nat),
                all_of_kind(self.channels@, n as int, T::kind_spec()),
                0 <= i <= total,
                out@.len() == i,
                forall|j: int| 0 <= j < i ==> #[trigger] out@[j].to_int()
                    == self.channels@[j % (n as int)].values()[j / (n as int)],
            decreases total - i,
        {
            let c = i % n;
            let p = i / n;
            proof {
                assert(p < m) by (nonlinear_arith)
                    requires p == i / n, i < n * m, n >= 1;
                lemma_min_len(self.channels@, n as nat);
                assert(self.channels@[c as int].kind() == T::kind_spec());
                assert(p < self.channels@[c as int].values().len());
            }
            let v = sample_at::<T>(&self.channels[c], p);
            out.push(v);
            i = i + 1;
        }
        out
    }

    /// The 16-bit planes that `colorspace` covers, interleaved, each sample as
    /// two bytes in the host's byte order (one order for all samples). The
    /// buffer is sized from the first plane; bytes past the shortest plane's
    /// pixels stay zero.
    pub fn u16_to_native_endian(&self, colorspace: ColorSpace) -> (r: Vec<u8>)
        requires
            1 <= components_of(colorspace) <= 4,
            components_of(colorspace) <= self.channels_spec().len(),
            all_of_kind(self.channels_spec(), components_of(colorspace) as int, BitType::U16),
            2 * components_of(colorspace) * self.channels_spec()[0].values().len() <= usize::MAX,
        ensures
            r@.len() == 2 * components_of(colorspace) * self.channels_spec()[0].values().len(),
            exists|le: bool| #[trigger] native_samples(
                r@,
                self.channels_spec(),
                components_of(colorspace) as int,
                (components_of(colorspace) * min_len(self.channels_spec(), components_of(colorspace))) as int,
                le,
            ),
            forall|j: int|
                2 * components_of(colorspace) * min_len(self.channels_spec(), components_of(colorspace)) <= j < r@.len()
                    ==> #[trigger] r@[j] == 0,
    {
        let n = colorspace.num_components();
        let l0 = self.channels[0].len();
        let m = min_len_exec(&self.channels, n);
        proof {
            lemma_min_len(self.channels@, n as nat);
            assert(n * m <= n * l0 && 2 * n * l0 == 2 * (n * l0) && 2 * n * m == 2 * (n * m)) by (nonlinear_arith)
                requires m <= l0, n >= 1;
        }
        let probe = native_bytes(1);
        let le = probe[0] == 1;
        let nl = n * l0;
        let total = n * m;
        let mut out: Vec<u8> = vec![0u8; 2 * nl];
        let mut i: usize = 0;
        while i < total
            invariant
                1 <= n <= 4,
                n <= self.channels@.len(),
                total == n * m,
                total <= nl,
                nl == n * l0,
                2 * nl <= usize::MAX,
                m == min_len(self.channels@, n as nat),
                all_of_kind(self.channels@, n as int, BitType::U16),
                out@.len() == 2 * nl,
                0 <= i <= total,
                forall|j: int| 0 <= j < i ==> #[trigger] holds_native_sample(out@, self.channels@, n as int, j, le),
                forall|j: int| 2 * i <= j < out@.len() ==> #[trigger] out@[j] == 0,
            decreases total - i,
        {
            let c = i % n;
            let p = i / n;
            proof {
                assert(p < m) by (nonlinear_arith)
                    requires p == i / n, i < n * m, n >= 1;
                lemma_min_len(self.channels@, n as nat);
                assert(self.channels@[c as int].kind() == BitType::U16);
                assert(p < self.channels@[c as int].values().len());
            }
            let v = sample_at::<u16>(&self.channels[c], p);
            let lo = (v % 256) as u8;
            let hi = (v / 256) as u8;
            let ghost prev = out@;
            if le {
                out.set(2 * i, lo);
                out.set(2 * i + 1, hi);
            } else {
                out.set(2 * i, hi);
                out.set(2 * i + 1, lo);
            }
            proof {
                assert forall|j: int| 0 <= j <= i implies #[trigger] holds_native_sample(out@, self.channels@, n as int, j, le) by {
                    if j < i {
                        assert(holds_native_sample(prev, self.channels@, n as int, j, le));
                        assert(out@[2 * j] == prev[2 * j] && out@[2 * j + 1] == prev[2 * j + 1]);
                    }
                }
            }
            i = i + 1;
        }
        assert(native_samples(out@, self.channels@, n as int, total as int, le));
        assert(native_samples(
            out@,
            self.channels_spec(),
            components_of(colorspace) as int,
            (components_of(colorspace) * min_len(self.channels_spec(), components_of(colorspace))) as int,
            le,
        ));
        out
    }

    /// Replaces, in order, each channel that `colorspace` covers (less a
    /// trailing alpha plane when `ignore_alpha` is set) by what `f` computes
    /// from it. The first failure is returned at once; channels replaced
    /// before it stay replaced.
    pub fn map_channels<F: Fn(&Channel) -> Result<Channel, ImageErrors>>(
        &mut self,
        colorspace: ColorSpace,
        ignore_alpha: bool,
        f: F,
    ) -> (r: Result<(), ImageErrors>)
        requires
            components_of(colorspace) <= old(self).channels_spec().len(),
            forall|c: &Channel| #[trigger] f.requires((c,)),
        ensures
            sequential_outcome(
                old(self).channels_spec(),
                final(self).channels_spec(),
                window_len(colorspace, ignore_alpha) as int,
                f,
                r,
            ),
            final(self).duration_spec() == old(self).duration_spec(),
    {
        let n = Self::window_count(colorspace, ignore_alpha);
        let mut i: usize = 0;
        while i < n
            invariant
                n == window_len(colorspace, ignore_alpha),
                n <= self.channels@.len(),
                0 <= i <= n,
                self.duration == old(self).duration,
                self.channels@.len() == old(self).channels@.len(),
                forall|j: int| i <= j < self.channels@.len() ==> #[trigger] self.channels@[j] == old(self).channels@[j],
                forall|j: int| 0 <= j < i ==> f.ensures((&old(self).channels@[j],), Ok::<Channel, ImageErrors>(#[trigger] self.channels@[j])),
                forall|c: &Channel| #[trigger] f.requires((c,)),
            decreases n - i,
        {
            let res = f(&self.channels[i]);
            match res {
                Ok(c) => {
                    self.channels.set(i, c);
                },
                Err(e) => {
                    return Err(e);
                },
            }
            i = i + 1;
        }
        Ok(())
    }

    /// Commits per-channel results that were computed independently (one for
    /// each channel that `colorspace` covers, less a trailing alpha plane when
    /// `ignore_alpha` is set): every success replaces its channel, and the
    /// first failure, if any, is returned.
    pub fn commit_results(
        &mut self,
        colorspace: ColorSpace,
        ignore_alpha: bool,
        results: Vec<Result<Channel, ImageErrors>>,
    ) -> (r: Result<(), ImageErrors>)
        requires
            components_of(colorspace) <= old(self).channels_spec().len(),
            results@.len() == window_len(colorspace, ignore_alpha),
        ensures
            committed_outcome(
                old(self).channels_spec(),
                final(self).channels_spec(),
                window_len(colorspace, ignore_alpha) as int,
                results@,
                r,
            ),
            final(self).duration_spec() == old(self).duration_spec(),
    {
        let ghost all = results@;
        let n = Self::window_count(colorspace, ignore_alpha);
        let mut rest = results;
        let mut first: Result<(), ImageErrors> = Ok(());
        let mut i: usize = n;
        while i > 0
            invariant
                n == window_len(colorspace, ignore_alpha),
                n <= self.channels@.len(),
                all.len() == n,
                0 <= i <= n,
                rest@ == all.subrange(0, i as int),
                self.duration == old(self).duration,
                self.channels@.len() == old(self).channels@.len(),
                forall|j: int| 0 <= j < i ==> #[trigger] self.channels@[j] == old(self).channels@[j],
                forall|j: int| n <= j < self.channels@.len() ==> #[trigger] self.channels@[j] == old(self).channels@[j],
                forall|j: int| i <= j < n ==> #[trigger] self.channels@[j] == match all[j] {
                    Ok(c) => c,
                    Err(_) => old(self).channels@[j],
                },
                first is Ok <==> forall|j: int| i <= j < n ==> (#[trigger] all[j]) is Ok,
                first matches Err(e) ==> exists|k: int|
                    i <= k < n && #[trigger] all[k] == Err::<Channel, ImageErrors>(e)
                        && forall|j: int| i <= j < k ==> (#[trigger] all[j]) is Ok,
            decreases i,
        {
            let item = rest.pop();
            i = i - 1;
            proof {
                assert(item == Some(all[i as int]));
                assert(rest@ =~= all.subrange(0, i as int));
            }
            match item {
                Some(Ok(c)) => {
                    self.channels.set(i, c);
                },
                Some(Err(e)) => {
                    first = Err(e);
                },
                None => {},
            }
        }
        first
    }

    fn window_count(colorspace: ColorSpace, ignore_alpha: bool) -> (n: usize)
        ensures
            n == window_len(colorspace, ignore_alpha),
    {
        if ignore_alpha && colorspace.has_alpha() {
            colorspace.num_components() - 1
        } else {
            colorspace.num_components()
        }
    }
}

} // verus!
