//! The integer side of the bilateral filter: which window offsets carry a
//! spatial weight, in what order, and which color-weight entry each window
//! sample reads. The weights themselves are real numbers and are computed by
//! the caller from these.
use vstd::prelude::*;
use zune_core::bit_depth::BitDepth;
use crate::kinds::max_value_of;
use crate::numeric::NumOps;

verus! {

/// Offset (row, column) of window entry `k` of a `(2r+1)`-square window, both in `[-r, r]`.
pub open spec fn square_offset(r: int, k: int) -> (int, int) {
    (k / (2 * r + 1) - r, k % (2 * r + 1) - r)
}

/// All offsets of the `(2r+1)`-square window, row-major.
pub open spec fn square_offsets(r: int) -> Seq<(int, int)> {
    Seq::new(((2 * r + 1) * (2 * r + 1)) as nat, |k: int| square_offset(r, k))
}

/// The offset lies within the circle of radius `r`.
pub open spec fn in_circle(o: (int, int), r: int) -> bool {
    o.0 * o.0 + o.1 * o.1 <= r * r
}

/// The offsets that carry a spatial weight: those of the square within the
/// circle, in row-major order.
pub open spec fn circle_offsets(r: int) -> Seq<(int, int)> {
    square_offsets(r).filter(|o: (int, int)| in_circle(o, r))
}

/// The offsets as integer pairs.
pub open spec fn offsets_view(v: Seq<(i32, i32)>) -> Seq<(int, int)> {
    v.map_values(|o: (i32, i32)| (o.0 as int, o.1 as int))
}

/// Index of the window sample that the bilateral kernel compares the others with.
pub open spec fn window_center(radius: int) -> int {
    (radius + 1) / 2
}

/// Absolute difference of two integers.
pub open spec fn abs_diff(a: int, b: int) -> int {
    if a >= b {
        a - b
    } else {
        b - a
    }
}

/// Length of the color-weight table for a bit depth: one entry for each
/// possible absolute difference of two samples.
pub fn color_table_len(depth: BitDepth) -> (r: usize)
    ensures
        r == max_value_of(depth) + 1,
{
    depth.max_value() as usize + 1
}

/// The window radius that a positive diameter hint gives (half of it, rounded
/// down); `None` for a hint that is not positive, where the radius comes from
/// the spatial sigma instead.
pub fn radius_from_diameter(d: i32) -> (r: Option<usize>)
    ensures
        d > 0 ==> r == Some((d / 2) as usize),
        d <= 0 ==> r is None,
{
    if d > 0 {
        Some((d / 2) as usize)
    } else {
        None
    }
}

/// The offsets of the `(2 * radius + 1)`-square window that lie within the
/// circle of `radius`, row-major. Their number is the count of spatial
/// weights; the weight of each depends on its squared length alone.
pub fn space_offsets(radius: usize) -> (r: Vec<(i32, i32)>)
    requires
        radius <= 0x3fff_ffff,
        (2 * radius + 1) * (2 * radius + 1) <= usize::MAX,
    ensures
        offsets_view(r@) == circle_offsets(radius as int),
{
    let ghost ri = radius as int;
    let ghost pred = |o: (int, int)| in_circle(o, ri);
    let d = 2 * radius + 1;
    let area = d * d;
    proof {
        assert(ri * ri <= 0x1000_0000_0000_0000) by (nonlinear_arith)
            requires 0 <= ri <= 0x3fff_ffff;
    }
    let rr = (radius as i64) * (radius as i64);
    let mut out: Vec<(i32, i32)> = Vec::new();
    let mut k: usize = 0;
    while k < area
        invariant
            ri == radius,
            radius <= 0x3fff_ffff,
            d == 2 * ri + 1,
            area == d * d,
            rr == ri * ri,
            0 <= k <= area,
            pred == (|o: (int, int)| in_circle(o, ri)),
            offsets_view(out@) == square_offsets(ri).take(k as int).filter(pred),
        decreases area - k,
    {
        proof {
            assert(0 <= k / d < d && 0 <= k % d < d) by (nonlinear_arith)
                requires k < d * d, d >= 1;
        }
        let di = (k / d) as i64 - radius as i64;
        let dj = (k % d) as i64 - radius as i64;
        proof {
            assert(0 <= di * di <= ri * ri && 0 <= dj * dj <= ri * ri) by (nonlinear_arith)
                requires -ri <= di <= ri, -ri <= dj <= ri;
            assert(ri * ri <= 0x1000_0000_0000_0000) by (nonlinear_arith)
                requires 0 <= ri <= 0x3fff_ffff;
        }
        let di2 = di * di;
        let dj2 = dj * dj;
        let inside = di2 + dj2 <= rr;
        let ghost prev = out@;
        if inside {
            out.push((di as i32, dj as i32));
        }
        proof {
            let s = square_offsets(ri);
            let t = s.take(k + 1);
            assert(t.drop_last() =~= s.take(k as int));
            assert(t.last() == (di as int, dj as int));
            reveal(Seq::filter);
            if inside {
                assert(offsets_view(out@) =~= offsets_view(prev).push((di as int, dj as int)));
            } else {
                assert(offsets_view(out@) =~= offsets_view(prev));
            }
        }
        k = k + 1;
    }
    assert(square_offsets(ri).take(area as int) =~= square_offsets(ri));
    out
}

proof fn lemma_square_member(r: int, i: int, j: int)
    requires
        r >= 0,
        -r <= i <= r,
        -r <= j <= r,
    ensures
        square_offsets(r).contains((i, j)),
        ({
            let k = (i + r) * (2 * r + 1) + (j + r);
            0 <= k < square_offsets(r).len() && square_offsets(r)[k] == (i, j)
        }),
{
    let d = 2 * r + 1;
    let k = (i + r) * d + (j + r);
    assert(0 <= k < d * d) by (nonlinear_arith)
        requires 0 <= i + r < d, 0 <= j + r < d, k == (i + r) * d + (j + r);
    vstd::arithmetic::div_mod::lemma_fundamental_div_mod_converse(k, d, i + r, j + r);
    assert(square_offsets(r)[k] == (i, j));
}

/// The offsets that carry a spatial weight are symmetric under negating
/// either axis, and the mirrored offset has the same squared length, hence
/// the same spatial weight.
pub proof fn lemma_space_offsets_symmetric(radius: int, i: int, j: int)
    requires
        radius >= 0,
        circle_offsets(radius).contains((i, j)),
    ensures
        circle_offsets(radius).contains((-i, j)),
        circle_offsets(radius).contains((i, -j)),
        (-i) * (-i) + j * j == i * i + j * j,
        i * i + (-j) * (-j) == i * i + j * j,
{
    let s = square_offsets(radius);
    let pred = |o: (int, int)| in_circle(o, radius);
    let d = 2 * radius + 1;
    s.lemma_filter_contains_rev(pred, (i, j));
    let m = choose|m: int| 0 <= m < s.filter(pred).len() && s.filter(pred)[m] == (i, j);
    s.lemma_filter_pred(pred, m);
    let k = choose|k: int| 0 <= k < s.len() && s[k] == (i, j);
    assert(0 <= k / d < d && 0 <= k % d < d) by (nonlinear_arith)
        requires 0 <= k < d * d, d >= 1;
    assert((-i) * (-i) == i * i && (-j) * (-j) == j * j) by (nonlinear_arith);
    lemma_square_member(radius, -i, j);
    lemma_square_member(radius, i, -j);
    s.lemma_filter_contains(pred, (-i + radius) * d + (j + radius));
    s.lemma_filter_contains(pred, (i + radius) * d + (-j + radius));
}

/// The window index of each offset that carries a spatial weight, in the
/// order of `space_offsets`: offset `(i, j)` of the `(2 * radius + 1)`-square
/// row-major window stands at `(i + radius) * (2 * radius + 1) + (j + radius)`.
/// Pairing the spatial weights with the samples at these indices keeps window
/// order and table order in agreement.
pub fn circle_window_indices(radius: usize) -> (r: Vec<usize>)
    requires
        radius <= 0x3fff_ffff,
        (2 * radius + 1) * (2 * radius + 1) <= usize::MAX,
    ensures
        r@.len() == circle_offsets(radius as int).len(),
        forall|k: int| 0 <= k < r@.len() ==> {
            let o = circle_offsets(radius as int)[k];
            &&& #[trigger] r@[k] < (2 * radius + 1) * (2 * radius + 1)
            &&& r@[k] == (o.0 + radius) * (2 * radius + 1) + (o.1 + radius)
        },
{
    let ghost ri = radius as int;
    let ghost pred = |o: (int, int)| in_circle(o, ri);
    let d = 2 * radius + 1;
    let area = d * d;
    proof {
        assert(ri * ri <= 0x1000_0000_0000_0000) by (nonlinear_arith)
            requires 0 <= ri <= 0x3fff_ffff;
    }
    let rr = (radius as i64) * (radius as i64);
    let mut out: Vec<usize> = Vec::new();
    let mut k: usize = 0;
    while k < area
        invariant
            ri == radius,
            radius <= 0x3fff_ffff,
            d == 2 * ri + 1,
            area == d * d,
            rr == ri * ri,
            0 <= k <= area,
            pred == (|o: (int, int)| in_circle(o, ri)),
            ri * ri <= 0x1000_0000_0000_0000,
            out@.len() == square_offsets(ri).take(k as int).filter(pred).len(),
            forall|j: int| 0 <= j < out@.len() ==> {
                let o = square_offsets(ri).take(k as int).filter(pred)[j];
                &&& #[trigger] out@[j] < k
                &&& out@[j] == (o.0 + ri) * d + (o.1 + ri)
            },
        decreases area - k,
    {
        proof {
            assert(0 <= k / d < d && 0 <= k % d < d) by (nonlinear_arith)
                requires k < d * d, d >= 1;
            vstd::arithmetic::div_mod::lemma_fundamental_div_mod(k as int, d as int);
        }
        let di = (k / d) as i64 - radius as i64;
        let dj = (k % d) as i64 - radius as i64;
        proof {
            assert(0 <= di * di <= ri * ri && 0 <= dj * dj <= ri * ri) by (nonlinear_arith)
                requires -ri <= di <= ri, -ri <= dj <= ri;
        }
        let di2 = di * di;
        let dj2 = dj * dj;
        let inside = di2 + dj2 <= rr;
        let ghost prev = out@;
        if inside {
            out.push(k);
        }
        proof {
            let s = square_offsets(ri);
            let t = s.take(k + 1);
            let f0 = s.take(k as int).filter(pred);
            assert(t.drop_last() =~= s.take(k as int));
            assert(t.last() == (di as int, dj as int));
            reveal(Seq::filter);
            assert((k / d) * d + k % d == k) by (nonlinear_arith)
                requires k == d * (k / d) + k % d;
            if inside {
                assert(t.filter(pred) == f0.push((di as int, dj as int)));
            } else {
                assert(t.filter(pred) == f0);
            }
            assert forall|j: int| 0 <= j < out@.len() implies {
                let o = t.filter(pred)[j];
                &&& #[trigger] out@[j] < k + 1
                &&& out@[j] == (o.0 + ri) * d + (o.1 + ri)
            } by {
                if j < prev.len() {
                    assert(t.filter(pred)[j] == f0[j]);
                }
            }
        }
        k = k + 1;
    }
    assert(square_offsets(ri).take(area as int) =~= square_offsets(ri));
    assert(square_offsets(ri).take(area as int).filter(pred) == circle_offsets(ri));
    out
}

/// For each window index in `indices`: the sample's value, and the index into
/// the color-weight table that it reads, its absolute difference to the sample
/// at `window_center(radius)`.
pub fn bilateral_terms<T: NumOps>(area: &[T], radius: usize, indices: &[usize]) -> (r: Vec<(i32, usize)>)
    requires
        window_center(radius as int) < area@.len(),
        forall|k: int| 0 <= k < indices@.len() ==> #[trigger] indices@[k] < area@.len(),
    ensures
        r@.len() == indices@.len(),
        forall|k: int| 0 <= k < r@.len() ==> {
            let v = area@[indices@[k] as int].to_int();
            &&& (#[trigger] r@[k]).0 as int == v
            &&& r@[k].1 as int == abs_diff(v, area@[window_center(radius as int)].to_int())
            &&& r@[k].1 as int <= T::max_int()
        },
{
    let mid = radius / 2 + radius % 2;
    let val0 = area[mid].widen();
    let mut out: Vec<(i32, usize)> = Vec::new();
    let mut k: usize = 0;
    while k < indices.len()
        invariant
            mid == window_center(radius as int),
            mid < area@.len(),
            val0 as int == area@[mid as int].to_int(),
            forall|j: int| 0 <= j < indices@.len() ==> #[trigger] indices@[j] < area@.len(),
            0 <= k <= indices@.len(),
            out@.len() == k,
            forall|j: int| 0 <= j < k ==> {
                let v = area@[indices@[j] as int].to_int();
                &&& (#[trigger] out@[j]).0 as int == v
                &&& out@[j].1 as int == abs_diff(v, area@[mid as int].to_int())
                &&& out@[j].1 as int <= T::max_int()
            },
        decreases indices@.len() - k,
    {
        let idx = indices[k];
        let v = area[idx].widen();
        proof {
            T::lemma_range(area@[idx as int]);
            T::lemma_range(area@[mid as int]);
        }
        let diff = if v >= val0 { (v - val0) as usize } else { (val0 - v) as usize };
        out.push((v, diff));
        k = k + 1;
    }
    out
}

} // verus!
