//! The spatial traversal harness: runs a per-window function over every
//! position of a padded plane.
use vstd::prelude::*;
use crate::pad::pad_fits;

verus! {

/// The `d` by `d` window (row-major) whose top-left corner is at column `x`,
/// row `y` of a row-major plane `pw` wide.
pub open spec fn window_at<T>(padded: Seq<T>, pw: int, d: int, x: int, y: int) -> Seq<T> {
    Seq::new((d * d) as nat, |k: int| padded[(y + k / d) * pw + x + k % d])
}

/// `v` is what `f` returns on some slice that holds `window`.
pub open spec fn kernel_gives<T, F: Fn(&[T]) -> T>(f: F, window: Seq<T>, v: T) -> bool {
    exists|a: &[T]| a@ == window && #[trigger] f.ensures((a,), v)
}

proof fn lemma_window_index(pw: int, ph: int, w: int, h: int, r: int, x: int, y: int, k: int)
    requires
        w >= 1,
        h >= 1,
        r >= 0,
        pw == w + 2 * r,
        ph == h + 2 * r,
        0 <= x < w,
        0 <= y < h,
        0 <= k < (2 * r + 1) * (2 * r + 1),
    ensures
        0 <= (y + k / (2 * r + 1)) * pw + x + k % (2 * r + 1) < pw * ph,
        0 <= (y + k / (2 * r + 1)) * pw,
        0 <= k % (2 * r + 1),
        0 <= y + k / (2 * r + 1) < ph <= pw * ph,
        x + k % (2 * r + 1) < pw,
{
    let d = 2 * r + 1;
    assert(0 <= k / d < d) by (nonlinear_arith)
        requires 0 <= k < d * d, d >= 1;
    assert(0 <= k % d < d) by (nonlinear_arith)
        requires d >= 1;
    let row = y + k / d;
    let col = x + k % d;
    assert(0 <= row * pw + col < pw * ph && ph <= pw * ph && 0 <= row * pw) by (nonlinear_arith)
        requires 0 <= row <= ph - 1, 0 <= col <= pw - 1;
}

/// For each of the `width * height` positions (row-major) of the plane that
/// `padded` extends by `radius` on every side, hands `f` the
/// `(2 * radius + 1)`-square window centred there and stores its result at
/// that position of `dest`. Each result depends on its own window alone.
pub fn spatial<T: Copy, F: Fn(&[T]) -> T>(
    padded: &[T],
    dest: &mut [T],
    radius: usize,
    width: usize,
    height: usize,
    f: F,
)
    requires
        width >= 1,
        height >= 1,
        pad_fits(width as int, height as int, radius as int, radius as int),
        padded@.len() == (width + 2 * radius) * (height + 2 * radius),
        old(dest)@.len() == width * height,
        forall|a: &[T]| #[trigger] f.requires((a,)),
    ensures
        final(dest)@.len() == old(dest)@.len(),
        forall|p: int| 0 <= p < width * height ==> #[trigger] kernel_gives(
            f,
            window_at(padded@, width + 2 * radius, 2 * radius + 1, p % (width as int), p / (width as int)),
            final(dest)@[p],
        ),
{
    let ghost (w, h, r) = (width as int, height as int, radius as int);
    let ghost pw = w + 2 * r;
    let ghost ph = h + 2 * r;
    proof {
        assert(w * h <= pw * ph && (2 * r + 1) * (2 * r + 1) <= pw * ph && pw <= pw * ph) by (nonlinear_arith)
            requires w >= 1, h >= 1, r >= 0, pw == w + 2 * r, ph == h + 2 * r;
    }
    let pwx = width + 2 * radius;
    let d = 2 * radius + 1;
    let area = d * d;
    let total = width * height;
    let mut p: usize = 0;
    while p < total
        invariant
            w == width,
            h == height,
            r == radius,
            pw == pwx,
            pw == w + 2 * r,
            ph == h + 2 * r,
            w >= 1,
            h >= 1,
            d == 2 * r + 1,
            area == d * d,
            total == w * h,
            padded@.len() == pw * ph,
            pw * ph <= usize::MAX,
            dest@.len() == total,
            0 <= p <= total,
            forall|a: &[T]| #[trigger] f.requires((a,)),
            forall|q: int| 0 <= q < p ==> #[trigger] kernel_gives(
                f,
                window_at(padded@, pw, d as int, q % w, q / w),
                dest@[q],
            ),
        decreases total - p,
    {
        let x = p % width;
        let y = p / width;
        proof {
            assert(0 <= y < h) by (nonlinear_arith)
                requires y as int == p as int / w, 0 <= p < w * h, w >= 1;
        }
        let mut win: Vec<T> = Vec::new();
        let mut k: usize = 0;
        while k < area
            invariant
                pw == pwx,
                pw == w + 2 * r,
                ph == h + 2 * r,
                w >= 1,
                h >= 1,
                r >= 0,
                d == 2 * r + 1,
                area == d * d,
                padded@.len() == pw * ph,
                pw * ph <= usize::MAX,
                0 <= x < w,
                0 <= y < h,
                0 <= k <= area,
                win@.len() == k,
                forall|j: int| 0 <= j < k ==> #[trigger] win@[j] == padded@[(y + j / (d as int)) * pw + x + j % (d as int)],
            decreases area - k,
        {
            proof {
                lemma_window_index(pw, ph, w, h, r, x as int, y as int, k as int);
            }
            let row = y + k / d;
            let col = x + k % d;
            proof {
                assert(row * pw + col < pw * ph);
                assert(row * pw <= row * pw + col);
            }
            win.push(padded[row * pwx + col]);
            k = k + 1;
        }
        let ghost window = window_at(padded@, pw, d as int, x as int, y as int);
        assert(win@ =~= window);
        let v = f(win.as_slice());
        dest[p] = v;
        proof {
            assert(kernel_gives(f, window, v));
        }
        p = p + 1;
    }
}

} // verus!
