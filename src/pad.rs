//! Border padding: a copy of a plane extended on every side.
use vstd::prelude::*;
use crate::numeric::clamp;

verus! {

/// How the border of a padded plane is filled.
#[derive(Clone, Copy, Debug, PartialEq, Eq)]
pub enum PadMethod {
    /// Each border sample repeats the nearest sample of the source.
    Replicate,
}

/// The sample at column `x`, row `y` of `src` padded by replication: the
/// source sample nearest to (`x - pad_x`, `y - pad_y`).
pub open spec fn replicated<T>(src: Seq<T>, width: int, height: int, pad_x: int, pad_y: int, x: int, y: int) -> T {
    src[clamp(y - pad_y, 0, height - 1) * width + clamp(x - pad_x, 0, width - 1)]
}

/// Width of the padded plane times its height fits the address space.
pub open spec fn pad_fits(width: int, height: int, pad_x: int, pad_y: int) -> bool {
    (width + 2 * pad_x) * (height + 2 * pad_y) <= usize::MAX
}

/// `src` (`width` by `height`, row-major) extended by `pad_x` columns and
/// `pad_y` rows on every side. The source is not changed.
pub fn pad<T: Copy>(src: &[T], width: usize, height: usize, pad_x: usize, pad_y: usize, method: PadMethod) -> (r: Vec<T>)
    requires
        width >= 1,
        height >= 1,
        src@.len() == width * height,
        pad_fits(width as int, height as int, pad_x as int, pad_y as int),
    ensures
        ({
            let pw = width + 2 * pad_x;
            let ph = height + 2 * pad_y;
            &&& r@.len() == pw * ph
            &&& forall|i: int| 0 <= i < r@.len() ==> #[trigger] r@[i]
                == replicated(src@, width as int, height as int, pad_x as int, pad_y as int, i % pw, i / pw)
        }),
{
    let ghost (w, h, px, py) = (width as int, height as int, pad_x as int, pad_y as int);
    proof {
        assert(w + 2 * px <= (w + 2 * px) * (h + 2 * py)) by (nonlinear_arith)
            requires h >= 1, w >= 1, py >= 0, px >= 0;
        assert(h + 2 * py <= (w + 2 * px) * (h + 2 * py)) by (nonlinear_arith)
            requires h >= 1, w >= 1, py >= 0, px >= 0;
    }
    let pw = width + 2 * pad_x;
    let ph = height + 2 * pad_y;
    let total = pw * ph;
    let src_len = src.len();
    let mut out: Vec<T> = Vec::new();
    let mut i: usize = 0;
    while i < total
        invariant
            w == width,
            h == height,
            px == pad_x,
            py == pad_y,
            pw == w + 2 * px,
            ph == h + 2 * py,
            total == pw * ph,
            w >= 1,
            h >= 1,
            src@.len() == w * h,
            src_len == src@.len(),
            0 <= i <= total,
            out@.len() == i,
            forall|j: int| 0 <= j < i ==> #[trigger] out@[j] == replicated(src@, w, h, px, py, j % (pw as int), j / (pw as int)),
        decreases total - i,
    {
        let x = i % pw;
        let y = i / pw;
        let sx = if x < pad_x { 0 } else if x - pad_x > width - 1 { width - 1 } else { x - pad_x };
        let sy = if y < pad_y { 0 } else if y - pad_y > height - 1 { height - 1 } else { y - pad_y };
        proof {
            assert((sy as int) * w + (sx as int) < w * h) by (nonlinear_arith)
                requires sy <= h - 1, sx <= w - 1, sx >= 0, sy >= 0, w >= 1;
            assert((sy as int) * (width as int) + (sx as int) < src@.len());
        }
        out.push(src[sy * width + sx]);
        i = i + 1;
    }
    out
}

/// Inside the padded plane, at (`x + pad_x`, `y + pad_y`), stands the source
/// sample at (`x`, `y`) unchanged; every padded position holds the source
/// sample nearest to it.
pub proof fn lemma_pad_interior<T>(src: Seq<T>, width: int, height: int, pad_x: int, pad_y: int, x: int, y: int)
    requires
        width >= 1,
        height >= 1,
        pad_x >= 0,
        pad_y >= 0,
        0 <= x < width,
        0 <= y < height,
    ensures
        ({
            let pw = width + 2 * pad_x;
            let i = (y + pad_y) * pw + (x + pad_x);
            &&& i % pw == x + pad_x
            &&& i / pw == y + pad_y
            &&& replicated(src, width, height, pad_x, pad_y, i % pw, i / pw) == src[y * width + x]
        }),
{
    let pw = width + 2 * pad_x;
    vstd::arithmetic::div_mod::lemma_fundamental_div_mod_converse((y + pad_y) * pw + (x + pad_x), pw, y + pad_y, x + pad_x);
}

} // verus!
