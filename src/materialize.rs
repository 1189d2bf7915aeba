use vstd::prelude::*;

use vstd::arithmetic::div_mod::lemma_fundamental_div_mod;

use crate::carved::Carved;
use crate::matrix::identity_rows;
use crate::view::{packed_pixel, packs, rgba_dims, rgba_grid, rgba_raw, ImageView, RgbaBuffer};

verus! {

/// In a packed image of the given width, pixels are laid out row by row: a
/// pixel that comes earlier ends no later than a later one starts.
proof fn lemma_packed_order(width: int, x1: int, y1: int, x2: int, y2: int)
    requires
        0 <= x1 < width,
        0 <= x2 < width,
        0 <= y1,
        (y1 < y2) || (y1 == y2 && x1 < x2),
    ensures
        y1 * width + x1 + 1 <= y2 * width + x2,
{
    if y1 < y2 {
        assert(y1 * width + x1 + 1 <= y2 * width + x2) by (nonlinear_arith)
            requires 0 <= x1 < width, 0 <= x2, y1 < y2;
    }
}

/// Copies every pixel of `view` into a freshly allocated, densely packed
/// buffer of the same size, or returns `None` when such a buffer would not
/// fit in memory addresses (`4 * width` or `4 * width * height` bytes
/// overflow `usize`). The buffer holds exactly `4 * width * height` bytes.
pub fn image_view_to_buffer<V: ImageView>(view: &V) -> (r: Option<RgbaBuffer>)
    requires
        view.well_formed(),
    ensures
        r.is_some() <==> (4 * view.spec_dimensions().0 <= usize::MAX && 4
            * view.spec_dimensions().0 * view.spec_dimensions().1 <= usize::MAX),
        r matches Some(b) ==> rgba_dims(b) == view.spec_dimensions(),
        r matches Some(b) ==> rgba_raw(b).len() == 4 * view.spec_dimensions().0
            * view.spec_dimensions().1,
        r matches Some(b) ==> packs(
            rgba_raw(b),
            view.spec_dimensions().0,
            view.spec_dimensions().1,
            rgba_grid(b),
        ),
        r matches Some(b) ==> forall|x: u32, y: u32|
            x < view.spec_dimensions().0 && y < view.spec_dimensions().1 ==> #[trigger] rgba_grid(
                b,
            )[y as int][x as int] == view.spec_pixel(x, y),
{
    let (w, h) = view.dimensions();
    let len = match (w as usize).checked_mul(4) {
        Some(row) => match row.checked_mul(h as usize) {
            Some(len) => {
                assert(len == 4 * w * h) by (nonlinear_arith)
                    requires row == w * 4, len == row * h;
                len
            },
            None => {
                assert(4 * w * h > usize::MAX) by (nonlinear_arith)
                    requires row == w * 4, row * h > usize::MAX;
                return None;
            },
        },
        None => {
            return None;
        },
    };
    let mut buf: Vec<u8> = Vec::with_capacity(len);
    let mut y: u32 = 0;
    while y < h
        invariant
            y <= h,
            (w, h) == view.spec_dimensions(),
            view.well_formed(),
            len == 4 * w * h,
            buf@.len() == 4 * (y * w),
            forall|xx: int, yy: int|
                0 <= xx < w && 0 <= yy < y ==> #[trigger] packed_pixel(buf@, w as int, xx, yy)
                    == view.spec_pixel(xx as u32, yy as u32),
        decreases h - y,
    {
        let mut x: u32 = 0;
        while x < w
            invariant
                y < h,
                x <= w,
                (w, h) == view.spec_dimensions(),
                view.well_formed(),
                len == 4 * w * h,
                buf@.len() == 4 * (y * w + x),
                forall|xx: int, yy: int|
                    0 <= xx < w && 0 <= yy < y ==> #[trigger] packed_pixel(buf@, w as int, xx, yy)
                        == view.spec_pixel(xx as u32, yy as u32),
                forall|xx: int|
                    0 <= xx < x ==> #[trigger] packed_pixel(buf@, w as int, xx, y as int)
                        == view.spec_pixel(xx as u32, y),
            decreases w - x,
        {
            let p = view.get_pixel(x, y);
            let ghost prev = buf@;
            proof {
                assert(y * w + x + 1 <= w * h) by (nonlinear_arith)
                    requires x < w, y < h;
            }
            buf.push(p[0]);
            buf.push(p[1]);
            buf.push(p[2]);
            buf.push(p[3]);
            proof {
                assert(buf@ == prev + p@);
                assert(packed_pixel(buf@, w as int, x as int, y as int) =~= p@);
                assert forall|xx: int, yy: int|
                    0 <= xx < w && 0 <= yy < y implies #[trigger] packed_pixel(
                        buf@,
                        w as int,
                        xx,
                        yy,
                    ) == view.spec_pixel(xx as u32, yy as u32) by {
                    lemma_packed_order(w as int, xx, yy, x as int, y as int);
                    assert(packed_pixel(buf@, w as int, xx, yy) =~= packed_pixel(
                        prev,
                        w as int,
                        xx,
                        yy,
                    ));
                }
                assert forall|xx: int| 0 <= xx < x + 1 implies #[trigger] packed_pixel(
                    buf@,
                    w as int,
                    xx,
                    y as int,
                ) == view.spec_pixel(xx as u32, y) by {
                    if xx < x {
                        lemma_packed_order(w as int, xx, y as int, x as int, y as int);
                        assert(packed_pixel(buf@, w as int, xx, y as int) =~= packed_pixel(
                            prev,
                            w as int,
                            xx,
                            y as int,
                        ));
                    }
                }
            }
            x = x + 1;
        }
        assert((y + 1) * w == y * w + w) by (nonlinear_arith);
        y = y + 1;
    }
    assert(buf@.len() == 4 * w * h) by (nonlinear_arith)
        requires buf@.len() == 4 * (y * w), y == h;
    let r = RgbaBuffer::from_raw(w, h, buf);
    r
}

/// Materializing a view from which no seam was removed gives back its
/// source: a buffer of the source's size holding, at every place, the
/// source's pixel.
pub proof fn lemma_fresh_view_round_trip<'a, I: ImageView>(c: Carved<'a, I>, b: RgbaBuffer)
    requires
        c.wf(),
        c.removed_count() == 0,
        c.columns() == identity_rows(
            c.spec_source().spec_dimensions().0 as nat,
            c.spec_source().spec_dimensions().1 as nat,
        ),
        rgba_dims(b) == c.spec_dimensions(),
        forall|x: u32, y: u32|
            x < c.spec_dimensions().0 && y < c.spec_dimensions().1 ==> #[trigger] rgba_grid(
                b,
            )[y as int][x as int] == c.spec_pixel(x, y),
    ensures
        rgba_dims(b) == c.spec_source().spec_dimensions(),
        forall|x: u32, y: u32|
            x < c.spec_source().spec_dimensions().0 && y < c.spec_source().spec_dimensions().1
                ==> #[trigger] rgba_grid(b)[y as int][x as int] == c.spec_source().spec_pixel(x, y),
{
    assert forall|x: u32, y: u32|
        x < c.spec_source().spec_dimensions().0 && y < c.spec_source().spec_dimensions().1
            implies #[trigger] rgba_grid(b)[y as int][x as int] == c.spec_source().spec_pixel(x, y) by {
        assert(c.spec_pixel(x, y) == c.spec_source().spec_pixel(c.columns()[y as int][x as int], y));
    }
}

/// Two buffers of `4 * width * height` bytes that agree on every pixel are
/// equal.
proof fn lemma_packed_bytes_equal(a: Seq<u8>, b: Seq<u8>, width: u32, height: u32)
    requires
        a.len() == 4 * width * height,
        b.len() == 4 * width * height,
        forall|x: int, y: int|
            0 <= x < width && 0 <= y < height ==> #[trigger] packed_pixel(a, width as int, x, y)
                == packed_pixel(b, width as int, x, y),
    ensures
        a == b,
{
    let w = width as int;
    let h = height as int;
    assert forall|k: int| 0 <= k < a.len() implies a[k] == b[k] by {
        assert(w > 0) by (nonlinear_arith)
            requires 0 <= k < a.len(), a.len() == 4 * w * h, 0 <= h;
        let p = k / 4;
        let c = k % 4;
        let x = p % w;
        let y = p / w;
        lemma_fundamental_div_mod(k, 4);
        lemma_fundamental_div_mod(p, w);
        assert(0 <= c < 4);
        assert(0 <= x < w);
        assert(0 <= p);
        assert(0 <= y) by (nonlinear_arith)
            requires y == p / w, 0 <= p, w > 0;
        let m = w * h;
        assert(a.len() == 4 * m) by (nonlinear_arith)
            requires a.len() == 4 * w * h, m == w * h;
        assert(p < m);
        if y >= h {
            assert(w * y >= w * h) by (nonlinear_arith)
                requires y >= h, w > 0;
        }
        assert(4 * (y * w + x) + c == k) by (nonlinear_arith)
            requires p == w * y + x, k == 4 * p + c;
        assert(4 * (y * w + x) + 4 <= a.len()) by (nonlinear_arith)
            requires p == w * y + x, p < m, a.len() == 4 * m;
        assert(packed_pixel(a, w, x, y)[c] == a[k]);
        assert(packed_pixel(b, w, x, y)[c] == b[k]);
    }
    assert(a =~= b);
}

/// Materializing a view of an RGBA buffer from which no seam was removed
/// reproduces the buffer's pixel bytes one for one.
pub proof fn lemma_fresh_view_bytes<'a>(c: Carved<'a, RgbaBuffer>, b: RgbaBuffer)
    requires
        c.wf(),
        c.removed_count() == 0,
        c.columns() == identity_rows(
            c.spec_source().spec_dimensions().0 as nat,
            c.spec_source().spec_dimensions().1 as nat,
        ),
        packs(
            rgba_raw(c.spec_source()),
            rgba_dims(c.spec_source()).0,
            rgba_dims(c.spec_source()).1,
            rgba_grid(c.spec_source()),
        ),
        rgba_dims(b) == c.spec_dimensions(),
        rgba_raw(b).len() == 4 * c.spec_dimensions().0 * c.spec_dimensions().1,
        packs(rgba_raw(b), c.spec_dimensions().0, c.spec_dimensions().1, rgba_grid(b)),
        forall|x: u32, y: u32|
            x < c.spec_dimensions().0 && y < c.spec_dimensions().1 ==> #[trigger] rgba_grid(
                b,
            )[y as int][x as int] == c.spec_pixel(x, y),
    ensures
        rgba_raw(b) == rgba_raw(c.spec_source()).subrange(
            0,
            4 * rgba_dims(c.spec_source()).0 * rgba_dims(c.spec_source()).1,
        ),
{
    lemma_fresh_view_round_trip(c, b);
    let src = c.spec_source();
    let (w, h) = rgba_dims(src);
    let n = 4 * w * h;
    let raw = rgba_raw(src).subrange(0, n);
    assert forall|x: int, y: int|
        0 <= x < w && 0 <= y < h implies #[trigger] packed_pixel(rgba_raw(b), w as int, x, y)
        == packed_pixel(raw, w as int, x, y) by {
        assert(rgba_grid(b)[y][x] == rgba_grid(src)[(y as u32) as int][(x as u32) as int]);
        assert(4 * (y * w + x) + 4 <= n) by (nonlinear_arith)
            requires 0 <= x < w, 0 <= y < h, n == 4 * w * h;
        assert(packed_pixel(raw, w as int, x, y) =~= packed_pixel(rgba_raw(src), w as int, x, y));
    }
    lemma_packed_bytes_equal(rgba_raw(b), raw, w, h);
}

} // verus!
