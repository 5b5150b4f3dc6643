//! Nearest-opposite-pixel search for signed distance fields of glyph
//! bitmaps: for every pixel, the smallest squared distance to a pixel of
//! the other side of the glyph's edge within a square window.

use vstd::prelude::*;

verus! {

/// Pixel (`x`, `y`) of a `width`-wide one-byte-per-pixel bitmap is inside the glyph.
pub open spec fn is_inside(bitmap: Seq<u8>, width: int, x: int, y: int) -> bool {
    bitmap[y * width + x] > 127
}

/// Offset (`dx`, `dy`) from pixel (`x`, `y`) lies in the window of radius
/// `r`, on the bitmap, and on the other side of the edge.
pub open spec fn opposite(bitmap: Seq<u8>, width: int, height: int, x: int, y: int, r: int, dx: int, dy: int) -> bool {
    &&& -r <= dx <= r
    &&& -r <= dy <= r
    &&& 0 <= x + dx < width
    &&& 0 <= y + dy < height
    &&& is_inside(bitmap, width, x + dx, y + dy) != is_inside(bitmap, width, x, y)
}

/// The squared length of an offset.
pub open spec fn dist_sq(dx: int, dy: int) -> int {
    dx * dx + dy * dy
}

/// `d` is the smallest squared distance from pixel (`x`, `y`) to an opposite
/// pixel of the window, or `None` when the window holds none.
pub open spec fn nearest_opposite(bitmap: Seq<u8>, width: int, height: int, x: int, y: int, r: int, d: Option<u32>) -> bool {
    match d {
        Some(v) => {
            &&& exists|dx: int, dy: int| #[trigger] opposite(bitmap, width, height, x, y, r, dx, dy) && v == dist_sq(dx, dy)
            &&& forall|dx: int, dy: int| #[trigger] opposite(bitmap, width, height, x, y, r, dx, dy) ==> v <= dist_sq(dx, dy)
        },
        None => forall|dx: int, dy: int| !#[trigger] opposite(bitmap, width, height, x, y, r, dx, dy),
    }
}

/// Offset (`dx`, `dy`) comes before (`cx`, `cy`) in row-major window order.
pub open spec fn before(dx: int, dy: int, cx: int, cy: int) -> bool {
    dy < cy || (dy == cy && dx < cx)
}

/// `best` is the nearest opposite pixel among the offsets before (`cx`, `cy`).
pub open spec fn best_so_far(bitmap: Seq<u8>, width: int, height: int, x: int, y: int, r: int, cx: int, cy: int, best: Option<u32>) -> bool {
    match best {
        Some(v) => {
            &&& exists|dx: int, dy: int| #[trigger] opposite(bitmap, width, height, x, y, r, dx, dy) && before(dx, dy, cx, cy) && v == dist_sq(dx, dy)
            &&& forall|dx: int, dy: int| #[trigger] opposite(bitmap, width, height, x, y, r, dx, dy) && before(dx, dy, cx, cy) ==> v <= dist_sq(dx, dy)
        },
        None => forall|dx: int, dy: int| #[trigger] opposite(bitmap, width, height, x, y, r, dx, dy) ==> !before(dx, dy, cx, cy),
    }
}

/// How far an offset of the window of radius `r` reaches along a side of `n` pixels.
pub open spec fn reach(r: int, n: int) -> int {
    if r < n - 1 { r } else { n - 1 }
}

/// Squared distances within the window and the bitmap fit in an `i32`.
proof fn lemma_dist_bound(dx: int, dy: int, width: int, height: int, r: int)
    requires
        -width < dx < width,
        -height < dy < height,
        -r <= dx <= r,
        -r <= dy <= r,
        reach(r, width) * reach(r, width) + reach(r, height) * reach(r, height) <= i32::MAX,
    ensures
        0 <= dist_sq(dx, dy) <= i32::MAX,
        0 <= dx * dx <= i32::MAX,
        0 <= dy * dy <= i32::MAX,
{
    let a = reach(r, width);
    let c = reach(r, height);
    assert(dx * dx <= a * a) by (nonlinear_arith)
        requires
            -a <= dx <= a,
    {
    }
    assert(dy * dy <= c * c) by (nonlinear_arith)
        requires
            -c <= dy <= c,
    {
    }
    assert(0 <= dx * dx) by (nonlinear_arith);
    assert(0 <= dy * dy) by (nonlinear_arith);
}

/// The nearest opposite pixel of (`x`, `y`) within the window of radius `radius`.
fn nearest_for_pixel(bitmap: &[u8], width: u32, height: u32, x: u32, y: u32, radius: i32) -> (d: Option<u32>)
    requires
        x < width,
        y < height,
        bitmap@.len() >= width * height,
        width * height <= u32::MAX,
        reach(radius as int, width as int) * reach(radius as int, width as int) + reach(radius as int, height as int) * reach(
            radius as int,
            height as int,
        ) <= i32::MAX,
        width + radius <= i32::MAX,
        height + radius <= i32::MAX,
        radius > i32::MIN,
    ensures
        nearest_opposite(bitmap@, width as int, height as int, x as int, y as int, radius as int, d),
{
    let ghost b = bitmap@;
    let ghost w = width as int;
    let ghost h = height as int;
    let ghost r = radius as int;
    proof {
        assert(y * w + x < w * h) by (nonlinear_arith)
            requires
                x < w,
                y < h,
        {
        }
    }
    let here = (y * width + x) as usize;
    let inside = bitmap[here] > 127;
    let mut best: Option<u32> = None;
    if radius < 0 {
        proof {
            assert forall|dx: int, dy: int| !#[trigger] opposite(b, w, h, x as int, y as int, r, dx, dy) by {}
        }
        return None;
    }
    let mut dy: i32 = -radius;
    while dy <= radius
        invariant
            x < width,
            y < height,
            b == bitmap@,
            w == width,
            h == height,
            r == radius,
            0 <= radius,
            -radius <= dy <= radius + 1,
            b.len() >= w * h,
            w * h <= u32::MAX,
            reach(r, w) * reach(r, w) + reach(r, h) * reach(r, h) <= i32::MAX,
            w + r <= i32::MAX,
            h + r <= i32::MAX,
            inside == is_inside(b, w, x as int, y as int),
            best_so_far(b, w, h, x as int, y as int, r, -r, dy as int, best),
        decreases radius + 1 - dy,
    {
        let mut dx: i32 = -radius;
        while dx <= radius
            invariant
                x < width,
                y < height,
                b == bitmap@,
                w == width,
                h == height,
                r == radius,
                0 <= radius,
                -radius <= dy <= radius,
                -radius <= dx <= radius + 1,
                b.len() >= w * h,
                w * h <= u32::MAX,
                reach(r, w) * reach(r, w) + reach(r, h) * reach(r, h) <= i32::MAX,
                w + r <= i32::MAX,
                h + r <= i32::MAX,
                inside == is_inside(b, w, x as int, y as int),
                best_so_far(b, w, h, x as int, y as int, r, dx as int, dy as int, best),
            decreases radius + 1 - dx,
        {
            let nx: i32 = x as i32 + dx;
            let ny: i32 = y as i32 + dy;
            let ghost before_best = best;
            if nx >= 0 && nx < width as i32 && ny >= 0 && ny < height as i32 {
                proof {
                    assert((ny as int) * w + (nx as int) < w * h) by (nonlinear_arith)
                        requires
                            0 <= nx < w,
                            0 <= ny < h,
                    {
                    }
                }
                let nidx = ((ny as u32) * width + (nx as u32)) as usize;
                if inside != (bitmap[nidx] > 127) {
                    proof {
                        lemma_dist_bound(dx as int, dy as int, w, h, r);
                        assert(opposite(b, w, h, x as int, y as int, r, dx as int, dy as int));
                    }
                    let d: i32 = dx * dx + dy * dy;
                    let du = d as u32;
                    match best {
                        Some(v) => {
                            if du < v {
                                best = Some(du);
                            }
                        },
                        None => {
                            best = Some(du);
                        },
                    }
                }
            }
            proof {
                let cx = dx as int;
                let cy = dy as int;
                let here_opp = opposite(b, w, h, x as int, y as int, r, cx, cy);
                if !here_opp {
                    assert(best == before_best);
                }
                assert forall|ddx: int, ddy: int| before(ddx, ddy, cx + 1, cy) <==> (before(ddx, ddy, cx, cy) || (ddx == cx && ddy == cy)) by {}
                match best {
                    Some(v) => {
                        if here_opp && (before_best is None || v == dist_sq(cx, cy)) {
                            assert(opposite(b, w, h, x as int, y as int, r, cx, cy) && before(cx, cy, cx + 1, cy) && v == dist_sq(cx, cy));
                        } else {
                            let (wx, wy) = choose|ddx: int, ddy: int| #[trigger] opposite(b, w, h, x as int, y as int, r, ddx, ddy) && before(ddx, ddy, cx, cy) && before_best->0 == dist_sq(ddx, ddy);
                            assert(opposite(b, w, h, x as int, y as int, r, wx, wy) && before(wx, wy, cx + 1, cy));
                        }
                    },
                    None => {},
                }
            }
            dx = dx + 1;
        }
        proof {
            let cy = dy as int;
            assert forall|ddx: int, ddy: int| #[trigger] opposite(b, w, h, x as int, y as int, r, ddx, ddy) implies (before(
                ddx, ddy, -r, cy + 1,
            ) <==> before(ddx, ddy, r + 1, cy)) by {}
            match best {
                Some(v) => {
                    let (wx, wy) = choose|ddx: int, ddy: int| #[trigger] opposite(b, w, h, x as int, y as int, r, ddx, ddy) && before(ddx, ddy, r + 1, cy) && v == dist_sq(ddx, ddy);
                    assert(opposite(b, w, h, x as int, y as int, r, wx, wy) && before(wx, wy, -r, cy + 1));
                },
                None => {},
            }
        }
        dy = dy + 1;
    }
    proof {
        assert forall|ddx: int, ddy: int| #[trigger] opposite(b, w, h, x as int, y as int, r, ddx, ddy) implies before(ddx, ddy, -r, r + 1) by {}
    }
    best
}

/// For every pixel of a `width` by `height` bitmap (row by row), the
/// smallest squared distance to a pixel on the other side of the glyph's
/// edge within the square window of radius `radius`, or `None` when the
/// window holds none.
pub fn nearest_opposite_distances(bitmap: &[u8], width: u32, height: u32, radius: i32) -> (out: Vec<Option<u32>>)
    requires
        bitmap@.len() >= width * height,
        width * height <= u32::MAX,
        width >= 1 && height >= 1 ==> reach(radius as int, width as int) * reach(radius as int, width as int) + reach(radius as int, height as int) * reach(
            radius as int,
            height as int,
        ) <= i32::MAX,
        width + radius <= i32::MAX,
        height + radius <= i32::MAX,
        radius > i32::MIN,
    ensures
        out@.len() == width * height,
        forall|x: int, y: int| 0 <= x < width && 0 <= y < height ==> #[trigger] nearest_opposite(
            bitmap@,
            width as int,
            height as int,
            x,
            y,
            radius as int,
            out@[y * width + x],
        ),
{
    let mut out: Vec<Option<u32>> = Vec::new();
    let mut y: u32 = 0;
    while y < height
        invariant
            0 <= y <= height,
            out@.len() == y * width,
            bitmap@.len() >= width * height,
            width * height <= u32::MAX,
            width >= 1 && height >= 1 ==> reach(radius as int, width as int) * reach(radius as int, width as int) + reach(
            radius as int,
            height as int,
        ) * reach(radius as int, height as int) <= i32::MAX,
            width + radius <= i32::MAX,
            height + radius <= i32::MAX,
            radius > i32::MIN,
            forall|xx: int, yy: int| 0 <= xx < width && 0 <= yy < y ==> #[trigger] nearest_opposite(
                bitmap@, width as int, height as int, xx, yy, radius as int, out@[yy * width + xx],
            ),
        decreases height - y,
    {
        let mut x: u32 = 0;
        while x < width
            invariant
                0 <= x <= width,
                y < height,
                out@.len() == y * width + x,
                bitmap@.len() >= width * height,
                width * height <= u32::MAX,
                width >= 1 && height >= 1 ==> reach(radius as int, width as int) * reach(radius as int, width as int) + reach(
            radius as int,
            height as int,
        ) * reach(radius as int, height as int) <= i32::MAX,
                width + radius <= i32::MAX,
                height + radius <= i32::MAX,
                radius > i32::MIN,
                forall|xx: int, yy: int| 0 <= xx < width && 0 <= yy < y ==> #[trigger] nearest_opposite(
                    bitmap@, width as int, height as int, xx, yy, radius as int, out@[yy * width + xx],
                ),
                forall|xx: int| 0 <= xx < x ==> #[trigger] nearest_opposite(
                    bitmap@, width as int, height as int, xx, y as int, radius as int, out@[y * width + xx],
                ),
            decreases width - x,
        {
            let d = nearest_for_pixel(bitmap, width, height, x, y, radius);
            let ghost prev = out@;
            out.push(d);
            proof {
                assert forall|xx: int, yy: int| 0 <= xx < width && 0 <= yy < y implies #[trigger] nearest_opposite(
                    bitmap@, width as int, height as int, xx, yy, radius as int, out@[yy * width + xx],
                ) by {
                    assert(yy * width + xx < y * width) by (nonlinear_arith)
                        requires
                            0 <= xx < width,
                            0 <= yy < y,
                    {
                    }
                    assert(out@[yy * width + xx] == prev[yy * width + xx]);
                }
                assert forall|xx: int| 0 <= xx < x + 1 implies #[trigger] nearest_opposite(
                    bitmap@, width as int, height as int, xx, y as int, radius as int, out@[y * width + xx],
                ) by {
                    if xx < x {
                        assert(out@[y * width + xx] == prev[y * width + xx]);
                    }
                }
            }
            x = x + 1;
        }
        proof {
            assert(out@.len() == (y + 1) * width) by (nonlinear_arith)
                requires
                    out@.len() == y * width + width,
            {
            }
            assert forall|xx: int, yy: int| 0 <= xx < width && 0 <= yy < y + 1 implies #[trigger] nearest_opposite(
                bitmap@, width as int, height as int, xx, yy, radius as int, out@[yy * width + xx],
            ) by {
                if yy == y {
                    assert(nearest_opposite(bitmap@, width as int, height as int, xx, y as int, radius as int, out@[y * width + xx]));
                }
            }
        }
        y = y + 1;
    }
    proof {
        assert(height * width == width * height) by (nonlinear_arith);
    }
    out
}

} // verus!
