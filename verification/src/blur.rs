//! Pixelating blur used to hide parts of a screenshot.
//!
//! The region is cut into blocks of 12 by 12 pixels, aligned on its top-left corner (the
//! blocks on the right and bottom edges may be smaller); every pixel of a block takes the
//! channel-wise mean of the block, rounded down.
use vstd::prelude::*;
use crate::image::{Image, ImageModel};

verus! {

/// Side of a blur block.
pub const BLOCK: u32 = 12;

/// Sum of channel `ch` over the pixels `x0 .. x` of row `y`.
pub open spec fn row_sum(m: ImageModel, ch: int, x0: int, x: int, y: int) -> nat
    decreases x - x0,
{
    if x <= x0 {
        0
    } else {
        (row_sum(m, ch, x0, x - 1, y) + m.pixel(x - 1, y)[ch]) as nat
    }
}

/// Sum of channel `ch` over the rectangle `x0 .. x1` by `y0 .. y`.
pub open spec fn rect_sum(m: ImageModel, ch: int, x0: int, x1: int, y0: int, y: int) -> nat
    decreases y - y0,
{
    if y <= y0 {
        0
    } else {
        rect_sum(m, ch, x0, x1, y0, y - 1) + row_sum(m, ch, x0, x1, y - 1)
    }
}

/// First coordinate of the block that holds coordinate `v` in a region starting at `s`.
pub open spec fn block_origin(s: int, v: int) -> int {
    s + 12 * ((v - s) / 12)
}

/// Coordinate just past the block that holds `v` in a region from `s` to `e` inclusive.
pub open spec fn block_limit(s: int, e: int, v: int) -> int {
    if block_origin(s, v) + 12 <= e + 1 {
        block_origin(s, v) + 12
    } else {
        e + 1
    }
}

/// Mean of channel `ch` over the rectangle `x0 .. x1` by `y0 .. y1`, rounded down.
pub open spec fn channel_mean(m: ImageModel, ch: int, x0: int, x1: int, y0: int, y1: int) -> int {
    rect_sum(m, ch, x0, x1, y0, y1) as int / ((x1 - x0) * (y1 - y0))
}

/// The mean pixel of the rectangle `x0 .. x1` by `y0 .. y1`.
pub open spec fn mean_pixel(m: ImageModel, x0: int, x1: int, y0: int, y1: int) -> Seq<u8> {
    seq![
        channel_mean(m, 0, x0, x1, y0, y1) as u8,
        channel_mean(m, 1, x0, x1, y0, y1) as u8,
        channel_mean(m, 2, x0, x1, y0, y1) as u8,
        channel_mean(m, 3, x0, x1, y0, y1) as u8,
    ]
}

/// The pixel `(x, y)` of `m` blurred over the region `sx ..= ex` by `sy ..= ey`: the mean
/// of its block inside the region, and unchanged outside the region.
pub open spec fn blurred_pixel(m: ImageModel, sx: int, ex: int, sy: int, ey: int, x: int, y: int) -> Seq<u8> {
    if sx <= x <= ex && sy <= y <= ey {
        mean_pixel(
            m,
            block_origin(sx, x),
            block_limit(sx, ex, x),
            block_origin(sy, y),
            block_limit(sy, ey, y),
        )
    } else {
        m.pixel(x, y)
    }
}

proof fn lemma_row_sum_bound(m: ImageModel, ch: int, x0: int, x: int, y: int)
    requires
        m.wf(),
        0 <= ch < 4,
        0 <= x0,
        x <= m.width,
        0 <= y < m.height,
    ensures
        row_sum(m, ch, x0, x, y) <= 255 * (if x > x0 { x - x0 } else { 0 }),
    decreases x - x0,
{
    if x > x0 {
        lemma_row_sum_bound(m, ch, x0, x - 1, y);
    }
}

/// The channel-wise mean of the rectangle `x0 .. x1` by `y0 .. y1` of the current image.
fn block_mean(img: &Image, x0: u32, x1: u32, y0: u32, y1: u32) -> (p: [u8; 4])
    requires
        x0 < x1 <= img@.width,
        y0 < y1 <= img@.height,
        x1 - x0 <= 12,
        y1 - y0 <= 12,
    ensures
        p@ == mean_pixel(img@, x0 as int, x1 as int, y0 as int, y1 as int),
{
    let ghost m = img@;
    let _ = img.dimensions();
    let mut sums: [u64; 4] = [0, 0, 0, 0];
    let mut count: u64 = 0;
    let mut y: u32 = y0;
    while y < y1
        invariant
            m == img@,
            m.wf(),
            x0 < x1 <= m.width,
            y0 <= y <= y1 <= m.height,
            x1 - x0 <= 12,
            y1 - y0 <= 12,
            count == (y - y0) * (x1 - x0),
            count <= 144,
            forall|ch: int| 0 <= ch < 4 ==> #[trigger] sums@[ch] == rect_sum(m, ch, x0 as int, x1 as int, y0 as int, y as int),
            forall|ch: int| 0 <= ch < 4 ==> #[trigger] sums@[ch] <= 255 * count,
        decreases y1 - y,
    {
        assert((y - y0 + 1) * (x1 - x0) <= 144) by (nonlinear_arith)
            requires
                0 <= y - y0,
                y - y0 + 1 <= 12,
                0 <= x1 - x0 <= 12,
        ;
        assert((y - y0 + 1) * (x1 - x0) == (y - y0) * (x1 - x0) + (x1 - x0)) by (nonlinear_arith);
        let ghost row_start = sums;
        let mut x: u32 = x0;
        while x < x1
            invariant
                m == img@,
                m.wf(),
                x0 <= x <= x1 <= m.width,
                y0 <= y < y1 <= m.height,
                count == (y - y0) * (x1 - x0) + (x - x0),
                (y - y0 + 1) * (x1 - x0) <= 144,
                (y - y0 + 1) * (x1 - x0) == (y - y0) * (x1 - x0) + (x1 - x0),
                forall|ch: int| 0 <= ch < 4 ==> #[trigger] sums@[ch] == row_start@[ch] + row_sum(m, ch, x0 as int, x as int, y as int),
                forall|ch: int| 0 <= ch < 4 ==> #[trigger] row_start@[ch] == rect_sum(m, ch, x0 as int, x1 as int, y0 as int, y as int),
                forall|ch: int| 0 <= ch < 4 ==> #[trigger] sums@[ch] <= 255 * count,
            decreases x1 - x,
        {
            let p = img.get_pixel(x, y);
            let ghost prev = sums;
            sums[0] = sums[0] + p[0] as u64;
            sums[1] = sums[1] + p[1] as u64;
            sums[2] = sums[2] + p[2] as u64;
            sums[3] = sums[3] + p[3] as u64;
            count = count + 1;
            x = x + 1;
            assert forall|ch: int| 0 <= ch < 4 implies #[trigger] sums@[ch] == row_start@[ch] + row_sum(
                m,
                ch,
                x0 as int,
                x as int,
                y as int,
            ) by {
                assert(sums@[ch] == prev@[ch] + p@[ch]);
            }
            assert forall|ch: int| 0 <= ch < 4 implies #[trigger] sums@[ch] <= 255 * count by {
                assert(sums@[ch] == prev@[ch] + p@[ch]);
            }
        }
        y = y + 1;
    }
    let ghost n = count as int;
    assert(n == (x1 - x0) * (y1 - y0)) by (nonlinear_arith)
        requires
            n == (y1 - y0) * (x1 - x0),
    ;
    assert(n > 0) by (nonlinear_arith)
        requires
            n == (x1 - x0) * (y1 - y0),
            x1 > x0,
            y1 > y0,
    ;
    let r0 = sums[0] / count;
    let r1 = sums[1] / count;
    let r2 = sums[2] / count;
    let r3 = sums[3] / count;
    assert(sums@[0] <= 255 * count && sums@[1] <= 255 * count && sums@[2] <= 255 * count
        && sums@[3] <= 255 * count);
    assert(r0 <= 255 && r1 <= 255 && r2 <= 255 && r3 <= 255) by (nonlinear_arith)
        requires
            count > 0,
            sums@[0] <= 255 * count,
            sums@[1] <= 255 * count,
            sums@[2] <= 255 * count,
            sums@[3] <= 255 * count,
            r0 == sums@[0] / count,
            r1 == sums@[1] / count,
            r2 == sums@[2] / count,
            r3 == sums@[3] / count,
    ;
    let p: [u8; 4] = [r0 as u8, r1 as u8, r2 as u8, r3 as u8];
    assert(p@ =~= mean_pixel(m, x0 as int, x1 as int, y0 as int, y1 as int));
    p
}

/// Sets every pixel of the rectangle `x0 .. x1` by `y0 .. y1` to `p`.
fn fill_block(img: &mut Image, x0: u32, x1: u32, y0: u32, y1: u32, p: [u8; 4])
    requires
        x0 <= x1 <= old(img)@.width,
        y0 <= y1 <= old(img)@.height,
    ensures
        final(img)@.wf(),
        final(img)@.width == old(img)@.width,
        final(img)@.height == old(img)@.height,
        forall|x: int, y: int| #[trigger]
            old(img)@.in_bounds(x, y) ==> final(img)@.pixel(x, y) == (if x0 <= x < x1 && y0 <= y
                < y1 {
                p@
            } else {
                old(img)@.pixel(x, y)
            }),
{
    let ghost m = img@;
    let _ = img.dimensions();
    let mut y: u32 = y0;
    while y < y1
        invariant
            img@.wf(),
            img@.width == m.width,
            img@.height == m.height,
            x0 <= x1 <= m.width,
            y0 <= y <= y1 <= m.height,
            forall|x2: int, y2: int| #[trigger]
                m.in_bounds(x2, y2) ==> img@.pixel(x2, y2) == (if x0 <= x2 < x1 && y0 <= y2 < y {
                    p@
                } else {
                    m.pixel(x2, y2)
                }),
        decreases y1 - y,
    {
        let mut x: u32 = x0;
        while x < x1
            invariant
                img@.wf(),
                img@.width == m.width,
                img@.height == m.height,
                x0 <= x <= x1 <= m.width,
                y0 <= y < y1 <= m.height,
                forall|x2: int, y2: int| #[trigger]
                    m.in_bounds(x2, y2) ==> img@.pixel(x2, y2) == (if (x0 <= x2 < x1 && y0 <= y2 < y)
                        || (x0 <= x2 < x && y2 == y) {
                        p@
                    } else {
                        m.pixel(x2, y2)
                    }),
            decreases x1 - x,
        {
            let ghost prev = img@;
            img.put_pixel(x, y, p);
            assert forall|x2: int, y2: int| #[trigger] m.in_bounds(x2, y2) implies img@.pixel(x2, y2) == (if (x0
                <= x2 < x1 && y0 <= y2 < y) || (x0 <= x2 < x + 1 && y2 == y) {
                p@
            } else {
                m.pixel(x2, y2)
            }) by {
                assert(prev.in_bounds(x2, y2));
            }
            x = x + 1;
        }
        y = y + 1;
    }
}

/// The rectangle of a block lies inside the region and the image.
proof fn lemma_block_bounds(s: int, e: int, v: int)
    requires
        s <= v <= e,
    ensures
        s <= block_origin(s, v) <= v < block_limit(s, e, v) <= e + 1,
        block_limit(s, e, v) - block_origin(s, v) <= 12,
        (v - s) % 12 == 0 ==> block_origin(s, v) == v,
{
}

/// A coordinate between a block's origin and its limit belongs to that block.
proof fn lemma_same_block(s: int, e: int, b: int, v: int)
    requires
        s <= b,
        (b - s) % 12 == 0,
        b <= v < b + 12,
    ensures
        block_origin(s, v) == b,
        block_limit(s, e, v) == (if b + 12 <= e + 1 {
            b + 12
        } else {
            e + 1
        }),
{
    assert((v - s) / 12 == (b - s) / 12);
}

/// Blurs the region `start_x ..= end_x` by `start_y ..= end_y` of `img` in blocks of 12 by
/// 12 pixels; an empty region (a start past its end) leaves the image unchanged.
pub fn blur_rect(img: &mut Image, start_x: u32, end_x: u32, start_y: u32, end_y: u32)
    requires
        (start_x <= end_x && start_y <= end_y) ==> (end_x < old(img)@.width && end_y < old(
            img,
        )@.height),
    ensures
        is_blur_of(final(img)@, old(img)@, start_x as int, end_x as int, start_y as int, end_y as int),
{
    let ghost m = img@;
    let _ = img.dimensions();
    let (iw, ih) = img.dimensions();
    let ghost sx = start_x as int;
    let ghost ex = end_x as int;
    let ghost sy = start_y as int;
    let ghost ey = end_y as int;
    if start_x > end_x || start_y > end_y {
        return ;
    }
    let mut by: u64 = start_y as u64;
    while by <= end_y as u64
        invariant
            img@.wf(),
            img@.width == m.width,
            img@.height == m.height,
            m.wf(),
            iw == m.width,
            ih == m.height,
            sx <= ex < m.width,
            sy <= ey < m.height,
            sx == start_x,
            ex == end_x,
            sy == start_y,
            ey == end_y,
            sy <= by,
            (by - sy) % 12 == 0,
            by <= ey + 12,
            forall|x: int, y: int| #[trigger]
                m.in_bounds(x, y) ==> img@.pixel(x, y) == (if sx <= x <= ex && sy <= y < by && y <= ey {
                    blurred_pixel(m, sx, ex, sy, ey, x, y)
                } else {
                    m.pixel(x, y)
                }),
        decreases ey + 12 - by,
    {
        let limit_y: u64 = if by + 12 <= end_y as u64 + 1 {
            by + 12
        } else {
            end_y as u64 + 1
        };
        let mut bx: u64 = start_x as u64;
        while bx <= end_x as u64
            invariant
                img@.wf(),
                img@.width == m.width,
                img@.height == m.height,
                m.wf(),
                iw == m.width,
                ih == m.height,
                sx <= ex < m.width,
                sy <= ey < m.height,
                sx == start_x,
                ex == end_x,
                sy == start_y,
                ey == end_y,
                sy <= by <= ey,
                (by - sy) % 12 == 0,
                limit_y == (if by + 12 <= ey + 1 { by + 12 } else { ey + 1 }),
                sx <= bx,
                (bx - sx) % 12 == 0,
                bx <= ex + 12,
                forall|x: int, y: int| #[trigger]
                    m.in_bounds(x, y) ==> img@.pixel(x, y) == (if sx <= x <= ex && sy <= y <= ey && (y
                        < by || (y < limit_y && x < bx)) {
                        blurred_pixel(m, sx, ex, sy, ey, x, y)
                    } else {
                        m.pixel(x, y)
                    }),
            decreases ex + 12 - bx,
        {
            let limit_x: u64 = if bx + 12 <= end_x as u64 + 1 {
                bx + 12
            } else {
                end_x as u64 + 1
            };
            let ghost before = img@;
            assert(bx < limit_x <= ex + 1 <= m.width);
            assert(by < limit_y <= ey + 1 <= m.height);
            proof {
                assert forall|x: int, y: int|
                    bx <= x < limit_x && by <= y < limit_y implies #[trigger] before.pixel(x, y)
                    == m.pixel(x, y) by {
                    assert(m.in_bounds(x, y));
                }
                lemma_block_sums_agree(before, m, bx as int, limit_x as int, by as int, limit_y as int);
            }
            let p = block_mean(img, bx as u32, limit_x as u32, by as u32, limit_y as u32);
            fill_block(img, bx as u32, limit_x as u32, by as u32, limit_y as u32, p);
            proof {
                assert forall|x: int, y: int| #[trigger] m.in_bounds(x, y) implies img@.pixel(x, y)
                    == (if sx <= x <= ex && sy <= y <= ey && (y < by || (y < limit_y && x < limit_x)) {
                    blurred_pixel(m, sx, ex, sy, ey, x, y)
                } else {
                    m.pixel(x, y)
                }) by {
                    assert(before.in_bounds(x, y));
                    if bx <= x < limit_x && by <= y < limit_y {
                        lemma_same_block(sx, ex, bx as int, x);
                        lemma_same_block(sy, ey, by as int, y);
                    }
                }
            }
            bx = bx + 12;
        }
        proof {
            assert forall|x: int, y: int| #[trigger] m.in_bounds(x, y) implies img@.pixel(x, y) == (if sx
                <= x <= ex && sy <= y < by + 12 && y <= ey {
                blurred_pixel(m, sx, ex, sy, ey, x, y)
            } else {
                m.pixel(x, y)
            }) by {}
        }
        by = by + 12;
    }
}

/// The image `after` is the image `before` blurred over the region `sx ..= ex` by `sy ..= ey`.
pub open spec fn is_blur_of(after: ImageModel, before: ImageModel, sx: int, ex: int, sy: int, ey: int) -> bool {
    &&& after.wf()
    &&& after.width == before.width
    &&& after.height == before.height
    &&& forall|x: int, y: int| #[trigger]
        before.in_bounds(x, y) ==> after.pixel(x, y) == blurred_pixel(before, sx, ex, sy, ey, x, y)
}

proof fn lemma_row_sum_const(m: ImageModel, q: Seq<u8>, ch: int, x0: int, x: int, y: int)
    requires
        x0 <= x,
        forall|x2: int| x0 <= x2 < x ==> #[trigger] m.pixel(x2, y) == q,
    ensures
        row_sum(m, ch, x0, x, y) == (x - x0) * q[ch],
    decreases x - x0,
{
    if x > x0 {
        lemma_row_sum_const(m, q, ch, x0, x - 1, y);
        assert(m.pixel(x - 1, y) == q);
        let prev = row_sum(m, ch, x0, x - 1, y);
        let c = q[ch] as int;
        assert(row_sum(m, ch, x0, x, y) == prev + c);
        assert((x - 1 - x0) * c + c == (x - x0) * c) by (nonlinear_arith);
    } else {
        let c = q[ch] as int;
        assert((x - x0) * c == 0) by (nonlinear_arith)
            requires
                x == x0,
        ;
    }
}

proof fn lemma_rect_sum_const(m: ImageModel, q: Seq<u8>, ch: int, x0: int, x1: int, y0: int, y: int)
    requires
        x0 <= x1,
        y0 <= y,
        forall|x2: int, y2: int| x0 <= x2 < x1 && y0 <= y2 < y ==> #[trigger] m.pixel(x2, y2) == q,
    ensures
        rect_sum(m, ch, x0, x1, y0, y) == (x1 - x0) * (y - y0) * q[ch],
    decreases y - y0,
{
    if y > y0 {
        lemma_rect_sum_const(m, q, ch, x0, x1, y0, y - 1);
        assert forall|x2: int| x0 <= x2 < x1 implies #[trigger] m.pixel(x2, y - 1) == q by {}
        lemma_row_sum_const(m, q, ch, x0, x1, y - 1);
        let c = q[ch] as int;
        assert(rect_sum(m, ch, x0, x1, y0, y) == rect_sum(m, ch, x0, x1, y0, y - 1) + row_sum(m, ch, x0, x1, y - 1));
        assert((x1 - x0) * (y - 1 - y0) * c + (x1 - x0) * c == (x1 - x0) * (y - y0) * c)
            by (nonlinear_arith);
    } else {
        let c = q[ch] as int;
        assert((x1 - x0) * (y - y0) * c == 0) by (nonlinear_arith)
            requires
                y == y0,
        ;
    }
}

/// The mean of a rectangle whose pixels all equal `q` is `q`.
proof fn lemma_mean_of_constant(m: ImageModel, q: Seq<u8>, x0: int, x1: int, y0: int, y1: int)
    requires
        x0 < x1,
        y0 < y1,
        q.len() == 4,
        forall|x2: int, y2: int| x0 <= x2 < x1 && y0 <= y2 < y1 ==> #[trigger] m.pixel(x2, y2) == q,
    ensures
        mean_pixel(m, x0, x1, y0, y1) == q,
{
    assert forall|ch: int| 0 <= ch < 4 implies #[trigger] channel_mean(m, ch, x0, x1, y0, y1) == q[ch] by {
        lemma_rect_sum_const(m, q, ch, x0, x1, y0, y1);
        let n = (x1 - x0) * (y1 - y0);
        assert(n > 0) by (nonlinear_arith)
            requires
                x1 > x0,
                y1 > y0,
                n == (x1 - x0) * (y1 - y0),
        ;
        let c = q[ch] as int;
        assert((n * c) / n == c) by (nonlinear_arith)
            requires
                n > 0,
        ;
        assert((x1 - x0) * (y1 - y0) * q[ch] == n * c);
    }
    assert(mean_pixel(m, x0, x1, y0, y1) =~= q);
}

/// The blur works in blocks of 12 by 12 pixels counted from the region's top-left corner:
/// two pixels of the region whose offsets from that corner fall in the same band of 12
/// columns and the same band of 12 rows get the same colour, and every pixel outside the
/// region keeps its colour.
pub proof fn lemma_blur_blocks_of_twelve(
    after: ImageModel,
    before: ImageModel,
    sx: int,
    ex: int,
    sy: int,
    ey: int,
)
    requires
        is_blur_of(after, before, sx, ex, sy, ey),
    ensures
        forall|x1: int, y1: int, x2: int, y2: int|
            before.in_bounds(x1, y1) && before.in_bounds(x2, y2) && sx <= x1 <= ex && sx <= x2
                <= ex && sy <= y1 <= ey && sy <= y2 <= ey && (x1 - sx) / 12 == (x2 - sx) / 12 && (y1
                - sy) / 12 == (y2 - sy) / 12 ==> #[trigger] after.pixel(x1, y1)
                == #[trigger] after.pixel(x2, y2),
        forall|x: int, y: int|
            before.in_bounds(x, y) && !(sx <= x <= ex && sy <= y <= ey) ==> #[trigger] after.pixel(
                x,
                y,
            ) == before.pixel(x, y),
{
    assert forall|x1: int, y1: int, x2: int, y2: int|
        before.in_bounds(x1, y1) && before.in_bounds(x2, y2) && sx <= x1 <= ex && sx <= x2 <= ex
            && sy <= y1 <= ey && sy <= y2 <= ey && (x1 - sx) / 12 == (x2 - sx) / 12 && (y1 - sy)
            / 12 == (y2 - sy) / 12 implies #[trigger] after.pixel(x1, y1) == #[trigger] after.pixel(
        x2,
        y2,
    ) by {
        assert(after.pixel(x1, y1) == blurred_pixel(before, sx, ex, sy, ey, x1, y1));
        assert(after.pixel(x2, y2) == blurred_pixel(before, sx, ex, sy, ey, x2, y2));
    }
    assert forall|x: int, y: int|
        before.in_bounds(x, y) && !(sx <= x <= ex && sy <= y <= ey) implies #[trigger] after.pixel(
        x,
        y,
    ) == before.pixel(x, y) by {
        assert(after.pixel(x, y) == blurred_pixel(before, sx, ex, sy, ey, x, y));
    }
}

/// Blurring a region a second time changes nothing.
pub proof fn lemma_blur_idempotent(
    m0: ImageModel,
    m1: ImageModel,
    m2: ImageModel,
    sx: int,
    ex: int,
    sy: int,
    ey: int,
)
    requires
        m0.wf(),
        is_blur_of(m1, m0, sx, ex, sy, ey),
        is_blur_of(m2, m1, sx, ex, sy, ey),
        0 <= sx,
        0 <= sy,
        (sx <= ex && sy <= ey) ==> (ex < m0.width && ey < m0.height),
    ensures
        m2 == m1,
{
    assert forall|x: int, y: int| #[trigger] m2.in_bounds(x, y) implies m2.pixel(x, y) == m1.pixel(x, y) by {
        assert(m0.in_bounds(x, y));
        assert(m1.in_bounds(x, y));
        if sx <= x <= ex && sy <= y <= ey {
            let x0 = block_origin(sx, x);
            let x1 = block_limit(sx, ex, x);
            let y0 = block_origin(sy, y);
            let y1 = block_limit(sy, ey, y);
            lemma_block_bounds(sx, ex, x);
            lemma_block_bounds(sy, ey, y);
            let q = mean_pixel(m0, x0, x1, y0, y1);
            assert forall|x2: int, y2: int| x0 <= x2 < x1 && y0 <= y2 < y1 implies #[trigger] m1.pixel(x2, y2)
                == q by {
                assert((x0 - sx) % 12 == 0);
                assert((y0 - sy) % 12 == 0);
                lemma_same_block(sx, ex, x0, x2);
                lemma_same_block(sy, ey, y0, y2);
                assert(m0.in_bounds(x2, y2));
            }
            lemma_mean_of_constant(m1, q, x0, x1, y0, y1);
        }
    }
    crate::image::lemma_same_pixels_equal(m2, m1);
}

/// Rectangle sums of two images agree where their pixels agree.
proof fn lemma_block_sums_agree(a: ImageModel, b: ImageModel, x0: int, x1: int, y0: int, y1: int)
    requires
        forall|x: int, y: int| x0 <= x < x1 && y0 <= y < y1 ==> #[trigger] a.pixel(x, y) == b.pixel(x, y),
    ensures
        forall|ch: int| #[trigger] rect_sum(a, ch, x0, x1, y0, y1) == rect_sum(b, ch, x0, x1, y0, y1),
        mean_pixel(a, x0, x1, y0, y1) == mean_pixel(b, x0, x1, y0, y1),
{
    assert forall|ch: int| #[trigger] rect_sum(a, ch, x0, x1, y0, y1) == rect_sum(b, ch, x0, x1, y0, y1) by {
        lemma_rect_sum_agree(a, b, ch, x0, x1, y0, y1);
    }
}

proof fn lemma_rect_sum_agree(a: ImageModel, b: ImageModel, ch: int, x0: int, x1: int, y0: int, y: int)
    requires
        forall|x2: int, y2: int| x0 <= x2 < x1 && y0 <= y2 < y ==> #[trigger] a.pixel(x2, y2) == b.pixel(x2, y2),
    ensures
        rect_sum(a, ch, x0, x1, y0, y) == rect_sum(b, ch, x0, x1, y0, y),
    decreases y - y0,
{
    if y > y0 {
        lemma_rect_sum_agree(a, b, ch, x0, x1, y0, y - 1);
        lemma_row_sum_agree(a, b, ch, x0, x1, y - 1);
    }
}

proof fn lemma_row_sum_agree(a: ImageModel, b: ImageModel, ch: int, x0: int, x: int, y: int)
    requires
        forall|x2: int| x0 <= x2 < x ==> #[trigger] a.pixel(x2, y) == b.pixel(x2, y),
    ensures
        row_sum(a, ch, x0, x, y) == row_sum(b, ch, x0, x, y),
    decreases x - x0,
{
    if x > x0 {
        lemma_row_sum_agree(a, b, ch, x0, x - 1, y);
        assert(a.pixel(x - 1, y) == b.pixel(x - 1, y));
    }
}

} // verus!
