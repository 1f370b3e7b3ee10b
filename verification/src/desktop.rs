//! Geometry of the desktop: the rectangle that covers all monitors, and the translation
//! of a selection made on the overlay into coordinates inside one monitor's screenshot.
use vstd::prelude::*;

verus! {

/// Position and size of one monitor in desktop coordinates.
#[derive(PartialEq, Eq, Structural, Clone, Copy, Debug)]
pub struct MonitorRect {
    pub x: i32,
    pub y: i32,
    pub width: u32,
    pub height: u32,
}

/// Right edge of a monitor (its width taken as an `i32`, as the desktop code does).
pub open spec fn right_edge(m: MonitorRect) -> int {
    m.x + (m.width as i32)
}

/// Bottom edge of a monitor (its height taken as an `i32`).
pub open spec fn bottom_edge(m: MonitorRect) -> int {
    m.y + (m.height as i32)
}

pub open spec fn min_int(a: int, b: int) -> int {
    if a <= b {
        a
    } else {
        b
    }
}

pub open spec fn max_int(a: int, b: int) -> int {
    if a >= b {
        a
    } else {
        b
    }
}

/// Smallest left edge of the first `k` monitors (`i32::MAX` for none).
pub open spec fn left_of(ms: Seq<MonitorRect>, k: int) -> int
    decreases k,
{
    if k <= 0 {
        i32::MAX as int
    } else {
        min_int(left_of(ms, k - 1), ms[k - 1].x as int)
    }
}

/// Smallest top edge of the first `k` monitors (`i32::MAX` for none).
pub open spec fn top_of(ms: Seq<MonitorRect>, k: int) -> int
    decreases k,
{
    if k <= 0 {
        i32::MAX as int
    } else {
        min_int(top_of(ms, k - 1), ms[k - 1].y as int)
    }
}

/// Largest right edge of the first `k` monitors (`i32::MIN` for none).
pub open spec fn right_of(ms: Seq<MonitorRect>, k: int) -> int
    decreases k,
{
    if k <= 0 {
        i32::MIN as int
    } else {
        max_int(right_of(ms, k - 1), right_edge(ms[k - 1]))
    }
}

/// Largest bottom edge of the first `k` monitors (`i32::MIN` for none).
pub open spec fn bottom_of(ms: Seq<MonitorRect>, k: int) -> int
    decreases k,
{
    if k <= 0 {
        i32::MIN as int
    } else {
        max_int(bottom_of(ms, k - 1), bottom_edge(ms[k - 1]))
    }
}

/// The desktop rectangle `(x, y, width, height)` covering all monitors, or the default
/// `(0, 0, 1920, 1080)` when there is no monitor (or the leftmost edge is `i32::MAX`).
pub open spec fn desktop_bounds_spec(ms: Seq<MonitorRect>) -> (int, int, int, int) {
    let n = ms.len() as int;
    if left_of(ms, n) != i32::MAX {
        (left_of(ms, n), top_of(ms, n), right_of(ms, n) - left_of(ms, n), bottom_of(ms, n) - top_of(ms, n))
    } else {
        (0, 0, 1920, 1080)
    }
}

/// The edges of every monitor fit in an `i32`, and so do the width and height of the
/// covering rectangle.
pub open spec fn desktop_bounds_pre(ms: Seq<MonitorRect>) -> bool {
    let n = ms.len() as int;
    &&& forall|i: int| 0 <= i < n ==> i32::MIN <= #[trigger] right_edge(ms[i]) <= i32::MAX
    &&& forall|i: int| 0 <= i < n ==> i32::MIN <= #[trigger] bottom_edge(ms[i]) <= i32::MAX
    &&& left_of(ms, n) != i32::MAX ==> right_of(ms, n) - left_of(ms, n) <= i32::MAX
    &&& left_of(ms, n) != i32::MAX ==> bottom_of(ms, n) - top_of(ms, n) <= i32::MAX
}

/// The rectangle covering all monitors, as `(x, y, width, height)`.
pub fn desktop_bounds(monitors: &Vec<MonitorRect>) -> (r: (i32, i32, i32, i32))
    requires
        desktop_bounds_pre(monitors@),
    ensures
        (r.0 as int, r.1 as int, r.2 as int, r.3 as int) == desktop_bounds_spec(monitors@),
{
    let ghost ms = monitors@;
    let mut min_x: i32 = i32::MAX;
    let mut min_y: i32 = i32::MAX;
    let mut max_x: i32 = i32::MIN;
    let mut max_y: i32 = i32::MIN;
    let mut i: usize = 0;
    while i < monitors.len()
        invariant
            ms == monitors@,
            desktop_bounds_pre(ms),
            i <= ms.len(),
            min_x == left_of(ms, i as int),
            min_y == top_of(ms, i as int),
            max_x == right_of(ms, i as int),
            max_y == bottom_of(ms, i as int),
        decreases ms.len() - i,
    {
        let m = monitors[i];
        assert(i32::MIN <= right_edge(ms[i as int]) <= i32::MAX);
        assert(i32::MIN <= bottom_edge(ms[i as int]) <= i32::MAX);
        let mw = m.width as i32;
        let mh = m.height as i32;
        if m.x < min_x {
            min_x = m.x;
        }
        if m.y < min_y {
            min_y = m.y;
        }
        if m.x + mw > max_x {
            max_x = m.x + mw;
        }
        if m.y + mh > max_y {
            max_y = m.y + mh;
        }
        i = i + 1;
    }
    if min_x != i32::MAX {
        return (min_x, min_y, max_x - min_x, max_y - min_y);
    }
    (0, 0, 1920, 1080)
}

/// The desktop position of a point given relative to the desktop's top-left corner.
pub fn global_point(desktop_x: i32, desktop_y: i32, x: i32, y: i32) -> (r: (i32, i32))
    requires
        i32::MIN <= desktop_x + x <= i32::MAX,
        i32::MIN <= desktop_y + y <= i32::MAX,
    ensures
        r.0 == desktop_x + x,
        r.1 == desktop_y + y,
{
    (desktop_x + x, desktop_y + y)
}

/// Where a selection corner, given relative to the desktop's top-left corner, falls in
/// the screenshot of the monitor whose top-left corner is `(monitor_x, monitor_y)`:
/// the offset from the monitor's corner, clamped at zero.
pub fn crop_offset(
    desktop_x: i32,
    desktop_y: i32,
    x: i32,
    y: i32,
    monitor_x: i32,
    monitor_y: i32,
) -> (r: (u32, u32))
    requires
        i32::MIN <= desktop_x + x <= i32::MAX,
        i32::MIN <= desktop_y + y <= i32::MAX,
        i32::MIN <= desktop_x + x - monitor_x <= i32::MAX,
        i32::MIN <= desktop_y + y - monitor_y <= i32::MAX,
    ensures
        r.0 == max_int(desktop_x + x - monitor_x, 0),
        r.1 == max_int(desktop_y + y - monitor_y, 0),
{
    let gx = desktop_x + x;
    let gy = desktop_y + y;
    let dx = gx - monitor_x;
    let dy = gy - monitor_y;
    let cx: u32 = if dx > 0 {
        dx as u32
    } else {
        0
    };
    let cy: u32 = if dy > 0 {
        dy as u32
    } else {
        0
    };
    (cx, cy)
}

/// Whether a `width` by `height` crop at `(x, y)` lies inside a screenshot of the given size.
pub fn crop_fits(x: u32, y: u32, width: u32, height: u32, image_width: u32, image_height: u32) -> (r: bool)
    requires
        x + width <= u32::MAX,
        y + height <= u32::MAX,
    ensures
        r == (x + width <= image_width && y + height <= image_height),
{
    x + width <= image_width && y + height <= image_height
}

/// The covering rectangle contains every monitor.
pub proof fn lemma_desktop_covers_monitors(ms: Seq<MonitorRect>, i: int)
    requires
        0 <= i < ms.len(),
        left_of(ms, ms.len() as int) != i32::MAX,
    ensures
        ({
            let (x, y, w, h) = desktop_bounds_spec(ms);
            x <= ms[i].x && y <= ms[i].y && right_edge(ms[i]) <= x + w && bottom_edge(ms[i]) <= y + h
        }),
{
    lemma_folds_cover(ms, ms.len() as int, i);
}

proof fn lemma_folds_attained(ms: Seq<MonitorRect>, k: int)
    requires
        1 <= k <= ms.len(),
        desktop_bounds_pre(ms),
    ensures
        exists|i: int| 0 <= i < k && #[trigger] ms[i].x == left_of(ms, k),
        exists|i: int| 0 <= i < k && #[trigger] ms[i].y == top_of(ms, k),
        exists|i: int| 0 <= i < k && #[trigger] right_edge(ms[i]) == right_of(ms, k),
        exists|i: int| 0 <= i < k && #[trigger] bottom_edge(ms[i]) == bottom_of(ms, k),
    decreases k,
{
    let j = k - 1;
    if k == 1 {
        assert(left_of(ms, 0) == i32::MAX as int);
        assert(top_of(ms, 0) == i32::MAX as int);
        assert(right_of(ms, 0) == i32::MIN as int);
        assert(bottom_of(ms, 0) == i32::MIN as int);
        assert(i32::MIN <= right_edge(ms[j]) && i32::MIN <= bottom_edge(ms[j]));
        assert(ms[j].x == left_of(ms, k));
        assert(ms[j].y == top_of(ms, k));
        assert(right_edge(ms[j]) == right_of(ms, k));
        assert(bottom_edge(ms[j]) == bottom_of(ms, k));
    } else {
        lemma_folds_attained(ms, k - 1);
        if ms[j].x == left_of(ms, k) {
        } else {
            let i = choose|i: int| 0 <= i < k - 1 && #[trigger] ms[i].x == left_of(ms, k - 1);
            assert(ms[i].x == left_of(ms, k));
        }
        if ms[j].y == top_of(ms, k) {
        } else {
            let i = choose|i: int| 0 <= i < k - 1 && #[trigger] ms[i].y == top_of(ms, k - 1);
            assert(ms[i].y == top_of(ms, k));
        }
        if right_edge(ms[j]) == right_of(ms, k) {
        } else {
            let i = choose|i: int| 0 <= i < k - 1 && #[trigger] right_edge(ms[i]) == right_of(ms, k - 1);
            assert(right_edge(ms[i]) == right_of(ms, k));
        }
        if bottom_edge(ms[j]) == bottom_of(ms, k) {
        } else {
            let i = choose|i: int| 0 <= i < k - 1 && #[trigger] bottom_edge(ms[i]) == bottom_of(ms, k - 1);
            assert(bottom_edge(ms[i]) == bottom_of(ms, k));
        }
    }
}

/// The covering rectangle is the smallest one: each of its four sides lies on the
/// matching side of some monitor. Without monitors it is `(0, 0, 1920, 1080)`.
pub proof fn lemma_desktop_is_tight(ms: Seq<MonitorRect>)
    requires
        desktop_bounds_pre(ms),
    ensures
        ms.len() == 0 ==> desktop_bounds_spec(ms) == (0int, 0int, 1920int, 1080int),
        left_of(ms, ms.len() as int) != i32::MAX ==> ({
            let (x, y, w, h) = desktop_bounds_spec(ms);
            &&& exists|i: int| 0 <= i < ms.len() && #[trigger] ms[i].x == x
            &&& exists|i: int| 0 <= i < ms.len() && #[trigger] ms[i].y == y
            &&& exists|i: int| 0 <= i < ms.len() && #[trigger] right_edge(ms[i]) == x + w
            &&& exists|i: int| 0 <= i < ms.len() && #[trigger] bottom_edge(ms[i]) == y + h
        }),
{
    if ms.len() > 0 {
        lemma_folds_attained(ms, ms.len() as int);
    }
}

proof fn lemma_folds_cover(ms: Seq<MonitorRect>, k: int, i: int)
    requires
        0 <= i < k <= ms.len(),
    ensures
        left_of(ms, k) <= ms[i].x,
        top_of(ms, k) <= ms[i].y,
        right_edge(ms[i]) <= right_of(ms, k),
        bottom_edge(ms[i]) <= bottom_of(ms, k),
    decreases k,
{
    if i < k - 1 {
        lemma_folds_cover(ms, k - 1, i);
    }
}

} // verus!
