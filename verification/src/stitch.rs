//! Stitching the frames of a scrolling capture into one image.
//!
//! The first frame is kept whole. Each later frame contributes the part that does not
//! overlap its predecessor (see `overlap`), appended after what came before; a frame that
//! adds fewer than 5 new lines is skipped.
use vstd::prelude::*;
use crate::image::{
    Image,
    ImageModel,
    zero_pixel,
    min_nat,
    crop_window,
    is_crop_of,
    is_replace_of,
    lemma_same_pixels_equal,
    transpose,
    lemma_transpose,
    lemma_transpose_twice,
};
use crate::overlap::{
    along_len,
    across_len,
    in_bounds_at,
    pixel_at,
    overlap_spec,
    overlap_pre,
    samples_per_line,
    lemma_identical_frames_overlap_fully,
    lemma_horizontal_overlap_is_transposed,
    find_overlap,
    find_overlap_horizontal,
};

verus! {

/// Overlap of frame `i` with frame `i - 1`.
pub open spec fn overlap_of(frames: Seq<ImageModel>, horizontal: bool, i: int) -> nat {
    overlap_spec(frames[i - 1], frames[i], horizontal)
}

/// Number of new lines frame `i` adds: the length of the first frame minus the overlap,
/// or 0 when that is less than 5.
pub open spec fn piece_len(frames: Seq<ImageModel>, horizontal: bool, i: int) -> nat {
    let fresh = along_len(frames[0], horizontal) - overlap_of(frames, horizontal, i);
    if fresh < 5 {
        0
    } else {
        fresh as nat
    }
}

/// Position in the stitched image where the piece of frame `i` starts (`i >= 1`); for
/// `i == frames.len()` it is the length of the stitched image.
pub open spec fn piece_start(frames: Seq<ImageModel>, horizontal: bool, i: int) -> nat
    decreases i,
{
    if i <= 1 {
        along_len(frames[0], horizontal)
    } else {
        piece_start(frames, horizontal, i - 1) + piece_len(frames, horizontal, i - 1)
    }
}

/// Length of the stitched image in the scan direction.
pub open spec fn stitched_len(frames: Seq<ImageModel>, horizontal: bool) -> nat {
    piece_start(frames, horizontal, frames.len() as int)
}

/// Where in frame `i` its piece is taken from: the overlap, clamped to the frame.
pub open spec fn piece_origin(frames: Seq<ImageModel>, horizontal: bool, i: int) -> nat {
    min_nat(overlap_of(frames, horizontal, i), along_len(frames[i], horizontal))
}

/// Length of the piece actually copied from frame `i` (clamped to the frame).
pub open spec fn piece_copied(frames: Seq<ImageModel>, horizontal: bool, i: int) -> nat {
    min_nat(
        piece_len(frames, horizontal, i),
        (along_len(frames[i], horizontal) - piece_origin(frames, horizontal, i)) as nat,
    )
}

/// Width of the piece copied from frame `i` across the scan direction (clamped to the frame).
pub open spec fn piece_across(frames: Seq<ImageModel>, horizontal: bool, i: int) -> nat {
    min_nat(across_len(frames[0], horizontal), across_len(frames[i], horizontal))
}

/// Pixel `d` lines into the piece of frame `i`, `c` pixels across: the frame's pixel where
/// the piece was copied, and zero where the frame did not reach.
pub open spec fn piece_pixel(frames: Seq<ImageModel>, horizontal: bool, i: int, d: int, c: int) -> Seq<u8> {
    if d < piece_copied(frames, horizontal, i) && c < piece_across(frames, horizontal, i) {
        pixel_at(frames[i], horizontal, piece_origin(frames, horizontal, i) + d, c)
    } else {
        zero_pixel()
    }
}

/// `r` is the stitched image of `frames` (at least two frames): it is as wide across the
/// scan direction as the first frame and `stitched_len` long; it starts with the first
/// frame, followed by the piece of each later frame in order.
pub open spec fn is_stitch_of(r: ImageModel, frames: Seq<ImageModel>, horizontal: bool) -> bool {
    let l = along_len(frames[0], horizontal);
    &&& r.wf()
    &&& across_len(r, horizontal) == across_len(frames[0], horizontal)
    &&& along_len(r, horizontal) == stitched_len(frames, horizontal)
    &&& forall|a: int, c: int|
        0 <= a < l && 0 <= c < across_len(r, horizontal) ==> #[trigger] pixel_at(
            r,
            horizontal,
            a,
            c,
        ) == pixel_at(frames[0], horizontal, a, c)
    &&& forall|i: int, a: int, c: int|
        1 <= i < frames.len() && piece_start(frames, horizontal, i) <= a < piece_start(
            frames,
            horizontal,
            i + 1,
        ) && 0 <= c < across_len(r, horizontal) ==> #[trigger] pixel_at(r, horizontal, a, c)
            == #[trigger] piece_pixel(frames, horizontal, i, a - piece_start(frames, horizontal, i), c)
}

/// The inputs on which stitching neither reads outside a frame nor overflows: each
/// consecutive pair meets the overlap search's requirement, no overlap exceeds the length
/// of the first frame, and the stitched image fits in memory with a `u32` length.
pub open spec fn stitch_pre(frames: Seq<ImageModel>, horizontal: bool) -> bool {
    &&& forall|i: int| 0 <= i < frames.len() ==> (#[trigger] frames[i]).wf()
    &&& frames.len() >= 2 ==> {
        &&& forall|i: int|
            1 <= i < frames.len() ==> #[trigger] overlap_pre(frames[i - 1], frames[i], horizontal)
        &&& forall|i: int|
            1 <= i < frames.len() ==> #[trigger] overlap_of(frames, horizontal, i) <= along_len(
                frames[0],
                horizontal,
            )
        &&& stitched_len(frames, horizontal) <= u32::MAX
        &&& 4 * across_len(frames[0], horizontal) * stitched_len(frames, horizontal) <= usize::MAX
    }
}

/// `r` is what stitching `frames` gives: an empty image for no frames, the frame itself for
/// one frame, and otherwise `is_stitch_of` the frames.
pub open spec fn stitch_result(r: ImageModel, frames: Seq<ImageModel>, horizontal: bool) -> bool {
    &&& r.wf()
    &&& frames.len() == 0 ==> r.width == 0 && r.height == 0
    &&& frames.len() == 1 ==> r == frames[0]
    &&& frames.len() >= 2 ==> is_stitch_of(r, frames, horizontal)
}

/// Every frame transposed.
pub open spec fn transpose_all(frames: Seq<ImageModel>) -> Seq<ImageModel> {
    frames.map_values(|f: ImageModel| transpose(f))
}

pub open spec fn models(frames: Seq<Image>) -> Seq<ImageModel> {
    frames.map_values(|f: Image| f@)
}

proof fn lemma_piece_start_monotone(frames: Seq<ImageModel>, horizontal: bool, i: int, k: int)
    requires
        1 <= i <= k,
    ensures
        piece_start(frames, horizontal, i) <= piece_start(frames, horizontal, k),
        piece_start(frames, horizontal, i) >= along_len(frames[0], horizontal),
    decreases k - i,
{
    if i < k {
        lemma_piece_start_monotone(frames, horizontal, i, k - 1);
    }
    lemma_piece_start_ge(frames, horizontal, i);
}

proof fn lemma_piece_start_ge(frames: Seq<ImageModel>, horizontal: bool, i: int)
    requires
        1 <= i,
    ensures
        piece_start(frames, horizontal, i) >= along_len(frames[0], horizontal),
    decreases i,
{
    if i > 1 {
        lemma_piece_start_ge(frames, horizontal, i - 1);
    }
}

/// A crop request in scan coordinates: `len` lines from line `from`, `width` across.
proof fn lemma_crop_oriented(
    r: ImageModel,
    f: ImageModel,
    horizontal: bool,
    from: nat,
    len: nat,
    width: nat,
)
    requires
        f.wf(),
        horizontal ==> is_crop_of(r, f, from, 0, len, width),
        !horizontal ==> is_crop_of(r, f, 0, from, width, len),
    ensures
        r.wf(),
        along_len(r, horizontal) == min_nat(
            len,
            (along_len(f, horizontal) - min_nat(from, along_len(f, horizontal))) as nat,
        ),
        across_len(r, horizontal) == min_nat(width, across_len(f, horizontal)),
        forall|d: int, c: int|
            0 <= d < along_len(r, horizontal) && 0 <= c < across_len(r, horizontal) ==> #[trigger] pixel_at(
                r,
                horizontal,
                d,
                c,
            ) == pixel_at(f, horizontal, min_nat(from, along_len(f, horizontal)) + d, c),
{
    if horizontal {
        assert forall|d: int, c: int|
            0 <= d < along_len(r, horizontal) && 0 <= c < across_len(r, horizontal) implies #[trigger] pixel_at(
            r,
            horizontal,
            d,
            c,
        ) == pixel_at(f, horizontal, min_nat(from, along_len(f, horizontal)) + d, c) by {
            assert(r.in_bounds(d, c));
        }
    } else {
        assert forall|d: int, c: int|
            0 <= d < along_len(r, horizontal) && 0 <= c < across_len(r, horizontal) implies #[trigger] pixel_at(
            r,
            horizontal,
            d,
            c,
        ) == pixel_at(f, horizontal, min_nat(from, along_len(f, horizontal)) + d, c) by {
            assert(r.in_bounds(c, d));
        }
    }
}

/// Pasting in scan coordinates: `t` lands `at` lines down the scan direction.
proof fn lemma_replace_oriented(
    r: ImageModel,
    b: ImageModel,
    t: ImageModel,
    horizontal: bool,
    at: int,
)
    requires
        horizontal ==> is_replace_of(r, b, t, at, 0),
        !horizontal ==> is_replace_of(r, b, t, 0, at),
    ensures
        r.wf(),
        along_len(r, horizontal) == along_len(b, horizontal),
        across_len(r, horizontal) == across_len(b, horizontal),
        forall|a: int, c: int|
            0 <= a < along_len(b, horizontal) && 0 <= c < across_len(b, horizontal) ==> #[trigger] pixel_at(
                r,
                horizontal,
                a,
                c,
            ) == (if at <= a < at + along_len(t, horizontal) && c < across_len(t, horizontal) {
                pixel_at(t, horizontal, a - at, c)
            } else {
                pixel_at(b, horizontal, a, c)
            }),
{
    if horizontal {
        assert forall|a: int, c: int|
            0 <= a < along_len(b, horizontal) && 0 <= c < across_len(b, horizontal) implies #[trigger] pixel_at(
            r,
            horizontal,
            a,
            c,
        ) == (if at <= a < at + along_len(t, horizontal) && c < across_len(t, horizontal) {
            pixel_at(t, horizontal, a - at, c)
        } else {
            pixel_at(b, horizontal, a, c)
        }) by {
            assert(r.in_bounds(a, c));
        }
    } else {
        assert forall|a: int, c: int|
            0 <= a < along_len(b, horizontal) && 0 <= c < across_len(b, horizontal) implies #[trigger] pixel_at(
            r,
            horizontal,
            a,
            c,
        ) == (if at <= a < at + along_len(t, horizontal) && c < across_len(t, horizontal) {
            pixel_at(t, horizontal, a - at, c)
        } else {
            pixel_at(b, horizontal, a, c)
        }) by {
            assert(r.in_bounds(c, a));
        }
    }
}

/// Every position of the stitched image past the first frame lies in the piece of some
/// later frame.
proof fn lemma_find_piece(frames: Seq<ImageModel>, horizontal: bool, a: int, k: int) -> (i: int)
    requires
        2 <= k,
        piece_start(frames, horizontal, 1) <= a < piece_start(frames, horizontal, k),
    ensures
        1 <= i < k,
        piece_start(frames, horizontal, i) <= a < piece_start(frames, horizontal, i + 1),
    decreases k,
{
    if a >= piece_start(frames, horizontal, k - 1) {
        k - 1
    } else {
        lemma_find_piece(frames, horizontal, a, k - 1)
    }
}

/// The stitched image is determined by the frames: two images that are both stitches of
/// the same frames are equal.
pub proof fn lemma_stitch_unique(r1: ImageModel, r2: ImageModel, frames: Seq<ImageModel>, horizontal: bool)
    requires
        frames.len() >= 2,
        is_stitch_of(r1, frames, horizontal),
        is_stitch_of(r2, frames, horizontal),
    ensures
        r1 == r2,
{
    let n = frames.len() as int;
    let l = along_len(frames[0], horizontal) as int;
    assert forall|a: int, c: int|
        0 <= a < along_len(r1, horizontal) && 0 <= c < across_len(r1, horizontal) implies #[trigger] pixel_at(
        r1,
        horizontal,
        a,
        c,
    ) == pixel_at(r2, horizontal, a, c) by {
        if a >= l {
            assert(piece_start(frames, horizontal, 1) == l);
            let i = lemma_find_piece(frames, horizontal, a, n);
            let d = a - piece_start(frames, horizontal, i);
            assert(pixel_at(r1, horizontal, a, c) == piece_pixel(frames, horizontal, i, d, c));
            assert(pixel_at(r2, horizontal, a, c) == piece_pixel(frames, horizontal, i, d, c));
        }
    }
    assert forall|x: int, y: int| #[trigger] r1.in_bounds(x, y) implies r1.pixel(x, y) == r2.pixel(
        x,
        y,
    ) by {
        if horizontal {
            assert(pixel_at(r1, horizontal, x, y) == pixel_at(r2, horizontal, x, y));
        } else {
            assert(pixel_at(r1, horizontal, y, x) == pixel_at(r2, horizontal, y, x));
        }
    }
    lemma_same_pixels_equal(r1, r2);
}

proof fn lemma_piece_start_transposed(frames: Seq<ImageModel>, i: int)
    requires
        frames.len() >= 2,
        stitch_pre(frames, true),
        1 <= i <= frames.len(),
    ensures
        piece_start(transpose_all(frames), false, i) == piece_start(frames, true, i),
    decreases i,
{
    let tf = transpose_all(frames);
    if i > 1 {
        lemma_piece_start_transposed(frames, i - 1);
        let j = i - 1;
        assert(1 <= j < frames.len());
        assert(overlap_pre(frames[j - 1], frames[j], true));
        lemma_horizontal_overlap_is_transposed(frames[j - 1], frames[j]);
        assert(tf[j] == transpose(frames[j]));
        assert(tf[j - 1] == transpose(frames[j - 1]));
        assert(overlap_of(tf, false, j) == overlap_of(frames, true, j));
    }
}

/// The vertical stitch of the transposed frames, transposed back, is a horizontal stitch
/// of the frames.
proof fn lemma_transposed_stitch_is_stitch(frames: Seq<ImageModel>, rt: ImageModel)
    requires
        frames.len() >= 2,
        stitch_pre(frames, true),
        is_stitch_of(rt, transpose_all(frames), false),
    ensures
        is_stitch_of(transpose(rt), frames, true),
{
    let tf = transpose_all(frames);
    let r = transpose(rt);
    let n = frames.len() as int;
    let l = along_len(frames[0], true) as int;
    lemma_transpose(rt);
    lemma_transpose(frames[0]);
    lemma_piece_start_transposed(frames, n);
    assert(tf[0] == transpose(frames[0]));
    assert(stitched_len(tf, false) == stitched_len(frames, true));
    assert forall|a: int, c: int|
        0 <= a < l && 0 <= c < across_len(r, true) implies #[trigger] pixel_at(r, true, a, c)
        == pixel_at(frames[0], true, a, c) by {
        lemma_piece_start_monotone(frames, true, 1, n);
        assert(r.in_bounds(a, c));
        assert(pixel_at(rt, false, a, c) == pixel_at(tf[0], false, a, c));
        assert(tf[0].in_bounds(c, a));
    }
    assert forall|i: int, a: int, c: int|
        1 <= i < n && piece_start(frames, true, i) <= a < piece_start(frames, true, i + 1) && 0
            <= c < across_len(r, true) implies #[trigger] pixel_at(r, true, a, c)
        == #[trigger] piece_pixel(frames, true, i, a - piece_start(frames, true, i), c) by {
        lemma_piece_start_monotone(frames, true, i + 1, n);
        lemma_piece_start_transposed(frames, i);
        lemma_piece_start_transposed(frames, i + 1);
        assert(r.in_bounds(a, c));
        let d = a - piece_start(frames, true, i);
        assert(pixel_at(rt, false, a, c) == piece_pixel(tf, false, i, d, c));
        assert(overlap_pre(frames[i - 1], frames[i], true));
        lemma_horizontal_overlap_is_transposed(frames[i - 1], frames[i]);
        assert(tf[i] == transpose(frames[i]));
        assert(tf[i - 1] == transpose(frames[i - 1]));
        assert(overlap_of(tf, false, i) == overlap_of(frames, true, i));
        assert(frames[i].wf());
        lemma_transpose(frames[i]);
        if d < piece_copied(frames, true, i) && c < piece_across(frames, true, i) {
            assert(tf[i].in_bounds(c, piece_origin(frames, true, i) + d));
        }
    }
}

/// Stitching columns is stitching the rows of the transposed frames: the horizontal stitch
/// of the frames is the transpose of the vertical stitch of their transposes.
pub proof fn lemma_horizontal_stitch_is_transposed(
    frames: Seq<ImageModel>,
    r: ImageModel,
    rt: ImageModel,
)
    requires
        stitch_pre(frames, true),
        stitch_result(r, frames, true),
        stitch_result(rt, transpose_all(frames), false),
    ensures
        r == transpose(rt),
{
    let tf = transpose_all(frames);
    lemma_transpose(rt);
    if frames.len() == 0 {
        assert(r.bytes =~= transpose(rt).bytes);
    } else if frames.len() == 1 {
        assert(tf[0] == transpose(frames[0]));
        lemma_transpose_twice(frames[0]);
    } else {
        lemma_transposed_stitch_is_stitch(frames, rt);
        lemma_stitch_unique(r, transpose(rt), frames, true);
    }
}

/// Lines added by the frames `1 .. k - 1`: each adds the length of the first frame minus
/// its overlap with its predecessor, when that is at least 5 lines, and nothing otherwise.
pub open spec fn added_lines(frames: Seq<ImageModel>, horizontal: bool, k: int) -> int
    decreases k,
{
    if k <= 1 {
        0
    } else {
        let l = along_len(frames[0], horizontal) as int;
        let o = overlap_spec(frames[k - 2], frames[k - 1], horizontal) as int;
        added_lines(frames, horizontal, k - 1) + (if l - o >= 5 {
            l - o
        } else {
            0
        })
    }
}

proof fn lemma_added_lines(frames: Seq<ImageModel>, horizontal: bool, k: int)
    requires
        1 <= k,
    ensures
        piece_start(frames, horizontal, k) == along_len(frames[0], horizontal) + added_lines(
            frames,
            horizontal,
            k,
        ),
    decreases k,
{
    if k > 1 {
        lemma_added_lines(frames, horizontal, k - 1);
    }
}

/// Length of a stitched capture: the first frame's length plus, for every later frame,
/// the lines it adds (its length minus its overlap with the frame before, when that is at
/// least 5).
pub proof fn lemma_stitched_length(r: ImageModel, frames: Seq<ImageModel>, horizontal: bool)
    requires
        frames.len() >= 2,
        stitch_result(r, frames, horizontal),
    ensures
        along_len(r, horizontal) == along_len(frames[0], horizontal) + added_lines(
            frames,
            horizontal,
            frames.len() as int,
        ),
        across_len(r, horizontal) == across_len(frames[0], horizontal),
{
    lemma_added_lines(frames, horizontal, frames.len() as int);
}

/// Layout of a stitched capture of equally sized frames: it starts with the first frame,
/// and each later frame `i` that adds lines follows the lines added before it with its own
/// lines from just past its overlap with frame `i - 1` to its end.
pub proof fn lemma_stitched_layout(r: ImageModel, frames: Seq<ImageModel>, horizontal: bool)
    requires
        frames.len() >= 2,
        stitch_pre(frames, horizontal),
        stitch_result(r, frames, horizontal),
        forall|i: int|
            0 <= i < frames.len() ==> (#[trigger] frames[i]).width == frames[0].width
                && frames[i].height == frames[0].height,
    ensures
        forall|a: int, c: int|
            0 <= a < along_len(frames[0], horizontal) && 0 <= c < across_len(frames[0], horizontal)
                ==> #[trigger] pixel_at(r, horizontal, a, c) == pixel_at(frames[0], horizontal, a, c),
        forall|i: int, d: int, c: int|
            1 <= i < frames.len() && 0 <= d && overlap_spec(frames[i - 1], frames[i], horizontal) + d
                < along_len(frames[0], horizontal) && along_len(frames[0], horizontal)
                >= overlap_spec(frames[i - 1], frames[i], horizontal) + 5 && 0 <= c < across_len(
                frames[0],
                horizontal,
            ) ==> #[trigger] pixel_at(
                r,
                horizontal,
                along_len(frames[0], horizontal) + added_lines(frames, horizontal, i) + d,
                c,
            ) == pixel_at(
                frames[i],
                horizontal,
                overlap_spec(frames[i - 1], frames[i], horizontal) + d,
                c,
            ),
{
    let l = along_len(frames[0], horizontal) as int;
    assert forall|i: int, d: int, c: int|
        1 <= i < frames.len() && 0 <= d && overlap_spec(frames[i - 1], frames[i], horizontal) + d
            < l && l >= overlap_spec(frames[i - 1], frames[i], horizontal) + 5 && 0 <= c
            < across_len(frames[0], horizontal) implies #[trigger] pixel_at(
        r,
        horizontal,
        l + added_lines(frames, horizontal, i) + d,
        c,
    ) == pixel_at(frames[i], horizontal, overlap_spec(frames[i - 1], frames[i], horizontal) + d, c) by {
        lemma_added_lines(frames, horizontal, i);
        lemma_added_lines(frames, horizontal, i + 1);
        let a = l + added_lines(frames, horizontal, i) + d;
        assert(frames[i].width == frames[0].width && frames[i].height == frames[0].height);
        assert(piece_start(frames, horizontal, i) <= a < piece_start(frames, horizontal, i + 1));
        assert(pixel_at(r, horizontal, a, c) == piece_pixel(
            frames,
            horizontal,
            i,
            a - piece_start(frames, horizontal, i),
            c,
        ));
    }
}

proof fn lemma_identical_piece_start(f: ImageModel, n: nat, horizontal: bool, i: int)
    requires
        along_len(f, horizontal) > 0,
        samples_per_line(f, horizontal) > 0,
        1 <= i <= n,
    ensures
        piece_start(Seq::new(n, |k: int| f), horizontal, i) == along_len(f, horizontal),
    decreases i,
{
    let fs = Seq::new(n, |k: int| f);
    if i > 1 {
        lemma_identical_piece_start(f, n, horizontal, i - 1);
        lemma_identical_frames_overlap_fully(f, horizontal);
        assert(overlap_of(fs, horizontal, i - 1) == along_len(f, horizontal));
    }
}

/// Scrolling that did not move adds nothing: stitching any number of identical frames
/// gives back the frame (when it has lines and sampled positions).
pub proof fn lemma_stitch_identical_frames(r: ImageModel, f: ImageModel, n: nat, horizontal: bool)
    requires
        f.wf(),
        n >= 1,
        along_len(f, horizontal) > 0,
        samples_per_line(f, horizontal) > 0,
        stitch_result(r, Seq::new(n, |k: int| f), horizontal),
    ensures
        r == f,
{
    let fs = Seq::new(n, |k: int| f);
    if n >= 2 {
        lemma_identical_piece_start(f, n, horizontal, n as int);
        assert(stitched_len(fs, horizontal) == along_len(f, horizontal));
        assert forall|x: int, y: int| #[trigger] r.in_bounds(x, y) implies r.pixel(x, y)
            == f.pixel(x, y) by {
            if horizontal {
                assert(pixel_at(r, horizontal, x, y) == pixel_at(fs[0], horizontal, x, y));
            } else {
                assert(pixel_at(r, horizontal, y, x) == pixel_at(fs[0], horizontal, y, x));
            }
        }
        lemma_same_pixels_equal(r, f);
    } else {
        assert(fs[0] == f);
    }
}

fn overlap_exec(img1: &Image, img2: &Image, horizontal: bool) -> (r: u32)
    requires
        overlap_pre(img1@, img2@, horizontal),
    ensures
        r == overlap_spec(img1@, img2@, horizontal),
{
    if horizontal {
        find_overlap_horizontal(img1, img2)
    } else {
        find_overlap(img1, img2)
    }
}

/// New lines contributed by each frame (index 0 unused) and the stitched length.
fn piece_lengths(frames: &Vec<Image>, horizontal: bool) -> (r: (Vec<u32>, u32))
    requires
        frames@.len() >= 2,
        stitch_pre(models(frames@), horizontal),
    ensures
        r.0@.len() == frames@.len(),
        forall|k: int| 1 <= k < frames@.len() ==> r.0@[k] == piece_len(models(frames@), horizontal, k),
        r.1 == stitched_len(models(frames@), horizontal),
{
    let ghost fs = models(frames@);
    let n = frames.len();
    let (w0, h0) = frames[0].dimensions();
    let l: u32 = if horizontal {
        w0
    } else {
        h0
    };
    assert(fs[0] == frames@[0]@);
    let mut offsets: Vec<u32> = Vec::new();
    offsets.push(0);
    let mut total: u32 = l;
    let mut i: usize = 1;
    while i < n
        invariant
            fs == models(frames@),
            n == frames@.len(),
            n >= 2,
            stitch_pre(fs, horizontal),
            l == along_len(fs[0], horizontal),
            1 <= i <= n,
            offsets@.len() == i,
            forall|k: int| 1 <= k < i ==> offsets@[k] == piece_len(fs, horizontal, k),
            total == piece_start(fs, horizontal, i as int),
        decreases n - i,
    {
        assert(overlap_pre(fs[i - 1], fs[i as int], horizontal));
        assert(fs[i - 1] == frames@[i - 1]@ && fs[i as int] == frames@[i as int]@);
        let overlap = overlap_exec(&frames[i - 1], &frames[i], horizontal);
        assert(overlap == overlap_of(fs, horizontal, i as int));
        let fresh = l - overlap;
        proof {
            lemma_piece_start_monotone(fs, horizontal, i + 1, n as int);
        }
        if fresh < 5 {
            offsets.push(0);
        } else {
            offsets.push(fresh);
            total = total + fresh;
        }
        i = i + 1;
    }
    (offsets, total)
}

/// What the stitched image holds once the first frame and the pieces before frame `i`
/// are in place: those lines as in `is_stitch_of`, zero from `cur` on.
pub open spec fn placed_upto(
    r: ImageModel,
    fs: Seq<ImageModel>,
    horizontal: bool,
    i: int,
    cur: int,
) -> bool {
    let l = along_len(fs[0], horizontal);
    let across = across_len(fs[0], horizontal);
    &&& r.wf()
    &&& along_len(r, horizontal) == stitched_len(fs, horizontal)
    &&& across_len(r, horizontal) == across
    &&& forall|a: int, c: int|
        0 <= a < l && 0 <= c < across ==> #[trigger] pixel_at(r, horizontal, a, c) == pixel_at(
            fs[0],
            horizontal,
            a,
            c,
        )
    &&& forall|k: int, a: int, c: int|
        1 <= k < i && piece_start(fs, horizontal, k) <= a < piece_start(fs, horizontal, k + 1) && 0
            <= c < across ==> #[trigger] pixel_at(r, horizontal, a, c) == #[trigger] piece_pixel(
            fs,
            horizontal,
            k,
            a - piece_start(fs, horizontal, k),
            c,
        )
    &&& forall|a: int, c: int|
        cur <= a < stitched_len(fs, horizontal) && 0 <= c < across ==> #[trigger] pixel_at(
            r,
            horizontal,
            a,
            c,
        ) == zero_pixel()
}

/// What pasting the piece of frame `i` at `cur` did to the image `before`, giving `after`.
pub open spec fn pasted_piece(
    after: ImageModel,
    before: ImageModel,
    fs: Seq<ImageModel>,
    horizontal: bool,
    i: int,
    cur: int,
) -> bool {
    &&& after.wf()
    &&& along_len(after, horizontal) == along_len(before, horizontal)
    &&& across_len(after, horizontal) == across_len(before, horizontal)
    &&& forall|a: int, c: int|
        0 <= a < along_len(before, horizontal) && 0 <= c < across_len(before, horizontal)
            ==> #[trigger] pixel_at(after, horizontal, a, c) == (if cur <= a < cur + piece_copied(
            fs,
            horizontal,
            i,
        ) && c < piece_across(fs, horizontal, i) {
            pixel_at(fs[i], horizontal, piece_origin(fs, horizontal, i) + (a - cur), c)
        } else {
            pixel_at(before, horizontal, a, c)
        })
}

proof fn lemma_paste_keeps_first(
    after: ImageModel,
    before: ImageModel,
    fs: Seq<ImageModel>,
    horizontal: bool,
    i: int,
    cur: int,
)
    requires
        1 <= i < fs.len(),
        cur == piece_start(fs, horizontal, i),
        placed_upto(before, fs, horizontal, i, cur),
        pasted_piece(after, before, fs, horizontal, i, cur),
    ensures
        forall|a: int, c: int|
            0 <= a < along_len(fs[0], horizontal) && 0 <= c < across_len(fs[0], horizontal)
                ==> #[trigger] pixel_at(after, horizontal, a, c) == pixel_at(fs[0], horizontal, a, c),
{
    lemma_piece_start_ge(fs, horizontal, i);
    lemma_piece_start_ge(fs, horizontal, fs.len() as int);
    assert forall|a: int, c: int|
        0 <= a < along_len(fs[0], horizontal) && 0 <= c < across_len(fs[0], horizontal) implies #[trigger] pixel_at(
        after,
        horizontal,
        a,
        c,
    ) == pixel_at(fs[0], horizontal, a, c) by {
        assert(pixel_at(before, horizontal, a, c) == pixel_at(fs[0], horizontal, a, c));
    }
}

proof fn lemma_paste_fills_pieces(
    after: ImageModel,
    before: ImageModel,
    fs: Seq<ImageModel>,
    horizontal: bool,
    i: int,
    cur: int,
)
    requires
        1 <= i < fs.len(),
        cur == piece_start(fs, horizontal, i),
        piece_start(fs, horizontal, i + 1) <= stitched_len(fs, horizontal),
        placed_upto(before, fs, horizontal, i, cur),
        pasted_piece(after, before, fs, horizontal, i, cur),
    ensures
        forall|k: int, a: int, c: int|
            1 <= k < i + 1 && piece_start(fs, horizontal, k) <= a < piece_start(fs, horizontal, k + 1)
                && 0 <= c < across_len(fs[0], horizontal) ==> #[trigger] pixel_at(after, horizontal, a, c)
                == #[trigger] piece_pixel(fs, horizontal, k, a - piece_start(fs, horizontal, k), c),
{
    assert forall|k: int, a: int, c: int|
        1 <= k < i + 1 && piece_start(fs, horizontal, k) <= a < piece_start(fs, horizontal, k + 1) && 0
            <= c < across_len(fs[0], horizontal) implies #[trigger] pixel_at(after, horizontal, a, c)
        == #[trigger] piece_pixel(fs, horizontal, k, a - piece_start(fs, horizontal, k), c) by {
        if k < i {
            lemma_piece_start_monotone(fs, horizontal, k + 1, i);
            assert(pixel_at(before, horizontal, a, c) == piece_pixel(
                fs,
                horizontal,
                k,
                a - piece_start(fs, horizontal, k),
                c,
            ));
        } else {
            assert(pixel_at(before, horizontal, a, c) == zero_pixel());
        }
    }
}

proof fn lemma_paste_leaves_rest(
    after: ImageModel,
    before: ImageModel,
    fs: Seq<ImageModel>,
    horizontal: bool,
    i: int,
    cur: int,
)
    requires
        1 <= i < fs.len(),
        cur == piece_start(fs, horizontal, i),
        placed_upto(before, fs, horizontal, i, cur),
        pasted_piece(after, before, fs, horizontal, i, cur),
        piece_copied(fs, horizontal, i) <= piece_len(fs, horizontal, i),
    ensures
        forall|a: int, c: int|
            cur + piece_len(fs, horizontal, i) <= a < stitched_len(fs, horizontal) && 0 <= c
                < across_len(fs[0], horizontal) ==> #[trigger] pixel_at(after, horizontal, a, c)
                == zero_pixel(),
{
    assert forall|a: int, c: int|
        cur + piece_len(fs, horizontal, i) <= a < stitched_len(fs, horizontal) && 0 <= c
            < across_len(fs[0], horizontal) implies #[trigger] pixel_at(after, horizontal, a, c)
        == zero_pixel() by {
        assert(pixel_at(before, horizontal, a, c) == zero_pixel());
    }
}

/// Copies the piece of frame `i` into place at `cur`.
fn place_piece(
    result: &mut Image,
    frames: &Vec<Image>,
    horizontal: bool,
    i: usize,
    off: u32,
    cur: u32,
)
    requires
        frames@.len() >= 2,
        stitch_pre(models(frames@), horizontal),
        1 <= i < frames@.len(),
        off == piece_len(models(frames@), horizontal, i as int),
        off != 0,
        cur == piece_start(models(frames@), horizontal, i as int),
        placed_upto(old(result)@, models(frames@), horizontal, i as int, cur as int),
    ensures
        placed_upto(final(result)@, models(frames@), horizontal, i + 1, cur + off),
{
    let ghost fs = models(frames@);
    proof {
        lemma_piece_start_monotone(fs, horizontal, i + 1, frames@.len() as int);
    }
    let (w0, h0) = frames[0].dimensions();
    assert(fs[0] == frames@[0]@);
    let l: u32 = if horizontal {
        w0
    } else {
        h0
    };
    let across: u32 = if horizontal {
        h0
    } else {
        w0
    };
    let overlap = l - off;
    assert(overlap == overlap_of(fs, horizontal, i as int));
    assert(fs[i as int] == frames@[i as int]@);
    let piece = if horizontal {
        frames[i].crop_imm(overlap, 0, off, across)
    } else {
        frames[i].crop_imm(0, overlap, across, off)
    };
    proof {
        lemma_crop_oriented(piece@, fs[i as int], horizontal, overlap as nat, off as nat, across as nat);
    }
    let ghost before = result@;
    if horizontal {
        result.replace(&piece, cur as i64, 0);
    } else {
        result.replace(&piece, 0, cur as i64);
    }
    proof {
        lemma_replace_oriented(result@, before, piece@, horizontal, cur as int);
        assert(pasted_piece(result@, before, fs, horizontal, i as int, cur as int));
        lemma_paste_keeps_first(result@, before, fs, horizontal, i as int, cur as int);
        lemma_paste_fills_pieces(result@, before, fs, horizontal, i as int, cur as int);
        lemma_paste_leaves_rest(result@, before, fs, horizontal, i as int, cur as int);
    }
}

/// Oriented stitching shared by the vertical and horizontal variants.
fn stitch_along(frames: &Vec<Image>, horizontal: bool) -> (r: Image)
    requires
        frames@.len() >= 2,
        stitch_pre(models(frames@), horizontal),
    ensures
        is_stitch_of(r@, models(frames@), horizontal),
{
    let ghost fs = models(frames@);
    let n = frames.len();
    let (w0, h0) = frames[0].dimensions();
    assert(fs[0] == frames@[0]@);
    let l: u32 = if horizontal {
        w0
    } else {
        h0
    };
    let across: u32 = if horizontal {
        h0
    } else {
        w0
    };
    let (offsets, total) = piece_lengths(frames, horizontal);
    proof {
        lemma_piece_start_monotone(fs, horizontal, 1, n as int);
    }
    let (rw, rh) = if horizontal {
        (total, across)
    } else {
        (across, total)
    };
    assert(4 * rw * rh <= usize::MAX) by (nonlinear_arith)
        requires
            4 * across * total <= usize::MAX,
            (rw == total && rh == across) || (rw == across && rh == total),
    ;
    let mut result = Image::new(rw, rh);
    let ghost blank = result@;
    result.replace(&frames[0], 0, 0);
    proof {
        lemma_replace_oriented(result@, blank, fs[0], horizontal, 0);
        assert forall|a: int, c: int|
            l <= a < total && 0 <= c < across implies #[trigger] pixel_at(result@, horizontal, a, c)
            == zero_pixel() by {
            if horizontal {
                assert(blank.in_bounds(a, c));
            } else {
                assert(blank.in_bounds(c, a));
            }
        }
        assert(placed_upto(result@, fs, horizontal, 1, l as int));
    }
    let mut cur: u32 = l;
    let mut i: usize = 1;
    while i < n
        invariant
            fs == models(frames@),
            n == frames@.len(),
            n >= 2,
            stitch_pre(fs, horizontal),
            offsets@.len() == n,
            forall|k: int| 1 <= k < n ==> offsets@[k] == piece_len(fs, horizontal, k),
            total == stitched_len(fs, horizontal),
            1 <= i <= n,
            cur == piece_start(fs, horizontal, i as int),
            placed_upto(result@, fs, horizontal, i as int, cur as int),
        decreases n - i,
    {
        proof {
            lemma_piece_start_monotone(fs, horizontal, i + 1, n as int);
        }
        let off = offsets[i];
        if off != 0 {
            place_piece(&mut result, frames, horizontal, i, off, cur);
            cur = cur + off;
        } else {
            assert(piece_start(fs, horizontal, i + 1) == piece_start(fs, horizontal, i as int));
            assert forall|k: int, a: int, c: int|
                1 <= k < i + 1 && piece_start(fs, horizontal, k) <= a < piece_start(fs, horizontal, k + 1)
                    && 0 <= c < across_len(fs[0], horizontal) implies #[trigger] pixel_at(result@, horizontal, a, c)
                == #[trigger] piece_pixel(fs, horizontal, k, a - piece_start(fs, horizontal, k), c) by {
                if k < i {
                }
            }
        }
        i = i + 1;
    }
    result
}

/// Stitches the frames of a vertical scrolling capture: no frames give an empty image,
/// one frame gives a copy of it, and otherwise the result is `is_stitch_of` the frames.
pub fn stitch_frames(frames: Vec<Image>) -> (r: Image)
    requires
        stitch_pre(models(frames@), false),
    ensures
        stitch_result(r@, models(frames@), false),
{
    let r = if frames.len() == 0 {
        Image::new(0, 0)
    } else if frames.len() == 1 {
        frames[0].clone()
    } else {
        stitch_along(&frames, false)
    };
    r.lemma_wf();
    r
}

/// Stitches the frames of a horizontal scrolling capture: no frames give an empty image,
/// one frame gives a copy of it, and otherwise the result is `is_stitch_of` the frames
/// with the columns as scan direction.
pub fn stitch_frames_horizontal(frames: Vec<Image>) -> (r: Image)
    requires
        stitch_pre(models(frames@), true),
    ensures
        stitch_result(r@, models(frames@), true),
{
    let r = if frames.len() == 0 {
        Image::new(0, 0)
    } else if frames.len() == 1 {
        frames[0].clone()
    } else {
        stitch_along(&frames, true)
    };
    r.lemma_wf();
    r
}

} // verus!
