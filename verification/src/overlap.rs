//! Finding how far two consecutive frames of a scrolling capture overlap.
//!
//! The search works along a "scan direction": down the rows for vertical scrolling and
//! across the columns for horizontal scrolling. A candidate overlap `o` says that the
//! last `o` lines of the first frame show the same content as the first `o` lines of
//! the second frame. Candidates are tried from the full length down to a tenth of it;
//! each is scored by the mean RGB difference of sampled pixels (every second line,
//! every fourth pixel between a tenth and nine tenths of the line).
use vstd::prelude::*;
use crate::image::{Image, ImageModel, transpose, lemma_transpose};

verus! {

/// Length of the image in the scan direction.
pub open spec fn along_len(m: ImageModel, horizontal: bool) -> nat {
    if horizontal {
        m.width
    } else {
        m.height
    }
}

/// Length of the image across the scan direction.
pub open spec fn across_len(m: ImageModel, horizontal: bool) -> nat {
    if horizontal {
        m.height
    } else {
        m.width
    }
}

/// Whether the position `along` lines down the scan direction and `across` pixels
/// across it lies inside the image.
pub open spec fn in_bounds_at(m: ImageModel, horizontal: bool, along: int, across: int) -> bool {
    if horizontal {
        m.in_bounds(along, across)
    } else {
        m.in_bounds(across, along)
    }
}

/// The pixel `along` lines down the scan direction and `across` pixels across it.
pub open spec fn pixel_at(m: ImageModel, horizontal: bool, along: int, across: int) -> Seq<u8> {
    if horizontal {
        m.pixel(along, across)
    } else {
        m.pixel(across, along)
    }
}

pub open spec fn channel_diff(a: u8, b: u8) -> nat {
    if a >= b {
        (a - b) as nat
    } else {
        (b - a) as nat
    }
}

/// Sum of the absolute differences of the red, green and blue channels.
pub open spec fn rgb_diff(p: Seq<u8>, q: Seq<u8>) -> nat {
    channel_diff(p[0], q[0]) + channel_diff(p[1], q[1]) + channel_diff(p[2], q[2])
}

/// Shortest candidate overlap: a tenth of the length in the scan direction.
pub open spec fn min_overlap(m: ImageModel, horizontal: bool) -> nat {
    along_len(m, horizontal) / 10
}

/// First sampled position across the scan direction.
pub open spec fn sample_start(m: ImageModel, horizontal: bool) -> nat {
    across_len(m, horizontal) / 10
}

/// Sampled positions across the scan direction stay below this bound.
pub open spec fn sample_end(m: ImageModel, horizontal: bool) -> nat {
    across_len(m, horizontal) * 9 / 10
}

/// Number of sampled positions on one line: every fourth from `sample_start` up to `sample_end`.
pub open spec fn samples_per_line(m: ImageModel, horizontal: bool) -> nat {
    if sample_end(m, horizontal) > sample_start(m, horizontal) {
        ((sample_end(m, horizontal) - sample_start(m, horizontal) + 3) / 4) as nat
    } else {
        0
    }
}

/// Number of sampled lines of a candidate overlap `o`: lines `0, 2, 4, ...` below `o`.
pub open spec fn lines_in(o: int) -> nat {
    if o <= 0 {
        0
    } else {
        ((o + 1) / 2) as nat
    }
}

/// Difference at sample `j` of sampled line `k` for candidate overlap `o`: line `2 * k`
/// of the second frame against line `along - o + 2 * k` of the first.
pub open spec fn sample_diff(
    m1: ImageModel,
    m2: ImageModel,
    horizontal: bool,
    o: int,
    k: int,
    j: int,
) -> nat {
    let across = sample_start(m1, horizontal) + 4 * j;
    rgb_diff(
        pixel_at(m1, horizontal, along_len(m1, horizontal) - o + 2 * k, across),
        pixel_at(m2, horizontal, 2 * k, across),
    )
}

/// Sum of the first `n` sample differences of sampled line `k`.
pub open spec fn line_diff(
    m1: ImageModel,
    m2: ImageModel,
    horizontal: bool,
    o: int,
    k: int,
    n: nat,
) -> nat
    decreases n,
{
    if n == 0 {
        0
    } else {
        line_diff(m1, m2, horizontal, o, k, (n - 1) as nat) + sample_diff(
            m1,
            m2,
            horizontal,
            o,
            k,
            n - 1,
        )
    }
}

/// Sum of the sample differences of the first `k` sampled lines.
pub open spec fn lines_diff(m1: ImageModel, m2: ImageModel, horizontal: bool, o: int, k: nat) -> nat
    decreases k,
{
    if k == 0 {
        0
    } else {
        lines_diff(m1, m2, horizontal, o, (k - 1) as nat) + line_diff(
            m1,
            m2,
            horizontal,
            o,
            k - 1,
            samples_per_line(m1, horizontal),
        )
    }
}

/// After `k` sampled lines the running mean is already worse than the best mean so far by
/// more than 20 (checked only once more than 500 samples have been taken).
pub open spec fn gives_up_after(
    m1: ImageModel,
    m2: ImageModel,
    horizontal: bool,
    o: int,
    best_mean: nat,
    k: nat,
) -> bool {
    let count = k * samples_per_line(m1, horizontal);
    &&& count > 500
    &&& best_mean != u64::MAX
    &&& lines_diff(m1, m2, horizontal, o, k) / count > best_mean + 20
}

/// Candidate `o` is abandoned before all its lines are sampled.
pub open spec fn gives_up(
    m1: ImageModel,
    m2: ImageModel,
    horizontal: bool,
    o: int,
    best_mean: nat,
) -> bool {
    exists|k: nat|
        1 <= k <= lines_in(o) && #[trigger] gives_up_after(m1, m2, horizontal, o, best_mean, k)
}

/// Total number of samples of candidate `o`.
pub open spec fn candidate_count(m1: ImageModel, horizontal: bool, o: int) -> nat {
    lines_in(o) * samples_per_line(m1, horizontal)
}

/// Mean sample difference of candidate `o` (meaningful when it has samples).
pub open spec fn candidate_mean(m1: ImageModel, m2: ImageModel, horizontal: bool, o: int) -> nat {
    lines_diff(m1, m2, horizontal, o, lines_in(o)) / candidate_count(m1, horizontal, o)
}

/// Candidate `o` is fully sampled, has samples, and beats the best mean so far.
pub open spec fn improves(
    m1: ImageModel,
    m2: ImageModel,
    horizontal: bool,
    o: int,
    best_mean: nat,
) -> bool {
    &&& !gives_up(m1, m2, horizontal, o, best_mean)
    &&& candidate_count(m1, horizontal, o) > 0
    &&& candidate_mean(m1, m2, horizontal, o) < best_mean
}

/// Best candidate and best mean after examining candidate `o`.
pub open spec fn examine(
    m1: ImageModel,
    m2: ImageModel,
    horizontal: bool,
    o: int,
    best: nat,
    best_mean: nat,
) -> (nat, nat) {
    if improves(m1, m2, horizontal, o, best_mean) {
        (o as nat, candidate_mean(m1, m2, horizontal, o))
    } else {
        (best, best_mean)
    }
}

/// The search from candidate `o` down to the shortest candidate; it stops as soon as a
/// candidate with mean difference zero is found.
pub open spec fn search(
    m1: ImageModel,
    m2: ImageModel,
    horizontal: bool,
    o: int,
    best: nat,
    best_mean: nat,
) -> (nat, nat)
    decreases o - min_overlap(m1, horizontal) + 1,
{
    if o < min_overlap(m1, horizontal) {
        (best, best_mean)
    } else {
        let (b, m) = examine(m1, m2, horizontal, o, best, best_mean);
        if m == 0 {
            (b, m)
        } else {
            search(m1, m2, horizontal, o - 1, b, m)
        }
    }
}

/// Best candidate and its mean difference over the whole search.
pub open spec fn search_result(m1: ImageModel, m2: ImageModel, horizontal: bool) -> (nat, nat) {
    search(m1, m2, horizontal, along_len(m1, horizontal) as int, 0, u64::MAX as nat)
}

/// The overlap reported: the best candidate if its mean difference is below 30, else 0.
pub open spec fn overlap_spec(m1: ImageModel, m2: ImageModel, horizontal: bool) -> nat {
    let (best, best_mean) = search_result(m1, m2, horizontal);
    if best_mean < 30 {
        best
    } else {
        0
    }
}

/// The inputs on which the search runs without overflow and reads only pixels that exist:
/// nine times the length across fits in a `u32`, the number of samples of the longest
/// candidate fits in an `i32`, and every sampled position of the longest candidate lies in
/// the second frame.
pub open spec fn overlap_pre(m1: ImageModel, m2: ImageModel, horizontal: bool) -> bool {
    &&& m1.wf()
    &&& m2.wf()
    &&& across_len(m1, horizontal) * 9 <= u32::MAX
    &&& candidate_count(m1, horizontal, along_len(m1, horizontal) as int) <= i32::MAX
    &&& forall|k: int, j: int|
        0 <= k < lines_in(along_len(m1, horizontal) as int) && 0 <= j < samples_per_line(
            m1,
            horizontal,
        ) ==> #[trigger] in_bounds_at(m2, horizontal, 2 * k, sample_start(m1, horizontal) + 4 * j)
}


/// The red, green and blue channels of two pixels agree.
pub open spec fn same_rgb(p: Seq<u8>, q: Seq<u8>) -> bool {
    p[0] == q[0] && p[1] == q[1] && p[2] == q[2]
}

/// The last `k` lines of the first frame show the same colours as the first `k` lines of
/// the second frame at every sampled position.
pub open spec fn sampled_match(m1: ImageModel, m2: ImageModel, horizontal: bool, k: int) -> bool {
    forall|i: int, j: int|
        0 <= i < lines_in(k) && 0 <= j < samples_per_line(m1, horizontal) ==> #[trigger] same_rgb(
            pixel_at(m1, horizontal, along_len(m1, horizontal) - k + 2 * i, sample_start(
                m1,
                horizontal,
            ) + 4 * j),
            pixel_at(m2, horizontal, 2 * i, sample_start(m1, horizontal) + 4 * j),
        )
}

/// The search either keeps its starting point or moves to a fully sampled candidate
/// between the shortest candidate and `o` whose mean is below the starting mean.
proof fn lemma_search_range(
    m1: ImageModel,
    m2: ImageModel,
    horizontal: bool,
    o: int,
    best: nat,
    best_mean: nat,
)
    ensures
        ({
            let (b, m) = search(m1, m2, horizontal, o, best, best_mean);
            (b == best && m == best_mean) || (min_overlap(m1, horizontal) <= b <= o && m
                == candidate_mean(m1, m2, horizontal, b as int) && candidate_count(
                m1,
                horizontal,
                b as int,
            ) > 0 && m < best_mean)
        }),
    decreases o - min_overlap(m1, horizontal) + 1,
{
    if o >= min_overlap(m1, horizontal) {
        let (b, m) = examine(m1, m2, horizontal, o, best, best_mean);
        if m != 0 {
            lemma_search_range(m1, m2, horizontal, o - 1, b, m);
        }
    }
}

proof fn lemma_matching_lines_zero(m1: ImageModel, m2: ImageModel, horizontal: bool, k: int)
    requires
        sampled_match(m1, m2, horizontal, k),
    ensures
        forall|kk: nat| kk <= lines_in(k) ==> #[trigger] lines_diff(m1, m2, horizontal, k, kk) == 0,
{
    assert forall|kk: nat| kk <= lines_in(k) implies #[trigger] lines_diff(
        m1,
        m2,
        horizontal,
        k,
        kk,
    ) == 0 by {
        lemma_lines_zero_upto(m1, m2, horizontal, k, kk);
    }
}

proof fn lemma_lines_zero_upto(m1: ImageModel, m2: ImageModel, horizontal: bool, k: int, kk: nat)
    requires
        sampled_match(m1, m2, horizontal, k),
        kk <= lines_in(k),
    ensures
        lines_diff(m1, m2, horizontal, k, kk) == 0,
    decreases kk,
{
    if kk > 0 {
        lemma_lines_zero_upto(m1, m2, horizontal, k, (kk - 1) as nat);
        lemma_line_zero_upto(
            m1,
            m2,
            horizontal,
            k,
            kk - 1,
            samples_per_line(m1, horizontal),
        );
    }
}

proof fn lemma_line_zero_upto(
    m1: ImageModel,
    m2: ImageModel,
    horizontal: bool,
    k: int,
    i: int,
    jj: nat,
)
    requires
        sampled_match(m1, m2, horizontal, k),
        0 <= i < lines_in(k),
        jj <= samples_per_line(m1, horizontal),
    ensures
        line_diff(m1, m2, horizontal, k, i, jj) == 0,
    decreases jj,
{
    if jj > 0 {
        lemma_line_zero_upto(m1, m2, horizontal, k, i, (jj - 1) as nat);
        let s = sample_start(m1, horizontal);
        assert(same_rgb(
            pixel_at(m1, horizontal, along_len(m1, horizontal) - k + 2 * i, s + 4 * (jj - 1)),
            pixel_at(m2, horizontal, 2 * i, s + 4 * (jj - 1)),
        ));
    }
}

/// From a candidate at least `k` long, with a nonzero best mean, a search that meets a
/// perfectly matching candidate `k` ends with mean zero at a candidate of length `k` or more.
proof fn lemma_search_reaches(
    m1: ImageModel,
    m2: ImageModel,
    horizontal: bool,
    k: int,
    o: int,
    best: nat,
    best_mean: nat,
)
    requires
        sampled_match(m1, m2, horizontal, k),
        min_overlap(m1, horizontal) <= k <= o,
        k > 0,
        samples_per_line(m1, horizontal) > 0,
        best_mean > 0,
    ensures
        search(m1, m2, horizontal, o, best, best_mean).1 == 0,
        search(m1, m2, horizontal, o, best, best_mean).0 >= k,
    decreases o - k,
{
    let (b, m) = examine(m1, m2, horizontal, o, best, best_mean);
    if o == k {
        lemma_matching_lines_zero(m1, m2, horizontal, k);
        let n = samples_per_line(m1, horizontal);
        assert(lines_in(k) >= 1);
        assert(candidate_count(m1, horizontal, k) > 0) by (nonlinear_arith)
            requires
                lines_in(k) >= 1,
                n > 0,
                candidate_count(m1, horizontal, k) == lines_in(k) * n,
        ;
        assert forall|kk: nat| 1 <= kk <= lines_in(k) implies !#[trigger] gives_up_after(
            m1,
            m2,
            horizontal,
            k,
            best_mean,
            kk,
        ) by {
            assert(lines_diff(m1, m2, horizontal, k, kk) == 0);
        }
        assert(lines_diff(m1, m2, horizontal, k, lines_in(k)) == 0);
        assert(candidate_mean(m1, m2, horizontal, k) == 0);
        assert(improves(m1, m2, horizontal, k, best_mean));
    } else {
        if m != 0 {
            lemma_search_reaches(m1, m2, horizontal, k, o - 1, b, m);
        }
    }
}

/// The reported overlap is 0 or a candidate between a tenth of the length and the full
/// length whose sampled lines differ by less than 30 on average.
pub proof fn lemma_overlap_range(m1: ImageModel, m2: ImageModel, horizontal: bool)
    ensures
        ({
            let r = overlap_spec(m1, m2, horizontal);
            r == 0 || (min_overlap(m1, horizontal) <= r <= along_len(m1, horizontal)
                && candidate_count(m1, horizontal, r as int) > 0 && candidate_mean(
                m1,
                m2,
                horizontal,
                r as int,
            ) < 30)
        }),
{
    lemma_search_range(m1, m2, horizontal, along_len(m1, horizontal) as int, 0, u64::MAX as nat);
}

/// A true overlap is never underestimated: when the last `k` lines of the first frame
/// match the first `k` lines of the second frame at every sampled position, and `k` is at
/// least the shortest candidate, the reported overlap is at least `k`.
pub proof fn lemma_true_overlap_found(m1: ImageModel, m2: ImageModel, horizontal: bool, k: int)
    requires
        sampled_match(m1, m2, horizontal, k),
        min_overlap(m1, horizontal) <= k <= along_len(m1, horizontal),
        k > 0,
        samples_per_line(m1, horizontal) > 0,
    ensures
        overlap_spec(m1, m2, horizontal) >= k,
{
    lemma_search_reaches(
        m1,
        m2,
        horizontal,
        k,
        along_len(m1, horizontal) as int,
        0,
        u64::MAX as nat,
    );
}

/// A scroll by any amount down to a tenth of the frame is recognised: when the last `k`
/// lines of the first frame show exactly the colours of the first `k` lines of the second
/// frame, for any `k` from a tenth of the frame's length up to its full length, the reported
/// overlap is at least `k` (for frames at least two pixels across, so that lines are sampled).
pub proof fn lemma_scrolled_frames_overlap(m1: ImageModel, m2: ImageModel, horizontal: bool, k: int)
    requires
        along_len(m1, horizontal) / 10 <= k <= along_len(m1, horizontal),
        across_len(m1, horizontal) >= 2,
        forall|a: int, c: int|
            0 <= a < k && 0 <= c < across_len(m1, horizontal) ==> #[trigger] same_rgb(
                pixel_at(m1, horizontal, along_len(m1, horizontal) - k + a, c),
                pixel_at(m2, horizontal, a, c),
            ),
    ensures
        overlap_spec(m1, m2, horizontal) >= k,
{
    if k > 0 {
        let w = across_len(m1, horizontal) as int;
        assert(w * 9 / 10 > w / 10) by (nonlinear_arith)
            requires
                w >= 2,
        ;
        assert(samples_per_line(m1, horizontal) > 0);
        assert forall|i: int, j: int|
            0 <= i < lines_in(k) && 0 <= j < samples_per_line(m1, horizontal) implies #[trigger] same_rgb(
            pixel_at(m1, horizontal, along_len(m1, horizontal) - k + 2 * i, sample_start(
                m1,
                horizontal,
            ) + 4 * j),
            pixel_at(m2, horizontal, 2 * i, sample_start(m1, horizontal) + 4 * j),
        ) by {
            let c = sample_start(m1, horizontal) + 4 * j;
            assert(c < w);
            assert(2 * i < k);
            assert(same_rgb(
                pixel_at(m1, horizontal, along_len(m1, horizontal) - k + 2 * i, c),
                pixel_at(m2, horizontal, 2 * i, c),
            ));
        }
        lemma_true_overlap_found(m1, m2, horizontal, k);
    }
}

/// Every sampled difference of candidate `k` is at most 29.
pub open spec fn sampled_close(m1: ImageModel, m2: ImageModel, horizontal: bool, k: int) -> bool {
    forall|i: int, j: int|
        0 <= i < lines_in(k) && 0 <= j < samples_per_line(m1, horizontal) ==> #[trigger] sample_diff(
            m1,
            m2,
            horizontal,
            k,
            i,
            j,
        ) <= 29
}

proof fn lemma_line_close(m1: ImageModel, m2: ImageModel, horizontal: bool, k: int, i: int, n: nat)
    requires
        sampled_close(m1, m2, horizontal, k),
        0 <= i < lines_in(k),
        n <= samples_per_line(m1, horizontal),
    ensures
        line_diff(m1, m2, horizontal, k, i, n) <= 29 * n,
    decreases n,
{
    if n > 0 {
        lemma_line_close(m1, m2, horizontal, k, i, (n - 1) as nat);
        assert(sample_diff(m1, m2, horizontal, k, i, n - 1) <= 29);
    }
}

proof fn lemma_lines_close(m1: ImageModel, m2: ImageModel, horizontal: bool, k: int, kk: nat)
    requires
        sampled_close(m1, m2, horizontal, k),
        kk <= lines_in(k),
    ensures
        lines_diff(m1, m2, horizontal, k, kk) <= 29 * (kk * samples_per_line(m1, horizontal)),
    decreases kk,
{
    let n = samples_per_line(m1, horizontal);
    if kk > 0 {
        lemma_lines_close(m1, m2, horizontal, k, (kk - 1) as nat);
        lemma_line_close(m1, m2, horizontal, k, kk - 1, n);
        assert(29 * ((kk - 1) * n) + 29 * n == 29 * (kk * n)) by (nonlinear_arith);
    }
}

proof fn lemma_mean_at_most(total: nat, count: nat)
    requires
        count > 0,
        total <= 29 * count,
    ensures
        total / count <= 29,
{
    assert(total / count <= 29) by (nonlinear_arith)
        requires
            count > 0,
            total <= 29 * count,
    ;
}

/// From a candidate at least `k` long, a search that meets candidate `k` whose samples all
/// differ by at most 29 ends with a mean of at most 29.
proof fn lemma_search_close(
    m1: ImageModel,
    m2: ImageModel,
    horizontal: bool,
    k: int,
    o: int,
    best: nat,
    best_mean: nat,
)
    requires
        sampled_close(m1, m2, horizontal, k),
        min_overlap(m1, horizontal) <= k <= o,
        k > 0,
        samples_per_line(m1, horizontal) > 0,
    ensures
        search(m1, m2, horizontal, o, best, best_mean).1 <= 29,
    decreases o - k,
{
    let (b, m) = examine(m1, m2, horizontal, o, best, best_mean);
    if o == k {
        let n = samples_per_line(m1, horizontal);
        if best_mean > 29 {
            assert(lines_in(k) >= 1);
            assert(candidate_count(m1, horizontal, k) > 0) by (nonlinear_arith)
                requires
                    lines_in(k) >= 1,
                    n > 0,
                    candidate_count(m1, horizontal, k) == lines_in(k) * n,
            ;
            assert forall|kk: nat| 1 <= kk <= lines_in(k) implies !#[trigger] gives_up_after(
                m1,
                m2,
                horizontal,
                k,
                best_mean,
                kk,
            ) by {
                lemma_lines_close(m1, m2, horizontal, k, kk);
                if kk * n > 0 {
                    lemma_mean_at_most(lines_diff(m1, m2, horizontal, k, kk), kk * n);
                }
            }
            lemma_lines_close(m1, m2, horizontal, k, lines_in(k));
            lemma_mean_at_most(
                lines_diff(m1, m2, horizontal, k, lines_in(k)),
                candidate_count(m1, horizontal, k),
            );
            assert(improves(m1, m2, horizontal, k, best_mean));
        }
        assert(m <= 29);
        if m != 0 {
            lemma_search_range(m1, m2, horizontal, o - 1, b, m);
        }
    } else {
        if m != 0 {
            lemma_search_close(m1, m2, horizontal, k, o - 1, b, m);
        }
    }
}

/// Noise in the shared lines is tolerated: when the last `k` lines of the first frame
/// differ from the first `k` lines of the second frame by at most 29 in summed red, green
/// and blue at every pixel, for some `k` from a tenth of the frame's length up to its full
/// length, an overlap is reported (for frames at least two pixels across).
pub proof fn lemma_noisy_frames_overlap(m1: ImageModel, m2: ImageModel, horizontal: bool, k: int)
    requires
        along_len(m1, horizontal) / 10 <= k <= along_len(m1, horizontal),
        k > 0,
        across_len(m1, horizontal) >= 2,
        forall|a: int, c: int|
            0 <= a < k && 0 <= c < across_len(m1, horizontal) ==> #[trigger] rgb_diff(
                pixel_at(m1, horizontal, along_len(m1, horizontal) - k + a, c),
                pixel_at(m2, horizontal, a, c),
            ) <= 29,
    ensures
        overlap_spec(m1, m2, horizontal) > 0,
        overlap_spec(m1, m2, horizontal) >= along_len(m1, horizontal) / 10,
{
    let w = across_len(m1, horizontal) as int;
    assert(w * 9 / 10 > w / 10) by (nonlinear_arith)
        requires
            w >= 2,
    ;
    assert(samples_per_line(m1, horizontal) > 0);
    assert forall|i: int, j: int|
        0 <= i < lines_in(k) && 0 <= j < samples_per_line(m1, horizontal) implies #[trigger] sample_diff(
        m1,
        m2,
        horizontal,
        k,
        i,
        j,
    ) <= 29 by {
        let c = sample_start(m1, horizontal) + 4 * j;
        assert(c < w);
        assert(2 * i < k);
        assert(rgb_diff(
            pixel_at(m1, horizontal, along_len(m1, horizontal) - k + 2 * i, c),
            pixel_at(m2, horizontal, 2 * i, c),
        ) <= 29);
    }
    lemma_search_close(m1, m2, horizontal, k, along_len(m1, horizontal) as int, 0, u64::MAX as nat);
    lemma_search_range(m1, m2, horizontal, along_len(m1, horizontal) as int, 0, u64::MAX as nat);
}

/// Two identical frames overlap completely: the overlap of a frame with itself is its
/// full length in the scan direction (when it has lines and sampled positions).
pub proof fn lemma_identical_frames_overlap_fully(m: ImageModel, horizontal: bool)
    requires
        along_len(m, horizontal) > 0,
        samples_per_line(m, horizontal) > 0,
    ensures
        overlap_spec(m, m, horizontal) == along_len(m, horizontal),
{
    let l = along_len(m, horizontal) as int;
    assert forall|i: int, j: int|
        0 <= i < lines_in(l) && 0 <= j < samples_per_line(m, horizontal) implies #[trigger] same_rgb(
        pixel_at(m, horizontal, l - l + 2 * i, sample_start(m, horizontal) + 4 * j),
        pixel_at(m, horizontal, 2 * i, sample_start(m, horizontal) + 4 * j),
    ) by {}
    lemma_true_overlap_found(m, m, horizontal, l);
    lemma_overlap_range(m, m, horizontal);
}

/// Sampled positions of candidate `o` lie inside both frames (for a horizontal scan), so
/// they read the same pixels as the vertical scan of the transposed frames.
proof fn lemma_sample_transposed(m1: ImageModel, m2: ImageModel, o: int, k: int, j: int)
    requires
        overlap_pre(m1, m2, true),
        0 <= o <= along_len(m1, true),
        0 <= k < lines_in(o),
        0 <= j < samples_per_line(m1, true),
    ensures
        sample_diff(m1, m2, true, o, k, j) == sample_diff(transpose(m1), transpose(m2), false, o, k, j),
{
    let t1 = transpose(m1);
    let t2 = transpose(m2);
    lemma_transpose(m1);
    lemma_transpose(m2);
    let l = along_len(m1, true) as int;
    let across = sample_start(m1, true) + 4 * j;
    assert(lines_in(o) <= lines_in(l));
    assert(across < across_len(m1, true));
    assert(0 <= l - o + 2 * k < l);
    assert(in_bounds_at(m2, true, 2 * k, across));
    assert(t1.in_bounds(across, l - o + 2 * k));
    assert(t2.in_bounds(across, 2 * k));
}

proof fn lemma_line_transposed(m1: ImageModel, m2: ImageModel, o: int, k: int, n: nat)
    requires
        overlap_pre(m1, m2, true),
        0 <= o <= along_len(m1, true),
        0 <= k < lines_in(o),
        n <= samples_per_line(m1, true),
    ensures
        line_diff(m1, m2, true, o, k, n) == line_diff(transpose(m1), transpose(m2), false, o, k, n),
    decreases n,
{
    if n > 0 {
        lemma_line_transposed(m1, m2, o, k, (n - 1) as nat);
        lemma_sample_transposed(m1, m2, o, k, n - 1);
    }
}

proof fn lemma_lines_transposed(m1: ImageModel, m2: ImageModel, o: int, kk: nat)
    requires
        overlap_pre(m1, m2, true),
        0 <= o <= along_len(m1, true),
        kk <= lines_in(o),
    ensures
        lines_diff(m1, m2, true, o, kk) == lines_diff(transpose(m1), transpose(m2), false, o, kk),
    decreases kk,
{
    if kk > 0 {
        lemma_lines_transposed(m1, m2, o, (kk - 1) as nat);
        lemma_line_transposed(m1, m2, o, kk - 1, samples_per_line(m1, true));
    }
}

proof fn lemma_examine_transposed(m1: ImageModel, m2: ImageModel, o: int, best: nat, best_mean: nat)
    requires
        overlap_pre(m1, m2, true),
        0 <= o <= along_len(m1, true),
    ensures
        examine(m1, m2, true, o, best, best_mean) == examine(
            transpose(m1),
            transpose(m2),
            false,
            o,
            best,
            best_mean,
        ),
{
    let t1 = transpose(m1);
    let t2 = transpose(m2);
    assert forall|kk: nat| kk <= lines_in(o) implies #[trigger] lines_diff(m1, m2, true, o, kk)
        == lines_diff(t1, t2, false, o, kk) by {
        lemma_lines_transposed(m1, m2, o, kk);
    }
    if gives_up(m1, m2, true, o, best_mean) {
        let k = choose|k: nat|
            1 <= k <= lines_in(o) && #[trigger] gives_up_after(m1, m2, true, o, best_mean, k);
        assert(lines_diff(m1, m2, true, o, k) == lines_diff(t1, t2, false, o, k));
        assert(gives_up_after(t1, t2, false, o, best_mean, k));
    }
    if gives_up(t1, t2, false, o, best_mean) {
        let k = choose|k: nat|
            1 <= k <= lines_in(o) && #[trigger] gives_up_after(t1, t2, false, o, best_mean, k);
        assert(lines_diff(m1, m2, true, o, k) == lines_diff(t1, t2, false, o, k));
        assert(gives_up_after(m1, m2, true, o, best_mean, k));
    }
    assert(lines_diff(m1, m2, true, o, lines_in(o)) == lines_diff(t1, t2, false, o, lines_in(o)));
}

proof fn lemma_search_transposed(m1: ImageModel, m2: ImageModel, o: int, best: nat, best_mean: nat)
    requires
        overlap_pre(m1, m2, true),
        o <= along_len(m1, true),
    ensures
        search(m1, m2, true, o, best, best_mean) == search(
            transpose(m1),
            transpose(m2),
            false,
            o,
            best,
            best_mean,
        ),
    decreases o - min_overlap(m1, true) + 1,
{
    if o >= min_overlap(m1, true) {
        lemma_examine_transposed(m1, m2, o, best, best_mean);
        let (b, m) = examine(m1, m2, true, o, best, best_mean);
        if m != 0 {
            lemma_search_transposed(m1, m2, o - 1, b, m);
        }
    }
}

/// Scanning columns is scanning the rows of the transposed frames: the horizontal overlap
/// of two frames equals the vertical overlap of their transposes, and the transposes meet
/// the vertical search's requirement.
pub proof fn lemma_horizontal_overlap_is_transposed(m1: ImageModel, m2: ImageModel)
    requires
        overlap_pre(m1, m2, true),
    ensures
        overlap_pre(transpose(m1), transpose(m2), false),
        overlap_spec(m1, m2, true) == overlap_spec(transpose(m1), transpose(m2), false),
{
    let t1 = transpose(m1);
    let t2 = transpose(m2);
    lemma_transpose(m1);
    lemma_transpose(m2);
    lemma_search_transposed(m1, m2, along_len(m1, true) as int, 0, u64::MAX as nat);
    assert forall|k: int, j: int|
        0 <= k < lines_in(along_len(t1, false) as int) && 0 <= j < samples_per_line(
            t1,
            false,
        ) implies #[trigger] in_bounds_at(t2, false, 2 * k, sample_start(t1, false) + 4 * j) by {
        assert(in_bounds_at(m2, true, 2 * k, sample_start(m1, true) + 4 * j));
    }
}

fn pixel_at_exec(img: &Image, horizontal: bool, along: u64, across: u64) -> (p: [u8; 4])
    requires
        in_bounds_at(img@, horizontal, along as int, across as int),
    ensures
        p@ == pixel_at(img@, horizontal, along as int, across as int),
{
    let _ = img.dimensions();
    if horizontal {
        img.get_pixel(along as u32, across as u32)
    } else {
        img.get_pixel(across as u32, along as u32)
    }
}

fn channel_diff_exec(a: u8, b: u8) -> (d: u64)
    ensures
        d == channel_diff(a, b),
{
    if a >= b {
        (a - b) as u64
    } else {
        (b - a) as u64
    }
}

fn rgb_diff_exec(p: [u8; 4], q: [u8; 4]) -> (d: u64)
    ensures
        d == rgb_diff(p@, q@),
        d <= 765,
{
    channel_diff_exec(p[0], q[0]) + channel_diff_exec(p[1], q[1]) + channel_diff_exec(p[2], q[2])
}

/// Samples candidate `o`. Returns whether it was abandoned, and otherwise the sum of its
/// sample differences and its number of samples.
fn sample_candidate(
    img1: &Image,
    img2: &Image,
    horizontal: bool,
    o: u32,
    best_mean: u64,
) -> (r: (bool, u64, u64))
    requires
        overlap_pre(img1@, img2@, horizontal),
        o <= along_len(img1@, horizontal),
        best_mean == u64::MAX || best_mean <= 765,
    ensures
        r.0 == gives_up(img1@, img2@, horizontal, o as int, best_mean as nat),
        !r.0 ==> r.1 == lines_diff(img1@, img2@, horizontal, o as int, lines_in(o as int)),
        !r.0 ==> r.2 == candidate_count(img1@, horizontal, o as int),
        !r.0 ==> r.1 <= 765 * r.2,
        !r.0 ==> r.2 <= i32::MAX,
{
    let ghost m1 = img1@;
    let ghost m2 = img2@;
    let (w, h) = img1.dimensions();
    let _ = img2.dimensions();
    let along: u32 = if horizontal {
        w
    } else {
        h
    };
    let across: u32 = if horizontal {
        h
    } else {
        w
    };
    let start: u32 = across / 10;
    let end: u32 = across * 9 / 10;
    let ghost n = samples_per_line(m1, horizontal);
    let ghost total = candidate_count(m1, horizontal, along as int);
    assert(lines_in(o as int) <= lines_in(along as int));
    assert(lines_in(o as int) * n <= total) by (nonlinear_arith)
        requires
            lines_in(o as int) <= lines_in(along as int),
            total == lines_in(along as int) * n,
    ;
    let mut diff: u64 = 0;
    let mut count: u64 = 0;
    let mut a: u64 = 0;
    let ghost mut k: nat = 0;
    while a < o as u64
        invariant
            m1 == img1@,
            m2 == img2@,
            overlap_pre(m1, m2, horizontal),
            along == along_len(m1, horizontal),
            across == across_len(m1, horizontal),
            start == sample_start(m1, horizontal),
            end == sample_end(m1, horizontal),
            n == samples_per_line(m1, horizontal),
            o <= along,
            best_mean == u64::MAX || best_mean <= 765,
            lines_in(o as int) * n <= total,
            total == candidate_count(m1, horizontal, along as int),
            a == 2 * k,
            k <= lines_in(o as int),
            a < o ==> k < lines_in(o as int),
            a >= o ==> k == lines_in(o as int),
            diff == lines_diff(m1, m2, horizontal, o as int, k),
            count == k * n,
            diff <= 765 * count,
            forall|k2: nat|
                1 <= k2 <= k ==> !#[trigger] gives_up_after(
                    m1,
                    m2,
                    horizontal,
                    o as int,
                    best_mean as nat,
                    k2,
                ),
        decreases o as int + 1 - a as int,
    {
        assert((k + 1) * n <= lines_in(o as int) * n) by (nonlinear_arith)
            requires
                k + 1 <= lines_in(o as int),
        ;
        assert((k + 1) * n == k * n + n) by (nonlinear_arith);
        let mut c: u64 = start as u64;
        let ghost mut j: nat = 0;
        let ghost line_start = diff;
        while c < end as u64
            invariant
                m1 == img1@,
                m2 == img2@,
                overlap_pre(m1, m2, horizontal),
                along == along_len(m1, horizontal),
                across == across_len(m1, horizontal),
                start == sample_start(m1, horizontal),
                end == sample_end(m1, horizontal),
                n == samples_per_line(m1, horizontal),
                o <= along,
                a == 2 * k,
                a < o,
                k < lines_in(o as int),
                lines_in(o as int) <= lines_in(along as int),
                (k + 1) * n <= total,
                (k + 1) * n == k * n + n,
                c == start + 4 * j,
                c < end ==> j < n,
                c >= end ==> j == n,
                line_start == lines_diff(m1, m2, horizontal, o as int, k),
                diff == line_start + line_diff(m1, m2, horizontal, o as int, k as int, j),
                count == k * n + j,
                diff <= 765 * count,
                total <= i32::MAX,
            decreases end as int + 3 - c as int,
        {
            assert(in_bounds_at(m2, horizontal, 2 * (k as int), start + 4 * (j as int)));
            let p1 = pixel_at_exec(img1, horizontal, along as u64 - o as u64 + a, c);
            let p2 = pixel_at_exec(img2, horizontal, a, c);
            let d = rgb_diff_exec(p1, p2);
            diff = diff + d;
            count = count + 1;
            c = c + 4;
            proof {
                j = j + 1;
            }
        }
        proof {
            assert(diff == lines_diff(m1, m2, horizontal, o as int, k + 1));
        }
        if count > 500 {
            let avg = diff / count;
            if best_mean != u64::MAX && avg > best_mean + 20 {
                proof {
                    assert(gives_up_after(m1, m2, horizontal, o as int, best_mean as nat, k + 1));
                }
                return (true, diff, count);
            }
        }
        proof {
            assert(!gives_up_after(m1, m2, horizontal, o as int, best_mean as nat, k + 1));
            k = k + 1;
        }
        a = a + 2;
    }
    proof {
        assert forall|k2: nat|
            1 <= k2 <= lines_in(o as int) implies !#[trigger] gives_up_after(
            m1,
            m2,
            horizontal,
            o as int,
            best_mean as nat,
            k2,
        ) by {}
    }
    (false, diff, count)
}

/// Oriented overlap search shared by the vertical and horizontal variants.
fn overlap_along(img1: &Image, img2: &Image, horizontal: bool) -> (r: u32)
    requires
        overlap_pre(img1@, img2@, horizontal),
    ensures
        r == overlap_spec(img1@, img2@, horizontal),
{
    let ghost m1 = img1@;
    let ghost m2 = img2@;
    let (w, h) = img1.dimensions();
    let along: u32 = if horizontal {
        w
    } else {
        h
    };
    let min_o: u32 = along / 10;
    let mut best: u32 = 0;
    let mut best_mean: u64 = u64::MAX;
    let mut o: u32 = along;
    loop
        invariant_except_break
            m1 == img1@,
            m2 == img2@,
            overlap_pre(m1, m2, horizontal),
            along == along_len(m1, horizontal),
            min_o == min_overlap(m1, horizontal),
            min_o <= o <= along,
            best_mean != 0,
            best_mean == u64::MAX || best_mean <= 765,
            search_result(m1, m2, horizontal) == search(
                m1,
                m2,
                horizontal,
                o as int,
                best as nat,
                best_mean as nat,
            ),
        ensures
            search_result(m1, m2, horizontal) == (best as nat, best_mean as nat),
        decreases o,
    {
        let ghost o_prev = o;
        let ghost b_prev = best;
        let ghost m_prev = best_mean;
        let (gave_up, diff, count) = sample_candidate(img1, img2, horizontal, o, best_mean);
        if !gave_up && count > 0 {
            let avg = diff / count;
            assert(avg <= 765) by (nonlinear_arith)
                requires
                    diff <= 765 * count,
                    count > 0,
                    avg == diff / count,
            ;
            if avg < best_mean {
                best_mean = avg;
                best = o;
                if best_mean == 0 {
                    assert(examine(m1, m2, horizontal, o_prev as int, b_prev as nat, m_prev as nat)
                        == (best as nat, best_mean as nat));
                    assert(search(m1, m2, horizontal, o_prev as int, b_prev as nat, m_prev as nat)
                        == (best as nat, best_mean as nat));
                    break ;
                }
            }
        }
        assert(examine(m1, m2, horizontal, o_prev as int, b_prev as nat, m_prev as nat) == (
        best as nat, best_mean as nat));
        if o == min_o {
            assert(search(m1, m2, horizontal, o_prev as int - 1, best as nat, best_mean as nat) == (
            best as nat, best_mean as nat));
            break ;
        }
        o = o - 1;
    }
    if best_mean < 30 {
        best
    } else {
        0
    }
}

/// Overlap of two frames of a vertical scrolling capture: the number of bottom rows of
/// `img1` that reappear as the top rows of `img2`, or 0 when no candidate matches well.
pub fn find_overlap(img1: &Image, img2: &Image) -> (r: u32)
    requires
        overlap_pre(img1@, img2@, false),
    ensures
        r == overlap_spec(img1@, img2@, false),
        r == 0 || (min_overlap(img1@, false) <= r <= img1@.height && candidate_mean(
            img1@,
            img2@,
            false,
            r as int,
        ) < 30),
{
    proof {
        lemma_overlap_range(img1@, img2@, false);
    }
    overlap_along(img1, img2, false)
}

/// Overlap of two frames of a horizontal scrolling capture: the number of right-hand
/// columns of `img1` that reappear as the left-hand columns of `img2`, or 0 when no
/// candidate matches well.
pub fn find_overlap_horizontal(img1: &Image, img2: &Image) -> (r: u32)
    requires
        overlap_pre(img1@, img2@, true),
    ensures
        r == overlap_spec(img1@, img2@, true),
        r == 0 || (min_overlap(img1@, true) <= r <= img1@.width && candidate_mean(
            img1@,
            img2@,
            true,
            r as int,
        ) < 30),
{
    proof {
        lemma_overlap_range(img1@, img2@, true);
    }
    overlap_along(img1, img2, true)
}

} // verus!
