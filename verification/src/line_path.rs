//! The pixel path of a straight segment: parametric interpolation from the
//! start point to the end point, one pixel per step, coordinates truncated
//! toward zero.

use vstd::prelude::*;
use vstd::math::abs;
use vstd::math::max;
use vstd::math::min;
use crate::trunc_div::div_trunc;
use crate::trunc_div::lemma_div_trunc_close;
use crate::trunc_div::lemma_div_trunc_exact;
use crate::trunc_div::lemma_div_trunc_ordered;

verus! {

/// The number of unit steps a segment takes: the larger of the two
/// coordinate distances. A zero-length segment takes zero steps.
pub open spec fn line_steps(sx: int, sy: int, ex: int, ey: int) -> int {
    max(abs(ex - sx) as int, abs(ey - sy) as int)
}

/// The `i`-th pixel of the segment: the exact interpolated position
/// `start + i * delta / steps`, each coordinate truncated toward zero.
pub open spec fn line_point_at(sx: int, sy: int, ex: int, ey: int, i: int) -> (int, int) {
    let steps = line_steps(sx, sy, ex, ey);
    if steps == 0 {
        (sx, sy)
    } else {
        (
            div_trunc(sx * steps + i * (ex - sx), steps),
            div_trunc(sy * steps + i * (ey - sy), steps),
        )
    }
}

/// All pixels of the segment, in drawing order: one per step, both endpoints
/// included.
pub open spec fn line_points(sx: int, sy: int, ex: int, ey: int) -> Seq<(int, int)> {
    Seq::new((line_steps(sx, sy, ex, ey) + 1) as nat, |i: int| line_point_at(sx, sy, ex, ey, i))
}

/// A pixel sequence is 8-connected when each pixel and the next differ by at
/// most one in both coordinates.
pub open spec fn eight_connected(s: Seq<(int, int)>) -> bool {
    forall|i: int|
        0 <= i && i + 1 < s.len() ==> {
            let p = #[trigger] s[i];
            let q = s[i + 1];
            abs(q.0 - p.0) <= 1 && abs(q.1 - p.1) <= 1
        }
}

/// The first pixel of a segment is its start point.
pub proof fn lemma_line_point_first(sx: int, sy: int, ex: int, ey: int)
    ensures
        line_point_at(sx, sy, ex, ey, 0) == (sx, sy),
{
    let steps = line_steps(sx, sy, ex, ey);
    if steps != 0 {
        assert(sx * steps + 0 * (ex - sx) == sx * steps) by (nonlinear_arith);
        assert(sy * steps + 0 * (ey - sy) == sy * steps) by (nonlinear_arith);
        lemma_div_trunc_exact(sx, steps);
        lemma_div_trunc_exact(sy, steps);
    }
}

/// The last pixel of a segment is its end point.
pub proof fn lemma_line_point_last(sx: int, sy: int, ex: int, ey: int)
    ensures
        line_point_at(sx, sy, ex, ey, line_steps(sx, sy, ex, ey)) == (ex, ey),
{
    let steps = line_steps(sx, sy, ex, ey);
    if steps == 0 {
        assert(ex == sx && ey == sy);
    } else {
        assert(sx * steps + steps * (ex - sx) == ex * steps) by (nonlinear_arith);
        assert(sy * steps + steps * (ey - sy) == ey * steps) by (nonlinear_arith);
        lemma_div_trunc_exact(sx, steps);
        lemma_div_trunc_exact(ex, steps);
        lemma_div_trunc_exact(sy, steps);
        lemma_div_trunc_exact(ey, steps);
    }
}

/// Each pixel of a segment stays within the bounding box of the two
/// endpoints.
pub proof fn lemma_line_point_in_box(sx: int, sy: int, ex: int, ey: int, i: int)
    requires
        0 <= i <= line_steps(sx, sy, ex, ey),
    ensures
        min(sx, ex) <= line_point_at(sx, sy, ex, ey, i).0 <= max(sx, ex),
        min(sy, ey) <= line_point_at(sx, sy, ex, ey, i).1 <= max(sy, ey),
{
    let steps = line_steps(sx, sy, ex, ey);
    if steps != 0 {
        lemma_coord_in_range(sx, ex, steps, i);
        lemma_coord_in_range(sy, ey, steps, i);
    }
}

/// One interpolated coordinate stays between its two endpoint values.
proof fn lemma_coord_in_range(s: int, e: int, steps: int, i: int)
    requires
        steps > 0,
        0 <= i <= steps,
        abs(e - s) <= steps,
    ensures
        min(s, e) <= div_trunc(s * steps + i * (e - s), steps) <= max(s, e),
{
    let n = s * steps + i * (e - s);
    if e >= s {
        assert(s * steps <= n <= e * steps) by (nonlinear_arith)
            requires
                steps > 0,
                0 <= i <= steps,
                e >= s,
                n == s * steps + i * (e - s),
        ;
    } else {
        assert(e * steps <= n <= s * steps) by (nonlinear_arith)
            requires
                steps > 0,
                0 <= i <= steps,
                e < s,
                n == s * steps + i * (e - s),
        ;
    }
    lemma_div_trunc_exact(s, steps);
    lemma_div_trunc_exact(e, steps);
    lemma_div_trunc_ordered(min(s, e) * steps, n, steps);
    lemma_div_trunc_ordered(n, max(s, e) * steps, steps);
}

/// Consecutive pixels of a segment differ by at most one in each coordinate.
pub proof fn lemma_line_point_step(sx: int, sy: int, ex: int, ey: int, i: int)
    requires
        0 <= i,
        i + 1 <= line_steps(sx, sy, ex, ey),
    ensures
        abs(line_point_at(sx, sy, ex, ey, i + 1).0 - line_point_at(sx, sy, ex, ey, i).0) <= 1,
        abs(line_point_at(sx, sy, ex, ey, i + 1).1 - line_point_at(sx, sy, ex, ey, i).1) <= 1,
{
    let steps = line_steps(sx, sy, ex, ey);
    lemma_coord_step(sx, ex, steps, i);
    lemma_coord_step(sy, ey, steps, i);
}

/// One interpolated coordinate moves by at most one unit per step.
proof fn lemma_coord_step(s: int, e: int, steps: int, i: int)
    requires
        steps > 0,
        0 <= i,
        abs(e - s) <= steps,
    ensures
        abs(
            div_trunc(s * steps + (i + 1) * (e - s), steps) - div_trunc(
                s * steps + i * (e - s),
                steps,
            ),
        ) <= 1,
{
    let d = e - s;
    let n = s * steps + i * d;
    assert(s * steps + (i + 1) * d == n + d) by (nonlinear_arith)
        requires
            n == s * steps + i * d,
    ;
    if d >= 0 {
        lemma_div_trunc_close(n, n + d, steps);
    } else {
        lemma_div_trunc_close(n + d, n, steps);
    }
}

/// A whole segment path is 8-connected.
pub proof fn lemma_line_points_connected(sx: int, sy: int, ex: int, ey: int)
    ensures
        eight_connected(line_points(sx, sy, ex, ey)),
{
    let s = line_points(sx, sy, ex, ey);
    assert forall|i: int| 0 <= i && i + 1 < s.len() implies {
        let p = #[trigger] s[i];
        let q = s[i + 1];
        abs(q.0 - p.0) <= 1 && abs(q.1 - p.1) <= 1
    } by {
        lemma_line_point_step(sx, sy, ex, ey, i);
    }
}

} // verus!
