//! The pixel path of a circle outline: the incremental midpoint algorithm
//! with 8-way octant symmetry, and the facts proved about it — every written
//! pixel lies in a narrow band around the true circle, and the written set is
//! symmetric under the axis and diagonal reflections about the center.

use vstd::prelude::*;

verus! {

/// The eight octant reflections of the offset `(x, y)` around the center
/// `(cx, cy)`, in drawing order.
pub open spec fn octet(cx: int, cy: int, x: int, y: int) -> Seq<(int, int)> {
    seq![
        (cx + x, cy + y),
        (cx - x, cy + y),
        (cx + x, cy - y),
        (cx - x, cy - y),
        (cx + y, cy + x),
        (cx - y, cy + x),
        (cx + y, cy - x),
        (cx - y, cy - x),
    ]
}

/// How many loop iterations remain from offset state `(x, y)`.
pub open spec fn circle_measure(x: int, y: int) -> int {
    if x <= y {
        y - x + 1
    } else {
        0
    }
}

/// The pixels the midpoint loop writes from state `(x, y, d)` onward: one
/// octet per iteration while `x <= y`; the decision value `d` picks either a
/// straight step (`x` alone advances) or a diagonal step (`y` shrinks too).
pub open spec fn circle_points_from(cx: int, cy: int, x: int, y: int, d: int) -> Seq<(int, int)>
    decreases circle_measure(x, y),
{
    if x <= y {
        octet(cx, cy, x, y) + (if d < 0 {
            circle_points_from(cx, cy, x + 1, y, d + 4 * x + 6)
        } else {
            circle_points_from(cx, cy, x + 1, y - 1, d + 4 * (x - y) + 10)
        })
    } else {
        Seq::empty()
    }
}

/// All pixels of the circle outline with the given center and radius, in
/// drawing order.
pub open spec fn circle_points(cx: int, cy: int, r: int) -> Seq<(int, int)> {
    circle_points_from(cx, cy, 0, r, 3 - 2 * r)
}

/// What holds of the decision value at the top of every loop iteration:
/// either the loop has not moved yet, or `d` sits in the narrow window that
/// the update rules maintain.
pub open spec fn circle_head_ok(r: int, x: int, y: int, d: int) -> bool {
    (x == 0 && y == r && d == 3 - 2 * r) || (r >= 1 && 4 * (x - y) + 2 <= d <= 4 * x + 1)
}

/// The exact value of the decision variable as a polynomial in the state.
pub open spec fn circle_d_exact(r: int, x: int, y: int, d: int) -> bool {
    d == 2 * (x + 1) * (x + 1) + 2 * y * y - 2 * y + 1 - 2 * r * r
}

/// A position occurs somewhere in a pixel sequence.
pub open spec fn contains_pos(s: Seq<(int, int)>, p: (int, int)) -> bool {
    exists|i: int| 0 <= i < s.len() && s[i] == p
}

/// The squared distance of a position from the center `(cx, cy)`.
pub open spec fn dist2(cx: int, cy: int, p: (int, int)) -> int {
    (p.0 - cx) * (p.0 - cx) + (p.1 - cy) * (p.1 - cy)
}

/// Every point of one octet lies at squared distance `x² + y²` from the
/// center.
proof fn lemma_octet_dist2(cx: int, cy: int, x: int, y: int)
    ensures
        forall|i: int|
            0 <= i < octet(cx, cy, x, y).len() ==> dist2(cx, cy, #[trigger] octet(cx, cy, x, y)[i])
                == x * x + y * y,
{
    let s = octet(cx, cy, x, y);
    assert forall|i: int| 0 <= i < s.len() implies dist2(cx, cy, s[i]) == x * x + y * y by {
        let p = s[i];
        assert((-x) * (-x) == x * x && (-y) * (-y) == y * y) by (nonlinear_arith);
        assert(p.0 - cx == x || p.0 - cx == -x || p.0 - cx == y || p.0 - cx == -y);
        assert(p.1 - cy == x || p.1 - cy == -x || p.1 - cy == y || p.1 - cy == -y);
        assert(dist2(cx, cy, p) == x * x + y * y || dist2(cx, cy, p) == y * y + x * x);
    }
}

/// From any reachable loop state onward, every written pixel's squared
/// distance from the center is within `r` of `r²`.
proof fn lemma_circle_band_from(cx: int, cy: int, r: int, x: int, y: int, d: int)
    requires
        0 <= x,
        -1 <= y <= r,
        circle_d_exact(r, x, y, d),
        x <= y ==> circle_head_ok(r, x, y, d),
    ensures
        forall|i: int|
            0 <= i < circle_points_from(cx, cy, x, y, d).len() ==> -r <= dist2(
                cx,
                cy,
                #[trigger] circle_points_from(cx, cy, x, y, d)[i],
            ) - r * r <= r,
    decreases circle_measure(x, y),
{
    if x <= y {
        let s = circle_points_from(cx, cy, x, y, d);
        let e = x * x + y * y - r * r;
        assert(2 * e == d - 4 * x + 2 * y - 3) by (nonlinear_arith)
            requires
                circle_d_exact(r, x, y, d),
                e == x * x + y * y - r * r,
        ;
        if !(x == 0 && y == r && d == 3 - 2 * r) {
            assert(r >= 1 && 4 * (x - y) + 2 <= d <= 4 * x + 1);
            assert(-2 * y <= 2 * e <= 2 * y - 2);
        } else {
            assert(e == 0) by (nonlinear_arith)
                requires
                    x == 0,
                    y == r,
                    e == x * x + y * y - r * r,
            ;
        }
        assert(-y <= e <= y);
        lemma_octet_dist2(cx, cy, x, y);
        let x2 = x + 1;
        let y2 = if d < 0 {
            y
        } else {
            y - 1
        };
        let d2 = if d < 0 {
            d + 4 * x + 6
        } else {
            d + 4 * (x - y) + 10
        };
        assert(circle_d_exact(r, x2, y2, d2)) by (nonlinear_arith)
            requires
                circle_d_exact(r, x, y, d),
                (d < 0 && x2 == x + 1 && y2 == y && d2 == d + 4 * x + 6) || (d >= 0 && x2 == x + 1
                    && y2 == y - 1 && d2 == d + 4 * (x - y) + 10),
        ;
        assert(x2 <= y2 ==> circle_head_ok(r, x2, y2, d2));
        lemma_circle_band_from(cx, cy, r, x2, y2, d2);
        assert(s == octet(cx, cy, x, y) + circle_points_from(cx, cy, x2, y2, d2));
        assert forall|i: int| 0 <= i < s.len() implies -r <= dist2(cx, cy, #[trigger] s[i]) - r
            * r <= r by {
            if i < 8 {
                assert(s[i] == octet(cx, cy, x, y)[i]);
                assert(dist2(cx, cy, s[i]) == x * x + y * y);
            } else {
                assert(s[i] == circle_points_from(cx, cy, x2, y2, d2)[i - 8]);
            }
        }
    }
}

/// Every pixel of a circle outline lies in a band of width `r` around the
/// true circle: its squared distance from the center is within `r` of `r²`.
pub proof fn lemma_circle_band(cx: int, cy: int, r: int)
    requires
        0 <= r,
    ensures
        forall|i: int|
            0 <= i < circle_points(cx, cy, r).len() ==> -r <= dist2(
                cx,
                cy,
                #[trigger] circle_points(cx, cy, r)[i],
            ) - r * r <= r,
{
    assert(circle_d_exact(r, 0, r, 3 - 2 * r)) by (nonlinear_arith);
    lemma_circle_band_from(cx, cy, r, 0, r, 3 - 2 * r);
}

/// A position of a left part occurs in the whole.
proof fn lemma_contains_left(a: Seq<(int, int)>, b: Seq<(int, int)>, p: (int, int))
    requires
        contains_pos(a, p),
    ensures
        contains_pos(a + b, p),
{
    let i = choose|i: int| 0 <= i < a.len() && a[i] == p;
    assert((a + b)[i] == p);
}

/// A position of a right part occurs in the whole.
proof fn lemma_contains_right(a: Seq<(int, int)>, b: Seq<(int, int)>, p: (int, int))
    requires
        contains_pos(b, p),
    ensures
        contains_pos(a + b, p),
{
    let i = choose|i: int| 0 <= i < b.len() && b[i] == p;
    assert((a + b)[a.len() + i] == p);
}

/// The four reflections about the center that generate the full 8-way
/// symmetry: across the vertical axis, across the horizontal axis, and
/// across the two diagonals.
pub open spec fn reflections(cx: int, cy: int, p: (int, int)) -> Seq<(int, int)> {
    seq![
        (2 * cx - p.0, p.1),
        (p.0, 2 * cy - p.1),
        (cx + (p.1 - cy), cy + (p.0 - cx)),
        (cx - (p.1 - cy), cy - (p.0 - cx)),
    ]
}

/// Each reflection of an octet member is again an octet member.
proof fn lemma_octet_symmetric(cx: int, cy: int, x: int, y: int, p: (int, int), k: int)
    requires
        contains_pos(octet(cx, cy, x, y), p),
        0 <= k < 4,
    ensures
        contains_pos(octet(cx, cy, x, y), reflections(cx, cy, p)[k]),
{
    let s = octet(cx, cy, x, y);
    let q = reflections(cx, cy, p)[k];
    let i = choose|i: int| 0 <= i < s.len() && s[i] == p;
    if i == 0 {
        assert(q == s[1] || q == s[2] || q == s[4] || q == s[7]);
    } else if i == 1 {
        assert(q == s[0] || q == s[3] || q == s[6] || q == s[5]);
    } else if i == 2 {
        assert(q == s[3] || q == s[0] || q == s[5] || q == s[6]);
    } else if i == 3 {
        assert(q == s[2] || q == s[1] || q == s[7] || q == s[4]);
    } else if i == 4 {
        assert(q == s[5] || q == s[6] || q == s[0] || q == s[3]);
    } else if i == 5 {
        assert(q == s[4] || q == s[7] || q == s[2] || q == s[1]);
    } else if i == 6 {
        assert(q == s[7] || q == s[4] || q == s[1] || q == s[2]);
    } else {
        assert(q == s[6] || q == s[5] || q == s[3] || q == s[0]);
    }
}

/// Each reflection of a written pixel is again a written pixel, from any
/// loop state onward.
proof fn lemma_circle_points_symmetric_from(
    cx: int,
    cy: int,
    x: int,
    y: int,
    d: int,
    p: (int, int),
    k: int,
)
    requires
        contains_pos(circle_points_from(cx, cy, x, y, d), p),
        0 <= k < 4,
    ensures
        contains_pos(circle_points_from(cx, cy, x, y, d), reflections(cx, cy, p)[k]),
    decreases circle_measure(x, y),
{
    if x <= y {
        let s = circle_points_from(cx, cy, x, y, d);
        let oct = octet(cx, cy, x, y);
        let x2 = x + 1;
        let y2 = if d < 0 {
            y
        } else {
            y - 1
        };
        let d2 = if d < 0 {
            d + 4 * x + 6
        } else {
            d + 4 * (x - y) + 10
        };
        let rest = circle_points_from(cx, cy, x2, y2, d2);
        assert(s == oct + rest);
        let i = choose|i: int| 0 <= i < s.len() && s[i] == p;
        if i < 8 {
            assert(oct[i] == p);
            lemma_octet_symmetric(cx, cy, x, y, p, k);
            lemma_contains_left(oct, rest, reflections(cx, cy, p)[k]);
        } else {
            assert(rest[i - 8] == p);
            lemma_circle_points_symmetric_from(cx, cy, x2, y2, d2, p, k);
            lemma_contains_right(oct, rest, reflections(cx, cy, p)[k]);
        }
    }
}

/// The set of pixels of a circle outline is symmetric about its center:
/// reflecting any written pixel across the vertical axis, the horizontal
/// axis, or either diagonal through the center gives a written pixel again.
pub proof fn lemma_circle_symmetry(cx: int, cy: int, r: int, p: (int, int))
    requires
        contains_pos(circle_points(cx, cy, r), p),
    ensures
        contains_pos(circle_points(cx, cy, r), (2 * cx - p.0, p.1)),
        contains_pos(circle_points(cx, cy, r), (p.0, 2 * cy - p.1)),
        contains_pos(circle_points(cx, cy, r), (cx + (p.1 - cy), cy + (p.0 - cx))),
        contains_pos(circle_points(cx, cy, r), (cx - (p.1 - cy), cy - (p.0 - cx))),
{
    lemma_circle_points_symmetric_from(cx, cy, 0, r, 3 - 2 * r, p, 0);
    lemma_circle_points_symmetric_from(cx, cy, 0, r, 3 - 2 * r, p, 1);
    lemma_circle_points_symmetric_from(cx, cy, 0, r, 3 - 2 * r, p, 2);
    lemma_circle_points_symmetric_from(cx, cy, 0, r, 3 - 2 * r, p, 3);
}

} // verus!
