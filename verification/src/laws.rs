//! Laws that relate the drawing algorithms to each other: pixel counts and
//! endpoints of segments, the closed cycle of a rectangle outline, and the
//! determinism of drawing.

use vstd::prelude::*;
use vstd::math::abs;
use crate::canvas::PixelWrite;
use crate::canvas::positions_of;
use crate::color::Color;
use crate::geometrical_shapes::Point;
use crate::geometrical_shapes::draw_post;
use crate::geometrical_shapes::rect_corner3;
use crate::geometrical_shapes::rect_corner4;
use crate::geometrical_shapes::rectangle_positions;
use crate::line_path::eight_connected;
use crate::line_path::lemma_line_point_first;
use crate::line_path::lemma_line_point_last;
use crate::line_path::lemma_line_points_connected;
use crate::line_path::line_points;
use crate::line_path::line_steps;

verus! {

/// A segment writes exactly `max(|dx|, |dy|) + 1` pixels; the first is its
/// start point and the last is its end point.
pub proof fn lemma_line_count_and_endpoints(sx: int, sy: int, ex: int, ey: int)
    ensures
        line_points(sx, sy, ex, ey).len() == line_steps(sx, sy, ex, ey) + 1,
        line_points(sx, sy, ex, ey).first() == (sx, sy),
        line_points(sx, sy, ex, ey).last() == (ex, ey),
{
    lemma_line_point_first(sx, sy, ex, ey);
    lemma_line_point_last(sx, sy, ex, ey);
}

/// A segment whose endpoints coincide is a single pixel at that point.
pub proof fn lemma_degenerate_line(sx: int, sy: int)
    ensures
        line_points(sx, sy, sx, sy) == seq![(sx, sy)],
{
    lemma_line_point_first(sx, sy, sx, sy);
    assert(line_points(sx, sy, sx, sy) =~= seq![(sx, sy)]);
}

/// Two 8-connected paths that meet at a shared pixel join into one
/// 8-connected path.
proof fn lemma_connected_concat(a: Seq<(int, int)>, b: Seq<(int, int)>)
    requires
        eight_connected(a),
        eight_connected(b),
        a.len() > 0,
        b.len() > 0,
        a.last() == b.first(),
    ensures
        eight_connected(a + b),
{
    let s = a + b;
    assert forall|i: int| 0 <= i && i + 1 < s.len() implies {
        let p = #[trigger] s[i];
        let q = s[i + 1];
        abs(q.0 - p.0) <= 1 && abs(q.1 - p.1) <= 1
    } by {
        if i + 1 < a.len() {
            assert(s[i] == a[i] && s[i + 1] == a[i + 1]);
        } else if i + 1 == a.len() {
            assert(s[i] == a[i] && s[i + 1] == b[0]);
        } else {
            assert(s[i] == b[i - a.len()] && s[i + 1] == b[i + 1 - a.len()]);
        }
    }
}

/// A rectangle's four derived corners form a closed cycle: the outline is a
/// single 8-connected path that starts and ends at the first corner, and its
/// four segments meet corner to corner.
pub proof fn lemma_rectangle_closed_cycle(p1: Point, p2: Point)
    ensures
        rectangle_positions(p1, p2).len() > 0,
        rectangle_positions(p1, p2).first() == (p1.0 as int, p1.1 as int),
        rectangle_positions(p1, p2).last() == (p1.0 as int, p1.1 as int),
        eight_connected(rectangle_positions(p1, p2)),
{
    let p3 = rect_corner3(p1, p2);
    let p4 = rect_corner4(p1, p2);
    let l1 = line_points(p1.0 as int, p1.1 as int, p3.0 as int, p3.1 as int);
    let l2 = line_points(p3.0 as int, p3.1 as int, p2.0 as int, p2.1 as int);
    let l3 = line_points(p2.0 as int, p2.1 as int, p4.0 as int, p4.1 as int);
    let l4 = line_points(p4.0 as int, p4.1 as int, p1.0 as int, p1.1 as int);
    lemma_line_count_and_endpoints(p1.0 as int, p1.1 as int, p3.0 as int, p3.1 as int);
    lemma_line_count_and_endpoints(p3.0 as int, p3.1 as int, p2.0 as int, p2.1 as int);
    lemma_line_count_and_endpoints(p2.0 as int, p2.1 as int, p4.0 as int, p4.1 as int);
    lemma_line_count_and_endpoints(p4.0 as int, p4.1 as int, p1.0 as int, p1.1 as int);
    lemma_line_points_connected(p1.0 as int, p1.1 as int, p3.0 as int, p3.1 as int);
    lemma_line_points_connected(p3.0 as int, p3.1 as int, p2.0 as int, p2.1 as int);
    lemma_line_points_connected(p2.0 as int, p2.1 as int, p4.0 as int, p4.1 as int);
    lemma_line_points_connected(p4.0 as int, p4.1 as int, p1.0 as int, p1.1 as int);
    lemma_connected_concat(l1, l2);
    lemma_connected_concat(l1 + l2, l3);
    lemma_connected_concat(l1 + l2 + l3, l4);
    assert(rectangle_positions(p1, p2) == l1 + l2 + l3 + l4);
    assert((l1 + l2 + l3 + l4).last() == l4.last());
}

/// Drawing is deterministic for a shape with a fixed color: from the same
/// starting history, any two histories the drawing contract allows are the
/// same, write for write.
pub proof fn lemma_fixed_color_draw_deterministic(
    positions: Seq<(int, int)>,
    fixed: Option<Color>,
    before: Seq<PixelWrite>,
    after1: Seq<PixelWrite>,
    after2: Seq<PixelWrite>,
)
    requires
        fixed is Some,
        draw_post(positions, fixed, before, after1),
        draw_post(positions, fixed, before, after2),
    ensures
        after1 == after2,
{
    assert forall|j: int| 0 <= j < after1.len() implies #[trigger] after1[j] == after2[j] by {
        if before.len() <= j {
            assert(after1[j].pos() == after2[j].pos());
            assert(Some(after1[j].color) == fixed && Some(after2[j].color) == fixed);
        }
    }
    assert(after1 =~= after2);
}

/// Pixel positions are deterministic for every shape, a circle included:
/// from the same starting history, any two histories the drawing contract
/// allows write their pixels at the same positions, in the same order, even
/// where the colors differ.
pub proof fn lemma_draw_positions_deterministic(
    positions: Seq<(int, int)>,
    fixed: Option<Color>,
    before: Seq<PixelWrite>,
    after1: Seq<PixelWrite>,
    after2: Seq<PixelWrite>,
)
    requires
        draw_post(positions, fixed, before, after1),
        draw_post(positions, fixed, before, after2),
    ensures
        positions_of(after1) == positions_of(after2),
{
    assert forall|j: int| 0 <= j < after1.len() implies #[trigger] after1[j].pos()
        == after2[j].pos() by {
        if j < before.len() {
            assert(after1[j] == before[j] && after2[j] == before[j]);
        }
    }
    assert(positions_of(after1) =~= positions_of(after2));
}

} // verus!
