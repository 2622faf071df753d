use geometrical_shapes::Canvas;
use geometrical_shapes::Circle;
use geometrical_shapes::Color;
use geometrical_shapes::Drawable;
use geometrical_shapes::Line;
use geometrical_shapes::PixelWrite;
use geometrical_shapes::Point;
use geometrical_shapes::Rectangle;
use geometrical_shapes::Triangle;

fn positions(canvas: &Canvas) -> Vec<(i32, i32)> {
    canvas.writes.iter().map(|w| (w.x, w.y)).collect()
}

fn white() -> Color {
    Color { r: 255, g: 255, b: 255, a: 255 }
}

#[test]
fn point_draw_writes_one_pixel_in_its_color() {
    let mut canvas = Canvas::new();
    Point::new(5, 7).draw(&mut canvas);
    assert_eq!(canvas.writes.len(), 1);
    assert_eq!(canvas.writes[0], PixelWrite { x: 5, y: 7, color: white() });
}

#[test]
fn point_draw_negative_coordinates() {
    let mut canvas = Canvas::new();
    Point::new(-3, -9).draw(&mut canvas);
    assert_eq!(positions(&canvas), vec![(-3, -9)]);
}

#[test]
fn degenerate_line_writes_one_pixel() {
    let p = Point::new(4, -2);
    let mut canvas = Canvas::new();
    Line::new(p, p).draw(&mut canvas);
    assert_eq!(canvas.writes.len(), 1);
    assert_eq!(canvas.writes[0], PixelWrite { x: 4, y: -2, color: white() });
}

#[test]
fn line_pixel_count_and_endpoints() {
    let mut canvas = Canvas::new();
    Line::new(Point::new(2, 3), Point::new(10, -4)).draw(&mut canvas);
    // steps = max(|10 - 2|, |-4 - 3|) = 8, so 9 pixels.
    assert_eq!(canvas.writes.len(), 9);
    assert_eq!((canvas.writes[0].x, canvas.writes[0].y), (2, 3));
    assert_eq!((canvas.writes[8].x, canvas.writes[8].y), (10, -4));
}

#[test]
fn line_exact_pixels_shallow_slope() {
    let mut canvas = Canvas::new();
    Line::new(Point::new(0, 0), Point::new(5, 2)).draw(&mut canvas);
    // Interpolating y by 2/5 per step and truncating toward zero.
    assert_eq!(positions(&canvas), vec![(0, 0), (1, 0), (2, 0), (3, 1), (4, 1), (5, 2)]);
    for w in &canvas.writes {
        assert_eq!(w.color, white());
    }
}

#[test]
fn line_truncates_toward_zero_on_negative_slope() {
    let mut canvas = Canvas::new();
    Line::new(Point::new(0, 0), Point::new(-5, -2)).draw(&mut canvas);
    // -0.4, -0.8 truncate to 0, not to -1: the path hugs zero.
    assert_eq!(
        positions(&canvas),
        vec![(0, 0), (-1, 0), (-2, 0), (-3, -1), (-4, -1), (-5, -2)]
    );
}

#[test]
fn line_is_eight_connected() {
    let mut canvas = Canvas::new();
    Line::new(Point::new(-7, 11), Point::new(12, -3)).draw(&mut canvas);
    for pair in canvas.writes.windows(2) {
        assert!((pair[1].x - pair[0].x).abs() <= 1);
        assert!((pair[1].y - pair[0].y).abs() <= 1);
    }
}

#[test]
fn triangle_draws_three_white_edges() {
    let mut canvas = Canvas::new();
    let t = Triangle::new(&Point::new(0, 0), &Point::new(2, 0), &Point::new(0, 2));
    t.draw(&mut canvas);
    assert_eq!(
        positions(&canvas),
        vec![
            (0, 0),
            (1, 0),
            (2, 0),
            (2, 0),
            (1, 1),
            (0, 2),
            (0, 2),
            (0, 1),
            (0, 0)
        ]
    );
    for w in &canvas.writes {
        assert_eq!(w.color, white());
    }
}

#[test]
fn rectangle_outline_is_closed_cycle() {
    let mut canvas = Canvas::new();
    Rectangle::new(&Point::new(0, 0), &Point::new(3, 2)).draw(&mut canvas);
    let ps = positions(&canvas);
    // Four edges through the derived corners (0,2) and (3,0), ending where
    // the outline began.
    assert_eq!(ps.len(), 14);
    assert_eq!(ps[0], (0, 0));
    assert_eq!(ps[ps.len() - 1], (0, 0));
    // The outline is 8-connected throughout, seams included.
    for pair in ps.windows(2) {
        assert!((pair[1].0 - pair[0].0).abs() <= 1);
        assert!((pair[1].1 - pair[0].1).abs() <= 1);
    }
    // Its bounding box is exactly x in [0, 3], y in [0, 2].
    assert_eq!(ps.iter().map(|p| p.0).min().unwrap(), 0);
    assert_eq!(ps.iter().map(|p| p.0).max().unwrap(), 3);
    assert_eq!(ps.iter().map(|p| p.1).min().unwrap(), 0);
    assert_eq!(ps.iter().map(|p| p.1).max().unwrap(), 2);
    // All four corners are on the outline.
    assert!(ps.contains(&(0, 2)));
    assert!(ps.contains(&(3, 2)));
    assert!(ps.contains(&(3, 0)));
}

#[test]
fn zero_width_rectangle_is_valid() {
    let mut canvas = Canvas::new();
    Rectangle::new(&Point::new(2, 0), &Point::new(2, 3)).draw(&mut canvas);
    for (x, _) in positions(&canvas) {
        assert_eq!(x, 2);
    }
    assert_eq!(canvas.writes[0].x, 2);
    assert_eq!(canvas.writes[0].y, 0);
}

#[test]
fn degenerate_circle_writes_center_only() {
    let mut canvas = Canvas::new();
    Circle::new(0, 0, 0).draw(&mut canvas);
    // One loop iteration with x = 0, y = 0: eight writes, all at the center.
    assert_eq!(canvas.writes.len(), 8);
    for w in &canvas.writes {
        assert_eq!((w.x, w.y), (0, 0));
    }
}

#[test]
fn circle_pixels_stay_in_band_around_radius() {
    let r: i64 = 10;
    let mut canvas = Canvas::new();
    Circle::new(3, -2, r as i32).draw(&mut canvas);
    assert!(canvas.writes.len() > 0);
    for (x, y) in positions(&canvas) {
        let dx = (x - 3) as i64;
        let dy = (y + 2) as i64;
        let err = dx * dx + dy * dy - r * r;
        assert!(-r <= err && err <= r);
    }
}

#[test]
fn circle_pixels_are_symmetric_about_center() {
    let mut canvas = Canvas::new();
    Circle::new(0, 0, 7).draw(&mut canvas);
    let ps = positions(&canvas);
    for &(x, y) in &ps {
        assert!(ps.contains(&(-x, y)));
        assert!(ps.contains(&(x, -y)));
        assert!(ps.contains(&(y, x)));
        assert!(ps.contains(&(-y, -x)));
    }
}

#[test]
fn circle_exact_pixels_radius_three() {
    let mut canvas = Canvas::new();
    Circle::new(0, 0, 3).draw(&mut canvas);
    let ps = positions(&canvas);
    // Offsets visited: (0,3), (1,3), (2,2) — one octet of eight for each.
    assert_eq!(ps.len(), 24);
    assert_eq!(&ps[0..8], &[
        (0, 3),
        (0, 3),
        (0, -3),
        (0, -3),
        (3, 0),
        (-3, 0),
        (3, 0),
        (-3, 0)
    ]);
    assert_eq!(&ps[8..16], &[
        (1, 3),
        (-1, 3),
        (1, -3),
        (-1, -3),
        (3, 1),
        (-3, 1),
        (3, -1),
        (-3, -1)
    ]);
    assert_eq!(&ps[16..24], &[
        (2, 2),
        (-2, 2),
        (2, -2),
        (-2, -2),
        (2, 2),
        (-2, 2),
        (2, -2),
        (-2, -2)
    ]);
}

#[test]
fn circle_colors_are_opaque() {
    let mut canvas = Canvas::new();
    Circle::new(5, 5, 4).draw(&mut canvas);
    for w in &canvas.writes {
        assert_eq!(w.color.a, 255);
    }
}

#[test]
fn drawing_twice_gives_identical_pixels_for_fixed_color_shapes() {
    let line = Line::new(Point::new(-4, 9), Point::new(13, 2));
    let rect = Rectangle::new(&Point::new(1, 1), &Point::new(-5, 6));
    let tri = Triangle::new(&Point::new(0, 0), &Point::new(9, 4), &Point::new(-3, 7));
    let mut c1 = Canvas::new();
    let mut c2 = Canvas::new();
    line.draw(&mut c1);
    rect.draw(&mut c1);
    tri.draw(&mut c1);
    line.draw(&mut c2);
    rect.draw(&mut c2);
    tri.draw(&mut c2);
    assert_eq!(c1.writes, c2.writes);
}

#[test]
fn drawing_a_circle_twice_matches_positions() {
    let circle = Circle::new(14, -6, 9);
    let mut c1 = Canvas::new();
    let mut c2 = Canvas::new();
    circle.draw(&mut c1);
    circle.draw(&mut c2);
    // Colors are randomized per pixel, but the positions must agree.
    assert_eq!(positions(&c1), positions(&c2));
}

#[test]
fn draw_appends_after_existing_writes() {
    let mut canvas = Canvas::new();
    Point::new(1, 1).draw(&mut canvas);
    let before = canvas.writes.clone();
    Point::new(2, 2).draw(&mut canvas);
    assert_eq!(&canvas.writes[0..1], &before[..]);
    assert_eq!(canvas.writes.len(), 2);
    assert_eq!((canvas.writes[1].x, canvas.writes[1].y), (2, 2));
}

#[test]
fn white_is_the_default_shape_color() {
    assert_eq!(Point::new(0, 0).color(), white());
    assert_eq!(Line::new(Point::new(0, 0), Point::new(1, 1)).color(), white());
    assert_eq!(
        Triangle::new(&Point::new(0, 0), &Point::new(1, 0), &Point::new(0, 1)).color(),
        white()
    );
    assert_eq!(Rectangle::new(&Point::new(0, 0), &Point::new(1, 1)).color(), white());
}

#[test]
fn circle_color_is_random_but_opaque() {
    let circle = Circle::new(0, 0, 1);
    for _ in 0..16 {
        let c = circle.color().a;
        assert_eq!(c, 255);
    }
}

#[test]
fn random_point_respects_bounds() {
    for _ in 0..32 {
        let p = Point::random(10, 20);
        assert!(0 <= p.0 && p.0 <= 10);
        assert!(0 <= p.1 && p.1 <= 20);
    }
}

#[test]
fn random_line_respects_bounds() {
    for _ in 0..16 {
        let l = Line::random(6, 4);
        assert!(0 <= l.start.0 && l.start.0 <= 6);
        assert!(0 <= l.start.1 && l.start.1 <= 4);
        assert!(0 <= l.end.0 && l.end.0 <= 6);
        assert!(0 <= l.end.1 && l.end.1 <= 4);
    }
}

#[test]
fn random_circle_respects_bounds() {
    for _ in 0..16 {
        let c = Circle::random(100, 80);
        assert!(0 <= c.center.0 && c.center.0 <= 100);
        assert!(0 <= c.center.1 && c.center.1 <= 80);
        assert!(9 <= c.radius && c.radius <= 500);
    }
}

#[test]
fn canvas_reports_its_writes() {
    let mut canvas = Canvas::new();
    assert_eq!(canvas.len(), 0);
    Point::new(8, -1).draw(&mut canvas);
    assert_eq!(canvas.len(), 1);
    let w = canvas.get(0);
    assert_eq!((w.x, w.y), (8, -1));
}
