use gravity_sandbox::graphics::{Circle, Color, Draw, FrameBuffer, Line, Point, Rect, Shape, Size};

fn ink() -> Color {
    Color::new(200, 100, 50)
}

fn lit(fb: &FrameBuffer) -> Vec<(u32, u32)> {
    let width = fb.size().width;
    let mut out = Vec::new();
    for (i, c) in fb.buffer().iter().enumerate() {
        if *c != Color::new(0, 0, 0) {
            assert_eq!(*c, ink());
            out.push((i as u32 % width, i as u32 / width));
        }
    }
    out
}

fn sorted(mut cells: Vec<(u32, u32)>) -> Vec<(u32, u32)> {
    cells.sort_by_key(|c| (c.1, c.0));
    cells
}

fn line_cells(x0: i32, y0: i32, x1: i32, y1: i32) -> Vec<(u32, u32)> {
    let mut fb = FrameBuffer::new(Size::new(12, 12));
    Line::new(Point::new(x0, y0), Point::new(x1, y1), 0, ink()).draw(&mut fb);
    lit(&fb)
}

#[test]
fn level_line_has_six_pixels() {
    assert_eq!(line_cells(0, 0, 5, 0), vec![(0, 0), (1, 0), (2, 0), (3, 0), (4, 0), (5, 0)]);
}

#[test]
fn level_line_backwards_is_the_same() {
    assert_eq!(line_cells(5, 0, 0, 0), vec![(0, 0), (1, 0), (2, 0), (3, 0), (4, 0), (5, 0)]);
}

#[test]
fn line_between_equal_ends_is_one_pixel() {
    assert_eq!(line_cells(3, 4, 3, 4), vec![(3, 4)]);
}

#[test]
fn upright_line() {
    assert_eq!(line_cells(2, 1, 2, 4), vec![(2, 1), (2, 2), (2, 3), (2, 4)]);
    assert_eq!(line_cells(2, 4, 2, 1), vec![(2, 1), (2, 2), (2, 3), (2, 4)]);
}

#[test]
fn diagonal_line() {
    assert_eq!(line_cells(0, 0, 3, 3), vec![(0, 0), (1, 1), (2, 2), (3, 3)]);
    assert_eq!(line_cells(3, 0, 0, 3), vec![(3, 0), (2, 1), (1, 2), (0, 3)]);
}

#[test]
fn shallow_line_rounds_to_nearest() {
    assert_eq!(
        line_cells(0, 0, 5, 2),
        vec![(0, 0), (1, 0), (2, 1), (3, 1), (4, 2), (5, 2)]
    );
}

#[test]
fn shallow_line_rounds_half_away_from_start() {
    // Across by one over two steps along: the middle cell is the tie.
    assert_eq!(line_cells(0, 0, 2, 1), vec![(0, 0), (1, 1), (2, 1)]);
    assert_eq!(sorted(line_cells(2, 1, 0, 0)), sorted(vec![(2, 1), (1, 0), (0, 0)]));
}

#[test]
fn steep_line_rounds_to_nearest() {
    assert_eq!(
        line_cells(0, 0, 2, 5),
        vec![(0, 0), (0, 1), (1, 2), (1, 3), (2, 4), (2, 5)]
    );
}

#[test]
fn line_has_one_pixel_per_step_along() {
    for x1 in -3..15 {
        for y1 in -3..15 {
            let mut fb = FrameBuffer::new(Size::new(40, 40));
            Line::new(Point::new(10, 11), Point::new(10 + x1, 11 + y1), 0, ink()).draw(&mut fb);
            let cells = lit(&fb);
            let dx: i32 = x1;
            let dy: i32 = y1;
            let along = if dx.abs() > dy.abs() { dx.abs() } else { dy.abs() } as usize;
            assert_eq!(cells.len(), along + 1);
            assert!(cells.contains(&(10, 11)));
            assert!(cells.contains(&((10 + x1) as u32, (11 + y1) as u32)));
        }
    }
}

#[test]
fn line_is_clipped_to_the_buffer() {
    let mut fb = FrameBuffer::new(Size::new(4, 4));
    Line::new(Point::new(-3, 1), Point::new(9, 1), 0, ink()).draw(&mut fb);
    assert_eq!(lit(&fb), vec![(0, 1), (1, 1), (2, 1), (3, 1)]);
}

#[test]
fn line_far_outside_draws_nothing() {
    let mut fb = FrameBuffer::new(Size::new(4, 4));
    Line::new(Point::new(-300, -7), Point::new(-200, -5), 0, ink()).draw(&mut fb);
    assert_eq!(lit(&fb), vec![]);
}

#[test]
fn line_outline_is_the_line() {
    let line = Line::new(Point::new(1, 1), Point::new(6, 3), 0, ink());
    let mut filled = FrameBuffer::new(Size::new(8, 8));
    let mut outlined = FrameBuffer::new(Size::new(8, 8));
    line.draw(&mut filled);
    line.draw_outline(&mut outlined);
    assert_eq!(filled.to_vec_u32(), outlined.to_vec_u32());
}

#[test]
fn line_accessors() {
    let mut line = Line::new(Point::new(1, 2), Point::new(3, 4), 7, ink());
    assert_eq!(*line.pos_1(), Point::new(1, 2));
    assert_eq!(*line.pos_2(), Point::new(3, 4));
    assert_eq!(*line.color(), ink());
    assert_eq!(line.z_index(), 7);
    line.set_pos_1(Point::new(5, 6));
    line.set_pos_2(Point::new(7, 8));
    line.set_color(Color::new(1, 1, 1));
    line.set_z_index(9);
    assert_eq!(line, Line::new(Point::new(5, 6), Point::new(7, 8), 9, Color::new(1, 1, 1)));
}

#[test]
fn line_offset_and_scale() {
    let line = Line::new(Point::new(1, -2), Point::new(3, 4), 7, ink());
    assert_eq!(
        line.offset(Point::new(10, 20)),
        Line::new(Point::new(11, 18), Point::new(13, 24), 7, ink())
    );
    assert_eq!(line.scale(3), Line::new(Point::new(3, -6), Point::new(9, 12), 7, ink()));
    assert_eq!(line.scale(-1), Line::new(Point::new(-1, 2), Point::new(-3, -4), 7, ink()));
    // The starting shape is untouched.
    assert_eq!(line, Line::new(Point::new(1, -2), Point::new(3, 4), 7, ink()));
}

#[test]
fn offset_and_scale_stay_within_range() {
    let line = Line::new(Point::new(i32::MAX, i32::MIN), Point::new(5, -5), 0, ink());
    assert_eq!(
        line.offset(Point::new(1, -1)),
        Line::new(Point::new(i32::MAX, i32::MIN), Point::new(6, -6), 0, ink())
    );
    assert_eq!(
        line.scale(2),
        Line::new(Point::new(i32::MAX, i32::MIN), Point::new(10, -10), 0, ink())
    );
}

#[test]
fn offset_then_scale_differs_from_scale_then_offset() {
    let line = Line::new(Point::new(1, 1), Point::new(2, 2), 0, ink());
    let by = Point::new(3, 3);
    assert_eq!(
        line.offset(by).scale(2),
        Line::new(Point::new(8, 8), Point::new(10, 10), 0, ink())
    );
    assert_eq!(
        line.scale(2).offset(by),
        Line::new(Point::new(5, 5), Point::new(7, 7), 0, ink())
    );
}

#[test]
fn rect_fill_is_half_open() {
    let mut fb = FrameBuffer::new(Size::new(6, 6));
    Rect::new(Point::new(1, 2), Point::new(3, 2), 0, ink()).draw(&mut fb);
    assert_eq!(lit(&fb), vec![(1, 2), (2, 2), (3, 2), (1, 3), (2, 3), (3, 3)]);
}

#[test]
fn rect_without_extent_fills_nothing() {
    let mut fb = FrameBuffer::new(Size::new(6, 6));
    Rect::new(Point::new(1, 2), Point::new(0, 4), 0, ink()).draw(&mut fb);
    Rect::new(Point::new(1, 2), Point::new(4, 0), 0, ink()).draw(&mut fb);
    assert_eq!(lit(&fb), vec![]);
}

#[test]
fn rect_fill_is_clipped() {
    let mut fb = FrameBuffer::new(Size::new(3, 3));
    Rect::new(Point::new(-2, -2), Point::new(4, 3), 0, ink()).draw(&mut fb);
    assert_eq!(lit(&fb), vec![(0, 0), (1, 0)]);
}

#[test]
fn rect_extent_drops_signs() {
    let mut rect = Rect::new(Point::new(0, 0), Point::new(-3, -2), 0, ink());
    assert_eq!(*rect.size(), Size::new(3, 2));
    rect.set_size(Point::new(4, -5));
    assert_eq!(*rect.size(), Size::new(4, 5));
    rect.set_size(Point::new(i32::MIN, i32::MAX));
    assert_eq!(*rect.size(), Size::new(0x8000_0000, 0x7fff_ffff));
}

#[test]
fn rect_outline_runs_corner_to_corner() {
    let mut fb = FrameBuffer::new(Size::new(7, 7));
    Rect::new(Point::new(1, 1), Point::new(3, 2), 0, ink()).draw_outline(&mut fb);
    assert_eq!(
        lit(&fb),
        vec![
            (1, 1),
            (2, 1),
            (3, 1),
            (4, 1),
            (1, 2),
            (4, 2),
            (1, 3),
            (2, 3),
            (3, 3),
            (4, 3)
        ]
    );
}

#[test]
fn rect_outline_of_nothing_is_a_pixel() {
    let mut fb = FrameBuffer::new(Size::new(4, 4));
    Rect::new(Point::new(2, 1), Point::new(0, 0), 0, ink()).draw_outline(&mut fb);
    assert_eq!(lit(&fb), vec![(2, 1)]);
}

#[test]
fn rect_accessors() {
    let mut rect = Rect::new(Point::new(1, 2), Point::new(3, 4), 5, ink());
    assert_eq!(*rect.pos(), Point::new(1, 2));
    assert_eq!(*rect.color(), ink());
    assert_eq!(rect.z_index(), 5);
    rect.set_pos(Point::new(-1, -2));
    rect.set_color(Color::new(2, 2, 2));
    rect.set_z_index(6);
    assert_eq!(rect, Rect::new(Point::new(-1, -2), Point::new(3, 4), 6, Color::new(2, 2, 2)));
}

#[test]
fn rect_offset_and_scale() {
    let rect = Rect::new(Point::new(1, 2), Point::new(3, 5), 5, ink());
    assert_eq!(
        rect.offset(Point::new(-4, 4)),
        Rect::new(Point::new(-3, 6), Point::new(3, 5), 5, ink())
    );
    assert_eq!(rect.scale(2), Rect::new(Point::new(2, 4), Point::new(6, 10), 5, ink()));
    assert_eq!(rect.scale(-2), Rect::new(Point::new(-2, -4), Point::new(6, 10), 5, ink()));
    assert_eq!(rect.scale(0), Rect::new(Point::new(0, 0), Point::new(0, 0), 5, ink()));
}

#[test]
fn rect_scale_caps_the_extent() {
    let mut rect = Rect::new(Point::new(0, 0), Point::new(0, 0), 0, ink());
    rect.set_size(Point::new(i32::MIN, 3));
    assert_eq!(*rect.scale(4).size(), Size::new(u32::MAX, 12));
}

#[test]
fn circle_outline_of_radius_zero_is_one_pixel() {
    let mut fb = FrameBuffer::new(Size::new(9, 9));
    Circle::new(Point::new(4, 5), 0, 0, ink()).draw_outline(&mut fb);
    assert_eq!(lit(&fb), vec![(4, 5)]);
}

#[test]
fn circle_outline_of_radius_one_is_one_pixel() {
    let mut fb = FrameBuffer::new(Size::new(9, 9));
    Circle::new(Point::new(4, 5), 1, 0, ink()).draw_outline(&mut fb);
    assert_eq!(lit(&fb), vec![(4, 5)]);
}

#[test]
fn circle_outline_of_radius_two() {
    let mut fb = FrameBuffer::new(Size::new(9, 9));
    Circle::new(Point::new(4, 4), 2, 0, ink()).draw_outline(&mut fb);
    // The walk passes (0, 2), (1, 2) and (2, 1); all their mirror images.
    let mut expected = vec![
        (4, 6),
        (4, 2),
        (6, 4),
        (2, 4),
        (5, 6),
        (3, 6),
        (5, 2),
        (3, 2),
        (6, 5),
        (6, 3),
        (2, 5),
        (2, 3),
    ];
    expected = sorted(expected);
    assert_eq!(sorted(lit(&fb)), expected);
}

#[test]
fn circle_outline_of_radius_three() {
    let mut fb = FrameBuffer::new(Size::new(11, 11));
    Circle::new(Point::new(5, 5), 3, 0, ink()).draw_outline(&mut fb);
    // The walk passes (0, 3), (1, 3), (2, 2) and (3, 1).
    let mut expected: Vec<(u32, u32)> = Vec::new();
    for (x, y) in [(0i32, 3i32), (1, 3), (2, 2), (3, 1)] {
        for (sx, sy) in [(1, 1), (1, -1), (-1, 1), (-1, -1)] {
            expected.push(((5 + sx * x) as u32, (5 + sy * y) as u32));
            expected.push(((5 + sx * y) as u32, (5 + sy * x) as u32));
        }
    }
    expected = sorted(expected);
    expected.dedup();
    assert_eq!(sorted(lit(&fb)), expected);
}

#[test]
fn circle_outline_is_symmetric_and_near_the_circle() {
    for r in 2..30i32 {
        let mut fb = FrameBuffer::new(Size::new(80, 80));
        Circle::new(Point::new(40, 40), r, 0, ink()).draw_outline(&mut fb);
        let cells = lit(&fb);
        assert!(!cells.is_empty());
        for (x, y) in cells.iter() {
            let dx = *x as i32 - 40;
            let dy = *y as i32 - 40;
            assert!(cells.contains(&((40 - dx) as u32, *y)));
            assert!(cells.contains(&(*x, (40 - dy) as u32)));
            assert!(cells.contains(&((40 + dy) as u32, (40 + dx) as u32)));
            let off = dx * dx + dy * dy - r * r;
            assert!(-3 * r <= off && off <= r, "r {} dx {} dy {}", r, dx, dy);
        }
        assert!(cells.contains(&(40, (40 + r) as u32)));
        assert!(cells.contains(&((40 + r) as u32, 40)));
    }
}

#[test]
fn circle_fill_of_radius_two() {
    let mut fb = FrameBuffer::new(Size::new(9, 9));
    Circle::new(Point::new(4, 4), 2, 0, ink()).draw(&mut fb);
    let mut expected: Vec<(u32, u32)> = Vec::new();
    for dy in -2..2i32 {
        for dx in -2..2i32 {
            if dx * dx + dy * dy <= 4 {
                expected.push(((4 + dx) as u32, (4 + dy) as u32));
            }
        }
    }
    assert_eq!(expected.len(), 11);
    assert_eq!(lit(&fb), expected);
}

#[test]
fn circle_fill_of_radius_zero_is_empty() {
    let mut fb = FrameBuffer::new(Size::new(9, 9));
    Circle::new(Point::new(4, 4), 0, 0, ink()).draw(&mut fb);
    assert_eq!(lit(&fb), vec![]);
}

#[test]
fn circle_fill_of_radius_one() {
    let mut fb = FrameBuffer::new(Size::new(9, 9));
    Circle::new(Point::new(4, 4), 1, 0, ink()).draw(&mut fb);
    assert_eq!(lit(&fb), vec![(4, 3), (3, 4), (4, 4)]);
}

#[test]
fn circle_fill_is_clipped() {
    let mut fb = FrameBuffer::new(Size::new(3, 3));
    Circle::new(Point::new(0, 0), 2, 0, ink()).draw(&mut fb);
    assert_eq!(lit(&fb), vec![(0, 0), (1, 0), (0, 1), (1, 1)]);
}

#[test]
fn circle_off_screen_draws_nothing() {
    let mut fb = FrameBuffer::new(Size::new(5, 5));
    Circle::new(Point::new(-10, 2), 3, 0, ink()).draw(&mut fb);
    Circle::new(Point::new(20, 2), 3, 0, ink()).draw(&mut fb);
    Circle::new(Point::new(2, -10), 3, 0, ink()).draw(&mut fb);
    Circle::new(Point::new(2, 20), 3, 0, ink()).draw(&mut fb);
    assert_eq!(lit(&fb), vec![]);
}

#[test]
fn circle_radius_drops_sign() {
    let mut circle = Circle::new(Point::new(0, 0), -4, 0, ink());
    assert_eq!(*circle.radius(), 4);
    circle.set_radius(-9);
    assert_eq!(*circle.radius(), 9);
    circle.set_radius(i32::MIN);
    assert_eq!(*circle.radius(), 0x8000_0000);
}

#[test]
fn circle_accessors() {
    let mut circle = Circle::new(Point::new(1, 2), 3, 4, ink());
    assert_eq!(*circle.pos(), Point::new(1, 2));
    assert_eq!(*circle.color(), ink());
    assert_eq!(circle.z_index(), 4);
    circle.set_pos(Point::new(5, 6));
    circle.color_mut(Color::new(3, 3, 3));
    circle.set_z_index(8);
    assert_eq!(circle, Circle::new(Point::new(5, 6), 3, 8, Color::new(3, 3, 3)));
}

#[test]
fn circle_offset_and_scale() {
    let circle = Circle::new(Point::new(1, 2), 3, 4, ink());
    assert_eq!(circle.offset(Point::new(1, 1)), Circle::new(Point::new(2, 3), 3, 4, ink()));
    assert_eq!(circle.scale(5), Circle::new(Point::new(5, 10), 15, 4, ink()));
    assert_eq!(circle.scale(-5), Circle::new(Point::new(-5, -10), 15, 4, ink()));
}

#[test]
fn shape_dispatches_to_its_variant() {
    let line = Line::new(Point::new(0, 1), Point::new(4, 1), 3, ink());
    let rect = Rect::new(Point::new(1, 1), Point::new(2, 2), 4, ink());
    let circle = Circle::new(Point::new(3, 3), 2, 5, ink());
    for (shape, z) in [
        (Shape::Line(line), 3u32),
        (Shape::Rect(rect), 4),
        (Shape::Circle(circle), 5),
    ] {
        assert_eq!(shape.z_index(), z);
        let mut a = FrameBuffer::new(Size::new(8, 8));
        let mut b = FrameBuffer::new(Size::new(8, 8));
        let mut c = FrameBuffer::new(Size::new(8, 8));
        let mut d = FrameBuffer::new(Size::new(8, 8));
        shape.draw(&mut a);
        shape.draw_outline(&mut c);
        match shape {
            Shape::Line(s) => {
                s.draw(&mut b);
                s.draw_outline(&mut d);
            }
            Shape::Rect(s) => {
                s.draw(&mut b);
                s.draw_outline(&mut d);
            }
            Shape::Circle(s) => {
                s.draw(&mut b);
                s.draw_outline(&mut d);
            }
        }
        assert_eq!(a.to_vec_u32(), b.to_vec_u32());
        assert_eq!(c.to_vec_u32(), d.to_vec_u32());
    }
    let mut moved = Shape::Rect(rect).offset(Point::new(1, 0)).scale(2);
    moved.set_z_index(9);
    assert_eq!(moved, Shape::Rect(Rect::new(Point::new(4, 2), Point::new(4, 4), 9, ink())));
}

#[test]
fn buffer_draws_any_shape() {
    let rect = Rect::new(Point::new(1, 1), Point::new(2, 2), 4, ink());
    let mut direct = FrameBuffer::new(Size::new(6, 6));
    let mut through = FrameBuffer::new(Size::new(6, 6));
    rect.draw(&mut direct);
    through.draw(&rect);
    assert_eq!(direct.to_vec_u32(), through.to_vec_u32());
    let mut direct = FrameBuffer::new(Size::new(6, 6));
    let mut through = FrameBuffer::new(Size::new(6, 6));
    rect.draw_outline(&mut direct);
    through.draw_outline(&rect);
    assert_eq!(direct.to_vec_u32(), through.to_vec_u32());
    assert_eq!(lit(&through).len(), 8);
}
