use gravity_sandbox::graphics::{Circle, Color, Line, Point, Shape};
use gravity_sandbox::simulation::{
    shapes, Sprite, Trail, BODY_ORDER, MAX_TRAIL_LENGTH, MOMENTUM_ORDER, TRAIL_ORDER,
};

#[test]
fn new_trail_is_empty() {
    let trail: Trail<(i32, i32)> = Trail::new();
    assert_eq!(trail.len(), 0);
    assert!(trail.points().is_empty());
}

#[test]
fn trail_grows_at_its_end() {
    let mut trail: Trail<u32> = Trail::new();
    trail.push(3);
    trail.push(1);
    trail.push(2);
    assert_eq!(*trail.points(), vec![3, 1, 2]);
    assert_eq!(trail.len(), 3);
}

#[test]
fn trail_is_capped_at_its_maximum() {
    assert_eq!(MAX_TRAIL_LENGTH, 1000);
    let mut trail: Trail<u32> = Trail::new();
    for i in 0..1001u32 {
        trail.push(i);
    }
    assert_eq!(trail.len(), 1000);
    let expected: Vec<u32> = (1..1001).collect();
    assert_eq!(*trail.points(), expected);
}

#[test]
fn full_trail_holds_exactly_the_maximum() {
    let mut trail: Trail<u32> = Trail::new();
    for i in 0..1000u32 {
        trail.push(i);
    }
    assert_eq!(trail.len(), 1000);
    assert_eq!(trail.points()[0], 0);
    assert_eq!(trail.points()[999], 999);
}

#[test]
fn trail_always_holds_the_latest_positions() {
    let mut trail: Trail<(f32, f32)> = Trail::new();
    for i in 0..2500u32 {
        trail.push((i as f32, -(i as f32)));
        let held = trail.points();
        let n = (i + 1) as usize;
        assert_eq!(held.len(), if n < 1000 { n } else { 1000 });
        assert_eq!(*held.last().unwrap(), (i as f32, -(i as f32)));
        let first = if n > 1000 { n - 1000 } else { 0 };
        assert_eq!(held[0], (first as f32, -(first as f32)));
    }
    let held = trail.points();
    for k in 1..held.len() {
        assert_eq!(held[k].0, held[k - 1].0 + 1.0);
    }
}

#[test]
fn trail_clone_holds_the_same_positions() {
    let mut trail: Trail<u32> = Trail::new();
    trail.push(4);
    trail.push(5);
    let copy = trail.clone();
    trail.push(6);
    assert_eq!(*copy.points(), vec![4, 5]);
}

fn sprite(trail: Vec<Point>) -> Sprite {
    Sprite {
        center: Point::new(10, 20),
        radius: 4,
        color: Color::new(1, 2, 3),
        momentum_from: Point::new(11, 21),
        momentum_to: Point::new(30, 40),
        trail,
    }
}

#[test]
fn sprite_without_trail_is_disc_and_indicator() {
    assert_eq!((TRAIL_ORDER, BODY_ORDER, MOMENTUM_ORDER), (0, 1, 2));
    let expected = vec![
        Shape::Circle(Circle::new(Point::new(10, 20), 4, 1, Color::new(1, 2, 3))),
        Shape::Line(Line::new(
            Point::new(11, 21),
            Point::new(30, 40),
            2,
            Color::new(255, 255, 255),
        )),
    ];
    assert_eq!(sprite(vec![]).shape(), expected);
    // One position alone makes no segment.
    assert_eq!(sprite(vec![Point::new(1, 1)]).shape(), expected);
}

#[test]
fn sprite_trail_joins_neighbouring_positions() {
    let a = Point::new(1, 1);
    let b = Point::new(2, 3);
    let c = Point::new(5, 8);
    let color = Color::new(1, 2, 3);
    let out = sprite(vec![a, b, c]).shape();
    assert_eq!(out.len(), 4);
    assert_eq!(out[2], Shape::Line(Line::new(a, b, 0, color)));
    assert_eq!(out[3], Shape::Line(Line::new(b, c, 0, color)));
}

#[test]
fn shapes_of_all_sprites_in_order() {
    let one = sprite(vec![Point::new(0, 0), Point::new(1, 1)]);
    let mut two = sprite(vec![]);
    two.center = Point::new(-5, -5);
    let mut expected = one.shape();
    expected.extend(two.shape());
    assert_eq!(expected.len(), 5);
    assert_eq!(shapes(&vec![one, two]), expected);
    assert_eq!(shapes(&vec![]), vec![]);
}
