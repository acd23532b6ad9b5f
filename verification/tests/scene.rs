use gravity_sandbox::graphics::{
    Circle, Color, Draw, FrameBuffer, Line, Point, Rect, Scene, Shape, Size,
};

fn rect(x: i32, y: i32, w: i32, h: i32, z: u32, color: Color) -> Shape {
    Shape::Rect(Rect::new(Point::new(x, y), Point::new(w, h), z, color))
}

#[test]
fn scene_keeps_what_it_is_given() {
    let a = rect(0, 0, 1, 1, 2, Color::new(1, 0, 0));
    let b = rect(1, 1, 1, 1, 1, Color::new(2, 0, 0));
    let scene = Scene::new(vec![a, b], Size::new(3, 2));
    assert_eq!(*scene.contents(), vec![a, b]);
    assert_eq!(*scene.res(), Size::new(3, 2));
}

#[test]
fn scene_contents_can_be_replaced() {
    let a = rect(0, 0, 1, 1, 2, Color::new(1, 0, 0));
    let b = rect(1, 1, 1, 1, 1, Color::new(2, 0, 0));
    let mut scene = Scene::new(vec![a], Size::new(3, 2));
    *scene.contents_mut() = vec![b, a];
    assert_eq!(*scene.contents(), vec![b, a]);
    scene.contents_mut().push(b);
    assert_eq!(*scene.contents(), vec![b, a, b]);
    assert_eq!(*scene.res(), Size::new(3, 2));
}

#[test]
fn sort_orders_by_draw_order() {
    let a = rect(0, 0, 1, 1, 5, Color::new(1, 0, 0));
    let b = rect(0, 0, 1, 1, 0, Color::new(2, 0, 0));
    let c = rect(0, 0, 1, 1, 3, Color::new(3, 0, 0));
    let mut scene = Scene::new(vec![a, b, c], Size::new(1, 1));
    scene.sort_contents();
    assert_eq!(*scene.contents(), vec![b, c, a]);
}

#[test]
fn sort_keeps_equal_keys_in_order() {
    let a = rect(0, 0, 1, 1, 1, Color::new(1, 0, 0));
    let b = rect(0, 0, 1, 1, 0, Color::new(2, 0, 0));
    let c = rect(0, 0, 1, 1, 1, Color::new(3, 0, 0));
    let d = rect(0, 0, 1, 1, 0, Color::new(4, 0, 0));
    let e = rect(0, 0, 1, 1, 1, Color::new(5, 0, 0));
    let mut scene = Scene::new(vec![a, b, c, d, e], Size::new(1, 1));
    scene.sort_contents();
    assert_eq!(*scene.contents(), vec![b, d, a, c, e]);
}

#[test]
fn sort_of_nothing() {
    let mut scene = Scene::new(vec![], Size::new(1, 1));
    scene.sort_contents();
    assert!(scene.contents().is_empty());
}

#[test]
fn later_shapes_paint_over_earlier_ones() {
    let red = Color::new(255, 0, 0);
    let blue = Color::new(0, 0, 255);
    let scene = Scene::new(
        vec![rect(0, 0, 2, 1, 0, red), rect(1, 0, 2, 1, 0, blue)],
        Size::new(4, 1),
    );
    let fb = scene.to_frame_buffer();
    assert_eq!(fb.to_vec_u32(), vec![0x00ff_0000, 0x0000_00ff, 0x0000_00ff, 0]);
}

#[test]
fn sorted_scene_draws_lower_keys_first() {
    let red = Color::new(255, 0, 0);
    let blue = Color::new(0, 0, 255);
    // The red rectangle comes first in the list but has the higher key.
    let mut scene = Scene::new(
        vec![rect(0, 0, 2, 1, 7, red), rect(1, 0, 2, 1, 2, blue)],
        Size::new(4, 1),
    );
    scene.sort_contents();
    let fb = scene.to_frame_buffer();
    assert_eq!(fb.to_vec_u32(), vec![0x00ff_0000, 0x00ff_0000, 0x0000_00ff, 0]);
}

#[test]
fn draw_keeps_what_is_on_the_buffer() {
    let green = Color::new(0, 255, 0);
    let red = Color::new(255, 0, 0);
    let mut fb = FrameBuffer::new(Size::new(3, 1));
    fb.set_pixel(Point::new(2, 0), green);
    let scene = Scene::new(vec![rect(0, 0, 1, 1, 0, red)], Size::new(9, 9));
    scene.draw(&mut fb);
    assert_eq!(fb.to_vec_u32(), vec![0x00ff_0000, 0, 0x0000_ff00]);
}

#[test]
fn frame_buffer_of_a_scene_has_its_extent() {
    let scene = Scene::new(vec![], Size::new(7, 5));
    let fb = scene.to_frame_buffer();
    assert_eq!(*fb.size(), Size::new(7, 5));
    assert!(fb.to_vec_u32().iter().all(|w| *w == 0));
}

#[test]
fn scene_draws_every_kind_of_shape() {
    let white = Color::new(255, 255, 255);
    let scene = Scene::new(
        vec![
            Shape::Line(Line::new(Point::new(0, 0), Point::new(2, 0), 0, white)),
            Shape::Circle(Circle::new(Point::new(1, 2), 1, 0, white)),
            rect(0, 4, 1, 1, 0, white),
        ],
        Size::new(3, 5),
    );
    let fb = scene.to_frame_buffer();
    let w = 0x00ff_ffffu32;
    assert_eq!(
        fb.to_vec_u32(),
        vec![w, w, w, 0, w, 0, w, w, 0, 0, 0, 0, w, 0, 0]
    );
    let mut by_hand = FrameBuffer::new(Size::new(3, 5));
    for shape in scene.contents().iter() {
        shape.draw(&mut by_hand);
    }
    assert_eq!(by_hand.to_vec_u32(), fb.to_vec_u32());
}
