use gravity_sandbox::graphics::{Color, FrameBuffer, Point, Size};

fn black() -> Color {
    Color::new(0, 0, 0)
}

#[test]
fn new_buffer_is_black_and_sized() {
    let fb = FrameBuffer::new(Size::new(4, 3));
    assert_eq!(fb.buffer().len(), 12);
    assert!(fb.buffer().iter().all(|c| *c == black()));
    assert_eq!(*fb.size(), Size::new(4, 3));
}

#[test]
fn empty_buffer_has_no_pixels() {
    let mut fb = FrameBuffer::new(Size::new(0, 5));
    assert_eq!(fb.buffer().len(), 0);
    assert!(!fb.contains_point(Point::new(0, 0)));
    fb.set_pixel(Point::new(0, 0), Color::new(1, 1, 1));
    assert_eq!(fb.buffer().len(), 0);
}

#[test]
fn contains_point_is_half_open() {
    let fb = FrameBuffer::new(Size::new(4, 3));
    assert!(fb.contains_point(Point::new(0, 0)));
    assert!(fb.contains_point(Point::new(3, 2)));
    assert!(!fb.contains_point(Point::new(4, 2)));
    assert!(!fb.contains_point(Point::new(3, 3)));
    assert!(!fb.contains_point(Point::new(-1, 0)));
    assert!(!fb.contains_point(Point::new(0, -1)));
    assert!(!fb.contains_point(Point::new(i32::MAX, i32::MAX)));
    assert!(!fb.contains_point(Point::new(i32::MIN, i32::MIN)));
}

#[test]
fn set_pixel_writes_row_major() {
    let mut fb = FrameBuffer::new(Size::new(4, 3));
    let red = Color::new(255, 0, 0);
    fb.set_pixel(Point::new(1, 2), red);
    for (i, c) in fb.buffer().iter().enumerate() {
        if i == 2 * 4 + 1 {
            assert_eq!(*c, red);
        } else {
            assert_eq!(*c, black());
        }
    }
}

#[test]
fn set_pixel_outside_is_dropped() {
    let mut fb = FrameBuffer::new(Size::new(4, 3));
    let red = Color::new(255, 0, 0);
    fb.set_pixel(Point::new(4, 0), red);
    fb.set_pixel(Point::new(0, 3), red);
    fb.set_pixel(Point::new(-1, 1), red);
    fb.set_pixel(Point::new(1, -1), red);
    fb.plot(1 << 40, 0, red);
    fb.plot(0, -(1 << 40), red);
    assert!(fb.buffer().iter().all(|c| *c == black()));
    assert_eq!(fb.buffer().len(), 12);
}

#[test]
fn set_pixel_overwrites() {
    let mut fb = FrameBuffer::new(Size::new(2, 2));
    fb.set_pixel(Point::new(1, 1), Color::new(1, 2, 3));
    fb.set_pixel(Point::new(1, 1), Color::new(4, 5, 6));
    assert_eq!(fb.buffer()[3], Color::new(4, 5, 6));
}

#[test]
fn export_bytes_without_alpha() {
    let mut fb = FrameBuffer::new(Size::new(2, 2));
    fb.set_pixel(Point::new(0, 0), Color::new(1, 2, 3));
    fb.set_pixel(Point::new(1, 0), Color::new(4, 5, 6));
    fb.set_pixel(Point::new(0, 1), Color::new(7, 8, 9));
    fb.set_pixel(Point::new(1, 1), Color::new(10, 11, 12));
    assert_eq!(fb.to_vec_u8(false), vec![1, 2, 3, 4, 5, 6, 7, 8, 9, 10, 11, 12]);
}

#[test]
fn export_bytes_with_alpha() {
    let mut fb = FrameBuffer::new(Size::new(2, 1));
    fb.set_pixel(Point::new(0, 0), Color::new(1, 2, 3));
    fb.set_pixel(Point::new(1, 0), Color::new(4, 5, 6));
    assert_eq!(fb.to_vec_u8(true), vec![1, 2, 3, 255, 4, 5, 6, 255]);
}

#[test]
fn export_sizes() {
    let fb = FrameBuffer::new(Size::new(5, 7));
    assert_eq!(fb.to_vec_u8(false).len(), 5 * 7 * 3);
    assert_eq!(fb.to_vec_u8(true).len(), 5 * 7 * 4);
    assert_eq!(fb.to_vec_u32().len(), 5 * 7);
}

#[test]
fn export_packed_words() {
    let mut fb = FrameBuffer::new(Size::new(2, 1));
    fb.set_pixel(Point::new(1, 0), Color::new(0xab, 0xcd, 0xef));
    assert_eq!(fb.to_vec_u32(), vec![0, 0x00ab_cdef]);
}

#[test]
fn clone_copies_pixels() {
    let mut fb = FrameBuffer::new(Size::new(2, 2));
    fb.set_pixel(Point::new(1, 0), Color::new(9, 9, 9));
    let copy = fb.clone();
    fb.set_pixel(Point::new(0, 0), Color::new(1, 1, 1));
    assert_eq!(copy.to_vec_u32(), vec![0, 0x0009_0909, 0, 0]);
    assert_eq!(*copy.size(), Size::new(2, 2));
}
