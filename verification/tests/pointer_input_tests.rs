use doom_fire::pointer_input::PointerInput;
use doom_fire::stroke_painter::Vector2;

#[test]
fn a_new_pointer_is_idle_at_the_origin() {
    let pointer = PointerInput::new(Vector2::new(640, 480));
    assert!(!pointer.drawing);
    assert_eq!(pointer.position, Vector2::new(0, 0));
    assert_eq!(pointer.last_position, Vector2::new(0, 0));
    assert_eq!(pointer.limit, Vector2::new(640, 480));
}

#[test]
fn down_starts_a_stroke_at_the_event() {
    let mut pointer = PointerInput::new(Vector2::new(640, 480));
    pointer.down(10, 20);
    pointer.move_to(30, 40);
    pointer.up();
    pointer.down(100, 200);
    assert!(pointer.drawing);
    assert_eq!(pointer.position, Vector2::new(100, 200));
    // The last position follows, so that no stroke joins the earlier one.
    assert_eq!(pointer.last_position, Vector2::new(100, 200));
}

#[test]
fn moves_leave_the_last_position_alone() {
    let mut pointer = PointerInput::new(Vector2::new(640, 480));
    pointer.down(10, 20);
    pointer.move_to(30, 40);
    pointer.move_to(50, 60);
    assert_eq!(pointer.position, Vector2::new(50, 60));
    assert_eq!(pointer.last_position, Vector2::new(10, 20));
    pointer.painted();
    assert_eq!(pointer.last_position, Vector2::new(50, 60));
    assert!(pointer.drawing);
}

#[test]
fn moves_are_ignored_while_idle() {
    let mut pointer = PointerInput::new(Vector2::new(640, 480));
    pointer.move_to(30, 40);
    assert_eq!(pointer, PointerInput::new(Vector2::new(640, 480)));
    pointer.down(1, 2);
    pointer.up();
    assert!(!pointer.drawing);
    pointer.move_to(30, 40);
    assert_eq!(pointer.position, Vector2::new(1, 2));
    assert_eq!(pointer.last_position, Vector2::new(1, 2));
}

#[test]
fn positions_are_clamped_to_the_surface() {
    let mut pointer = PointerInput::new(Vector2::new(640, 480));
    pointer.down(-5, 481);
    assert_eq!(pointer.position, Vector2::new(0, 480));
    pointer.move_to(641, -1);
    assert_eq!(pointer.position, Vector2::new(640, 0));
    pointer.move_to(640, 480);
    assert_eq!(pointer.position, Vector2::new(640, 480));
    pointer.move_to(i64::MAX, i64::MIN);
    assert_eq!(pointer.position, Vector2::new(640, 0));
    pointer.down(i64::MIN, i64::MAX);
    assert_eq!(pointer.position, Vector2::new(0, 480));
    assert_eq!(pointer.last_position, Vector2::new(0, 480));
}

#[test]
fn a_wide_surface_keeps_every_position() {
    let mut pointer = PointerInput::new(Vector2::new(70_000, u32::MAX));
    pointer.down(70_000, 5_000_000_000);
    assert_eq!(pointer.position, Vector2::new(70_000, u32::MAX));
    pointer.move_to(69_999, 4_294_967_294);
    assert_eq!(pointer.position, Vector2::new(69_999, 4_294_967_294));
    pointer.move_to(70_001, -1);
    assert_eq!(pointer.position, Vector2::new(70_000, 0));
    assert_eq!(pointer.last_position, Vector2::new(70_000, u32::MAX));
}
