use doom_fire::stroke_painter::{heat_at, Vector2, SIZE};

fn float_level(d: f32) -> Option<u8> {
    if d < 15.0 {
        let norm = 36f32.powf(0.125);
        Some(((36.0 - d).powf(0.125) / norm * 35.0) as u8 + 1)
    } else {
        None
    }
}

#[test]
fn vector_new_keeps_its_components() {
    let v = Vector2::new(3, 7);
    assert_eq!(v.x, 3);
    assert_eq!(v.y, 7);
    assert_eq!(v, Vector2 { x: 3, y: 7 });
}

#[test]
fn vector_dot_and_norm_squared() {
    assert_eq!(Vector2::new(3, 4).dot(Vector2::new(5, 6)), 39);
    assert_eq!(Vector2::new(3, 4).norm_squared(), 25);
    assert_eq!(Vector2::new(0, 0).norm_squared(), 0);
    assert_eq!(Vector2::new(65535, 65535).norm_squared(), 8589672450);
    assert_eq!(Vector2::new(65535, 0).dot(Vector2::new(0, 65535)), 0);
    assert_eq!(Vector2::new(u32::MAX, u32::MAX).norm_squared(), 36893488130239234050);
    assert_eq!(Vector2::new(u32::MAX, 0).dot(Vector2::new(u32::MAX, 7)), 18446744065119617025);
}

#[test]
fn stroke_radius_is_fifteen() {
    assert_eq!(SIZE, 15);
}

#[test]
fn heat_on_the_stroke_is_the_hottest() {
    let a = Vector2::new(0, 0);
    let b = Vector2::new(3, 0);
    for x in 0..4 {
        assert_eq!(heat_at(a, b, x, 0), Some(36));
    }
    assert_eq!(heat_at(Vector2::new(2, 2), Vector2::new(8, 8), 5, 5), Some(36));
}

#[test]
fn heat_falls_with_distance() {
    let a = Vector2::new(100, 100);
    let expected = [36, 35, 35, 35, 35, 35, 35, 35, 34, 34, 34, 34, 34, 34, 33];
    for (d, &level) in expected.iter().enumerate() {
        let d = d as u32;
        assert_eq!(heat_at(a, a, 100 + d, 100), Some(level));
        assert_eq!(heat_at(a, a, 100 - d, 100), Some(level));
        assert_eq!(heat_at(a, a, 100, 100 + d), Some(level));
        assert_eq!(heat_at(a, a, 100, 100 - d), Some(level));
    }
}

#[test]
fn heat_ends_at_the_radius() {
    let a = Vector2::new(100, 100);
    assert_eq!(heat_at(a, a, 114, 100), Some(33));
    assert_eq!(heat_at(a, a, 115, 100), None);
    assert_eq!(heat_at(a, a, 116, 100), None);
    // Distance sqrt(9^2 + 12^2) is 15 exactly; sqrt(8^2 + 12^2) is below it.
    assert_eq!(heat_at(a, a, 109, 112), None);
    assert_eq!(heat_at(a, a, 108, 112), Some(33));
    assert_eq!(heat_at(a, a, 0, 0), None);
}

#[test]
fn heat_levels_change_where_the_formula_says() {
    let a = Vector2::new(100, 100);
    // The level is 35 up to distance 7.451 and 34 up to 13.516.
    // sqrt(55) = 7.416, sqrt(56) = 7.483: (107, 106, ..) has 49 + 6 = 55.
    assert_eq!(heat_at(a, a, 107, 100), Some(35));
    assert_eq!(heat_at(a, a, 106, 104), Some(35)); // 52
    assert_eq!(heat_at(a, a, 106, 105), Some(34)); // 61
    assert_eq!(heat_at(a, a, 113, 103), Some(34)); // 178, 13.34
    assert_eq!(heat_at(a, a, 113, 104), Some(33)); // 185, 13.60
}

#[test]
fn heat_of_a_point_is_that_of_the_degenerate_segment() {
    let a = Vector2::new(20, 20);
    let near = Vector2::new(21, 20);
    for x in 0..45 {
        for y in 0..45 {
            let dx = x as i32 - 20;
            let dy = y as i32 - 20;
            let d = ((dx * dx + dy * dy) as f32).sqrt();
            assert_eq!(heat_at(a, a, x, y), float_level(d));
            // A stroke of length one differs from the point only on the
            // side of its far end.
            if x <= 20 {
                assert_eq!(heat_at(a, near, x, y), heat_at(a, a, x, y));
            }
        }
    }
}

#[test]
fn heat_uses_the_clamped_projection() {
    let a = Vector2::new(10, 10);
    let b = Vector2::new(30, 10);
    // Before the start: distance to `a`.
    assert_eq!(heat_at(a, b, 2, 10), Some(34));
    assert_eq!(heat_at(a, b, 0, 10), Some(34));
    assert_eq!(heat_at(a, b, 1, 22), None);
    // Past the end: distance to `b`.
    assert_eq!(heat_at(a, b, 44, 10), Some(33));
    assert_eq!(heat_at(a, b, 45, 10), None);
    // Beside the segment: distance to the line.
    assert_eq!(heat_at(a, b, 20, 17), Some(35));
    assert_eq!(heat_at(a, b, 20, 18), Some(34));
    assert_eq!(heat_at(a, b, 20, 24), Some(33));
    assert_eq!(heat_at(a, b, 20, 25), None);
    // The direction of the stroke does not matter.
    for x in 0..50 {
        for y in 0..30 {
            assert_eq!(heat_at(a, b, x, y), heat_at(b, a, x, y));
        }
    }
}

#[test]
fn heat_along_a_slanted_stroke() {
    let a = Vector2::new(0, 0);
    let b = Vector2::new(20, 10);
    let row: Vec<Option<u8>> = (0..34).map(|x| heat_at(a, b, x, 0)).collect();
    let mut expected = vec![Some(36)];
    expected.extend(vec![Some(35); 16]);
    expected.extend(vec![Some(34); 13]);
    expected.extend(vec![Some(33), Some(33), None, None]);
    assert_eq!(row, expected);
}

#[test]
fn heat_agrees_with_the_floating_point_formula() {
    let a = Vector2::new(30, 40);
    let b = Vector2::new(90, 55);
    let (ax, ay, bx, by) = (30.0f32, 40.0f32, 90.0f32, 55.0f32);
    let (bax, bay) = (bx - ax, by - ay);
    for x in 0..120u32 {
        for y in 0..100u32 {
            let (pax, pay) = (x as f32 - ax, y as f32 - ay);
            let h = ((pax * bax + pay * bay) / (bax * bax + bay * bay)).min(1.0).max(0.0);
            let (rx, ry) = (pax - bax * h, pay - bay * h);
            let d = (rx * rx + ry * ry).sqrt();
            assert_eq!(heat_at(a, b, x, y), float_level(d));
        }
    }
}

#[test]
fn heat_at_the_far_corner_does_not_overflow() {
    let far = Vector2::new(65535, 65535);
    let origin = Vector2::new(0, 0);
    assert_eq!(heat_at(origin, far, 65535, 65535), Some(36));
    assert_eq!(heat_at(origin, far, 30000, 30000), Some(36));
    assert_eq!(heat_at(origin, far, 30000, 30001), Some(35));
    assert_eq!(heat_at(origin, far, 0, 65535), None);
    assert_eq!(heat_at(far, far, 65535, 65521), Some(33));
    assert_eq!(heat_at(Vector2::new(0, 65535), Vector2::new(65535, 0), 65535, 10), Some(35));
}

#[test]
fn heat_past_the_end_of_a_long_stroke() {
    let far = Vector2::new(65535, 65535);
    let origin = Vector2::new(0, 0);
    assert_eq!(heat_at(far, far, 65549, 65535), Some(33));
    assert_eq!(heat_at(far, far, 65550, 65535), None);
    assert_eq!(heat_at(origin, far, 65540, 65540), Some(35));
    assert_eq!(heat_at(origin, far, u32::MAX, u32::MAX), None);
    assert_eq!(heat_at(origin, origin, u32::MAX, 0), None);
    assert_eq!(heat_at(far, origin, u32::MAX, u32::MAX - 1), None);
    // Far from both ends and one cell off the line: distance sqrt(1/2).
    assert_eq!(heat_at(origin, far, 40000, 40001), Some(35));
    assert_eq!(heat_at(origin, far, 40000, 40021), Some(33));
    assert_eq!(heat_at(origin, far, 40000, 40022), None);
}

#[test]
fn heat_of_strokes_across_the_widest_surface() {
    let origin = Vector2::new(0, 0);
    let far = Vector2::new(u32::MAX, u32::MAX);
    // One cell off the diagonal is at distance sqrt(1/2).
    assert_eq!(heat_at(origin, far, 3_000_000_000, 3_000_000_000), Some(36));
    assert_eq!(heat_at(origin, far, 3_000_000_000, 3_000_000_001), Some(35));
    assert_eq!(heat_at(origin, far, 3_000_000_000, 3_000_000_021), Some(33));
    assert_eq!(heat_at(origin, far, 3_000_000_000, 3_000_000_022), None);
    assert_eq!(heat_at(far, origin, 3_000_000_001, 3_000_000_000), Some(35));
    assert_eq!(heat_at(far, origin, 0, u32::MAX), None);
    assert_eq!(heat_at(far, far, u32::MAX, u32::MAX - 14), Some(33));
    assert_eq!(heat_at(far, far, u32::MAX - 9, u32::MAX - 12), None);
    // The other diagonal.
    let right = Vector2::new(u32::MAX, 0);
    let down = Vector2::new(0, u32::MAX);
    assert_eq!(heat_at(right, down, u32::MAX - 5, 5), Some(36));
    assert_eq!(heat_at(right, down, u32::MAX - 5, 15), Some(35));
    assert_eq!(heat_at(right, down, u32::MAX - 5, 26), Some(33));
    assert_eq!(heat_at(right, down, u32::MAX - 5, 27), None);
}

#[test]
fn heat_beside_a_long_shallow_stroke() {
    let a = Vector2::new(0, 0);
    let b = Vector2::new(u32::MAX, 1);
    // Half way along, the stroke passes half a cell above row 0.
    let x = 1u32 << 31;
    let column: Vec<Option<u8>> = (0..18).map(|y| heat_at(a, b, x, y)).collect();
    let mut expected = vec![Some(35); 8];
    expected.extend(vec![Some(34); 7]);
    expected.extend(vec![Some(33), None, None]);
    assert_eq!(column, expected);
    let c = Vector2::new(u32::MAX, u32::MAX - 1);
    assert_eq!(heat_at(a, c, 2_000_000_000, 2_000_000_000), Some(35));
    assert_eq!(heat_at(a, c, 2_000_000_000, 2_000_000_010), Some(35));
    assert_eq!(heat_at(a, c, 2_000_000_000, 2_000_000_011), Some(34));
    assert_eq!(heat_at(a, c, 2_000_000_000, 2_000_000_020), Some(33));
    assert_eq!(heat_at(a, c, 2_000_000_000, 2_000_000_021), None);
}
