//! The arrow of the mouse.
use evp::pointer::{pixel, scaled_pixel, svg, HEIGHT, MIN, WIDTH};

#[test]
fn pressed_pointer_is_smaller() {
    let coverage = |num, den| {
        (MIN..HEIGHT)
            .flat_map(|y| (MIN..WIDTH).map(move |x| scaled_pixel(x, y, num, den).1 as f32 / 16.0))
            .sum::<f32>()
    };
    assert!(coverage(41, 50) < coverage(1, 1) * 0.75);
}

#[test]
fn pointer_has_dark_body_white_outline_and_transparent_exterior() {
    assert_eq!(pixel(3, 10), ([17; 3], 16));
    assert!(pixel(0, 10).0[0] > 150);
    assert_eq!(pixel(20, 29).1, 0);
    assert!((MIN..HEIGHT).any(|y| (MIN..WIDTH).any(|x| {
        let a = pixel(x, y).1;
        a > 0 && a < 16
    })));
    assert!(svg().contains("stroke-width=\"1.5\""));
}

/// The same shape by floating-point geometry.
fn float_sample(x: f32, y: f32) -> Option<f32> {
    let points: [(f32, f32); 7] = [
        (0.0, 0.0),
        (0.0, 23.0),
        (5.8, 17.5),
        (10.3, 27.0),
        (14.0, 25.2),
        (9.5, 15.8),
        (18.0, 15.8),
    ];
    let mut inside = false;
    let mut distance = f32::INFINITY;
    for i in 0..7 {
        let (ax, ay) = points[i];
        let (bx, by) = points[(i + 1) % 7];
        if (ay > y) != (by > y) && x < (bx - ax) * (y - ay) / (by - ay) + ax {
            inside = !inside;
        }
        let dx = bx - ax;
        let dy = by - ay;
        let t = (((x - ax) * dx + (y - ay) * dy) / (dx * dx + dy * dy)).clamp(0.0, 1.0);
        distance = distance.min((x - ax - t * dx).hypot(y - ay - t * dy));
    }
    if distance <= 0.75 {
        Some(255.0)
    } else if inside {
        Some(17.0)
    } else {
        None
    }
}

fn float_pixel(x: i32, y: i32, scale: f32) -> (u8, u32) {
    let mut count = 0;
    let mut value = 0.0;
    for sy in 0..4 {
        for sx in 0..4 {
            if let Some(v) = float_sample(
                (x as f32 + (sx as f32 + 0.5) / 4.0) / scale,
                (y as f32 + (sy as f32 + 0.5) / 4.0) / scale,
            ) {
                value += v;
                count += 1;
            }
        }
    }
    if count == 0 {
        return (0, 0);
    }
    ((value / count as f32).round() as u8, count)
}

#[test]
fn whole_numbers_draw_the_arrow_as_floating_point_does() {
    for y in MIN..HEIGHT {
        for x in MIN..WIDTH {
            let (color, count) = pixel(x, y);
            assert_eq!((color[0], count), float_pixel(x, y, 1.0));
            let (color, count) = scaled_pixel(x, y, 41, 50);
            assert_eq!((color[0], count), float_pixel(x, y, 0.82));
        }
    }
}

#[test]
fn the_arrow_ends() {
    for far in [i32::MIN, -100_000, 100_000, i32::MAX] {
        assert_eq!(pixel(far, 10), ([0; 3], 0));
        assert_eq!(pixel(3, far), ([0; 3], 0));
        assert_eq!(scaled_pixel(far, far, 181, 181), ([0; 3], 0));
    }
    assert_eq!(scaled_pixel(300, 1000, 100, 1), ([17; 3], 16));
}

#[test]
fn polygon_lists_the_corners() {
    assert!(svg().starts_with("<polygon points=\"0,0 0,23 5.8,17.5 10.3,27 14,25.2 9.5,15.8 18,15.8\""));
}
