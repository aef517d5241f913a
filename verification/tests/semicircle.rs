use duck_in_the_circle::Point;
use duck_in_the_circle::SCALE;
use duck_in_the_circle::cross_val;
use duck_in_the_circle::is_in_same_semicircle;

#[test]
fn cross_val_exact_value() {
    assert_eq!(cross_val(Point { x: 2, y: 3 }, Point { x: 5, y: 7 }), 2 * 7 - 3 * 5);
    assert_eq!(cross_val(Point { x: 1, y: 0 }, Point { x: 0, y: 1 }), 1);
    assert_eq!(cross_val(Point { x: 0, y: 1 }, Point { x: 1, y: 0 }), -1);
}

#[test]
fn predicate_pure_on_fixed_input() {
    let points = vec![
        Point { x: 3, y: 1 },
        Point { x: -2, y: 5 },
        Point { x: 1, y: 4 },
    ];
    let first = is_in_same_semicircle(&points);
    let second = is_in_same_semicircle(&points);
    assert_eq!(first, second);
}

#[test]
fn two_points_always_true() {
    let points = vec![Point { x: 1, y: 0 }, Point { x: 0, y: 1 }];
    assert!(is_in_same_semicircle(&points));
}

#[test]
fn two_antipodal_points_true() {
    let points = vec![Point { x: 1, y: 0 }, Point { x: -1, y: 0 }];
    assert!(is_in_same_semicircle(&points));
}

#[test]
fn four_axis_points_false() {
    let points = vec![
        Point { x: SCALE, y: 0 },
        Point { x: 0, y: SCALE },
        Point { x: -SCALE, y: 0 },
        Point { x: 0, y: -SCALE },
    ];
    assert!(!is_in_same_semicircle(&points));
}

#[test]
fn five_points_one_quadrant_true() {
    let mut points = Vec::new();
    for deg in [0.0f64, 10.0, 20.0, 30.0, 40.0] {
        let rad = deg.to_radians();
        points.push(Point {
            x: (rad.cos() * SCALE as f64) as i32,
            y: (rad.sin() * SCALE as f64) as i32,
        });
    }
    assert!(is_in_same_semicircle(&points));
}

#[test]
fn rotated_quadrant_points_stay_true() {
    let mut points = Vec::new();
    for deg in [0.0f64, 10.0, 20.0, 30.0, 40.0] {
        let rad = deg.to_radians();
        let x = (rad.cos() * SCALE as f64) as i32;
        let y = (rad.sin() * SCALE as f64) as i32;
        points.push(Point { x: -y, y: x });
    }
    assert!(is_in_same_semicircle(&points));
}

#[test]
fn rotated_axis_points_stay_false() {
    let base = [(SCALE, 0), (0, SCALE), (-SCALE, 0), (0, -SCALE)];
    let mut points = Vec::new();
    for (x, y) in base {
        // rotation by the integer vector (4, 3): (x, y) -> (4x - 3y, 3x + 4y)
        points.push(Point { x: 4 * (x / 8) - 3 * (y / 8), y: 3 * (x / 8) + 4 * (y / 8) });
    }
    assert!(!is_in_same_semicircle(&points));
}

#[test]
fn origin_reference_always_succeeds() {
    let points = vec![
        Point { x: 0, y: 0 },
        Point { x: SCALE, y: 0 },
        Point { x: -SCALE, y: 0 },
        Point { x: 0, y: SCALE },
        Point { x: 0, y: -SCALE },
    ];
    assert!(is_in_same_semicircle(&points));
}
