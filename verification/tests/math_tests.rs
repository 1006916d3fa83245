use roguelite::math::{
    aabb_collision, aabb_collision_dir, easy_polygon, fletcher16, floor_div, get_angle, integer_sqrt,
    point_in_polygon, points_on_circumference, points_on_line, saturate, trunc_div, Angle, IVec2,
    Line, Polygon, Vec2,
};

fn rect(x: i32, y: i32, w: i32, h: i32) -> Polygon {
    // a rectangle given by its corner and size in pixels
    easy_polygon(
        Vec2::new(x * 1000 + w * 500, y * 1000 + h * 500),
        Vec2::new(w * 500, h * 500),
        Angle::zero(),
    )
}

#[test]
fn saturate_stops_at_both_ends() {
    assert_eq!(saturate(5), 5);
    assert_eq!(saturate(i64::MAX), i32::MAX);
    assert_eq!(saturate(i64::MIN), i32::MIN);
    assert_eq!(saturate(i32::MAX as i64 + 1), i32::MAX);
}

#[test]
fn division_rounds_as_documented() {
    assert_eq!(floor_div(-1, 25), -1);
    assert_eq!(floor_div(-25, 25), -1);
    assert_eq!(floor_div(-26, 25), -2);
    assert_eq!(floor_div(49, 25), 1);
    assert_eq!(trunc_div(-7, 2), -3);
    assert_eq!(trunc_div(7, 2), 3);
}

#[test]
fn integer_sqrt_rounds_down() {
    assert_eq!(integer_sqrt(0), 0);
    assert_eq!(integer_sqrt(15), 3);
    assert_eq!(integer_sqrt(16), 4);
    assert_eq!(integer_sqrt(2_000_000), 1414);
}

#[test]
fn distance_of_three_four_five_triangle() {
    assert_eq!(Vec2::new(0, 0).distance(Vec2::new(3000, 4000)), 5000);
    assert_eq!(Vec2::new(-3000, 4000).distance(Vec2::new(0, 0)), 5000);
}

#[test]
fn vector_arithmetic_saturates() {
    assert_eq!(Vec2::new(1, 2).plus(Vec2::new(3, 4)), Vec2::new(4, 6));
    assert_eq!(Vec2::new(1, 2).minus(Vec2::new(3, 5)), Vec2::new(-2, -3));
    assert_eq!(Vec2::new(i32::MAX, 0).plus(Vec2::new(1, 0)), Vec2::new(i32::MAX, 0));
    assert_eq!(Vec2::new(10, -10).scaled(-3, 2), Vec2::new(-15, 15));
}

#[test]
fn angle_from_vector_is_normalized() {
    let a = Angle::from_vector(3, 4);
    assert_eq!((a.cos(), a.sin()), (600, 800));
    let b = Angle::from_vector(1, 1);
    assert_eq!((b.cos(), b.sin()), (707, 707));
    let c = Angle::from_vector(0, -5);
    assert_eq!((c.cos(), c.sin()), (0, -1000));
}

#[test]
fn angle_of_zero_vector_points_along_x() {
    let a = Angle::from_vector(0, 0);
    assert_eq!((a.cos(), a.sin()), (1000, 0));
    assert_eq!(a, Angle::zero());
}

#[test]
fn get_angle_points_from_second_to_first() {
    let a = get_angle(Vec2::new(10000, 0), Vec2::new(0, 0));
    assert_eq!((a.cos(), a.sin()), (1000, 0));
    let b = get_angle(Vec2::new(0, 0), Vec2::new(0, 5000));
    assert_eq!((b.cos(), b.sin()), (0, -1000));
}

#[test]
fn angle_step_scales_the_direction() {
    let a = Angle::from_vector(3, 4);
    assert_eq!(a.step(1000), Vec2::new(600, 800));
    assert_eq!(a.step(-1000), Vec2::new(-600, -800));
    assert_eq!(Angle::zero().step(2200), Vec2::new(2200, 0));
}

#[test]
fn angle_rotation_and_reflection() {
    let quarter = Angle::from_vector(0, 1);
    let r = Angle::zero().rotated(&quarter);
    assert_eq!((r.cos(), r.sin()), (0, 1000));
    let back = Angle::from_vector(3, 4).reversed();
    assert_eq!((back.cos(), back.sin()), (-600, -800));
    let flipped = Angle::from_vector(3, 4).reflected(true, false);
    assert_eq!((flipped.cos(), flipped.sin()), (-600, 800));
}

#[test]
fn easy_polygon_of_unrotated_square() {
    let p = easy_polygon(Vec2::new(5000, 5000), Vec2::new(5000, 5000), Angle::zero());
    assert_eq!(p.center, Vec2::new(5000, 5000));
    assert_eq!(p.lines[0].point1, Vec2::new(0, 10000));
    assert_eq!(p.lines[0].point2, Vec2::new(10000, 10000));
    assert_eq!(p.lines[1].point1, Vec2::new(0, 0));
    assert_eq!(p.lines[1].point2, Vec2::new(10000, 0));
    assert_eq!(p.lines[2].point1, Vec2::new(10000, 10000));
    assert_eq!(p.lines[2].point2, Vec2::new(10000, 0));
    assert_eq!(p.lines[3].point1, Vec2::new(0, 10000));
    assert_eq!(p.lines[3].point2, Vec2::new(0, 0));
}

#[test]
fn easy_polygon_turned_by_a_quarter() {
    let p = easy_polygon(Vec2::new(0, 0), Vec2::new(2000, 1000), Angle::from_vector(0, 1));
    // the long side now runs along y
    assert_eq!(p.lines[0].point1, Vec2::new(-1000, -2000));
    assert_eq!(p.lines[0].point2, Vec2::new(-1000, 2000));
}

#[test]
fn segments_that_cross_intersect() {
    let a = Line::new(Vec2::new(0, 0), Vec2::new(10, 10));
    let b = Line::new(Vec2::new(0, 10), Vec2::new(10, 0));
    assert!(a.intersect(&b));
    assert!(b.intersect(&a));
    let c = Line::new(Vec2::new(20, 0), Vec2::new(30, 10));
    assert!(!a.intersect(&c));
}

#[test]
fn segments_on_one_line_do_not_intersect() {
    let a = Line::new(Vec2::new(0, 0), Vec2::new(10, 0));
    let b = Line::new(Vec2::new(5, 0), Vec2::new(15, 0));
    assert!(!a.intersect(&b));
}

#[test]
fn shifted_intersection_moves_the_first_segment() {
    let a = Line::new(Vec2::new(0, 0), Vec2::new(10, 10));
    let b = Line::new(Vec2::new(100, 10), Vec2::new(110, 0));
    assert!(!a.intersect(&b));
    assert!(a.intersect_shifted(&b, Vec2::new(100, 0)));
}

#[test]
fn overlapping_rectangles_collide() {
    let a = rect(0, 0, 10, 10);
    let b = rect(5, 5, 10, 10);
    assert!(aabb_collision(&a, &b, Vec2::zero()));
}

#[test]
fn distant_rectangles_do_not_collide() {
    let a = rect(0, 0, 10, 10);
    let b = rect(20, 20, 10, 10);
    assert!(!aabb_collision(&a, &b, Vec2::zero()));
}

#[test]
fn nested_rectangles_do_not_collide() {
    let outer = rect(0, 0, 100, 100);
    let inner = rect(40, 40, 10, 10);
    assert!(!aabb_collision(&outer, &inner, Vec2::zero()));
    assert!(!aabb_collision(&inner, &outer, Vec2::zero()));
}

#[test]
fn collision_takes_the_offset_into_account() {
    let a = rect(0, 0, 10, 10);
    let b = rect(20, 5, 10, 10);
    assert!(!aabb_collision(&a, &b, Vec2::zero()));
    assert!(aabb_collision(&a, &b, Vec2::new(15000, 0)));
}

#[test]
fn collision_is_symmetric() {
    let shapes = [
        rect(0, 0, 10, 10),
        rect(5, 5, 10, 10),
        rect(20, 20, 10, 10),
        rect(-7, 3, 4, 30),
        easy_polygon(Vec2::new(3000, 4000), Vec2::new(7500, 2500), Angle::from_vector(1, 2)),
    ];
    let offsets = [
        Vec2::new(0, 0),
        Vec2::new(15000, 0),
        Vec2::new(-3000, 8000),
        Vec2::new(20000, 20000),
        Vec2::new(-1, 1),
    ];
    for a in shapes.iter() {
        for b in shapes.iter() {
            for d in offsets.iter() {
                let back = Vec2::new(-d.x, -d.y);
                assert_eq!(aabb_collision(a, b, *d), aabb_collision(b, a, back));
            }
        }
    }
}

#[test]
fn directional_collision_tests_each_axis_alone() {
    let a = rect(0, 0, 10, 10);
    let b = rect(12, 5, 10, 10);
    let along_x = aabb_collision_dir(&a, &b, Vec2::new(5000, 0));
    assert!(along_x.x);
    assert!(!along_x.y);
    assert!(along_x.any());
    let c = rect(5, 12, 10, 10);
    let along_y = aabb_collision_dir(&a, &c, Vec2::new(0, 5000));
    assert!(!along_y.x);
    assert!(along_y.y);
    let nothing = aabb_collision_dir(&a, &b, Vec2::new(0, 0));
    assert!(!nothing.any());
}

#[test]
fn point_in_polygon_by_parity() {
    let a = rect(0, 0, 10, 10);
    assert!(point_in_polygon(&a, Vec2::new(5000, 5000)));
    assert!(!point_in_polygon(&a, Vec2::new(20000, 5000)));
    assert!(!point_in_polygon(&a, Vec2::new(-5000, 5000)));
    assert!(!point_in_polygon(&a, Vec2::new(5000, 20000)));
}

#[test]
fn circle_of_radius_one() {
    let points = points_on_circumference(IVec2::new(0, 0), 1);
    let expected = vec![
        IVec2::new(1, 0),
        IVec2::new(0, 1),
        IVec2::new(-1, 0),
        IVec2::new(0, 1),
        IVec2::new(-1, 0),
        IVec2::new(0, -1),
        IVec2::new(1, 0),
        IVec2::new(0, -1),
        IVec2::new(1, 1),
        IVec2::new(1, 1),
        IVec2::new(-1, 1),
        IVec2::new(-1, 1),
        IVec2::new(-1, -1),
        IVec2::new(-1, -1),
        IVec2::new(1, -1),
        IVec2::new(1, -1),
    ];
    assert_eq!(points, expected);
}

#[test]
fn circle_of_negative_radius_is_empty() {
    assert!(points_on_circumference(IVec2::new(3, 3), -1).is_empty());
}

#[test]
fn circle_points_are_about_the_center() {
    let center = IVec2::new(10, 20);
    let points = points_on_circumference(center, 8);
    assert_eq!(points.len() % 8, 0);
    assert_eq!(points[0], IVec2::new(18, 20));
    for p in points.iter() {
        let dx = (p.x - center.x) as i64;
        let dy = (p.y - center.y) as i64;
        let d = dx * dx + dy * dy;
        assert!(d >= 49 && d <= 81, "point {:?} is off the circle", p);
    }
}

#[test]
fn line_between_two_tiles() {
    let line = points_on_line(IVec2::new(0, 0), IVec2::new(3, 1));
    assert_eq!(
        line,
        vec![
            IVec2::new(0, 0),
            IVec2::new(1, 0),
            IVec2::new(1, 1),
            IVec2::new(2, 1),
            IVec2::new(3, 1),
        ]
    );
}

#[test]
fn line_runs_from_start_to_end_in_unit_steps() {
    let ends = [
        (IVec2::new(0, 0), IVec2::new(0, 0)),
        (IVec2::new(5, 5), IVec2::new(-3, 9)),
        (IVec2::new(-2, 7), IVec2::new(-2, -4)),
        (IVec2::new(1, 1), IVec2::new(12, 1)),
        (IVec2::new(4, 0), IVec2::new(0, 9)),
    ];
    for (a, b) in ends.iter() {
        let line = points_on_line(*a, *b);
        assert_eq!(line.len() as i32, 1 + (b.x - a.x).abs() + (b.y - a.y).abs());
        assert_eq!(line[0], *a);
        assert_eq!(line[line.len() - 1], *b);
        for k in 1..line.len() {
            let step = (line[k].x - line[k - 1].x).abs() + (line[k].y - line[k - 1].y).abs();
            assert_eq!(step, 1);
        }
    }
}

#[test]
fn fletcher16_of_known_texts() {
    assert_eq!(fletcher16(b"abcde".to_vec()), 51440);
    assert_eq!(fletcher16(b"abcdefgh".to_vec()), 1575);
    assert_eq!(fletcher16(Vec::new()), 0);
}

#[test]
fn tile_offsets_saturate() {
    assert_eq!(IVec2::new(1, 2).offset(-1, 1), IVec2::new(0, 3));
    assert_eq!(IVec2::new(i32::MAX, 0).offset(1, 0), IVec2::new(i32::MAX, 0));
}

#[test]
fn an_angle_is_got_back_from_its_parts() {
    for (x, y) in [(1, 0), (3, 4), (-5, 12), (0, -1), (-7, -7)] {
        let a = Angle::from_vector(x, y);
        assert_eq!(Angle::from_scaled(a.cos(), a.sin()), a);
    }
    let wide = Angle::from_scaled(5000, -5000);
    assert_eq!((wide.cos(), wide.sin()), (1000, -1000));
    let kept = Angle::from_scaled(-600, 800);
    assert_eq!((kept.cos(), kept.sin()), (-600, 800));
}
