use collide2d::collision::{CircleCollider, Collider, CollisionResult, LineCollider, TriangleCollider};
use collide2d::matrix::{Matrix, Vector};
use collide2d::rat::Rat;
use collide2d::Error;

fn v2(x: Rat, y: Rat) -> Vector<2> {
    Matrix::<2, 1>::from_slice(&vec![vec![x], vec![y]]).unwrap()
}

fn v2i(x: i32, y: i32) -> Vector<2> {
    Vector::<2>::from_ints(vec![vec![x], vec![y]]).unwrap()
}

#[test]
fn line_line_collision() {
    let threshold = Rat::frac(1, 100);
    let line1 = LineCollider::new(
        v2(Rat::frac(99, 100), Rat::frac(6, 5)),
        v2(Rat::frac(5, 2), Rat::from_int(1)),
        false,
    );
    let line2 = LineCollider::new(
        v2(Rat::frac(5, 2), Rat::from_int(-1)),
        v2(Rat::frac(11, 10), Rat::frac(-6, 25)),
        false,
    );
    let line3 = LineCollider::new(
        v2(Rat::frac(99, 100), Rat::frac(6, 5))
            .add(&v2(Rat::frac(5, 2), Rat::from_int(1)).scale(&Rat::frac(3, 10))),
        v2(Rat::frac(5, 2), Rat::from_int(1)),
        false,
    );
    let line4 = LineCollider::new(
        v2(Rat::from_int(0), Rat::frac(6, 5)),
        v2(Rat::frac(5, 2), Rat::from_int(1)).scale(&Rat::frac(1, 5)),
        false,
    );

    let result = line1
        .collision(&Collider::Line(line2.clone()), threshold)
        .unwrap();
    if let CollisionResult::One(x) = result {
        let expected = v2(Rat::frac(-2036, 1000), Rat::frac(-105, 10000));
        let sqr_distance = x.sub(&expected).sqr_length();
        assert!(sqr_distance.le(&Rat::frac(4, 10000)));
    } else {
        panic!(
            "{:#?} should have been a collision at (2.036, -0.0105)",
            result
        )
    }

    let result = line1
        .collision(&Collider::Line(line3.clone()), threshold)
        .unwrap();
    if let CollisionResult::Infinite = result {
    } else {
        panic!("{:#?} should have been infinite collisions", result);
    }

    let result = line1
        .collision(&Collider::Line(line4.clone()), threshold)
        .unwrap();
    if let CollisionResult::Nothing = result {
    } else {
        panic!("{:#?} should have been no collisions", result);
    }

    assert!(line1.is_parallel(&line1));
    assert!(!line1.is_parallel(&line2));
}

#[test]
fn vertical_reference_line_is_degenerate() {
    // a line with direction.x == 0 meeting a non-parallel line must fail
    // with DegenerateGeometry, never poison the result
    let vertical = LineCollider::new(v2i(1, 0), v2i(0, 1), false);
    let slanted = LineCollider::new(v2i(0, 0), v2i(1, 1), false);
    let result = vertical.collision(&Collider::Line(slanted), Rat::frac(1, 100));
    assert!(matches!(result, Err(Error::DegenerateGeometry)));
}

#[test]
fn zero_direction_is_degenerate() {
    // the second line's direction is the zero vector: the closed form's
    // denominator vanishes although the lines are not parallel
    let slanted = LineCollider::new(v2i(0, 0), v2i(1, 1), false);
    let stuck = LineCollider::new(v2i(2, 0), v2i(0, 0), false);
    let result = slanted.collision(&Collider::Line(stuck), Rat::frac(1, 100));
    assert!(matches!(result, Err(Error::DegenerateGeometry)));
}

#[test]
fn line_point_collision_branches() {
    let threshold = Rat::frac(1, 100);
    // vertical line: horizontal offset decides
    let vertical = LineCollider::new(v2i(2, 0), v2i(0, 3), false);
    assert!(vertical
        .point_collision(&v2(Rat::frac(201, 100), Rat::from_int(7)), threshold)
        .unwrap());
    assert!(!vertical
        .point_collision(&v2(Rat::frac(25, 10), Rat::from_int(7)), threshold)
        .unwrap());
    // horizontal line: vertical offset decides
    let horizontal = LineCollider::new(v2i(0, -1), v2i(2, 0), false);
    assert!(horizontal
        .point_collision(&v2(Rat::from_int(40), Rat::from_int(-1)), threshold)
        .unwrap());
    assert!(!horizontal
        .point_collision(&v2i(40, 0), threshold)
        .unwrap());
    // general line through the origin with slope 1
    let diagonal = LineCollider::new(v2i(0, 0), v2i(1, 1), false);
    assert!(diagonal.point_collision(&v2i(5, 5), threshold).unwrap());
    assert!(!diagonal.point_collision(&v2i(5, 6), threshold).unwrap());
}

#[test]
fn bounded_line_between_points() {
    let segment = LineCollider::between_points(v2i(1, 1), v2i(3, 5));
    // both endpoints lie on the carrier line
    assert!(segment
        .point_collision(&v2i(1, 1), Rat::frac(1, 1000))
        .unwrap());
    assert!(segment
        .point_collision(&v2i(3, 5), Rat::frac(1, 1000))
        .unwrap());
    let through = LineCollider::through_points(v2i(1, 1), v2i(3, 5));
    // a point far beyond the endpoints still lies on an unbounded line
    assert!(through
        .point_collision(&v2i(5, 9), Rat::frac(1, 1000))
        .unwrap());
}

#[test]
fn circle_point_collision_boundary() {
    let circle = CircleCollider::new(v2i(0, 0), Rat::from_int(5));
    let threshold = Rat::frac(1, 100);
    // exactly on the boundary
    assert!(circle.point_collision(&v2i(3, 4), threshold).unwrap());
    // clearly off the boundary
    assert!(!circle.point_collision(&v2i(3, 3), threshold).unwrap());
    // the centre is not on the boundary
    assert!(!circle.point_collision(&v2i(0, 0), threshold).unwrap());
    // within a generous threshold of the boundary
    let loose = Rat::frac(2, 10);
    assert!(circle
        .point_collision(&v2(Rat::from_int(0), Rat::frac(51, 10)), loose)
        .unwrap());
    // a tiny circle with a threshold larger than the radius accepts the
    // centre
    let dot = CircleCollider::new(v2i(0, 0), Rat::frac(1, 10));
    assert!(dot.point_collision(&v2i(0, 0), Rat::frac(1, 2)).unwrap());
}

#[test]
fn unsupported_shape_pairs() {
    let line = LineCollider::new(v2i(0, 0), v2i(1, 1), false);
    let circle = CircleCollider::new(v2i(0, 0), Rat::from_int(5));
    let triangle =
        TriangleCollider::new(vec![v2i(0, 0), v2i(4, 0), v2i(0, 4)]).unwrap();
    let threshold = Rat::frac(1, 100);

    let line_c = Collider::Line(line.clone());
    let circle_c = Collider::Circle(circle.clone());
    let triangle_c = Collider::Triangle(triangle.clone());

    assert!(matches!(
        line_c.collision(&circle_c, threshold),
        Err(Error::UnsupportedOperation)
    ));
    assert!(matches!(
        circle_c.collision(&line_c, threshold),
        Err(Error::UnsupportedOperation)
    ));
    assert!(matches!(
        triangle_c.collision(&triangle_c, threshold),
        Err(Error::UnsupportedOperation)
    ));
    // the dispatch reaches the line and triangle algorithms unchanged
    assert!(line_c.point_collision(&v2i(2, 2), threshold).unwrap());
    assert!(triangle_c.point_collision(&v2i(1, 1), threshold).unwrap());
}

#[test]
fn triangle_point_collision() {
    let threshold = Rat::frac(1, 100);
    let triangle =
        TriangleCollider::new(vec![v2i(0, 0), v2i(4, 0), v2i(0, 4)]).unwrap();
    // strictly inside
    assert!(triangle.point_collision(&v2i(1, 1), threshold).unwrap());
    // a corner and an edge point
    assert!(triangle.point_collision(&v2i(0, 0), threshold).unwrap());
    assert!(triangle.point_collision(&v2i(2, 0), threshold).unwrap());
    // just below an edge, within the threshold
    assert!(triangle
        .point_collision(&v2(Rat::from_int(2), Rat::frac(-1, 200)), threshold)
        .unwrap());
    // just past a corner, within the threshold of that endpoint
    assert!(triangle
        .point_collision(&v2(Rat::frac(801, 200), Rat::from_int(0)), threshold)
        .unwrap());
    // near the carrier line of an edge but far beyond the segment: not a
    // hit, the tolerance measures distance to the boundary itself
    assert!(!triangle
        .point_collision(&v2(Rat::from_int(100), Rat::frac(1, 200)), threshold)
        .unwrap());
    assert!(!triangle.point_collision(&v2i(-5, 0), threshold).unwrap());
    // clearly outside
    assert!(!triangle.point_collision(&v2i(3, 3), threshold).unwrap());
    assert!(!triangle.point_collision(&v2i(-2, 1), threshold).unwrap());
    // a degenerate (collinear) triangle still answers
    let flat = TriangleCollider::new(vec![v2i(0, 0), v2i(2, 2), v2i(4, 4)]).unwrap();
    assert!(flat.point_collision(&v2i(1, 1), threshold).unwrap());
    assert!(!flat.point_collision(&v2i(0, 3), threshold).unwrap());
}

#[test]
fn triangle_needs_three_corners() {
    assert!(matches!(
        TriangleCollider::new(vec![v2i(0, 0), v2i(1, 0)]),
        Err(Error::DimensionMismatch)
    ));
    assert!(TriangleCollider::new(vec![v2i(0, 0), v2i(1, 0), v2i(0, 1)]).is_ok());
}

#[test]
fn collision_result_as_vec() {
    let nothing = CollisionResult::Nothing;
    assert!(nothing.as_vec().is_none());
    let infinite = CollisionResult::Infinite;
    assert!(infinite.as_vec().is_none());
    let one = CollisionResult::One(v2i(1, 2));
    let v = one.as_vec().unwrap();
    assert_eq!(v.len(), 1);
    assert_eq!(v[0], v2i(1, 2));
    let many = CollisionResult::Many(vec![v2i(1, 2), v2i(3, 4)]);
    let w = many.as_vec().unwrap();
    assert_eq!(w.len(), 2);
    assert_eq!(w[1], v2i(3, 4));
}

#[test]
fn overflow_is_reported() {
    // a direction too large for its squared length to be represented
    let wide = LineCollider::new(
        v2i(0, 0),
        v2(Rat::from_int(i64::MAX), Rat::from_int(3)),
        false,
    );
    let result = wide.point_collision(&v2i(1, 1), Rat::frac(1, 100));
    assert!(matches!(result, Err(Error::NumericOverflow)));
}
