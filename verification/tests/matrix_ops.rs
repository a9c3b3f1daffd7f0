use collide2d::matrix::{Matrix, Vector};
use collide2d::rat::Rat;
use collide2d::Error;

fn rows2x3(a: [[i32; 3]; 2]) -> Vec<Vec<i32>> {
    vec![a[0].to_vec(), a[1].to_vec()]
}

#[test]
fn matrix_equality() {
    let mat1 = Matrix::<2, 2>::from_ints(vec![vec![1, 2], vec![3, 4]]).unwrap();
    let mat2 = Matrix::<2, 2>::from_ints(vec![vec![1, 2], vec![3, 4]]).unwrap();
    let mat3 = Matrix::<2, 2>::from_ints(vec![vec![1, 2], vec![4, 3]]).unwrap();
    assert_eq!(mat1, mat2);
    assert_ne!(mat2, mat3);
}

#[test]
fn matrix_addition() {
    let mat1 = Matrix::<2, 3>::from_ints(rows2x3([[1, 2, 3], [4, 5, 6]])).unwrap();
    let mat2 = Matrix::<2, 3>::from_ints(rows2x3([[12, 13, 25], [26, 14, 18]])).unwrap();
    let result = mat1.add(&mat2);
    let expected =
        Matrix::<2, 3>::from_ints(rows2x3([[1 + 12, 2 + 13, 3 + 25], [4 + 26, 5 + 14, 6 + 18]]))
            .unwrap();
    assert_eq!(result, expected);
}

#[test]
fn matrix_multiplication() {
    let mat1 = Matrix::<2, 3>::from_ints(rows2x3([[1, 3, 4], [5, 8, 2]])).unwrap();
    let mat2 = Matrix::<3, 2>::from_ints(vec![vec![8, 7], vec![3, 1], vec![9, 2]]).unwrap();
    let expected = Matrix::<2, 2>::from_ints(vec![vec![53, 18], vec![82, 47]]).unwrap();
    assert_eq!(mat1.mul(&mat2), expected);
}

#[test]
fn vector_to_slice() {
    let vector = Vector::<3>::from_ints(vec![vec![1], vec![2], vec![5]]).unwrap();
    let expected = vec![Rat::from_int(1), Rat::from_int(2), Rat::from_int(5)];
    assert_eq!(vector.as_slice(), expected);
}

#[test]
fn dot_product() {
    let v1 = Vector::<3>::from_ints(vec![vec![1], vec![5], vec![3]]).unwrap();
    let v2 = Vector::<3>::from_ints(vec![vec![6], vec![3], vec![10]]).unwrap();
    assert_eq!(v1.dot(&v2), Rat::from_int(1 * 6 + 5 * 3 + 3 * 10));
}

#[test]
fn cross_product() {
    let v1 = Vector::<3>::from_ints(vec![vec![2], vec![3], vec![4]]).unwrap();
    let v2 = Vector::<3>::from_ints(vec![vec![5], vec![6], vec![7]]).unwrap();
    let expected = Vector::<3>::from_ints(vec![vec![-3], vec![6], vec![-3]]).unwrap();
    assert_eq!(v1.cross(&v2), expected);
}

#[test]
fn lengths() {
    let v1 = Vector::<2>::from_ints(vec![vec![3], vec![4]]).unwrap();
    assert_eq!(v1.length(), Rat::from_int(5));
    assert_eq!(v1.sqr_length(), Rat::from_int(25));

    let v2 = Vector::<3>::from_ints(vec![vec![3], vec![4], vec![5]]).unwrap();
    assert_eq!(v2.sqr_length(), Rat::from_int(50));
    // the length of (3, 4, 5) is irrational; the result is the floor of
    // sqrt(50) at the library's granularity, so its square brackets 50
    let l = v2.length();
    let l2 = l.checked_mul(&l).unwrap();
    assert!(l2.le(&Rat::from_int(50)));
    let u = l.checked_add(&Rat::frac(1, 1_000_000)).unwrap();
    let u2 = u.checked_mul(&u).unwrap();
    assert!(Rat::from_int(50).lt(&u2));
}

#[test]
fn addition_commutes_and_cancels() {
    let a = Matrix::<2, 2>::from_ints(vec![vec![1, -7], vec![3, 22]]).unwrap();
    let b = Matrix::<2, 2>::from_ints(vec![vec![5, 2], vec![-9, 4]]).unwrap();
    assert_eq!(a.add(&b), b.add(&a));
    assert_eq!(a, a.clone());
    assert_eq!(a.add(&b).sub(&b), a);
}

#[test]
fn hadamard_and_scale() {
    let a = Matrix::<2, 2>::from_ints(vec![vec![1, 2], vec![3, 4]]).unwrap();
    let b = Matrix::<2, 2>::from_ints(vec![vec![2, 0], vec![1, 3]]).unwrap();
    let expected = Matrix::<2, 2>::from_ints(vec![vec![2, 0], vec![3, 12]]).unwrap();
    assert_eq!(a.component_mult(&b), expected);

    let tripled = Matrix::<2, 2>::from_ints(vec![vec![3, 6], vec![9, 12]]).unwrap();
    assert_eq!(a.scale(&Rat::from_int(3)), tripled);
}

#[test]
fn from_slice_shape_checks() {
    // a 2x3 matrix from 3 rows fails
    let three_rows = vec![
        vec![Rat::from_int(1), Rat::from_int(2), Rat::from_int(3)],
        vec![Rat::from_int(4), Rat::from_int(5), Rat::from_int(6)],
        vec![Rat::from_int(7), Rat::from_int(8), Rat::from_int(9)],
    ];
    assert!(matches!(
        Matrix::<2, 3>::from_slice(&three_rows),
        Err(Error::DimensionMismatch)
    ));
    // a 2x3 matrix from rows of length 2 fails
    let short_rows = vec![
        vec![Rat::from_int(1), Rat::from_int(2)],
        vec![Rat::from_int(4), Rat::from_int(5)],
    ];
    assert!(matches!(
        Matrix::<2, 3>::from_slice(&short_rows),
        Err(Error::DimensionMismatch)
    ));
    // the right shape succeeds and keeps the cells
    let good = vec![
        vec![Rat::from_int(1), Rat::from_int(2), Rat::from_int(3)],
        vec![Rat::frac(1, 2), Rat::from_int(5), Rat::from_int(6)],
    ];
    let m = Matrix::<2, 3>::from_slice(&good).unwrap();
    assert_eq!(m.at(1, 0), Rat::frac(1, 2));
    assert_eq!(m.at(0, 2), Rat::from_int(3));
}

#[test]
fn accessors_and_setters() {
    let mut v = Vector::<3>::from_ints(vec![vec![1], vec![2], vec![3]]).unwrap();
    assert_eq!(v.x(), Rat::from_int(1));
    assert_eq!(v.y(), Rat::from_int(2));
    assert_eq!(v.z(), Rat::from_int(3));
    v.set_y(Rat::frac(7, 2));
    assert_eq!(v.x(), Rat::from_int(1));
    assert_eq!(v.y(), Rat::frac(7, 2));
    assert_eq!(v.z(), Rat::from_int(3));
    let grid = v.values();
    assert_eq!(grid.len(), 3);
    assert_eq!(grid[1][0], Rat::frac(7, 2));
}

#[test]
fn rational_scalars() {
    // value equality is exact: 1/2 == 2/4, 1/3 != 3333/10000
    assert_eq!(Rat::frac(1, 2), Rat::frac(2, 4));
    assert_ne!(Rat::frac(1, 3), Rat::frac(3333, 10000));
    // order
    assert!(Rat::frac(-1, 2).lt(&Rat::frac(1, 3)));
    assert!(Rat::frac(2, 3).le(&Rat::frac(2, 3)));
    // exact arithmetic on reduced representations
    let s = Rat::frac(1, 3).checked_add(&Rat::frac(1, 6)).unwrap();
    assert_eq!(s, Rat::frac(1, 2));
    assert_eq!(s.numerator(), 1);
    assert_eq!(s.denominator(), 2);
    // overflow is reported, never silent
    assert!(Rat::from_int(i64::MAX).checked_add(&Rat::from_int(1)).is_none());
    assert!(Rat::from_int(i64::MAX).checked_mul(&Rat::from_int(2)).is_none());
}

#[test]
fn shell_state_exists() {
    let _state = collide2d::State::new();
}
