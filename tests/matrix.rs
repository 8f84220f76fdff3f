use raytracer::matrix::Matrix;
use raytracer::parsing::matrix_cells;

fn texts(s: &str) -> Vec<Vec<String>> {
    matrix_cells(s)
        .iter()
        .map(|row| row.iter().map(|cell| cell.iter().collect()).collect())
        .collect()
}

fn parse(s: &str) -> Matrix<f64> {
    let rows: Vec<Vec<f64>> = texts(s)
        .iter()
        .map(|row| row.iter().map(|cell| cell.parse().unwrap()).collect())
        .collect();
    Matrix::from(rows)
}

fn defaults() -> (Matrix<f64>, Matrix<f64>, Matrix<f64>) {
    let two = Matrix::from(vec![vec![1., 5.], vec![-3., 2.]]);
    let three = Matrix::from(vec![
        vec![3., 5., 0.],
        vec![2., -1., -7.],
        vec![6., -1., 5.],
    ]);
    let four = Matrix::from(vec![
        vec![1., 2., 3., 4.],
        vec![2., 4., 4., 2.],
        vec![8., 6., 4., 1.],
        vec![0., 0., 0., 1.],
    ]);

    (two, three, four)
}

fn assert_eqf64(a: f64, b: f64) {
    assert!((a - b).abs() < f64::EPSILON, "{} != {}", a, b);
}

fn case_ctor() {
    let m1 = Matrix::from(vec![vec![0.]]);
    let m2 = Matrix::new(1, 1, 0.);

    assert_eq!(m1.width(), m2.width());
    assert_eq!(m1.height(), m2.height());
    assert_eqf64(m1.get(0, 0), m2.get(0, 0));
}

fn case_4x4() {
    let m = Matrix::from(vec![
        vec![1., 2., 3., 4.],
        vec![5.5, 6.5, 7.5, 8.5],
        vec![9., 10., 11., 12.],
        vec![13.5, 14.5, 15.5, 16.5],
    ]);

    assert_eqf64(m.get(0, 0), 1.);
    assert_eqf64(m.get(0, 3), 4.);
    assert_eqf64(m.get(3, 0), 13.5);
    assert_eqf64(m.get(3, 3), 16.5);
    assert_eqf64(m.get(2, 2), 11.0);
}

fn case_3x3() {
    let m = Matrix::from(vec![
        vec![1., 2., 3.],
        vec![5.5, 6.5, 7.5],
        vec![13.5, 14.5, 15.5],
    ]);

    assert_eqf64(m.get(0, 0), 1.);
    assert_eqf64(m.get(0, 2), 3.);
    assert_eqf64(m.get(2, 0), 13.5);
    assert_eqf64(m.get(2, 2), 15.5);
}

fn case_2x2() {
    let m = Matrix::from(vec![vec![1., 3.], vec![13.5, 15.5]]);

    assert_eqf64(m.get(0, 0), 1.);
    assert_eqf64(m.get(0, 1), 3.);
    assert_eqf64(m.get(1, 0), 13.5);
    assert_eqf64(m.get(1, 1), 15.5);
}

fn case_equality() {
    assert_eq!(Matrix::from(vec![vec![0.]]), Matrix::new(1, 1, 0.));

    let m1 = Matrix::from(vec![vec![1., 0., 0.], vec![1., 0., 0.], vec![1., 0., 0.]]);

    let mut m2 = Matrix::new(3, 3, 0.);
    assert_ne!(m1, m2);

    m2.set(0, 0, 1.);
    m2.set(1, 0, 1.);
    m2.set(2, 0, 1.);
    assert_eq!(m1, m2);
}

fn case_transpose() {
    let m1 = Matrix::from(vec![vec![1., 2., 3.], vec![5., 6., 7.], vec![9., 8., 7.]]);
    let t = Matrix::from(vec![vec![1., 5., 9.], vec![2., 6., 8.], vec![3., 7., 7.]]);
    assert_eq!(m1.transpose(), t);
}

#[test]
fn matrix_test_ctor() {
    case_ctor();
}

#[test]
fn mod_test_ctor() {
    case_ctor();
}

#[test]
fn matrix_test_4x4() {
    case_4x4();
}

#[test]
fn mod_test_4x4() {
    case_4x4();
}

#[test]
fn matrix_test_3x3() {
    case_3x3();
}

#[test]
fn mod_test_3x3() {
    case_3x3();
}

#[test]
fn matrix_test_2x2() {
    case_2x2();
}

#[test]
fn mod_test_2x2() {
    case_2x2();
}

#[test]
fn matrix_test_equality() {
    case_equality();
}

#[test]
fn operators_test_equality() {
    case_equality();
}

#[test]
fn matrix_test_transpose() {
    case_transpose();
}

#[test]
fn mod_test_transpose() {
    case_transpose();
}

#[test]
fn test_transpose_identity() {
    assert_eq!(Matrix::identity(4, 0., 1.), Matrix::identity(4, 0., 1.).transpose());
}

#[test]
fn test_submatrix_3x3() {
    let (_, m, _) = defaults();
    let exp = Matrix::from(vec![vec![2., -1.], vec![6., -1.]]);
    assert_eq!(m.submatrix(0, 2), exp);
}

#[test]
fn test_submatrix_4x4() {
    let (_, _, m) = defaults();
    let exp = Matrix::from(vec![vec![2., 4., 2.], vec![8., 6., 1.], vec![0., 0., 1.]]);
    assert_eq!(m.submatrix(0, 2), exp);
}

#[test]
fn submatrix_removes_an_inner_row_and_column() {
    let (_, _, m) = defaults();
    let exp = Matrix::from(vec![vec![1., 3., 4.], vec![8., 4., 1.], vec![0., 0., 1.]]);
    assert_eq!(m.submatrix(1, 1), exp);
    let (two, _, _) = defaults();
    assert_eq!(two.submatrix(1, 0), Matrix::from(vec![vec![5.]]));
}

#[test]
fn transposing_twice_gives_the_matrix_back() {
    let m = Matrix::from(vec![vec![1., 2., 3.], vec![4., 5., 6.]]);
    let t = m.transpose();
    assert_eq!(t.width(), 2);
    assert_eq!(t.height(), 3);
    assert_eq!(t.get(2, 1), 6.);
    assert_eq!(t.transpose(), m);
}

#[test]
fn identity_has_one_on_the_diagonal() {
    let i = Matrix::identity(3, 0., 1.);
    for r in 0..3 {
        for c in 0..3 {
            assert_eq!(i.get(r, c), if r == c { 1. } else { 0. });
        }
    }
}

#[test]
fn bounds_and_squareness() {
    let m = Matrix::new(3, 2, 0_i64);
    assert!(m.in_bounds(1, 2));
    assert!(!m.in_bounds(2, 0));
    assert!(!m.in_bounds(0, 3));
    assert_eq!(m.square_size(), None);
    assert_eq!(Matrix::new(4, 4, 0_i64).square_size(), Some(4));
}

#[test]
fn set_changes_one_element() {
    let mut m = Matrix::new(2, 2, 0_i64);
    m.set(1, 0, 7);
    assert_eq!(m, Matrix::from(vec![vec![0, 0], vec![7, 0]]));
}

#[test]
fn parse_from_string() {
    let str = "
         |  6 |  4 |  4 |  4 |
         |  5 |  5 |  7 |  6 |
         |  4 | -9 |  3 | -7 |
         |  9 |  1 |  7 | -6 |";

    let m = parse(str);

    let exp = Matrix::from(vec![
        vec![6., 4., 4., 4.],
        vec![5., 5., 7., 6.],
        vec![4., -9., 3., -7.],
        vec![9., 1., 7., -6.],
    ]);

    assert_eq!(m, exp);
}

#[test]
fn cells_keep_their_text() {
    assert_eq!(
        texts("| 1.5 |abc|\n|\t-2 | 0 |"),
        vec![vec!["1.5", "abc"], vec!["-2", "0"]]
    );
}

#[test]
fn cells_of_ragged_and_odd_input() {
    assert_eq!(texts("|6|4|\n|5|5|7|"), vec![vec!["6", "4"], vec!["5", "5", "7"]]);
    assert_eq!(texts(""), vec![vec![""]]);
    assert_eq!(texts("|||"), vec![vec![""], vec![""]]);
    assert_eq!(texts("1|2"), vec![vec!["1", "2"]]);
    assert_eq!(texts("|1||2|3"), vec![vec!["1"], vec!["2", "3"]]);
    assert_eq!(texts("|1\u{3000}|\u{a0}2|"), vec![vec!["1", "2"]]);
}
