use aco_tsp::distance::euc_2d;
use aco_tsp::matrix::Matrix;

#[test]
fn euc_2d_1010_2020() {
    let x = (10, 10);
    let y = (20, 20);
    assert_eq!(euc_2d(x, y), 14);
}

#[test]
fn matrix_test() {
    let size = 10;
    let mut matrix = Matrix::with_capacity(size);
    for i in 0..size * size {
        matrix.push(0 + i);
    }
    assert_eq!(10, matrix[(0, 1)]);
    assert_eq!(1, matrix[(1, 0)]);
    assert_eq!(99, matrix[(9, 9)]);
    assert_eq!(matrix.row(0), &[0, 1, 2, 3, 4, 5, 6, 7, 8, 9]);
    assert_eq!(matrix.row(3), &[30, 31, 32, 33, 34, 35, 36, 37, 38, 39]);
}

#[test]
fn euc_2d_rounds_to_nearest() {
    assert_eq!(euc_2d((0, 0), (3, 4)), 5);
    assert_eq!(euc_2d((7, -2), (7, -2)), 0);
    assert_eq!(euc_2d((0, 0), (1, 1)), 1);
    assert_eq!(euc_2d((0, 0), (1, 2)), 2);
    assert_eq!(euc_2d((0, 0), (2, 3)), 4);
    assert_eq!(euc_2d((-10, 0), (0, 14)), 17);
}

#[test]
fn euc_2d_largest_squared_distance() {
    // 46340^2 + 0 fits an i32; its root is exact
    assert_eq!(euc_2d((0, 0), (46340, 0)), 46340);
    assert_eq!(euc_2d((0, 0), (32767, 32767)), 46340);
    assert_eq!(euc_2d((0, 0), (32767, 32766)), 46339);
}

#[test]
fn matrix_with_element_and_set() {
    let mut m = Matrix::with_element(3, 7u32);
    assert_eq!(m.width(), 3);
    for y in 0..3 {
        assert_eq!(m.row(y), &[7, 7, 7]);
    }
    m.set((2, 1), 5);
    assert_eq!(m[(2, 1)], 5);
    assert_eq!(m[(1, 2)], 7);
    assert_eq!(m.row(1), &[7, 7, 5]);
}

#[test]
fn matrix_mirrored_write_keeps_symmetry() {
    let mut m = Matrix::with_element(4, 1u32);
    m.set_mirrored((1, 3), 9);
    m.set_mirrored((2, 2), 5);
    for x in 0..4 {
        for y in 0..4 {
            assert_eq!(m[(x, y)], m[(y, x)]);
        }
    }
    assert_eq!(m[(1, 3)], 9);
    assert_eq!(m[(3, 1)], 9);
    assert_eq!(m[(2, 2)], 5);
    assert_eq!(m[(0, 3)], 1);
}
