use soft_renderer::matrix3::Matrix3;
use soft_renderer::matrix4::Matrix4;

fn identity3() -> Matrix3<f32> {
    Matrix3 { m: [[1.0, 0.0, 0.0], [0.0, 1.0, 0.0], [0.0, 0.0, 1.0]] }
}

fn identity4() -> Matrix4<f32> {
    Matrix4 {
        m: [
            [1.0, 0.0, 0.0, 0.0],
            [0.0, 1.0, 0.0, 0.0],
            [0.0, 0.0, 1.0, 0.0],
            [0.0, 0.0, 0.0, 1.0],
        ],
    }
}

#[test]
fn test_scale() {
    let mut m = identity3();
    m.set_scale(2.0, 3.0, 4.0);
    assert_eq!(m.m[0][0], 2.0);
    assert_eq!(m.m[1][1], 3.0);
    assert_eq!(m.m[2][2], 4.0);
}

#[test]
fn matrix3_test_transpose() {
    let mut m = Matrix3 { m: [[0.0f32; 3]; 3] };
    m.m[0][1] = 1.0;
    m.m[1][0] = 2.0;

    let t = m.transpose();
    assert_eq!(t.m[1][0], 1.0);
    assert_eq!(t.m[0][1], 2.0);
}

#[test]
fn test_translate() {
    let mut m = identity4();
    m.translate(1.0, 2.0, 3.0);
    assert_eq!(m.m[3][0], 1.0);
    assert_eq!(m.m[3][1], 2.0);
    assert_eq!(m.m[3][2], 3.0);
}

#[test]
fn matrix4_test_transpose() {
    let mut m = identity4();
    m.m[0][1] = 5.0;
    m.transpose_in_place();
    assert_eq!(m.m[1][0], 5.0);
    assert_eq!(m.m[0][1], 0.0);
}

fn counting4() -> Matrix4<i32> {
    let mut m = Matrix4 { m: [[0; 4]; 4] };
    for i in 0..4 {
        for j in 0..4 {
            m.m[i][j] = (10 * i + j) as i32;
        }
    }
    m
}

#[test]
fn transpose_twice_and_in_place_agree() {
    let m = counting4();
    let t = m.transpose();
    assert_eq!(t.m[2][3], 32);
    assert_eq!(t.transpose(), m);
    let mut n = m;
    n.transpose_in_place();
    assert_eq!(n, t);
    let m3 = Matrix3 { m: [[1, 2, 3], [4, 5, 6], [7, 8, 9]] };
    let mut n3 = m3;
    n3.transpose_in_place();
    assert_eq!(n3, m3.transpose());
    assert_eq!(n3.m, [[1, 4, 7], [2, 5, 8], [3, 6, 9]]);
}

#[test]
fn minor_leaves_out_row_and_column() {
    let m = counting4();
    let minor = m.get_minor_3x3(1, 2);
    assert_eq!(minor.m, [[0, 1, 3], [20, 21, 23], [30, 31, 33]]);
    let corner = m.get_minor_3x3(3, 3);
    assert_eq!(corner.m, [[0, 1, 2], [10, 11, 12], [20, 21, 22]]);
    let first = m.get_minor_3x3(0, 0);
    assert_eq!(first.m, [[11, 12, 13], [21, 22, 23], [31, 32, 33]]);
    assert_eq!(m.transpose().get_minor_3x3(2, 1), minor.transpose());
}

#[test]
fn upper_left_round_trip() {
    let mut m = counting4();
    let block = Matrix3 { m: [[-1, -2, -3], [-4, -5, -6], [-7, -8, -9]] };
    m.set_upper_left_3x3(&block);
    assert_eq!(m.get_upper_left_3x3(), block);
    assert_eq!(m.m[0][3], 3);
    assert_eq!(m.m[3][0], 30);
    assert_eq!(counting4().get_upper_left_3x3().m, [[0, 1, 2], [10, 11, 12], [20, 21, 22]]);
}

#[test]
fn element_access() {
    let mut m = counting4();
    assert_eq!(m.get_element(2, 3), 23);
    m.set_element(2, 3, -1);
    assert_eq!(m.get_element(2, 3), -1);
    assert_eq!(m.get_element(3, 2), 32);
}

#[test]
fn translate_keeps_other_entries() {
    let mut m = counting4();
    m.translate(-1, -2, -3);
    assert_eq!(m.m[3], [-1, -2, -3, 33]);
    assert_eq!(m.m[2], [20, 21, 22, 23]);
}
