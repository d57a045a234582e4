use rubiks_cube::transforms::{
    get_x_y_plane, get_x_z_plane, get_y_z_plane, reverse_columns, reverse_rows, rotate90,
    rotate_180, rotate_minus90, set_x_y_plane, set_x_z_plane, set_y_z_plane, transpose,
};

fn vec_compare<T: std::cmp::Eq>(a: &Vec<T>, b: &Vec<T>) -> bool {
    assert_eq!(a.len(), b.len(), "vectors not the same length");
    for (x, y) in a.iter().zip(b) {
        if *x != *y {
            return false;
        }
    }
    true
}

fn square() -> Vec<Vec<u32>> {
    vec![vec![1, 2, 3], vec![4, 5, 6], vec![7, 8, 9]]
}

fn get_data_cube() -> Vec<Vec<Vec<u32>>> {
    vec![
        vec![vec![1, 2, 3], vec![4, 5, 6], vec![7, 8, 9]],
        vec![vec![10, 11, 12], vec![13, 14, 15], vec![16, 17, 18]],
        vec![vec![19, 20, 21], vec![22, 23, 24], vec![25, 26, 27]],
    ]
}

#[test]
fn reverse_rows_should_reverse_rows() {
    let mut actual = square();
    let expected = vec![vec![3, 2, 1], vec![6, 5, 4], vec![9, 8, 7]];
    reverse_rows(&mut actual);
    assert_eq!(true, vec_compare(&actual, &expected));
}

#[test]
fn reverse_columns_should_reverse_columns() {
    let mut actual = square();
    let expected: Vec<Vec<u32>> = vec![vec![7, 8, 9], vec![4, 5, 6], vec![1, 2, 3]];
    reverse_columns(&mut actual);
    assert_eq!(true, vec_compare(&actual, &expected));
}

#[test]
fn transponse_should_transpose() {
    let mut actual = square();
    let expected: Vec<Vec<u32>> = vec![vec![1, 4, 7], vec![2, 5, 8], vec![3, 6, 9]];
    transpose(&mut actual);
    assert_eq!(true, vec_compare(&actual, &expected));
}

#[test]
fn rotate90_should_rotate_by_90() {
    let mut actual = square();
    let expected: Vec<Vec<u32>> = vec![vec![7, 4, 1], vec![8, 5, 2], vec![9, 6, 3]];
    rotate90(&mut actual);
    assert_eq!(true, vec_compare(&actual, &expected));
}

#[test]
fn rotate_minus90_should_rotate_by_minus90() {
    let mut actual = square();
    let expected: Vec<Vec<u32>> = vec![vec![3, 6, 9], vec![2, 5, 8], vec![1, 4, 7]];
    rotate_minus90(&mut actual);
    assert_eq!(true, vec_compare(&actual, &expected));
}

#[test]
fn rotate_180_should_rotate_by_180() {
    let mut actual = square();
    let expected: Vec<Vec<u32>> = vec![vec![9, 8, 7], vec![6, 5, 4], vec![3, 2, 1]];
    rotate_180(&mut actual);
    assert_eq!(true, vec_compare(&actual, &expected));
}

#[test]
fn get_x_y_plane_should_get_x_y_plane() {
    let mut cube = get_data_cube();
    let first_plane = get_x_y_plane(&mut cube, 0);
    assert_eq!(true, vec_compare(&first_plane, &vec![vec![1, 2, 3], vec![4, 5, 6], vec![7, 8, 9]]));
    let second_plane = get_x_y_plane(&mut cube, 1);
    assert_eq!(
        true,
        vec_compare(&second_plane, &vec![vec![10, 11, 12], vec![13, 14, 15], vec![16, 17, 18]])
    );
    let third_plane = get_x_y_plane(&mut cube, 2);
    assert_eq!(
        true,
        vec_compare(&third_plane, &vec![vec![19, 20, 21], vec![22, 23, 24], vec![25, 26, 27]])
    );
}

#[test]
fn get_y_z_plane_should_get_y_z_plane() {
    let mut cube = get_data_cube();
    let first_plane = get_y_z_plane(&mut cube, 0);
    assert_eq!(
        true,
        vec_compare(&first_plane, &vec![vec![1, 4, 7], vec![10, 13, 16], vec![19, 22, 25]])
    );
    let second_plane = get_y_z_plane(&mut cube, 1);
    assert_eq!(
        true,
        vec_compare(&second_plane, &vec![vec![2, 5, 8], vec![11, 14, 17], vec![20, 23, 26]])
    );
    let third_plane = get_y_z_plane(&mut cube, 2);
    assert_eq!(
        true,
        vec_compare(&third_plane, &vec![vec![3, 6, 9], vec![12, 15, 18], vec![21, 24, 27]])
    );
}

#[test]
fn get_x_z_plane_should_get_x_z_plane() {
    let mut cube = get_data_cube();
    let first_plane = get_x_z_plane(&mut cube, 0);
    assert_eq!(
        true,
        vec_compare(&first_plane, &vec![vec![1, 2, 3], vec![10, 11, 12], vec![19, 20, 21]])
    );
    let second_plane = get_x_z_plane(&mut cube, 1);
    assert_eq!(
        true,
        vec_compare(&second_plane, &vec![vec![4, 5, 6], vec![13, 14, 15], vec![22, 23, 24]])
    );
    let third_plane = get_x_z_plane(&mut cube, 2);
    assert_eq!(
        true,
        vec_compare(&third_plane, &vec![vec![7, 8, 9], vec![16, 17, 18], vec![25, 26, 27]])
    );
}

#[test]
fn set_x_y_plane_should_set_x_y_plane() {
    let mut cube = get_data_cube();
    let first = get_x_y_plane(&mut cube, 0);
    set_x_y_plane(&mut cube, &first, 1);
    set_x_y_plane(&mut cube, &first, 2);
    assert_eq!(true, vec_compare(&first, &get_x_y_plane(&mut cube, 1)));
    assert_eq!(true, vec_compare(&first, &get_x_y_plane(&mut cube, 2)));
}

#[test]
fn set_y_z_plane_should_set_y_z_plane() {
    let mut cube = get_data_cube();
    let first = get_y_z_plane(&mut cube, 0);
    set_y_z_plane(&mut cube, &first, 1);
    set_y_z_plane(&mut cube, &first, 2);
    assert_eq!(true, vec_compare(&first, &get_y_z_plane(&mut cube, 1)));
    assert_eq!(true, vec_compare(&first, &get_y_z_plane(&mut cube, 2)));
}

#[test]
fn set_x_z_plane_should_set_x_z_plane() {
    let mut cube = get_data_cube();
    let first = get_x_z_plane(&mut cube, 0);
    set_x_z_plane(&mut cube, &first, 1);
    set_x_z_plane(&mut cube, &first, 2);
    assert_eq!(true, vec_compare(&first, &get_x_z_plane(&mut cube, 1)));
    assert_eq!(true, vec_compare(&first, &get_x_z_plane(&mut cube, 2)));
}

#[test]
fn rotations_four_times_restore() {
    let mut m = vec![vec![1u32, 2, 3, 4], vec![5, 6, 7, 8], vec![9, 10, 11, 12], vec![13, 14, 15, 16]];
    for _ in 0..4 {
        rotate90(&mut m);
    }
    assert_eq!(m, vec![vec![1, 2, 3, 4], vec![5, 6, 7, 8], vec![9, 10, 11, 12], vec![13, 14, 15, 16]]);
    for _ in 0..4 {
        rotate_minus90(&mut m);
    }
    assert_eq!(m, vec![vec![1, 2, 3, 4], vec![5, 6, 7, 8], vec![9, 10, 11, 12], vec![13, 14, 15, 16]]);
    rotate90(&mut m);
    assert_eq!(m[0], vec![13, 9, 5, 1]);
    rotate_minus90(&mut m);
    assert_eq!(m, vec![vec![1, 2, 3, 4], vec![5, 6, 7, 8], vec![9, 10, 11, 12], vec![13, 14, 15, 16]]);
}

#[test]
fn transpose_twice_restores() {
    let mut m = square();
    transpose(&mut m);
    assert_ne!(m, square());
    transpose(&mut m);
    assert_eq!(m, square());
}

#[test]
fn reverse_columns_matches_transpose_reverse_rows_transpose() {
    let mut a = square();
    let mut b = square();
    reverse_columns(&mut a);
    transpose(&mut b);
    reverse_rows(&mut b);
    transpose(&mut b);
    assert_eq!(a, b);
}

#[test]
fn transforms_on_empty_matrix() {
    let mut m: Vec<Vec<u32>> = vec![];
    rotate90(&mut m);
    rotate_180(&mut m);
    assert!(m.is_empty());
}

#[test]
fn get_then_set_is_a_round_trip() {
    for idx in 0..3 {
        let mut cube = get_data_cube();
        let p = get_x_y_plane(&mut cube, idx);
        set_x_y_plane(&mut cube, &p, idx);
        let p = get_y_z_plane(&mut cube, idx);
        set_y_z_plane(&mut cube, &p, idx);
        let p = get_x_z_plane(&mut cube, idx);
        set_x_z_plane(&mut cube, &p, idx);
        assert_eq!(cube, get_data_cube());
    }
}

#[test]
fn set_touches_only_its_plane() {
    let mut cube = get_data_cube();
    let zeros = vec![vec![0u32; 3]; 3];
    set_y_z_plane(&mut cube, &zeros, 1);
    assert_eq!(cube[0], vec![vec![1, 0, 3], vec![4, 0, 6], vec![7, 0, 9]]);
    assert_eq!(cube[2], vec![vec![19, 0, 21], vec![22, 0, 24], vec![25, 0, 27]]);
    let mut cube = get_data_cube();
    set_x_z_plane(&mut cube, &zeros, 2);
    assert_eq!(cube[1], vec![vec![10, 11, 12], vec![13, 14, 15], vec![0, 0, 0]]);
}
