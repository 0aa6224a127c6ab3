use dm_solution::star::{append_rows, extend_matrix, gapped_array, prepend_column_and_row, prepend_row};

#[test]
fn simple_matrix_extension() {
    let m1 = [[1, 2], [3, 4]].map(|r| r.to_vec()).to_vec();

    let m2 = m1.clone();

    let m = extend_matrix(m1, m2, &0);

    assert_eq!(m, [[1, 2, 0, 0], [3, 4, 0, 0], [0, 0, 1, 2], [0, 0, 3, 4]])
}

#[test]
fn different_matrix_dimensions() {
    let m1 = [[1, 2], [3, 4]].map(|r| r.to_vec()).to_vec();

    let m2 = [[1, 2, 3], [4, 5, 6], [7, 8, 9]].map(|r| r.to_vec()).to_vec();

    let m = extend_matrix(m1, m2, &0);

    assert_eq!(
        m,
        [
            [1, 2, 0, 0, 0],
            [3, 4, 0, 0, 0],
            [0, 0, 1, 2, 3],
            [0, 0, 4, 5, 6],
            [0, 0, 7, 8, 9]
        ]
    )
}

#[test]
fn extend_column_vectors() {
    let m1 = [[51.727909291236685], [62.0], [62.0]].map(|r| r.to_vec()).to_vec();
    let m2 = [[25.421091776051778], [62.0], [62.0]].map(|r| r.to_vec()).to_vec();

    let m = extend_matrix(m1, m2, &62.0);

    assert_eq!(
        m,
        [
            [51.727909291236685, 62.0],
            [62.0, 62.0],
            [62.0, 62.0],
            [62.0, 25.421091776051778],
            [62.0, 62.0],
            [62.0, 62.0]
        ]
    )
}

#[test]
fn prepend_column_and_row_simple() {
    let m1 = [[1, 2], [3, 4]].map(|r| r.to_vec()).to_vec();

    let m = prepend_column_and_row(m1, &0);

    assert_eq!(m, [[0, 0, 0], [0, 1, 2], [0, 3, 4]])
}

#[test]
fn prepend_column_and_row_empty() {
    let m = prepend_column_and_row(vec![], &0);
    let expected: Vec<Vec<i32>> = vec![];

    assert_eq!(m, expected);
}

#[test]
fn prepend_column_and_row_empty_row() {
    let m = prepend_column_and_row(vec![vec![]], &0);

    assert_eq!(m, [[0], [0]]);
}

#[test]
fn prepend_row_simple() {
    let m1 = [[1, 2], [3, 4]].map(|r| r.to_vec()).to_vec();

    let m = prepend_row(m1, &0);

    assert_eq!(m, [[0, 0], [1, 2], [3, 4]])
}

#[test]
fn append_rows_side_by_side() {
    let m1 = [[1, 2], [3, 4]].map(|r| r.to_vec()).to_vec();
    let m2 = [[5], [6]].map(|r| r.to_vec()).to_vec();

    let m = append_rows(vec![m1, m2]);

    assert_eq!(m, [[1, 2, 5], [3, 4, 6]]);
}

#[test]
fn append_rows_empty() {
    let ms: Vec<Vec<Vec<i32>>> = vec![];
    let m = append_rows(ms);
    let expected: Vec<Vec<i32>> = vec![];

    assert_eq!(m, expected);
}

#[test]
fn gapped_array_scatters() {
    let source = vec![7, 9];
    let indices = vec![3usize, 1usize];

    let r = gapped_array(source, &indices, &0, 5);

    assert_eq!(r, [0, 9, 0, 7, 0]);
}
