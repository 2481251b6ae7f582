use chat_server::matrix::Matrix;

#[test]
fn test_new_ok() {
    let data = vec![1.0, 2.0, 3.0, 4.0, 5.0, 6.0];
    let matrix = Matrix::new(2, 3, data.clone());

    assert_eq!(matrix.rows, 2);
    assert_eq!(matrix.cols, 3);
    assert_eq!(data.len(), 6);

    let data = vec![1, 2, 3, 4, 5, 6, 7, 8];
    let matrix = Matrix::new(2, 4, data.clone());

    assert_eq!(matrix.rows, 2);
    assert_eq!(matrix.cols, 4);
    assert_eq!(matrix.data.len(), data.len());

    let m3 = Matrix::new(2, 2, vec!["a", "b", "c", "d"]);

    assert_eq!(m3.rows, 2);
    assert_eq!(m3.cols, 2);
    assert_eq!(m3.data.len(), 4);
}

#[test]
fn test_add_matrix() {
    let matrix_1 = Matrix::new(2, 2, vec![1.0, 2.0, 3.0, 4.0]);
    let matrix_2 = Matrix::new(2, 2, vec![5.0, 6.0, 7.0, 8.0]);

    let expected_data = vec![6.0, 8.0, 10.0, 12.0];
    let res = matrix_1.add(&matrix_2);

    assert!(res.data == expected_data, "wrong matrix data");
}

#[test]
fn test_transpose() {
    let matrix = Matrix::new(2, 3, vec![1.0, 2.0, 3.0, 4.0, 5.0, 6.0]);
    let expected_matrix = Matrix::new(3, 2, vec![1.0, 4.0, 2.0, 5.0, 3.0, 6.0]);

    assert!(matrix.transpose() == expected_matrix, "Wrongly transposed");
}

#[test]
fn test_multiply() {
    let matrix_1 = Matrix::new(2, 2, vec![1.0, 2.0, 3.0, 4.0]);
    let matrix_2 = Matrix::new(2, 2, vec![5.0, 6.0, 7.0, 8.0]);

    let expected_matrix = Matrix::new(2, 2, vec![19.0, 22.0, 43.0, 50.0]);

    assert_eq!(matrix_1.multiply(&matrix_2), expected_matrix);
}

#[test]
fn test_add_trait() {
    let matrix_1 = Matrix::new(2, 2, vec![1.0, 2.0, 3.0, 4.0]);
    let matrix_2 = Matrix::new(2, 2, vec![5.0, 6.0, 7.0, 8.0]);

    let expected_data = vec![6.0, 8.0, 10.0, 12.0];

    assert!(
        &matrix_1 + &matrix_2 == Matrix::new(2, 2, expected_data),
        "wrong matrix data"
    );
}

#[test]
fn test_scalar_mul() {
    let matrix = Matrix::new(2, 2, vec![1.0, 2.0, 3.0, 4.0]);

    let expected_matrix = Matrix::new(2, 2, vec![2.0, 4.0, 6.0, 8.0]);

    assert_eq!(matrix.scalar_mul(2.0), expected_matrix);
    assert_eq!(&matrix * 2.0, expected_matrix);
}

#[test]
fn test_sub_matrix() {
    let matrix_1 = Matrix::new(2, 2, vec![1.0, 2.0, 3.0, 4.0]);
    let matrix_2 = Matrix::new(2, 2, vec![5.0, 6.0, 7.0, 8.0]);

    let expected_data = vec![-4.0, -4.0, -4.0, -4.0];
    let res = matrix_1.sub(&matrix_2);

    assert!(res.data == expected_data, "wrong matrix data");
    assert_eq!(&matrix_1 - &matrix_2, Matrix::new(2, 2, expected_data));

    let m1 = Matrix::new(2, 2, vec![1, 2, 3, 4]);
    let m2 = Matrix::new(2, 2, vec![5, 6, 7, 8]);
    let exp_m = Matrix::new(2, 2, vec![-4, -4, -4, -4]);
    assert_eq!(&m1 - &m2, exp_m);
}

#[test]
fn test_neg_trait() {
    let matrix_1 = Matrix::new(2, 2, vec![-1.0, 2.0, 3.0, -4.0]);

    let exp_matrix = Matrix::new(2, 2, vec![1.0, -2.0, -3.0, 4.0]);

    assert_eq!(-matrix_1, exp_matrix);
}

#[test]
fn test_matrix_index() {
    let matrix: Matrix<f64> = Matrix::new(2, 2, vec![1.0, 2.0, 3.0, 4.0]);

    assert_eq!(matrix[(0, 0)], matrix.data[0]);
    assert_eq!(matrix[(0, 1)], matrix.data[1]);
    assert_eq!(matrix[(1, 0)], matrix.data[2]);
    assert_eq!(matrix[(1, 1)], matrix.data[3]);
}

#[test]
fn test_div_trait() {
    let m1 = Matrix::new(2, 2, vec![4, 4, 4, 4]);

    assert_eq!(&m1 / 2, Matrix::new(2, 2, vec![2, 2, 2, 2]));
}

#[test]
fn set_and_get_entries() {
    let mut m = Matrix::new(2, 3, vec![0, 0, 0, 0, 0, 0]);
    m.set(1, 2, 7);
    m.set(0, 1, 5);
    assert_eq!(*m.get(1, 2), 7);
    assert_eq!(m.data, vec![0, 5, 0, 0, 0, 7]);
}

#[test]
fn integer_product_of_non_square_matrices() {
    let a = Matrix::new(2, 3, vec![1, 2, 3, 4, 5, 6]);
    let b = Matrix::new(3, 1, vec![1, 0, 2]);
    assert_eq!(a.multiply(&b), Matrix::new(2, 1, vec![7, 16]));
    let empty_inner = Matrix::new(2, 0, Vec::<i32>::new());
    let c = Matrix::new(0, 2, Vec::<i32>::new());
    assert_eq!(empty_inner.multiply(&c), Matrix::new(2, 2, vec![0, 0, 0, 0]));
}
