use chat_core::decimal::{i32_to_string, u32_to_string};
use chat_core::matrix::{multiply, Matrix, MatrixError, MsgInput, MsgOutput};
use chat_core::vector::{dot_vector, Vector};

#[test]
fn test_matrix_multiply() {
    let a = Matrix::new(vec![1, 2, 3, 4, 5, 6], 2, 3);
    let b = Matrix::new(vec![1, 2, 3, 4, 5, 6], 3, 2);
    let c = multiply(&a, &b).expect("multiply error");
    assert_eq!(c.col, 2);
    assert_eq!(c.row, 2);
    assert_eq!(c.data, Vector::new(vec![22, 28, 49, 64]));
}

#[test]
fn test_matrix_display() {
    let a = Matrix::new(vec![1, 2, 3, 4], 2, 2);
    let b = Matrix::new(vec![1, 2, 3, 4], 2, 2);
    let c = multiply(&a, &b).expect("multiply error");
    assert_eq!(c.data, Vector::new(vec![7, 10, 15, 22]));
}

#[test]
fn incompatible_dimensions_are_reported() {
    let a = Matrix::new(vec![1, 2, 3, 4], 2, 2);
    let b = Matrix::new(vec![1, 2, 3], 3, 1);
    match multiply(&a, &b) {
        Err(e) => assert_eq!(e, MatrixError::IncompatibleDimensions),
        Ok(_) => panic!("2x2 times 3x1 must not have a product"),
    }
}

#[test]
fn multiply_by_identity() {
    let a = Matrix::new(vec![5, -3, 7, 2], 2, 2);
    let id = Matrix::new(vec![1, 0, 0, 1], 2, 2);
    let c = multiply(&a, &id).expect("multiply error");
    assert_eq!(c.data, Vector::new(vec![5, -3, 7, 2]));
}

#[test]
fn empty_product() {
    let a = Matrix::new(vec![], 0, 3);
    let b = Matrix::new(vec![], 3, 0);
    let c = multiply(&a, &b).expect("multiply error");
    assert_eq!(c.row, 0);
    assert_eq!(c.col, 0);
    assert_eq!(c.data, Vector::new(vec![]));
}

#[test]
fn dot_vector_values() {
    let v1 = Vector::new(vec![1, 2, 3]);
    let v2 = Vector::new(vec![4, 5, 6]);
    assert_eq!(dot_vector(&v1, &v2), 32);
    // The longer vector's tail is ignored, as pairing does.
    let v3 = Vector::new(vec![10, 100]);
    let v4 = Vector::new(vec![3]);
    assert_eq!(dot_vector(&v3, &v4), 30);
    let empty = Vector::new(vec![]);
    assert_eq!(dot_vector(&v1, &empty), 0);
}

#[test]
fn vector_access() {
    let v = Vector::new(vec![7, 8, 9]);
    assert_eq!(v.len(), 3);
    assert_eq!(v.get(0), 7);
    assert_eq!(v.get(2), 9);
    assert_eq!(v, Vector::new(vec![7, 8, 9]));
}

#[test]
fn worker_messages_carry_their_fields() {
    let input = MsgInput::new(4, Vector::new(vec![1, 2]), Vector::new(vec![3, 4]));
    assert_eq!(input.idx, 4);
    let value = dot_vector(&input.row, &input.col);
    let output = MsgOutput::new(input.idx, value);
    assert_eq!(output.idx, 4);
    assert_eq!(output.value, 11);
}

#[test]
fn matrix_rendering() {
    let a = Matrix::new(vec![1, 2, 3, 4, 5, 6], 2, 3);
    assert_eq!(a.render(), "[ 1 2 3 ], [ 4 5 6 ]");
    let b = Matrix::new(vec![-7], 1, 1);
    assert_eq!(b.render(), "[ -7 ]");
    let empty = Matrix::new(vec![], 0, 0);
    assert_eq!(empty.render(), "");
}

#[test]
fn decimal_rendering() {
    assert_eq!(u32_to_string(0), "0");
    assert_eq!(u32_to_string(7), "7");
    assert_eq!(u32_to_string(1203), "1203");
    assert_eq!(u32_to_string(u32::MAX), "4294967295");
    assert_eq!(i32_to_string(0), "0");
    assert_eq!(i32_to_string(-45), "-45");
    assert_eq!(i32_to_string(i32::MAX), "2147483647");
    assert_eq!(i32_to_string(i32::MIN), "-2147483648");
}
