use libmat::err::DimensionError;
use libmat::mat::{Dimensions, Matrix, Vector};

fn vector(values: &[i64]) -> Vector<i64> {
    Vector::from_vec(values.to_vec()).unwrap()
}

#[test]
fn a_new_vector_is_a_column() {
    let v = Vector::new(3, 4_i64).unwrap();
    assert_eq!(v.size(), 3);
    assert_eq!(v.dims(), Dimensions::new(3, 1).unwrap());
    assert!(v.is_col_vector());
    assert!(!v.is_row_vector());
    assert_eq!(v.as_slice(), &[4, 4, 4]);
    assert_eq!(v, vector(&[4, 4, 4]));
}

#[test]
fn a_vector_needs_an_entry() {
    assert_eq!(Vector::new(0, 1_i64), Err(DimensionError::InvalidDimensions));
    assert_eq!(
        Vector::<i64>::from_vec(vec![]),
        Err(DimensionError::InvalidDimensions)
    );
}

#[test]
fn a_vector_of_one_entry_is_a_row_and_a_column() {
    let v = Vector::new(1, 9_i64).unwrap();
    assert!(v.is_col_vector());
    assert!(v.is_row_vector());
}

#[test]
fn reshaping_keeps_the_entries() {
    let v = vector(&[1, 2, 3]);
    let row = v.to_row_vector();
    assert_eq!(row.dims(), Dimensions::new(1, 3).unwrap());
    assert!(row.is_row_vector());
    assert!(!row.is_col_vector());
    assert_eq!(row.as_slice(), &[1, 2, 3]);
    let col = row.to_col_vector();
    assert_eq!(col, v);
    assert_eq!(v.to_col_vector(), v);
    assert_eq!(row.to_row_vector(), row);
    assert_eq!(row.clone(), row);
}

#[test]
fn conversion_between_vector_and_matrix() {
    let m = Matrix::from_vec(1, 3, vec![1_i64, 2, 3]).unwrap();
    let v = Vector::from_matrix(m.clone()).unwrap();
    assert_eq!(v, vector(&[1, 2, 3]).to_row_vector());
    assert_eq!(v.clone().into_matrix(), m);
    assert_eq!(Matrix::from(v), m);
    let square = Matrix::from_vec(2, 2, vec![1_i64, 2, 3, 4]).unwrap();
    assert_eq!(Vector::from_matrix(square), None);
    let single = Matrix::from_vec(1, 1, vec![5_i64]).unwrap();
    assert_eq!(Vector::from_matrix(single), Some(vector(&[5])));
}

#[test]
fn entries_can_be_read_and_written() {
    let mut v = vector(&[1, 2, 3]);
    assert_eq!(v.get(1), 2);
    v.set(1, 20);
    assert_eq!(v, vector(&[1, 20, 3]));
}

#[test]
fn element_wise_operations_on_vectors() {
    let vec_a = vector(&[1, 2, 3]);
    let vec_b = vector(&[3, 2, 1]);
    assert_eq!(
        (vec_a.clone() + vec_b.clone()).unwrap(),
        Vector::new(3, 4).unwrap()
    );
    assert_eq!((vec_a.clone() - vec_b.clone()).unwrap(), vector(&[-2, 0, 2]));
    assert_eq!(-vec_a.clone(), vector(&[-1, -2, -3]));
    assert_eq!(Vector::new(3, 1_i64).unwrap() * 2, Vector::new(3, 2).unwrap());
    assert_eq!(vector(&[2, 4, -7]) / 2, Some(vector(&[1, 2, -3])));
    assert_eq!(vector(&[2, 4, 6]) / 0, None);
    let mut v = vec_a.clone();
    v.add_assign(vec_b.clone());
    assert_eq!(v, Vector::new(3, 4).unwrap());
    v.sub_assign(vec_b);
    assert_eq!(v, vec_a);
    v.mul_assign(5);
    assert_eq!(v, vector(&[5, 10, 15]));
    v.div_assign(5);
    assert_eq!(v, vec_a);
}

#[test]
fn vectors_of_different_shapes_do_not_add() {
    let three = vector(&[1, 2, 3]);
    let two = vector(&[1, 2]);
    assert_eq!(
        three.clone() + two.clone(),
        Err(DimensionError::NoMatch(
            Dimensions::new(3, 1).unwrap(),
            Dimensions::new(2, 1).unwrap(),
            "add".to_owned()
        ))
    );
    assert_eq!(
        two.clone() - three.clone(),
        Err(DimensionError::NoMatch(
            Dimensions::new(2, 1).unwrap(),
            Dimensions::new(3, 1).unwrap(),
            "subtract".to_owned()
        ))
    );
    assert_eq!(
        three.clone() + three.to_row_vector(),
        Err(DimensionError::NoMatch(
            Dimensions::new(3, 1).unwrap(),
            Dimensions::new(1, 3).unwrap(),
            "add".to_owned()
        ))
    );
    assert_eq!(
        three * two,
        Err(DimensionError::NoMatch(
            Dimensions::new(3, 1).unwrap(),
            Dimensions::new(2, 1).unwrap(),
            "multiply".to_owned()
        ))
    );
}

#[test]
fn dot_product() {
    let vec_a = Vector::new(4, 3_i64).unwrap();
    let vec_b = vector(&[5, 6, 7, 8]);
    assert_eq!(vec_a.clone() * vec_b.clone(), Ok(78));
    assert_eq!(vec_b.clone() * vec_a, Ok(78));
    assert_eq!(vec_b.clone() * vec_b.to_row_vector(), Ok(174));
    assert_eq!(vector(&[1, 0, 0]) * vector(&[0, 1, 0]), Ok(0));
}

#[test]
fn vector_times_matrix() {
    let mat_a = Matrix::<i64>::one(4).unwrap();
    let mat_b = Matrix::from_vec(4, 3, vec![1, 2, 3, 4, 4, 3, 2, 1, 3, 4, 1, 2]).unwrap();
    let vec_a = vector(&[4, 5, 6, 7]).to_row_vector();
    let vec_b = vector(&[64, 41, 59]).to_row_vector();
    assert_eq!((vec_a.clone() * mat_a).unwrap(), vec_a);
    assert_eq!((vec_a * mat_b).unwrap(), vec_b);
    let v_a = vector(&[1, 2, 3]).to_row_vector();
    let mat_c = Matrix::from_vec(3, 3, vec![1, 2, 3, 4, 5, 6, 7, 8, 9]).unwrap();
    assert_eq!(
        (v_a * mat_c).unwrap(),
        vector(&[30, 36, 42]).to_row_vector()
    );
}

#[test]
fn matrix_times_vector() {
    let mat = Matrix::from_vec(2, 3, vec![1_i64, 2, 3, 4, 5, 6]).unwrap();
    assert_eq!(
        (mat.clone() * vector(&[1, 0, -1])).unwrap(),
        vector(&[-2, -2])
    );
    assert_eq!(
        mat * vector(&[1, 2]),
        Err(DimensionError::NoMatch(
            Dimensions::new(2, 3).unwrap(),
            Dimensions::new(2, 1).unwrap(),
            "multiply".to_owned()
        ))
    );
    let column = vector(&[1, 2, 3]);
    let wide = Matrix::from_vec(3, 3, vec![1_i64; 9]).unwrap();
    assert_eq!(
        column * wide,
        Err(DimensionError::NoMatch(
            Dimensions::new(3, 1).unwrap(),
            Dimensions::new(3, 3).unwrap(),
            "multiply".to_owned()
        ))
    );
}
