use libmat::err::{DimensionError, MatrixError};
use libmat::mat::text::layout;
use libmat::mat::{Dimensions, Matrix};

#[test]
fn rows_end_in_line_feeds_and_cells_are_set_apart_by_tabs() {
    let mat = Matrix::new(3, 4, 9).unwrap();
    assert_eq!(mat.to_text(), "9\t9\t9\t9\n9\t9\t9\t9\n9\t9\t9\t9");
    let m = Matrix::from_vec(2, 2, vec![1, -2, 30, 4]).unwrap();
    assert_eq!(m.to_text(), "1\t-2\n30\t4");
    assert_eq!(Matrix::new(1, 1, 5).unwrap().to_text(), "5");
    assert_eq!(
        Matrix::from_vec(3, 1, vec![1, 2, 3]).unwrap().to_text(),
        "1\n2\n3"
    );
    assert_eq!(
        Matrix::from_vec(1, 3, vec![1, 2, 3]).unwrap().to_text(),
        "1\t2\t3"
    );
}

#[test]
fn layout_of_given_cell_texts() {
    let texts: Vec<String> = vec!["a", "bb", "", "c"]
        .iter()
        .map(|s| s.to_string())
        .collect();
    assert_eq!(layout(2, &texts), "a\tbb\n\tc");
    assert_eq!(layout(1, &texts), "a\nbb\n\nc");
    assert_eq!(layout(4, &texts), "a\tbb\t\tc");
    assert_eq!(layout(3, &Vec::new()), "");
}

#[test]
fn a_shape_as_text() {
    assert_eq!(Dimensions::new(3, 4).unwrap().to_text(), "3x4");
    assert_eq!(Dimensions::new(12, 1).unwrap().to_text(), "12x1");
}

#[test]
fn messages_of_the_failures() {
    assert_eq!(
        MatrixError::IndexOutOfBounds(7).message(),
        "Tried to access a matrix at index `7`, which is out of bounds."
    );
    assert_eq!(
        DimensionError::InvalidDimensions.message(),
        "Dimensions with a size of less than 1 are invalid."
    );
    assert_eq!(
        DimensionError::InvalidInputDimensions(5, 6).message(),
        "Invalid input dimensions. Input has length 5, but should have length 6."
    );
    assert_eq!(
        DimensionError::NoMatch(
            Dimensions::new(3, 4).unwrap(),
            Dimensions::new(3, 3).unwrap(),
            "multiply".to_owned()
        )
        .message(),
        "Dimensions of two matrices do not match in the correct way. Cannot multiply 3x4 matrix with 3x3 matrix."
    );
    assert_eq!(
        DimensionError::NoSquare.message(),
        "Not a square matrix. Rows and cols need to be the same."
    );
}
