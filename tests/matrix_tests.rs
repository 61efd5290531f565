use button_matrix::matrix::{Matrix, MatrixError, COLS, ROWS};

fn m(width: usize, height: usize, cells: &[bool]) -> Matrix {
    Matrix::new(width, height, cells.to_vec()).unwrap()
}

#[test]
fn decode_reads_only_digit_one_as_pressed() {
    let mat = Matrix::decode(3, 2, b"1x01\n1");
    assert_eq!(mat.width(), 3);
    assert_eq!(mat.height(), 2);
    assert!(mat.get(0, 0));
    assert!(!mat.get(1, 0));
    assert!(!mat.get(2, 0));
    assert!(mat.get(0, 1));
    assert!(!mat.get(1, 1));
    assert!(mat.get(2, 1));
}

#[test]
fn decode_every_byte_value() {
    for b in 0..=255u8 {
        let mat = Matrix::decode(1, 1, &[b]);
        assert_eq!(mat.get(0, 0), b == b'1');
    }
}

#[test]
fn decode_is_row_major() {
    let mut buf = vec![b'0'; ROWS * COLS];
    buf[4 + 3 * ROWS] = b'1';
    let mat = Matrix::decode(ROWS, COLS, &buf);
    for x in 0..ROWS {
        for y in 0..COLS {
            assert_eq!(mat.get(x, y), x == 4 && y == 3);
        }
    }
}

#[test]
fn new_rejects_bad_dimensions() {
    assert_eq!(Matrix::new(0, 2, vec![]).unwrap_err(), MatrixError::BadDimensions);
    assert_eq!(Matrix::new(2, 0, vec![]).unwrap_err(), MatrixError::BadDimensions);
    assert_eq!(Matrix::new(65536, 1, vec![]).unwrap_err(), MatrixError::BadDimensions);
}

#[test]
fn new_rejects_length_mismatch() {
    assert_eq!(Matrix::new(2, 2, vec![false; 3]).unwrap_err(), MatrixError::LengthMismatch);
    assert!(Matrix::new(2, 2, vec![false; 4]).is_ok());
}

#[test]
fn empty_iff_all_released() {
    assert!(m(2, 1, &[false, false]).empty());
    assert!(!m(2, 1, &[false, true]).empty());
    assert!(Matrix::released(ROWS, COLS).empty());
}
