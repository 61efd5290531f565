use button_matrix::matrix::{Matrix, COLS, ROWS};
use button_matrix::render::{scale, Block};

#[test]
fn exact_fit_has_scale_one_and_tiles() {
    let mat = Matrix::new(2, 2, vec![true, false, false, true]).unwrap();
    assert_eq!(scale(&mat, 4, 2), 1);
    let blocks = mat.render(4, 2);
    assert_eq!(
        blocks,
        vec![
            Block { x: 0, y: 0, width: 2, height: 1, filled: true },
            Block { x: 0, y: 1, width: 2, height: 1, filled: false },
            Block { x: 2, y: 0, width: 2, height: 1, filled: false },
            Block { x: 2, y: 1, width: 2, height: 1, filled: true },
        ]
    );
    let mut covered = [[0u32; 2]; 4];
    for b in &blocks {
        for px in b.x..b.x + b.width {
            for py in b.y..b.y + b.height {
                covered[px as usize][py as usize] += 1;
            }
        }
    }
    assert!(covered.iter().all(|col| col.iter().all(|c| *c == 1)));
}

#[test]
fn scale_is_the_smaller_quotient() {
    let mat = Matrix::released(ROWS, COLS);
    assert_eq!(scale(&mat, 80, 24), 2);
    assert_eq!(scale(&mat, 44, 100), 2);
    assert_eq!(scale(&mat, 200, 27), 3);
}

#[test]
fn scaled_blocks_positions() {
    let mat = Matrix::new(2, 1, vec![false, true]).unwrap();
    let blocks = mat.render(9, 3);
    assert_eq!(
        blocks,
        vec![
            Block { x: 0, y: 0, width: 4, height: 2, filled: false },
            Block { x: 4, y: 0, width: 4, height: 2, filled: true },
        ]
    );
}

#[test]
fn too_small_renders_nothing() {
    let mat = Matrix::released(ROWS, COLS);
    assert!(mat.render(10, 50).is_empty());
    assert!(mat.render(100, 8).is_empty());
    assert!(mat.render(21, 50).is_empty());
    assert!(mat.render(0, 0).is_empty());
    assert_eq!(mat.render(22, 9).len(), ROWS * COLS);
}
