use button_matrix::events::{diff, ButtonEvent};
use button_matrix::matrix::Matrix;

fn m(width: usize, height: usize, cells: &[bool]) -> Matrix {
    Matrix::new(width, height, cells.to_vec()).unwrap()
}

fn ev(x: u16, y: u16) -> ButtonEvent {
    ButtonEvent { x, y }
}

#[test]
fn single_press_from_empty() {
    let prev = m(2, 1, &[false, false]);
    let cur = m(2, 1, &[true, false]);
    assert_eq!(diff(&prev, &cur), vec![ev(0, 0)]);
}

#[test]
fn full_release_gives_release_all_only() {
    let prev = m(2, 1, &[true, true]);
    let cur = m(2, 1, &[false, false]);
    assert_eq!(diff(&prev, &cur), vec![ev(0, 0)]);
}

#[test]
fn diff_against_self_is_silent() {
    let a = m(3, 2, &[true, false, true, false, false, true]);
    assert!(diff(&a, &a).is_empty());
    let e = m(3, 2, &[false; 6]);
    assert!(diff(&e, &e).is_empty());
}

#[test]
fn first_cycle_reports_every_pressed_cell() {
    // cells (x, y): (1, 0), (0, 1), (2, 1) pressed
    let cur = m(3, 2, &[false, true, false, true, false, true]);
    let base = Matrix::released(3, 2);
    assert_eq!(diff(&base, &cur), vec![ev(0, 1), ev(1, 0), ev(2, 1)]);
}

#[test]
fn held_and_single_releases_are_not_reported() {
    // (0,0) held, (1,0) released, (2,0) pressed
    let prev = m(3, 1, &[true, true, false]);
    let cur = m(3, 1, &[true, false, true]);
    assert_eq!(diff(&prev, &cur), vec![ev(2, 0)]);
}

#[test]
fn presses_in_column_major_scan_order() {
    let prev = m(2, 2, &[false; 4]);
    // pressed: (1,0) offset 1, (0,1) offset 2
    let cur = m(2, 2, &[false, true, true, false]);
    assert_eq!(diff(&prev, &cur), vec![ev(0, 1), ev(1, 0)]);
}

#[test]
fn partial_release_keeps_no_release_all() {
    let prev = m(2, 1, &[true, true]);
    let cur = m(2, 1, &[true, false]);
    assert!(diff(&prev, &cur).is_empty());
}

#[test]
fn release_all_follows_presses_of_empty_prev_never() {
    // prev empty, cur empty: no release-all
    let prev = m(2, 1, &[false, false]);
    assert!(diff(&prev, &prev.clone()).is_empty());
}

#[test]
fn diff_exact_on_all_pairs_of_small_frames() {
    for p in 0..16u32 {
        for c in 0..16u32 {
            let pc: Vec<bool> = (0..4).map(|i| p >> i & 1 == 1).collect();
            let cc: Vec<bool> = (0..4).map(|i| c >> i & 1 == 1).collect();
            let prev = m(2, 2, &pc);
            let cur = m(2, 2, &cc);
            let mut expected = Vec::new();
            for x in 0..2usize {
                for y in 0..2usize {
                    let o = x + y * 2;
                    if cc[o] && !pc[o] {
                        expected.push(ev(x as u16, y as u16));
                    }
                }
            }
            if cc.iter().all(|b| !b) && pc.iter().any(|b| *b) {
                expected.push(ev(0, 0));
            }
            assert_eq!(diff(&prev, &cur), expected);
        }
    }
}
