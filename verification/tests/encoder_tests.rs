use solvekit::ast::eval_bool;
use solvekit::encoder::{check_line, encode_line_formulas};
use solvekit::puzzles::solve_nonogram;

/// Evaluates a whole line encoding against concrete start values and
/// cell values; `None` means some formula could not be evaluated.
fn encoding_satisfied(cells: &[bool], starts: &[i64], lens: &[i64]) -> bool {
    let cell_ids: Vec<usize> = (0..cells.len()).collect();
    let start_ids: Vec<usize> = (0..starts.len()).collect();
    let lens_v: Vec<i64> = lens.to_vec();
    let formulas = encode_line_formulas(&cell_ids, &start_ids, &lens_v);
    let iv: Vec<i64> = starts.to_vec();
    let bv: Vec<bool> = cells.to_vec();
    for f in formulas.iter() {
        match eval_bool(f, &iv, &bv) {
            Some(true) => {}
            _ => return false,
        }
    }
    true
}

/// Line encoder correctness on the exact case of the specification:
/// the clue `[1, 1]` on a length-3 line admits exactly the cell values
/// `[true, false, true]`, under the only viable placement `0, 2`.
#[test]
fn clue_one_one_on_three_cells() {
    let lens = [1i64, 1];
    // The unique satisfying completion.
    for s0 in 0..3i64 {
        for s1 in 0..3i64 {
            let sat = encoding_satisfied(&[true, false, true], &[s0, s1], &lens);
            assert_eq!(sat, s0 == 0 && s1 == 2);
        }
    }
    // Every other cell pattern is unsatisfiable under every placement.
    for bits in 0..8u32 {
        let cells = [bits & 1 != 0, bits & 2 != 0, bits & 4 != 0];
        if cells == [true, false, true] {
            continue;
        }
        for s0 in -1..4i64 {
            for s1 in -1..4i64 {
                assert!(!encoding_satisfied(&cells, &[s0, s1], &lens));
            }
        }
    }
}

/// An empty clue forces every cell in the line to false.
#[test]
fn empty_clue_forces_blank_line() {
    assert!(encoding_satisfied(&[false, false, false], &[], &[]));
    assert!(!encoding_satisfied(&[false, true, false], &[], &[]));
}

/// A clue that cannot fit its line is unsatisfiable, but representable:
/// the encoder delegates infeasibility to the check.
#[test]
fn oversized_clue_unsatisfiable() {
    let lens = [2i64, 2];
    for s0 in -1..5i64 {
        for s1 in -1..5i64 {
            for bits in 0..8u32 {
                let cells = [bits & 1 != 0, bits & 2 != 0, bits & 4 != 0];
                assert!(!encoding_satisfied(&cells, &[s0, s1], &lens));
            }
        }
    }
}

/// The line validator agrees with the encoding on a hand-checked line.
#[test]
fn check_line_agrees() {
    let cells = vec![true, false, true];
    assert!(check_line(&cells, &vec![0, 2], &vec![1, 1]));
    assert!(!check_line(&cells, &vec![0, 1], &vec![1, 1]));
    assert!(!check_line(&vec![true, true, true], &vec![0, 2], &vec![1, 1]));
    assert!(check_line(&vec![false, false], &vec![], &vec![]));
    assert!(!check_line(&vec![true, false], &vec![], &vec![]));
}

/// Row and column clues jointly pin down a whole grid.
#[test]
fn nonogram_two_by_two() {
    let grid = solve_nonogram(
        2,
        2,
        &vec![vec![2], vec![]],
        &vec![vec![1], vec![1]],
    )
    .unwrap();
    assert_eq!(grid, vec![vec![true, true], vec![false, false]]);
}

/// The specification's worked line as a one-row puzzle.
#[test]
fn nonogram_single_row() {
    let grid = solve_nonogram(
        1,
        3,
        &vec![vec![1, 1]],
        &vec![vec![1], vec![], vec![1]],
    )
    .unwrap();
    assert_eq!(grid, vec![vec![true, false, true]]);
}

/// An infeasible puzzle reports no solution.
#[test]
fn nonogram_infeasible() {
    let r = solve_nonogram(1, 3, &vec![vec![2, 2]], &vec![vec![], vec![], vec![]]);
    assert!(r.is_none());
}
