use solvekit::shidoku::{App, GameState, Key, SudokuSolver};
use solvekit::engine::CheckResult;

/// Moves the cursor to (r, c) from wherever it is (arrows clamp at
/// the edges) and types the digit.
fn place(app: &mut App, r: usize, c: usize, v: i64) {
    for _ in 0..3 {
        app.on_key(Key::Up);
        app.on_key(Key::Left);
    }
    for _ in 0..r {
        app.on_key(Key::Down);
    }
    for _ in 0..c {
        app.on_key(Key::Right);
    }
    app.on_key(Key::Digit(v));
}

/// A fresh game shows the four clues, an empty history, and accepts
/// input.
#[test]
fn new_game() {
    let app = App::new();
    assert_eq!(app.state(), GameState::Playing);
    assert_eq!(app.moves_made(), 0);
    assert_eq!(app.cursor(), (0, 0));
    assert_eq!(app.cell(0, 2), Some(3));
    assert_eq!(app.cell(1, 0), Some(4));
    assert_eq!(app.cell(2, 3), Some(1));
    assert_eq!(app.cell(3, 1), Some(2));
    assert_eq!(app.cell(0, 0), None);
    assert!(app.is_fixed(0, 2));
    assert!(!app.is_fixed(0, 0));
}

/// Quitting is the only key that ends the session.
#[test]
fn quit_key() {
    let mut app = App::new();
    assert!(!app.on_key(Key::Up));
    assert!(!app.on_key(Key::Other));
    assert!(app.on_key(Key::Quit));
}

/// A legal move lands on the grid and stays checkable; undo removes
/// exactly it.
#[test]
fn move_and_undo() {
    let mut app = App::new();
    place(&mut app, 0, 0, 2);
    assert_eq!(app.state(), GameState::Playing);
    assert_eq!(app.moves_made(), 1);
    assert_eq!(app.cell(0, 0), Some(2));
    app.on_key(Key::Backspace);
    assert_eq!(app.moves_made(), 0);
    assert_eq!(app.cell(0, 0), None);
    assert_eq!(app.state(), GameState::Playing);
}

/// A contradictory move flips the game into the error state with a
/// non-empty conflict, input is blocked until it is undone, and the
/// engine's pop restores a playable position.
#[test]
fn conflict_blocks_until_undone() {
    let mut app = App::new();
    // 3 in row 0 clashes with the fixed 3 at (0, 2).
    place(&mut app, 0, 0, 3);
    assert_eq!(app.state(), GameState::Error);
    // The error is a proved conflict, not an engine give-up.
    assert_eq!(app.last_check(), Some(CheckResult::Unsat));
    assert!(!app.conflict_ids().is_empty());
    // Digits are ignored while the conflict stands.
    let before = app.moves_made();
    app.on_key(Key::Digit(1));
    assert_eq!(app.moves_made(), before);
    // Undo clears it.
    app.on_key(Key::Backspace);
    assert_eq!(app.state(), GameState::Playing);
    assert_eq!(app.last_check(), Some(CheckResult::Sat));
    assert!(app.conflict_ids().is_empty());
}

/// Fixed cells and occupied cells cannot be overwritten.
#[test]
fn fixed_and_occupied_cells_immutable() {
    let mut app = App::new();
    place(&mut app, 0, 2, 1);
    assert_eq!(app.cell(0, 2), Some(3));
    assert_eq!(app.moves_made(), 0);
    place(&mut app, 0, 0, 2);
    assert_eq!(app.moves_made(), 1);
    place(&mut app, 0, 0, 1);
    assert_eq!(app.cell(0, 0), Some(2));
    assert_eq!(app.moves_made(), 1);
}

/// Completing the grid reaches the solved state.
#[test]
fn full_solve() {
    let mut app = App::new();
    // The unique completion of the fixed clues.
    let solution = [
        [2, 1, 3, 4],
        [4, 3, 1, 2],
        [3, 4, 2, 1],
        [1, 2, 4, 3],
    ];
    for r in 0..4 {
        for c in 0..4 {
            if app.cell(r, c).is_none() {
                place(&mut app, r, c, solution[r][c]);
                assert_ne!(app.state(), GameState::Error);
            }
        }
    }
    assert_eq!(app.state(), GameState::Solved);
}

/// The bare session mirrors push/pop depth one to one and surfaces
/// conflict trackers.
#[test]
fn sudoku_solver_session() {
    let mut s = SudokuSolver::new();
    assert_eq!(s.check(), CheckResult::Sat);
    assert_eq!(s.push_assertion(0, 0, 1, 100), Ok(()));
    assert_eq!(s.check(), CheckResult::Sat);
    // Same value twice in one row is a conflict.
    assert_eq!(s.push_assertion(0, 1, 1, 101), Ok(()));
    assert_eq!(s.check(), CheckResult::Unsat);
    let core = s.get_unsat_core().unwrap();
    assert!(!core.is_empty());
    for id in core.iter() {
        assert!(*id == 100 || *id == 101);
    }
    assert_eq!(s.pop_assertion(), Ok(()));
    assert_eq!(s.check(), CheckResult::Sat);
}
