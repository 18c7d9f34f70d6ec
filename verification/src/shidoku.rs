//! Four-by-four grid puzzle ("shidoku") driven through the scope
//! stack: placing a digit pushes one scope holding one tracked
//! assertion, removing a digit pops exactly that scope, and a failed
//! check surfaces the conflicting trackers.  The engine's scope stack
//! is the game's entire undo mechanism.

use vstd::prelude::*;
use crate::ast::{Assignment, BoolExpr, all_hold, beval, bwf, e_const, e_var, f_eq};
use crate::context::{SolverContext, SolverError, TrackerInfo};
use crate::engine::CheckResult;

verus! {

/// The incremental session behind the grid: sixteen cell variables,
/// the base rules, and one scope per placed digit.
pub struct SudokuSolver {
    ctx: SolverContext,
    cells: Vec<usize>,
}

/// The four cell variables at indices `i`, `j`, `k`, `l` take pairwise
/// different values under `a`.
pub open spec fn quad_distinct(
    cells: Seq<usize>,
    a: Assignment,
    i: int,
    j: int,
    k: int,
    l: int,
) -> bool {
    &&& a.ints[cells[i] as int] != a.ints[cells[j] as int]
    &&& a.ints[cells[i] as int] != a.ints[cells[k] as int]
    &&& a.ints[cells[i] as int] != a.ints[cells[l] as int]
    &&& a.ints[cells[j] as int] != a.ints[cells[k] as int]
    &&& a.ints[cells[j] as int] != a.ints[cells[l] as int]
    &&& a.ints[cells[k] as int] != a.ints[cells[l] as int]
}

/// The complete rules of the grid over the sixteen cell variables
/// (cell `(r, c)` at index `4r + c`): every value in `1..=4`, and
/// every row, column and box pairwise distinct.
pub open spec fn shidoku_rules(cells: Seq<usize>, a: Assignment) -> bool {
    &&& forall|i: int| 0 <= i < 16 ==> 1 <= a.ints[#[trigger] cells[i] as int] <= 4
    &&& forall|r: int|
        0 <= r < 4 ==> quad_distinct(cells, a, 4 * r, 4 * r + 1, 4 * r + 2, #[trigger] (4 * r
            + 3))
    &&& forall|c: int|
        0 <= c < 4 ==> quad_distinct(cells, a, c, c + 4, c + 8, #[trigger] (c + 12))
    &&& quad_distinct(cells, a, 0, 1, 4, 5)
    &&& quad_distinct(cells, a, 2, 3, 6, 7)
    &&& quad_distinct(cells, a, 8, 9, 12, 13)
    &&& quad_distinct(cells, a, 10, 11, 14, 15)
}

/// Pairwise distinctness of four integer variables, as one primitive
/// constraint.
fn distinct4(a: usize, b: usize, c: usize, d: usize) -> (r: BoolExpr)
    ensures
        forall|asg: Assignment| #[trigger] beval(r, asg) <==> (asg.ints[a as int] != asg.ints[
            b as int] && asg.ints[a as int] != asg.ints[c as int] && asg.ints[a as int]
            != asg.ints[d as int] && asg.ints[b as int] != asg.ints[c as int] && asg.ints[
            b as int] != asg.ints[d as int] && asg.ints[c as int] != asg.ints[d as int]),
        forall|ni: int, nb: int|
            (a as int) < ni && (b as int) < ni && (c as int) < ni && (d as int) < ni
                ==> #[trigger] bwf(r, ni, nb),
{
    let ids = vec![a, b, c, d];
    let r = BoolExpr::Distinct(ids);
    proof {
        let vs = r->Distinct_0@;
        assert(vs =~= seq![a, b, c, d]);
        assert forall|asg: Assignment| #[trigger] beval(r, asg) <==> (asg.ints[a as int]
            != asg.ints[b as int] && asg.ints[a as int] != asg.ints[c as int] && asg.ints[
            a as int] != asg.ints[d as int] && asg.ints[b as int] != asg.ints[c as int]
            && asg.ints[b as int] != asg.ints[d as int] && asg.ints[c as int] != asg.ints[
            d as int]) by {
            if beval(r, asg) {
                assert(asg.ints[vs[0] as int] != asg.ints[vs[1] as int]);
                assert(asg.ints[vs[0] as int] != asg.ints[vs[2] as int]);
                assert(asg.ints[vs[0] as int] != asg.ints[vs[3] as int]);
                assert(asg.ints[vs[1] as int] != asg.ints[vs[2] as int]);
                assert(asg.ints[vs[1] as int] != asg.ints[vs[3] as int]);
                assert(asg.ints[vs[2] as int] != asg.ints[vs[3] as int]);
            } else {
                if asg.ints[a as int] != asg.ints[b as int] && asg.ints[a as int] != asg.ints[
                    c as int] && asg.ints[a as int] != asg.ints[d as int] && asg.ints[b as int]
                    != asg.ints[c as int] && asg.ints[b as int] != asg.ints[d as int]
                    && asg.ints[c as int] != asg.ints[d as int] {
                    assert forall|p: int, q: int|
                        0 <= p < q < vs.len() implies asg.ints[vs[p] as int] != asg.ints[vs[
                        q] as int] by {
                        if p == 0 && q == 1 {
                        } else if p == 0 && q == 2 {
                        } else if p == 0 && q == 3 {
                        } else if p == 1 && q == 2 {
                        } else if p == 1 && q == 3 {
                        } else if p == 2 && q == 3 {
                        }
                    }
                }
            }
        }
        assert forall|ni: int, nb: int|
            (a as int) < ni && (b as int) < ni && (c as int) < ni && (d as int) < ni
                implies #[trigger] bwf(r, ni, nb) by {
            assert forall|p: int| 0 <= p < vs.len() implies (#[trigger] vs[p] as int) < ni by {
                if p == 0 {
                } else if p == 1 {
                } else if p == 2 {
                }
            }
        }
    }
    r
}

impl SudokuSolver {
    /// Structural invariant: sixteen declared cells.
    pub closed spec fn wf(self) -> bool {
        &&& self.ctx.wf()
        &&& self.cells@.len() == 16
        &&& forall|i: int| 0 <= i < 16 ==> (#[trigger] self.cells@[i] as int)
            < self.ctx.num_ints()
    }

    /// Number of live scopes (one per placed digit).
    pub closed spec fn depth(self) -> int {
        self.ctx.depth()
    }

    /// The live tracked assertions.
    pub closed spec fn trackers(self) -> Seq<TrackerInfo> {
        self.ctx.trackers()
    }

    /// Whether a tracker identifier is currently live.
    pub closed spec fn tracker_live(self, id: u64) -> bool {
        self.ctx.tracker_live(id)
    }

    /// Result of the last check, if no mutation happened since.
    pub closed spec fn last_result(self) -> Option<CheckResult> {
        self.ctx.last_result()
    }

    /// The sixteen cell variables, cell `(r, c)` at index `4r + c`.
    pub closed spec fn cell_vars(self) -> Seq<usize> {
        self.cells@
    }

    /// Every live formula of the session, in assertion order.
    pub closed spec fn formula(self) -> Seq<BoolExpr> {
        self.ctx.formula()
    }

    /// The session's frame stack: the base rules at the bottom, one
    /// further frame per placed digit.
    pub closed spec fn frames(self) -> Seq<Seq<BoolExpr>> {
        self.ctx.frames_view()
    }

    /// The formula is exactly the flattened frame stack, so restoring
    /// the frames restores the formula.
    pub proof fn lemma_formula_is_flat_frames(self)
        ensures
            self.formula() == crate::context::flat(self.frames()),
    {
    }

    /// A fresh session with the base rules asserted: an assignment
    /// satisfies the session's formula exactly when it satisfies the
    /// grid rules — every cell in `1..=4`, and all rows, columns and
    /// boxes pairwise distinct.
    pub fn new() -> (s: SudokuSolver)
        ensures
            s.wf(),
            s.depth() == 0,
            s.trackers() == Seq::<TrackerInfo>::empty(),
            s.cell_vars().len() == 16,
            forall|a: Assignment| #[trigger] all_hold(s.formula(), a) <==> shidoku_rules(
                s.cell_vars(),
                a,
            ),
    {
        let mut ctx = SolverContext::new();
        let mut cells: Vec<usize> = Vec::new();
        let mut i: usize = 0;
        while i < 16
            invariant
                ctx.wf(),
                i <= 16,
                cells@.len() == i,
                ctx.num_ints() == i as int,
                ctx.num_bools() == 0,
                ctx.depth() == 0,
                ctx.formula() == Seq::<BoolExpr>::empty(),
                ctx.trackers() == Seq::<TrackerInfo>::empty(),
                forall|p: int| 0 <= p < i ==> (#[trigger] cells@[p] as int) < ctx.num_ints(),
            decreases 16 - i,
        {
            let v = ctx.declare_int();
            cells.push(v);
            i += 1;
        }
        let mut fs: Vec<BoolExpr> = Vec::new();
        // Cell range: 1 <= cell <= 4.
        let mut j: usize = 0;
        while j < 16
            invariant
                j <= 16,
                cells@.len() == 16,
                forall|p: int| 0 <= p < 16 ==> (#[trigger] cells@[p] as int) < 16,
                forall|a: Assignment| #[trigger] all_hold(fs@, a) <==> (forall|p: int|
                    0 <= p < j ==> 1 <= a.ints[#[trigger] cells@[p] as int] <= 4),
                forall|ni: int, nb: int| 16 <= ni ==> #[trigger] crate::ast::all_wf(fs@, ni, nb),
            decreases 16 - j,
        {
            let lob = crate::ast::f_le(e_const(1), e_var(cells[j]));
            let hib = crate::ast::f_le(e_var(cells[j]), e_const(4));
            let ghost fs0 = fs@;
            fs.push(lob);
            fs.push(hib);
            proof {
                assert forall|a: Assignment| #[trigger] all_hold(fs@, a) <==> (forall|p: int|
                    0 <= p < j + 1 ==> 1 <= a.ints[#[trigger] cells@[p] as int] <= 4) by {
                    crate::encoder::lemma_all_hold_push(fs0, lob, a);
                    crate::encoder::lemma_all_hold_push(fs0.push(lob), hib, a);
                }
                assert forall|ni: int, nb: int| 16 <= ni implies #[trigger] crate::ast::all_wf(
                    fs@,
                    ni,
                    nb,
                ) by {
                    crate::encoder::lemma_all_wf_push(fs0, lob, ni, nb);
                    crate::encoder::lemma_all_wf_push(fs0.push(lob), hib, ni, nb);
                }
            }
            j += 1;
        }
        // Rows and columns distinct.
        let mut r: usize = 0;
        while r < 4
            invariant
                r <= 4,
                cells@.len() == 16,
                forall|p: int| 0 <= p < 16 ==> (#[trigger] cells@[p] as int) < 16,
                forall|a: Assignment| #[trigger] all_hold(fs@, a) <==> (forall|p: int|
                    0 <= p < 16 ==> 1 <= a.ints[#[trigger] cells@[p] as int] <= 4) && (forall|
                    rr: int,
                |
                    0 <= rr < r ==> quad_distinct(cells@, a, 4 * rr, 4 * rr + 1, 4 * rr + 2,
                    #[trigger] (4 * rr + 3))) && (forall|cc: int|
                    0 <= cc < r ==> quad_distinct(cells@, a, cc, cc + 4, cc + 8, #[trigger] (cc
                        + 12))),
                forall|ni: int, nb: int| 16 <= ni ==> #[trigger] crate::ast::all_wf(fs@, ni, nb),
            decreases 4 - r,
        {
            let rowq = distinct4(cells[4 * r], cells[4 * r + 1], cells[4 * r + 2], cells[4 * r
                + 3]);
            let colq = distinct4(cells[r], cells[r + 4], cells[r + 8], cells[r + 12]);
            let ghost fs0 = fs@;
            fs.push(rowq);
            fs.push(colq);
            proof {
                assert forall|a: Assignment| #[trigger] all_hold(fs@, a) <==> (forall|p: int|
                    0 <= p < 16 ==> 1 <= a.ints[#[trigger] cells@[p] as int] <= 4) && (forall|
                    rr: int,
                |
                    0 <= rr < r + 1 ==> quad_distinct(cells@, a, 4 * rr, 4 * rr + 1, 4 * rr + 2,
                    #[trigger] (4 * rr + 3))) && (forall|cc: int|
                    0 <= cc < r + 1 ==> quad_distinct(cells@, a, cc, cc + 4, cc + 8, #[trigger] (
                    cc + 12))) by {
                    crate::encoder::lemma_all_hold_push(fs0, rowq, a);
                    crate::encoder::lemma_all_hold_push(fs0.push(rowq), colq, a);
                    assert(beval(rowq, a) <==> quad_distinct(cells@, a, 4 * r, 4 * r + 1, 4 * r
                        + 2, 4 * r + 3));
                    assert(beval(colq, a) <==> quad_distinct(cells@, a, r as int, r + 4, r + 8,
                    r + 12));
                }
                assert forall|ni: int, nb: int| 16 <= ni implies #[trigger] crate::ast::all_wf(
                    fs@,
                    ni,
                    nb,
                ) by {
                    crate::encoder::lemma_all_wf_push(fs0, rowq, ni, nb);
                    crate::encoder::lemma_all_wf_push(fs0.push(rowq), colq, ni, nb);
                }
            }
            r += 1;
        }
        // The four 2x2 boxes.
        let b0 = distinct4(cells[0], cells[1], cells[4], cells[5]);
        let b1 = distinct4(cells[2], cells[3], cells[6], cells[7]);
        let b2 = distinct4(cells[8], cells[9], cells[12], cells[13]);
        let b3 = distinct4(cells[10], cells[11], cells[14], cells[15]);
        let ghost fs0 = fs@;
        fs.push(b0);
        fs.push(b1);
        fs.push(b2);
        fs.push(b3);
        proof {
            assert forall|a: Assignment| #[trigger] all_hold(fs@, a) <==> shidoku_rules(
                cells@,
                a,
            ) by {
                crate::encoder::lemma_all_hold_push(fs0, b0, a);
                crate::encoder::lemma_all_hold_push(fs0.push(b0), b1, a);
                crate::encoder::lemma_all_hold_push(fs0.push(b0).push(b1), b2, a);
                crate::encoder::lemma_all_hold_push(fs0.push(b0).push(b1).push(b2), b3, a);
            }
            assert forall|ni: int, nb: int| 16 <= ni implies #[trigger] crate::ast::all_wf(
                fs@,
                ni,
                nb,
            ) by {
                crate::encoder::lemma_all_wf_push(fs0, b0, ni, nb);
                crate::encoder::lemma_all_wf_push(fs0.push(b0), b1, ni, nb);
                crate::encoder::lemma_all_wf_push(fs0.push(b0).push(b1), b2, ni, nb);
                crate::encoder::lemma_all_wf_push(fs0.push(b0).push(b1).push(b2), b3, ni, nb);
            }
        }
        let ghost fs_final = fs@;
        crate::encoder::assert_all(&mut ctx, fs);
        proof {
            assert(ctx.formula() =~= fs_final);
        }
        SudokuSolver { ctx, cells }
    }

    /// Pushes one scope and asserts, tracked under `id`, that cell
    /// `(r, c)` holds `val`.  Fails with `DuplicateTracker`, changing
    /// nothing, when `id` is already live.
    pub fn push_assertion(&mut self, r: usize, c: usize, val: i64, id: u64) -> (res: Result<
        (),
        SolverError,
    >)
        requires
            old(self).wf(),
            r < 4,
            c < 4,
        ensures
            final(self).wf(),
            old(self).tracker_live(id) ==> res == Err::<(), SolverError>(
                SolverError::DuplicateTracker,
            ) && final(self).depth() == old(self).depth() && final(self).frames() == old(
                self).frames() && final(self).trackers() == old(self).trackers() && final(
                self).last_result() is None,
            !old(self).tracker_live(id) ==> res == Ok::<(), SolverError>(()) && final(
                self).depth() == old(self).depth() + 1 && final(self).frames().len() == old(
                self).frames().len() + 1 && final(self).frames().drop_last() == old(
                self).frames() && final(self).trackers().len() == old(self).trackers().len()
                + 1 && final(self).trackers().drop_last() == old(self).trackers() && final(
                self).trackers().last().id == id && final(self).last_result() is None && (
            forall|a: Assignment|
                #[trigger] all_hold(final(self).formula(), a) <==> all_hold(
                    old(self).formula(),
                    a,
                ) && a.ints[old(self).cell_vars()[4 * (r as int) + c] as int] == val as int),
    {
        let ghost pre = self.ctx;
        self.ctx.push();
        let f = f_eq(e_var(self.cells[4 * r + c]), e_const(val));
        let ghost gf = f;
        let res = self.ctx.assert_tracked(f, id);
        match res {
            Ok(()) => {
                proof {
                    assert(final(self).trackers().drop_last() =~= old(self).trackers());
                    assert(final(self).frames().drop_last() =~= old(self).frames());
                    assert forall|a: Assignment| #[trigger] all_hold(final(self).formula(), a)
                        <==> all_hold(old(self).formula(), a) && a.ints[old(self).cell_vars()[4
                        * (r as int) + c] as int] == val as int by {
                        crate::encoder::lemma_all_hold_push(pre.formula(), gf, a);
                        assert(pre.formula() == old(self).formula());
                    }
                }
                Ok(())
            },
            Err(_) => {
                proof {
                    pre.lemma_wf_base_frame();
                    pre.lemma_wf_trackers();
                }
                let popped = self.ctx.pop(1);
                proof {
                    assert(popped == Ok::<(), SolverError>(()));
                    assert(self.ctx.frames_view() =~= pre.frames_view());
                }
                Err(SolverError::DuplicateTracker)
            },
        }
    }

    /// Pops the most recent scope, dropping exactly its frame of
    /// assertions: popping the scope that a `push_assertion` opened
    /// restores the formula to what it was just before that push.
    /// Fails with `StackUnderflow`, changing nothing, when no scope is
    /// live.
    pub fn pop_assertion(&mut self) -> (res: Result<(), SolverError>)
        requires
            old(self).wf(),
        ensures
            final(self).wf(),
            old(self).depth() == 0 ==> res == Err::<(), SolverError>(SolverError::StackUnderflow)
                && *final(self) == *old(self),
            old(self).depth() >= 1 ==> res == Ok::<(), SolverError>(()) && final(self).depth()
                == old(self).depth() - 1 && final(self).frames() == old(self).frames().take(
                old(self).frames().len() - 1,
            ) && final(self).last_result() is None,
            forall|id: u64| #[trigger] final(self).tracker_live(id) ==> old(self).tracker_live(
                id,
            ),
    {
        self.ctx.pop(1)
    }

    /// Asks the engine whether the grid as asserted is satisfiable.
    /// Nothing of the session changes — not the formula, the scopes or
    /// the trackers — except the recorded result.
    pub fn check(&mut self) -> (r: CheckResult)
        requires
            old(self).wf(),
        ensures
            final(self).wf(),
            final(self).depth() == old(self).depth(),
            final(self).frames() == old(self).frames(),
            final(self).formula() == old(self).formula(),
            final(self).trackers() == old(self).trackers(),
            final(self).cell_vars() == old(self).cell_vars(),
            final(self).last_result() == Some(r),
    {
        self.ctx.check()
    }

    /// Result of the last check, if no mutation happened since.
    pub fn last_check(&self) -> (r: Option<CheckResult>)
        ensures
            r == self.last_result(),
    {
        self.ctx.last_check()
    }

    /// The tracker identifiers of a conflicting subset, after an
    /// `Unsat` check.  Every returned identifier is a live tracker.
    pub fn get_unsat_core(&self) -> (r: Result<Vec<u64>, SolverError>)
        requires
            self.wf(),
        ensures
            self.last_result() != Some(CheckResult::Unsat) ==> r == Err::<Vec<u64>, SolverError>(
                SolverError::NoCore,
            ),
            r matches Ok(ids) ==> forall|i: int|
                0 <= i < ids@.len() ==> self.tracker_live(#[trigger] ids@[i]),
    {
        self.ctx.unsat_core()
    }
}

/// Whether the game is accepting digits, blocked on a conflict, or
/// finished.
#[derive(Clone, Copy, PartialEq, Eq, Structural, Debug)]
pub enum GameState {
    Playing,
    Error,
    Solved,
}

/// An abstract input event, as the presentation layer reports it.
#[derive(Clone, Copy, PartialEq, Eq, Structural, Debug)]
pub enum Key {
    Up,
    Down,
    Left,
    Right,
    Digit(i64),
    Backspace,
    Quit,
    Other,
}

/// The interactive grid game: user moves mirror the engine's scope
/// stack one to one, so undoing a move is exactly one pop.
pub struct App {
    solver: SudokuSolver,
    grid: Vec<Option<i64>>,
    fixed: Vec<bool>,
    cursor_r: usize,
    cursor_c: usize,
    state: GameState,
    conflict: Vec<u64>,
    history: Vec<(usize, usize, i64)>,
    fixed_count: usize,
    next_tracker: u64,
}

impl App {
    /// Structural invariant: the grid is four by four, the cursor is
    /// on it, the scope depth equals fixed placements plus moves, and
    /// tracker identifiers below the counter are the only live ones.
    pub closed spec fn wf(self) -> bool {
        &&& self.solver.wf()
        &&& self.grid@.len() == 16
        &&& self.fixed@.len() == 16
        &&& self.cursor_r < 4
        &&& self.cursor_c < 4
        &&& self.solver.depth() == self.fixed_count + self.history@.len()
        &&& forall|i: int|
            0 <= i < self.history@.len() ==> (#[trigger] self.history@[i]).0 < 4 && self.history@[
                i].1 < 4
        &&& forall|i: int|
            0 <= i < self.solver.trackers().len() ==> (#[trigger] self.solver.trackers()[i]).id
                < self.next_tracker
    }

    /// The value shown in cell `(r, c)`.
    pub closed spec fn cell_value(self, r: int, c: int) -> Option<i64> {
        self.grid@[4 * r + c]
    }

    /// The game's current phase.
    pub closed spec fn phase(self) -> GameState {
        self.state
    }

    /// Number of undoable user moves.
    pub closed spec fn move_count(self) -> int {
        self.history@.len() as int
    }

    /// The current cursor position.
    pub closed spec fn cursor_pos(self) -> (int, int) {
        (self.cursor_r as int, self.cursor_c as int)
    }

    /// The conflicting tracker identifiers of the last failed check.
    pub closed spec fn conflict_view(self) -> Seq<u64> {
        self.conflict@
    }

    /// Whether cell `(r, c)` holds one of the immutable clues.
    pub closed spec fn fixed_flag(self, r: int, c: int) -> bool {
        self.fixed@[4 * r + c]
    }

    /// Number of immutable clues placed when the game started.
    pub closed spec fn given_count(self) -> int {
        self.fixed_count as int
    }

    /// Depth of the engine's scope stack: one scope per clue plus one
    /// per undoable move.
    pub closed spec fn scope_depth(self) -> int {
        self.solver.depth()
    }

    /// Result of the last check the game issued, if any; distinguishes
    /// a proved conflict (`Unsat`) from an engine give-up (`Unknown`).
    pub closed spec fn last_outcome(self) -> Option<CheckResult> {
        self.solver.last_result()
    }

    /// Whether a fresh tracker identifier is still available for the
    /// next move.
    pub closed spec fn can_track(self) -> bool {
        self.next_tracker < 0xffff_ffff_ffff_ffff
    }

    /// Move `i` of the undo history: row, column and digit.
    pub closed spec fn move_at(self, i: int) -> (usize, usize, i64) {
        self.history@[i]
    }

    /// The cursor's cell cannot take a new digit: it is a clue, it is
    /// already filled, or no fresh tracker identifier is left.
    pub open spec fn move_blocked(self) -> bool {
        ||| self.fixed_flag(self.cursor_pos().0, self.cursor_pos().1)
        ||| self.cell_value(self.cursor_pos().0, self.cursor_pos().1) is Some
        ||| !self.can_track()
    }

    /// A fresh game with the standard four fixed clues.
    pub fn new() -> (s: App)
        ensures
            s.wf(),
            s.move_count() == 0,
            s.phase() == GameState::Playing,
            s.cursor_pos() == (0int, 0int),
            s.conflict_view() == Seq::<u64>::empty(),
            s.given_count() == 4,
            s.scope_depth() == 4,
            s.cell_value(0, 2) == Some(3i64),
            s.cell_value(1, 0) == Some(4i64),
            s.cell_value(2, 3) == Some(1i64),
            s.cell_value(3, 1) == Some(2i64),
            s.fixed_flag(0, 2) && s.fixed_flag(1, 0) && s.fixed_flag(2, 3) && s.fixed_flag(3, 1),
            forall|r2: int, c2: int|
                0 <= r2 < 4 && 0 <= c2 < 4 && !((r2 == 0 && c2 == 2) || (r2 == 1 && c2 == 0) || (
                r2 == 2 && c2 == 3) || (r2 == 3 && c2 == 1)) ==> #[trigger] s.cell_value(r2, c2)
                    is None && !s.fixed_flag(r2, c2),
    {
        let solver = SudokuSolver::new();
        let mut grid: Vec<Option<i64>> = Vec::new();
        let mut fixed: Vec<bool> = Vec::new();
        let mut i: usize = 0;
        while i < 16
            invariant
                i <= 16,
                grid@.len() == i,
                fixed@.len() == i,
                forall|p: int| 0 <= p < i ==> (#[trigger] grid@[p]) is None,
                forall|p: int| 0 <= p < i ==> !(#[trigger] fixed@[p]),
            decreases 16 - i,
        {
            grid.push(None);
            fixed.push(false);
            i += 1;
        }
        let mut app = App {
            solver,
            grid,
            fixed,
            cursor_r: 0,
            cursor_c: 0,
            state: GameState::Playing,
            conflict: Vec::new(),
            history: Vec::new(),
            fixed_count: 0,
            next_tracker: 0,
        };
        app.set_fixed(0, 2, 3);
        app.set_fixed(1, 0, 4);
        app.set_fixed(2, 3, 1);
        app.set_fixed(3, 1, 2);
        app
    }

    /// Places an immutable clue: part of the base of the session, not
    /// of the undo history.
    fn set_fixed(&mut self, r: usize, c: usize, val: i64)
        requires
            old(self).wf(),
            r < 4,
            c < 4,
            old(self).next_tracker < 0xffff_ffff_ffff_ffff,
            old(self).fixed_count < 0xffff,
        ensures
            final(self).wf(),
            final(self).history@ == old(self).history@,
            final(self).next_tracker == old(self).next_tracker + 1,
            final(self).fixed_count == old(self).fixed_count + 1,
            final(self).cell_value(r as int, c as int) == Some(val),
            final(self).fixed_flag(r as int, c as int),
            forall|r2: int, c2: int|
                0 <= r2 < 4 && 0 <= c2 < 4 && !(r2 == r as int && c2 == c as int)
                    ==> #[trigger] final(self).cell_value(r2, c2) == old(self).cell_value(r2, c2),
            forall|r2: int, c2: int|
                0 <= r2 < 4 && 0 <= c2 < 4 && !(r2 == r as int && c2 == c as int)
                    ==> #[trigger] final(self).fixed_flag(r2, c2) == old(self).fixed_flag(r2, c2),
            final(self).phase() == old(self).phase(),
            final(self).cursor_pos() == old(self).cursor_pos(),
            final(self).conflict_view() == old(self).conflict_view(),
            final(self).scope_depth() == old(self).scope_depth() + 1,
    {
        self.grid.set(4 * r + c, Some(val));
        self.fixed.set(4 * r + c, true);
        let id = self.next_tracker;
        proof {
            assert(!self.solver.tracker_live(id)) by {
                if self.solver.tracker_live(id) {
                    let i = choose|i: int|
                        0 <= i < self.solver.trackers().len() && (
                        #[trigger] self.solver.trackers()[i]).id == id;
                    assert(self.solver.trackers()[i].id < self.next_tracker);
                }
            }
        }
        let res = self.solver.push_assertion(r, c, val, id);
        match res {
            Ok(()) => {},
            Err(_) => {
                proof {
                    assert(false);
                }
            },
        }
        proof {
            assert forall|i: int|
                0 <= i < self.solver.trackers().len() implies (
                #[trigger] self.solver.trackers()[i]).id < id + 1 by {
                if i < self.solver.trackers().len() - 1 {
                    assert(self.solver.trackers().drop_last()[i] == self.solver.trackers()[i]);
                } else {
                    assert(self.solver.trackers().last() == self.solver.trackers()[i]);
                }
            }
        }
        self.next_tracker = id + 1;
        self.fixed_count = self.fixed_count + 1;
    }

    /// Handles one input event; returns whether the game should quit.
    /// Quitting changes nothing; while a conflict is displayed, every
    /// key but undo (and quitting) is ignored.
    pub fn on_key(&mut self, key: Key) -> (quit: bool)
        requires
            old(self).wf(),
        ensures
            final(self).wf(),
            quit <==> key == Key::Quit,
            key == Key::Quit ==> *final(self) == *old(self),
            old(self).phase() == GameState::Error && key != Key::Quit && key != Key::Backspace
                ==> *final(self) == *old(self),
    {
        if key == Key::Quit {
            return true;
        }
        if self.state != GameState::Error {
            match key {
                Key::Up => {
                    if self.cursor_r > 0 {
                        self.cursor_r = self.cursor_r - 1;
                    }
                },
                Key::Down => {
                    if self.cursor_r < 3 {
                        self.cursor_r = self.cursor_r + 1;
                    }
                },
                Key::Left => {
                    if self.cursor_c > 0 {
                        self.cursor_c = self.cursor_c - 1;
                    }
                },
                Key::Right => {
                    if self.cursor_c < 3 {
                        self.cursor_c = self.cursor_c + 1;
                    }
                },
                _ => {},
            }
        }
        match key {
            Key::Digit(v) => {
                if self.state != GameState::Error && 1 <= v && v <= 4 {
                    self.try_add_move(v);
                }
            },
            Key::Backspace => {
                self.undo_last_move();
            },
            _ => {},
        }
        false
    }

    /// Attempts to place `val` at the cursor: pushes a scope, asserts
    /// the placement tracked, and checks.  A conflict switches the game
    /// into the error state carrying the conflicting trackers.
    pub fn try_add_move(&mut self, val: i64)
        requires
            old(self).wf(),
        ensures
            final(self).wf(),
            final(self).cursor_pos() == old(self).cursor_pos(),
            old(self).move_blocked() ==> *final(self) == *old(self),
            !old(self).move_blocked() ==> final(self).cell_value(
                old(self).cursor_pos().0,
                old(self).cursor_pos().1,
            ) == Some(val),
            !old(self).move_blocked() ==> final(self).move_count() == old(self).move_count() + 1
                && final(self).given_count() == old(self).given_count(),
            !old(self).move_blocked() ==> (forall|i: int|
                0 <= i < old(self).move_count() ==> #[trigger] final(self).move_at(i) == old(
                    self,
                ).move_at(i)),
            !old(self).move_blocked() ==> final(self).move_at(old(self).move_count()).0 as int
                == old(self).cursor_pos().0 && final(self).move_at(
                old(self).move_count(),
            ).1 as int == old(self).cursor_pos().1 && final(self).move_at(
                old(self).move_count(),
            ).2 == val,
            !old(self).move_blocked() ==> (forall|r2: int, c2: int|
                0 <= r2 < 4 && 0 <= c2 < 4 && !(r2 == old(self).cursor_pos().0 && c2 == old(
                    self,
                ).cursor_pos().1) ==> #[trigger] final(self).cell_value(r2, c2) == old(
                    self,
                ).cell_value(r2, c2)),
            !old(self).move_blocked() ==> (forall|r2: int, c2: int|
                0 <= r2 < 4 && 0 <= c2 < 4 ==> #[trigger] final(self).fixed_flag(r2, c2) == old(
                    self,
                ).fixed_flag(r2, c2)),
            !old(self).move_blocked() ==> final(self).last_outcome() is Some,
            !old(self).move_blocked() && final(self).last_outcome() == Some(CheckResult::Sat)
                ==> final(self).conflict_view() == Seq::<u64>::empty() && final(self).phase()
                == (if final(self).move_count() + final(self).given_count() == 16 {
                GameState::Solved
            } else {
                GameState::Playing
            }),
            !old(self).move_blocked() && final(self).last_outcome() == Some(CheckResult::Unsat)
                ==> final(self).phase() == GameState::Error,
            !old(self).move_blocked() && final(self).last_outcome() == Some(
                CheckResult::Unknown,
            ) ==> final(self).phase() == GameState::Error && final(self).conflict_view()
                == Seq::<u64>::empty(),
    {
        let r = self.cursor_r;
        let c = self.cursor_c;
        if self.fixed[4 * r + c] {
            return ;
        }
        if self.grid[4 * r + c].is_some() {
            return ;
        }
        if self.next_tracker == 0xffff_ffff_ffff_ffff {
            return ;
        }
        self.grid.set(4 * r + c, Some(val));
        self.history.push((r, c, val));
        let id = self.next_tracker;
        proof {
            assert(!self.solver.tracker_live(id)) by {
                if self.solver.tracker_live(id) {
                    let i = choose|i: int|
                        0 <= i < self.solver.trackers().len() && (
                        #[trigger] self.solver.trackers()[i]).id == id;
                    assert(self.solver.trackers()[i].id < self.next_tracker);
                }
            }
        }
        let res = self.solver.push_assertion(r, c, val, id);
        match res {
            Ok(()) => {},
            Err(_) => {
                proof {
                    assert(false);
                }
            },
        }
        proof {
            assert forall|i: int|
                0 <= i < self.solver.trackers().len() implies (
                #[trigger] self.solver.trackers()[i]).id < id + 1 by {
                if i < self.solver.trackers().len() - 1 {
                    assert(self.solver.trackers().drop_last()[i] == self.solver.trackers()[i]);
                } else {
                    assert(self.solver.trackers().last() == self.solver.trackers()[i]);
                }
            }
        }
        self.next_tracker = id + 1;
        match self.solver.check() {
            CheckResult::Sat => {
                self.conflict = Vec::new();
                if self.history.len() < 17 && self.fixed_count < 17 && self.history.len()
                    + self.fixed_count == 16 {
                    self.state = GameState::Solved;
                } else {
                    self.state = GameState::Playing;
                }
            },
            CheckResult::Unsat => {
                self.state = GameState::Error;
                match self.solver.get_unsat_core() {
                    Ok(ids) => {
                        self.conflict = ids;
                    },
                    Err(_) => {
                        self.conflict = Vec::new();
                    },
                }
            },
            CheckResult::Unknown => {
                self.state = GameState::Error;
                self.conflict = Vec::new();
            },
        }
    }

    /// Undoes the most recent move: empties its grid cell, pops its
    /// scope, moves the cursor to it, and re-checks to settle the game
    /// state.  With no move to undo, nothing changes.
    pub fn undo_last_move(&mut self)
        requires
            old(self).wf(),
        ensures
            final(self).wf(),
            old(self).move_count() == 0 ==> *final(self) == *old(self),
            old(self).move_count() > 0 ==> final(self).move_count() == old(self).move_count()
                - 1 && final(self).given_count() == old(self).given_count(),
            old(self).move_count() > 0 ==> final(self).cell_value(
                old(self).move_at(old(self).move_count() - 1).0 as int,
                old(self).move_at(old(self).move_count() - 1).1 as int,
            ) is None,
            old(self).move_count() > 0 ==> final(self).cursor_pos().0 == old(self).move_at(
                old(self).move_count() - 1,
            ).0 as int && final(self).cursor_pos().1 == old(self).move_at(
                old(self).move_count() - 1,
            ).1 as int,
            old(self).move_count() > 0 ==> (forall|i: int|
                0 <= i < old(self).move_count() - 1 ==> #[trigger] final(self).move_at(i) == old(
                    self,
                ).move_at(i)),
            old(self).move_count() > 0 ==> (forall|r2: int, c2: int|
                0 <= r2 < 4 && 0 <= c2 < 4 && !(r2 == old(self).move_at(
                    old(self).move_count() - 1,
                ).0 as int && c2 == old(self).move_at(old(self).move_count() - 1).1 as int)
                    ==> #[trigger] final(self).cell_value(r2, c2) == old(self).cell_value(
                    r2,
                    c2,
                )),
            old(self).move_count() > 0 ==> (forall|r2: int, c2: int|
                0 <= r2 < 4 && 0 <= c2 < 4 ==> #[trigger] final(self).fixed_flag(r2, c2) == old(
                    self,
                ).fixed_flag(r2, c2)),
            old(self).move_count() > 0 ==> final(self).last_outcome() is Some,
            old(self).move_count() > 0 && final(self).last_outcome() == Some(CheckResult::Sat)
                ==> final(self).phase() == GameState::Playing && final(self).conflict_view()
                == Seq::<u64>::empty(),
            old(self).move_count() > 0 && final(self).last_outcome() == Some(
                CheckResult::Unsat,
            ) ==> final(self).phase() == GameState::Error,
            old(self).move_count() > 0 && final(self).last_outcome() == Some(
                CheckResult::Unknown,
            ) ==> final(self).phase() == GameState::Playing && final(self).conflict_view()
                == Seq::<u64>::empty(),
    {
        if self.history.len() == 0 {
            return ;
        }
        let last = self.history.pop();
        match last {
            None => {
                proof {
                    assert(false);
                }
            },
            Some((r, c, _v)) => {
                self.grid.set(4 * r + c, None);
                let popped = self.solver.pop_assertion();
                match popped {
                    Ok(()) => {},
                    Err(_) => {
                        proof {
                            assert(false);
                        }
                    },
                }
                proof {
                    assert forall|i: int|
                        0 <= i < self.solver.trackers().len() implies (
                        #[trigger] self.solver.trackers()[i]).id < self.next_tracker by {
                        let tid = self.solver.trackers()[i].id;
                        assert(self.solver.tracker_live(tid));
                        assert(old(self).solver.tracker_live(tid));
                        let j = choose|j: int|
                            0 <= j < old(self).solver.trackers().len() && (#[trigger] old(
                            self).solver.trackers()[j]).id == tid;
                    }
                }
                match self.solver.check() {
                    CheckResult::Sat => {
                        self.state = GameState::Playing;
                        self.conflict = Vec::new();
                    },
                    CheckResult::Unsat => {
                        self.state = GameState::Error;
                        match self.solver.get_unsat_core() {
                            Ok(ids) => {
                                self.conflict = ids;
                            },
                            Err(_) => {
                                self.conflict = Vec::new();
                            },
                        }
                    },
                    CheckResult::Unknown => {
                        self.state = GameState::Playing;
                        self.conflict = Vec::new();
                    },
                }
                self.cursor_r = r;
                self.cursor_c = c;
            },
        }
    }

    /// The game's current phase.
    pub fn state(&self) -> (s: GameState)
        ensures
            s == self.phase(),
    {
        self.state
    }

    /// The value shown in cell `(r, c)`.
    pub fn cell(&self, r: usize, c: usize) -> (v: Option<i64>)
        requires
            self.wf(),
            r < 4,
            c < 4,
        ensures
            v == self.cell_value(r as int, c as int),
    {
        self.grid[4 * r + c]
    }

    /// Whether cell `(r, c)` is one of the immutable clues.
    pub fn is_fixed(&self, r: usize, c: usize) -> (b: bool)
        requires
            self.wf(),
            r < 4,
            c < 4,
    {
        self.fixed[4 * r + c]
    }

    /// The current cursor position.
    pub fn cursor(&self) -> (p: (usize, usize))
        ensures
            (p.0 as int, p.1 as int) == self.cursor_pos(),
    {
        (self.cursor_r, self.cursor_c)
    }

    /// Number of undoable user moves.
    pub fn moves_made(&self) -> (n: usize)
        ensures
            n as int == self.move_count(),
    {
        self.history.len()
    }

    /// Result of the last check the game issued, if any: tells a
    /// proved conflict (`Unsat`) apart from an engine give-up
    /// (`Unknown`), both of which block input.
    pub fn last_check(&self) -> (r: Option<CheckResult>)
        ensures
            r == self.last_outcome(),
    {
        self.solver.last_check()
    }

    /// The conflicting tracker identifiers of the last failed check.
    pub fn conflict_ids(&self) -> (ids: Vec<u64>)
        ensures
            ids@ == self.conflict_view(),
    {
        let mut out: Vec<u64> = Vec::new();
        let mut i: usize = 0;
        while i < self.conflict.len()
            invariant
                i <= self.conflict@.len(),
                out@ == self.conflict@.take(i as int),
            decreases self.conflict@.len() - i,
        {
            out.push(self.conflict[i]);
            i += 1;
        }
        proof {
            assert(self.conflict@.take(self.conflict@.len() as int) =~= self.conflict@);
        }
        out
    }
}

} // verus!
