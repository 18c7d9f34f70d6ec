//! The constraint context: one incremental solving session.
//!
//! The context owns the engine's solver handle together with a verified
//! mirror of everything the session has asserted: a stack of frames of
//! formulas (frame zero is the permanent base, one further frame per
//! live scope), the live tracker-tagged assertions, and the validity of the
//! last check result.  The depth invariant `pop(n)` requires `n <=
//! depth` is enforced here, never clamped.

use vstd::prelude::*;
use crate::ast::{BoolExpr, IntExpr, bwf, iwf};
use crate::engine::{
    CheckResult, bool_and, bool_ast_clone, bool_const_indexed, bool_iff, bool_implies,
    bool_literal, bool_not, bool_or, bool_pb_eq, bool_same, bool_value, int_add, int_ast_clone,
    int_const_indexed, int_distinct, int_eq, int_ite, int_le, int_literal, int_lt, int_mul,
    int_sub, int_value, model_eval_bool, model_eval_int, params_new, params_set_timeout, solver_assert,
    solver_assert_and_track, solver_check, solver_get_model, solver_get_unsat_core, solver_new,
    solver_pop, solver_push, solver_set_params, tracker_const,
};

verus! {

/// A misuse of the context or a result that is not available in the
/// current state.  These are contract violations or read failures, not
/// puzzle-level outcomes.
#[derive(Clone, Copy, PartialEq, Eq, Structural, Debug)]
pub enum SolverError {
    /// `pop(n)` was called with `n` greater than the current depth.
    StackUnderflow,
    /// `assert_tracked` was called with a tracker that is already live.
    DuplicateTracker,
    /// A model was requested but the last check did not return `Sat`,
    /// or the session was mutated since.
    NoModel,
    /// An unsat core was requested but the last check did not return
    /// `Unsat`, or the session was mutated since.
    NoCore,
    /// The engine could not produce a concrete 64-bit value for a
    /// requested variable.
    ValueUnavailable,
}

/// A live tracker-tagged assertion: its caller-chosen identifier and
/// the index of the frame it was asserted in.
#[derive(Clone, Copy, PartialEq, Eq, Structural, Debug)]
pub struct TrackerInfo {
    pub id: u64,
    pub frame: usize,
}

/// One incremental solving session, with verified bookkeeping of the
/// scope stack, the asserted formulas and the live trackers.
pub struct SolverContext {
    solver: z3::Solver,
    zints: Vec<z3::ast::Int>,
    zbools: Vec<z3::ast::Bool>,
    frames: Vec<Vec<BoolExpr>>,
    tracker_list: Vec<TrackerInfo>,
    flags: Vec<z3::ast::Bool>,
    last: Option<CheckResult>,
    timeout_ms: Option<u32>,
}

/// A filter that keeps every element changes nothing.
pub proof fn lemma_filter_keep_all<A>(s: Seq<A>, pred: spec_fn(A) -> bool)
    requires
        forall|i: int| 0 <= i < s.len() ==> pred(#[trigger] s[i]),
    ensures
        s.filter(pred) == s,
    decreases s.len(),
{
    reveal(Seq::filter);
    if s.len() > 0 {
        assert forall|i: int| 0 <= i < s.drop_last().len() implies pred(
            #[trigger] s.drop_last()[i],
        ) by {
            assert(s.drop_last()[i] == s[i]);
        }
        lemma_filter_keep_all(s.drop_last(), pred);
        assert(pred(s.last()));
        assert(s.filter(pred) =~= s);
    } else {
        assert(s.filter(pred) =~= s);
    }
}

/// Everything a filter keeps was in the original sequence.
pub proof fn lemma_filter_subset<A>(s: Seq<A>, pred: spec_fn(A) -> bool)
    ensures
        forall|i: int|
            0 <= i < s.filter(pred).len() ==> s.contains(#[trigger] s.filter(pred)[i]),
    decreases s.len(),
{
    reveal(Seq::filter);
    if s.len() > 0 {
        lemma_filter_subset(s.drop_last(), pred);
        let f = s.filter(pred);
        let fd = s.drop_last().filter(pred);
        assert forall|i: int| 0 <= i < f.len() implies s.contains(#[trigger] f[i]) by {
            if i < fd.len() {
                assert(fd[i] == f[i]);
                assert(s.drop_last().contains(fd[i]));
                let j = choose|j: int| 0 <= j < s.drop_last().len() && s.drop_last()[j] == fd[i];
                assert(s[j] == f[i]);
            } else {
                assert(f[i] == s.last());
                assert(s[s.len() - 1] == s.last());
            }
        }
    }
}

/// The formulas of a frame stack in assertion order, base frame first.
pub open spec fn flat(frames: Seq<Seq<BoolExpr>>) -> Seq<BoolExpr>
    decreases frames.len(),
{
    if frames.len() == 0 {
        Seq::empty()
    } else {
        flat(frames.drop_last()) + frames.last()
    }
}

impl SolverContext {
    /// The stack of frames of asserted formulas; index 0 is the base.
    pub closed spec fn frames_view(self) -> Seq<Seq<BoolExpr>> {
        self.frames@.map_values(|f: Vec<BoolExpr>| f@)
    }

    /// Number of live scopes (pushes minus pops).
    pub open spec fn depth(self) -> int {
        self.frames_view().len() - 1
    }

    /// Every live formula, in assertion order.
    pub open spec fn formula(self) -> Seq<BoolExpr> {
        flat(self.frames_view())
    }

    /// The live tracker-tagged assertions, in assertion order.
    pub closed spec fn trackers(self) -> Seq<TrackerInfo> {
        self.tracker_list@
    }

    /// Whether a tracker identifier is currently live.
    pub open spec fn tracker_live(self, id: u64) -> bool {
        exists|i: int| 0 <= i < self.trackers().len() && (#[trigger] self.trackers()[i]).id == id
    }

    /// Number of declared integer variables; a variable handle is an
    /// index below this bound.
    pub closed spec fn num_ints(self) -> int {
        self.zints@.len() as int
    }

    /// Number of declared boolean variables.
    pub closed spec fn num_bools(self) -> int {
        self.zbools@.len() as int
    }

    /// Result of the last check, if no mutation happened since.
    pub closed spec fn last_result(self) -> Option<CheckResult> {
        self.last
    }

    /// A well-formed session always has its base frame.
    pub proof fn lemma_wf_base_frame(self)
        requires
            self.wf(),
        ensures
            self.frames_view().len() >= 1,
    {
    }

    /// In a well-formed session, every live tracker points into a live
    /// frame.
    pub proof fn lemma_wf_trackers(self)
        requires
            self.wf(),
        ensures
            forall|i: int|
                0 <= i < self.trackers().len() ==> ((#[trigger] self.trackers()[i]).frame as int)
                    < self.frames_view().len(),
    {
    }

    /// Structural invariant: the base frame exists, and every live
    /// tracker points into a live frame.
    pub closed spec fn wf(self) -> bool {
        &&& self.frames@.len() >= 1
        &&& self.flags@.len() == self.tracker_list@.len()
        &&& forall|i: int|
            0 <= i < self.tracker_list@.len() ==> (#[trigger] self.tracker_list@[i]).frame
                < self.frames@.len()
    }

    /// A fresh session: base frame only, nothing asserted, nothing
    /// declared, no check performed, no resource bound.
    pub fn new() -> (s: SolverContext)
        ensures
            s.wf(),
            s.depth() == 0,
            s.formula() == Seq::<BoolExpr>::empty(),
            s.trackers() == Seq::<TrackerInfo>::empty(),
            s.num_ints() == 0,
            s.num_bools() == 0,
            s.last_result() is None,
    {
        let mut frames: Vec<Vec<BoolExpr>> = Vec::new();
        frames.push(Vec::new());
        let s = SolverContext {
            solver: solver_new(),
            zints: Vec::new(),
            zbools: Vec::new(),
            frames,
            tracker_list: Vec::new(),
            flags: Vec::new(),
            last: None,
            timeout_ms: None,
        };
        proof {
            assert(s.frames_view() =~= seq![Seq::<BoolExpr>::empty()]);
            assert(s.formula() =~= Seq::<BoolExpr>::empty()) by {
                reveal_with_fuel(flat, 3);
            }
        }
        s
    }

    /// A fresh session whose checks give up after `ms` milliseconds and
    /// report `Unknown` instead of blocking indefinitely.
    pub fn with_timeout(ms: u32) -> (s: SolverContext)
        ensures
            s.wf(),
            s.depth() == 0,
            s.formula() == Seq::<BoolExpr>::empty(),
            s.trackers() == Seq::<TrackerInfo>::empty(),
            s.num_ints() == 0,
            s.num_bools() == 0,
            s.last_result() is None,
    {
        let mut s = SolverContext::new();
        s.timeout_ms = Some(ms);
        s
    }

    /// Declares a fresh integer variable and returns its handle.
    pub fn declare_int(&mut self) -> (v: usize)
        requires
            old(self).wf(),
        ensures
            final(self).wf(),
            v as int == old(self).num_ints(),
            final(self).num_ints() == old(self).num_ints() + 1,
            final(self).num_bools() == old(self).num_bools(),
            final(self).frames_view() == old(self).frames_view(),
            final(self).trackers() == old(self).trackers(),
            final(self).last_result() == old(self).last_result(),
    {
        let v = self.zints.len();
        let c = int_const_indexed(v);
        self.zints.push(c);
        v
    }

    /// Declares a fresh boolean variable and returns its handle.
    pub fn declare_bool(&mut self) -> (v: usize)
        requires
            old(self).wf(),
        ensures
            final(self).wf(),
            v as int == old(self).num_bools(),
            final(self).num_bools() == old(self).num_bools() + 1,
            final(self).num_ints() == old(self).num_ints(),
            final(self).frames_view() == old(self).frames_view(),
            final(self).trackers() == old(self).trackers(),
            final(self).last_result() == old(self).last_result(),
    {
        let v = self.zbools.len();
        let c = bool_const_indexed(v);
        self.zbools.push(c);
        v
    }

    /// Opens a new scope on top of the stack.
    pub fn push(&mut self)
        requires
            old(self).wf(),
        ensures
            final(self).wf(),
            final(self).frames_view() == old(self).frames_view().push(Seq::<BoolExpr>::empty()),
            final(self).formula() == old(self).formula(),
            final(self).trackers() == old(self).trackers(),
            final(self).num_ints() == old(self).num_ints(),
            final(self).num_bools() == old(self).num_bools(),
            final(self).last_result() is None,
    {
        solver_push(&self.solver);
        self.frames.push(Vec::new());
        self.last = None;
        proof {
            assert(self.frames_view() =~= old(self).frames_view().push(
                Seq::<BoolExpr>::empty(),
            ));
            assert(self.frames_view().drop_last() =~= old(self).frames_view());
            assert(self.formula() =~= old(self).formula());
        }
    }

    /// Closes the top `n` scopes, dropping exactly the formulas and
    /// trackers they own.  Fails with `StackUnderflow`, changing
    /// nothing, when `n` exceeds the current depth.
    pub fn pop(&mut self, n: usize) -> (r: Result<(), SolverError>)
        requires
            old(self).wf(),
        ensures
            final(self).wf(),
            final(self).num_ints() == old(self).num_ints(),
            final(self).num_bools() == old(self).num_bools(),
            n > old(self).depth() ==> r == Err::<(), SolverError>(SolverError::StackUnderflow)
                && *final(self) == *old(self),
            n <= old(self).depth() ==> r == Ok::<(), SolverError>(())
                && final(self).frames_view() == old(self).frames_view().take(
                old(self).frames_view().len() - n,
            ) && final(self).trackers() == old(self).trackers().filter(
                |t: TrackerInfo| (t.frame as int) < old(self).frames_view().len() - n,
            ) && final(self).last_result() is None,
            n <= old(self).depth() && (forall|i: int|
                0 <= i < old(self).trackers().len() ==> ((#[trigger] old(self).trackers()[
                i]).frame as int) < old(self).frames_view().len() - n) ==> final(self).trackers()
                == old(self).trackers(),
            forall|id: u64| #[trigger] final(self).tracker_live(id) ==> old(self).tracker_live(
                id,
            ),
    {
        if n > self.frames.len() - 1 {
            return Err(SolverError::StackUnderflow);
        }
        let cut = self.frames.len() - n;
        solver_pop(&self.solver, n as u32);
        self.frames.truncate(cut);
        let ghost old_tracked = self.tracker_list@;
        let ghost pred = |t: TrackerInfo| (t.frame as int) < cut as int;
        let mut kept: Vec<TrackerInfo> = Vec::new();
        let mut kept_flags: Vec<z3::ast::Bool> = Vec::new();
        let mut i: usize = 0;
        while i < self.tracker_list.len()
            invariant
                i <= self.tracker_list@.len(),
                self.flags@.len() == self.tracker_list@.len(),
                kept@.len() == kept_flags@.len(),
                kept@ == self.tracker_list@.take(i as int).filter(pred),
                pred == (|t: TrackerInfo| (t.frame as int) < cut as int),
            decreases self.tracker_list@.len() - i,
        {
            proof {
                assert(self.tracker_list@.take(i + 1).drop_last() =~= self.tracker_list@.take(i as int));
                assert(self.tracker_list@.take(i + 1).last() == self.tracker_list@[i as int]);
                reveal(Seq::filter);
            }
            if self.tracker_list[i].frame < cut {
                kept.push(self.tracker_list[i]);
                kept_flags.push(bool_ast_clone(&self.flags[i]));
            }
            i += 1;
        }
        proof {
            assert(self.tracker_list@.take(self.tracker_list@.len() as int) =~= self.tracker_list@);
        }
        self.tracker_list = kept;
        self.flags = kept_flags;
        self.last = None;
        proof {
            assert(final(self).frames_view() =~= old(self).frames_view().take(
                old(self).frames_view().len() - n,
            ));
            old_tracked.lemma_filter_len(pred);
            assert forall|j: int|
                0 <= j < final(self).tracker_list@.len() implies (#[trigger] final(
                self).tracker_list@[j]).frame < final(self).frames@.len() by {
                old_tracked.lemma_filter_pred(pred, j);
            }
            if forall|i: int|
                0 <= i < old(self).trackers().len() ==> ((#[trigger] old(self).trackers()[
                i]).frame as int) < old(self).frames_view().len() - n {
                assert forall|i: int| 0 <= i < old_tracked.len() implies pred(
                    #[trigger] old_tracked[i],
                ) by {
                    assert(old(self).trackers()[i] == old_tracked[i]);
                }
                lemma_filter_keep_all(old_tracked, pred);
            }
            lemma_filter_subset(old_tracked, pred);
            assert forall|id: u64| #[trigger] final(self).tracker_live(id) implies old(
                self,
            ).tracker_live(id) by {
                let i = choose|i: int|
                    0 <= i < final(self).trackers().len() && (#[trigger] final(self).trackers()[
                    i]).id == id;
                assert(old_tracked.contains(final(self).trackers()[i]));
                let j = choose|j: int|
                    0 <= j < old_tracked.len() && old_tracked[j] == final(self).trackers()[i];
                assert(old(self).trackers()[j].id == id);
            }
        }
        Ok(())
    }

    /// Asserts a formula in the current (top) scope.
    pub fn assert_formula(&mut self, f: BoolExpr)
        requires
            old(self).wf(),
            bwf(f, old(self).num_ints(), old(self).num_bools()),
        ensures
            final(self).wf(),
            final(self).frames_view() == old(self).frames_view().update(
                old(self).frames_view().len() - 1,
                old(self).frames_view().last().push(f),
            ),
            final(self).formula() == old(self).formula().push(f),
            final(self).depth() == old(self).depth(),
            final(self).trackers() == old(self).trackers(),
            final(self).num_ints() == old(self).num_ints(),
            final(self).num_bools() == old(self).num_bools(),
            final(self).last_result() is None,
    {
        let term = lower_bool(&self.zints, &self.zbools, &f);
        solver_assert(&self.solver, &term);
        let top = self.frames.pop();
        match top {
            Some(mut frame) => {
                frame.push(f);
                self.frames.push(frame);
            },
            None => {
                proof {
                    assert(false);
                }
            },
        }
        self.last = None;
        proof {
            assert(final(self).frames_view() =~= old(self).frames_view().update(
                old(self).frames_view().len() - 1,
                old(self).frames_view().last().push(f),
            ));
            lemma_flat_append_top(old(self).frames_view(), f);
        }
    }

    /// Asserts a formula tagged with a tracker for conflict attribution.
    /// Fails with `DuplicateTracker`, changing nothing, when the tracker
    /// identifier is already live.
    pub fn assert_tracked(&mut self, f: BoolExpr, id: u64) -> (r: Result<(), SolverError>)
        requires
            old(self).wf(),
            bwf(f, old(self).num_ints(), old(self).num_bools()),
        ensures
            final(self).wf(),
            final(self).num_ints() == old(self).num_ints(),
            final(self).num_bools() == old(self).num_bools(),
            old(self).tracker_live(id) ==> r == Err::<(), SolverError>(
                SolverError::DuplicateTracker,
            ) && *final(self) == *old(self),
            !old(self).tracker_live(id) ==> r == Ok::<(), SolverError>(())
                && final(self).frames_view() == old(self).frames_view().update(
                old(self).frames_view().len() - 1,
                old(self).frames_view().last().push(f),
            ) && final(self).formula() == old(self).formula().push(f) && final(self).trackers()
                == old(self).trackers().push(
                TrackerInfo { id, frame: (old(self).frames_view().len() - 1) as usize },
            ) && final(self).last_result() is None,
    {
        let mut i: usize = 0;
        while i < self.tracker_list.len()
            invariant
                *self == *old(self),
                old(self).wf(),
                i <= self.tracker_list@.len(),
                forall|j: int| 0 <= j < i ==> (#[trigger] self.tracker_list@[j]).id != id,
            decreases self.tracker_list@.len() - i,
        {
            if self.tracker_list[i].id == id {
                proof {
                    assert(old(self).trackers()[i as int].id == id);
                }
                return Err(SolverError::DuplicateTracker);
            }
            i += 1;
        }
        let term = lower_bool(&self.zints, &self.zbools, &f);
        let flag = tracker_const(id);
        solver_assert_and_track(&self.solver, &term, &flag);
        let frame_idx = self.frames.len() - 1;
        let top = self.frames.pop();
        match top {
            Some(mut frame) => {
                frame.push(f);
                self.frames.push(frame);
            },
            None => {
                proof {
                    assert(false);
                }
            },
        }
        self.tracker_list.push(TrackerInfo { id, frame: frame_idx });
        self.flags.push(flag);
        self.last = None;
        proof {
            assert(final(self).frames_view() =~= old(self).frames_view().update(
                old(self).frames_view().len() - 1,
                old(self).frames_view().last().push(f),
            ));
            lemma_flat_append_top(old(self).frames_view(), f);
        }
        Ok(())
    }

    /// Asks the engine whether the asserted formula is satisfiable.
    /// Nothing in the session changes except the recorded result; the
    /// configured resource bound, if any, maps expiry to `Unknown`.
    pub fn check(&mut self) -> (r: CheckResult)
        requires
            old(self).wf(),
        ensures
            final(self).wf(),
            final(self).frames_view() == old(self).frames_view(),
            final(self).trackers() == old(self).trackers(),
            final(self).num_ints() == old(self).num_ints(),
            final(self).num_bools() == old(self).num_bools(),
            final(self).last_result() == Some(r),
    {
        if let Some(ms) = self.timeout_ms {
            let mut p = params_new();
            params_set_timeout(&mut p, ms);
            solver_set_params(&self.solver, &p);
        }
        let r = solver_check(&self.solver);
        self.last = Some(r);
        r
    }

    /// Result of the last check, if no mutation happened since:
    /// `Unknown` must never be read as `Unsat`, so callers can ask
    /// which one the engine answered.
    pub fn last_check(&self) -> (r: Option<CheckResult>)
        ensures
            r == self.last_result(),
    {
        self.last
    }

    /// Current number of live scopes.
    pub fn current_depth(&self) -> (d: usize)
        requires
            self.wf(),
        ensures
            d as int == self.depth(),
    {
        self.frames.len() - 1
    }

    /// Reads back the values of the given integer variables from the
    /// model of the last check.  Fails with `NoModel` unless the last
    /// check returned `Sat` and no mutation happened since.
    pub fn model_ints(&self, vars: &Vec<usize>, completion: bool) -> (r: Result<
        Vec<i64>,
        SolverError,
    >)
        requires
            self.wf(),
            forall|i: int| 0 <= i < vars@.len() ==> (#[trigger] vars@[i] as int) < self.num_ints(),
        ensures
            self.last_result() != Some(CheckResult::Sat) ==> r == Err::<Vec<i64>, SolverError>(
                SolverError::NoModel,
            ),
            r matches Ok(vals) ==> self.last_result() == Some(CheckResult::Sat) && vals@.len()
                == vars@.len(),
    {
        match self.last {
            Some(CheckResult::Sat) => {},
            _ => {
                return Err(SolverError::NoModel);
            },
        }
        let model = match solver_get_model(&self.solver) {
            Some(m) => m,
            None => {
                return Err(SolverError::NoModel);
            },
        };
        let mut vals: Vec<i64> = Vec::new();
        let mut i: usize = 0;
        while i < vars.len()
            invariant
                i <= vars@.len(),
                vals@.len() == i,
                self.last_result() == Some(CheckResult::Sat),
                forall|j: int| 0 <= j < vars@.len() ==> (#[trigger] vars@[j] as int)
                    < self.zints@.len(),
            decreases vars@.len() - i,
        {
            let term = match model_eval_int(&model, &self.zints[vars[i]], completion) {
                Some(t) => t,
                None => {
                    return Err(SolverError::ValueUnavailable);
                },
            };
            let v = match int_value(&term) {
                Some(v) => v,
                None => {
                    return Err(SolverError::ValueUnavailable);
                },
            };
            vals.push(v);
            i += 1;
        }
        Ok(vals)
    }

    /// Reads back the values of the given boolean variables from the
    /// model of the last check, as `model_ints` does for integers.
    pub fn model_bools(&self, vars: &Vec<usize>, completion: bool) -> (r: Result<
        Vec<bool>,
        SolverError,
    >)
        requires
            self.wf(),
            forall|i: int| 0 <= i < vars@.len() ==> (#[trigger] vars@[i] as int) < self.num_bools(),
        ensures
            self.last_result() != Some(CheckResult::Sat) ==> r == Err::<Vec<bool>, SolverError>(
                SolverError::NoModel,
            ),
            r matches Ok(vals) ==> self.last_result() == Some(CheckResult::Sat) && vals@.len()
                == vars@.len(),
    {
        match self.last {
            Some(CheckResult::Sat) => {},
            _ => {
                return Err(SolverError::NoModel);
            },
        }
        let model = match solver_get_model(&self.solver) {
            Some(m) => m,
            None => {
                return Err(SolverError::NoModel);
            },
        };
        let mut vals: Vec<bool> = Vec::new();
        let mut i: usize = 0;
        while i < vars.len()
            invariant
                i <= vars@.len(),
                vals@.len() == i,
                self.last_result() == Some(CheckResult::Sat),
                forall|j: int| 0 <= j < vars@.len() ==> (#[trigger] vars@[j] as int)
                    < self.zbools@.len(),
            decreases vars@.len() - i,
        {
            let term = match model_eval_bool(&model, &self.zbools[vars[i]], completion) {
                Some(t) => t,
                None => {
                    return Err(SolverError::ValueUnavailable);
                },
            };
            let v = match bool_value(&term) {
                Some(v) => v,
                None => {
                    return Err(SolverError::ValueUnavailable);
                },
            };
            vals.push(v);
            i += 1;
        }
        Ok(vals)
    }

    /// Returns the tracker identifiers of an unsatisfiable subset found
    /// by the last check.  Fails with `NoCore` unless the last check
    /// returned `Unsat` and no mutation happened since.  Every returned
    /// identifier is a live tracker.
    pub fn unsat_core(&self) -> (r: Result<Vec<u64>, SolverError>)
        requires
            self.wf(),
        ensures
            self.last_result() != Some(CheckResult::Unsat) ==> r == Err::<Vec<u64>, SolverError>(
                SolverError::NoCore,
            ),
            r matches Ok(ids) ==> self.last_result() == Some(CheckResult::Unsat) && forall|i: int|
                0 <= i < ids@.len() ==> self.tracker_live(#[trigger] ids@[i]),
    {
        match self.last {
            Some(CheckResult::Unsat) => {},
            _ => {
                return Err(SolverError::NoCore);
            },
        }
        let core = solver_get_unsat_core(&self.solver);
        let mut ids: Vec<u64> = Vec::new();
        let mut i: usize = 0;
        while i < core.len()
            invariant
                self.wf(),
                self.last_result() == Some(CheckResult::Unsat),
                i <= core@.len(),
                forall|k: int| 0 <= k < ids@.len() ==> self.tracker_live(#[trigger] ids@[k]),
            decreases core@.len() - i,
        {
            let mut j: usize = 0;
            while j < self.tracker_list.len()
                invariant
                    self.wf(),
                    i < core@.len(),
                    j <= self.tracker_list@.len(),
                    forall|k: int| 0 <= k < ids@.len() ==> self.tracker_live(#[trigger] ids@[k]),
                decreases self.tracker_list@.len() - j,
            {
                if bool_same(&core[i], &self.flags[j]) {
                    proof {
                        assert(self.trackers()[j as int].id == self.tracker_list@[j as int].id);
                    }
                    ids.push(self.tracker_list[j].id);
                    break ;
                }
                j += 1;
            }
            i += 1;
        }
        Ok(ids)
    }
}

/// Reads the concrete values of the given integer variables out of an
/// engine model.
pub(crate) fn read_int_values(
    m: &z3::Model,
    zints: &Vec<z3::ast::Int>,
    vars: &Vec<usize>,
    completion: bool,
) -> (r: Result<Vec<i64>, SolverError>)
    requires
        forall|i: int| 0 <= i < vars@.len() ==> (#[trigger] vars@[i] as int) < zints@.len(),
    ensures
        r matches Ok(vals) ==> vals@.len() == vars@.len(),
{
    let mut vals: Vec<i64> = Vec::new();
    let mut i: usize = 0;
    while i < vars.len()
        invariant
            i <= vars@.len(),
            vals@.len() == i,
            forall|j: int| 0 <= j < vars@.len() ==> (#[trigger] vars@[j] as int) < zints@.len(),
        decreases vars@.len() - i,
    {
        let term = match model_eval_int(m, &zints[vars[i]], completion) {
            Some(t) => t,
            None => {
                return Err(SolverError::ValueUnavailable);
            },
        };
        let v = match int_value(&term) {
            Some(v) => v,
            None => {
                return Err(SolverError::ValueUnavailable);
            },
        };
        vals.push(v);
        i += 1;
    }
    Ok(vals)
}

/// Reads the concrete values of the given boolean variables out of an
/// engine model.
pub(crate) fn read_bool_values(
    m: &z3::Model,
    zbools: &Vec<z3::ast::Bool>,
    vars: &Vec<usize>,
    completion: bool,
) -> (r: Result<Vec<bool>, SolverError>)
    requires
        forall|i: int| 0 <= i < vars@.len() ==> (#[trigger] vars@[i] as int) < zbools@.len(),
    ensures
        r matches Ok(vals) ==> vals@.len() == vars@.len(),
{
    let mut vals: Vec<bool> = Vec::new();
    let mut i: usize = 0;
    while i < vars.len()
        invariant
            i <= vars@.len(),
            vals@.len() == i,
            forall|j: int| 0 <= j < vars@.len() ==> (#[trigger] vars@[j] as int) < zbools@.len(),
        decreases vars@.len() - i,
    {
        let term = match model_eval_bool(m, &zbools[vars[i]], completion) {
            Some(t) => t,
            None => {
                return Err(SolverError::ValueUnavailable);
            },
        };
        let v = match bool_value(&term) {
            Some(v) => v,
            None => {
                return Err(SolverError::ValueUnavailable);
            },
        };
        vals.push(v);
        i += 1;
    }
    Ok(vals)
}

/// Builds the engine term for an integer expression over the declared
/// variables.
pub(crate) fn lower_int(
    zints: &Vec<z3::ast::Int>,
    zbools: &Vec<z3::ast::Bool>,
    e: &IntExpr,
) -> z3::ast::Int
    requires
        iwf(*e, zints@.len() as int, zbools@.len() as int),
    decreases *e,
{
    match e {
        IntExpr::Var(i) => int_ast_clone(&zints[*i]),
        IntExpr::Const(c) => int_literal(*c),
        IntExpr::Add(x, y) => {
            let a = lower_int(zints, zbools, &**x);
            let b = lower_int(zints, zbools, &**y);
            int_add(&a, &b)
        },
        IntExpr::Sub(x, y) => {
            let a = lower_int(zints, zbools, &**x);
            let b = lower_int(zints, zbools, &**y);
            int_sub(&a, &b)
        },
        IntExpr::Mul(x, y) => {
            let a = lower_int(zints, zbools, &**x);
            let b = lower_int(zints, zbools, &**y);
            int_mul(&a, &b)
        },
        IntExpr::Ite(c, t, f) => {
            let cc = lower_bool(zints, zbools, &**c);
            let tt = lower_int(zints, zbools, &**t);
            let ff = lower_int(zints, zbools, &**f);
            int_ite(&cc, &tt, &ff)
        },
    }
}

/// Builds the engine term for a formula over the declared variables.
pub(crate) fn lower_bool(
    zints: &Vec<z3::ast::Int>,
    zbools: &Vec<z3::ast::Bool>,
    e: &BoolExpr,
) -> z3::ast::Bool
    requires
        bwf(*e, zints@.len() as int, zbools@.len() as int),
    decreases *e,
{
    match e {
        BoolExpr::Var(i) => bool_ast_clone(&zbools[*i]),
        BoolExpr::Const(b) => bool_literal(*b),
        BoolExpr::Not(x) => {
            let a = lower_bool(zints, zbools, &**x);
            bool_not(&a)
        },
        BoolExpr::And(x, y) => {
            let a = lower_bool(zints, zbools, &**x);
            let b = lower_bool(zints, zbools, &**y);
            bool_and(&a, &b)
        },
        BoolExpr::Or(x, y) => {
            let a = lower_bool(zints, zbools, &**x);
            let b = lower_bool(zints, zbools, &**y);
            bool_or(&a, &b)
        },
        BoolExpr::Implies(x, y) => {
            let a = lower_bool(zints, zbools, &**x);
            let b = lower_bool(zints, zbools, &**y);
            bool_implies(&a, &b)
        },
        BoolExpr::Iff(x, y) => {
            let a = lower_bool(zints, zbools, &**x);
            let b = lower_bool(zints, zbools, &**y);
            bool_iff(&a, &b)
        },
        BoolExpr::IntEq(x, y) => {
            let a = lower_int(zints, zbools, &**x);
            let b = lower_int(zints, zbools, &**y);
            int_eq(&a, &b)
        },
        BoolExpr::Le(x, y) => {
            let a = lower_int(zints, zbools, &**x);
            let b = lower_int(zints, zbools, &**y);
            int_le(&a, &b)
        },
        BoolExpr::Lt(x, y) => {
            let a = lower_int(zints, zbools, &**x);
            let b = lower_int(zints, zbools, &**y);
            int_lt(&a, &b)
        },
        BoolExpr::Distinct(vs) => {
            if vs.len() < 2 {
                // Fewer than two variables are vacuously distinct, and
                // the engine accepts a distinct construct only over
                // two or more terms.
                bool_literal(true)
            } else {
                let mut terms: Vec<z3::ast::Int> = Vec::new();
                let mut i: usize = 0;
                while i < vs.len()
                    invariant
                        terms@.len() == i,
                        i <= vs@.len(),
                        forall|p: int| 0 <= p < vs@.len() ==> (#[trigger] vs@[p] as int)
                            < zints@.len(),
                    decreases vs@.len() - i,
                {
                    terms.push(int_ast_clone(&zints[vs[i]]));
                    i += 1;
                }
                int_distinct(&terms)
            }
        },
        BoolExpr::CountEq(vs, k) => {
            if vs.len() == 0 {
                // Zero variables hold exactly `k` true ones only when
                // `k` is zero; the engine's counting construct is kept
                // for non-empty lists.
                bool_literal(*k == 0)
            } else {
                let mut pairs: Vec<(z3::ast::Bool, i32)> = Vec::new();
                let mut i: usize = 0;
                while i < vs.len()
                    invariant
                        pairs@.len() == i,
                        i <= vs@.len(),
                        forall|p: int| 0 <= p < vs@.len() ==> (#[trigger] vs@[p] as int)
                            < zbools@.len(),
                    decreases vs@.len() - i,
                {
                    pairs.push((bool_ast_clone(&zbools[vs[i]]), 1i32));
                    i += 1;
                }
                bool_pb_eq(&pairs, *k)
            }
        },
    }
}


/// One operation against the scope stack, as the formula bookkeeping
/// sees it.  The executable `push`, `pop(1)` and `assert_formula` (or
/// `assert_tracked`) change `frames_view()` exactly as `apply_op` says;
/// `pop(n)` acts as `n` consecutive `Pop` operations.
pub enum ScopeOp {
    Push,
    Pop,
    Assert(BoolExpr),
}

/// Change in stack depth caused by one operation.
pub open spec fn op_delta(op: ScopeOp) -> int {
    match op {
        ScopeOp::Push => 1,
        ScopeOp::Pop => -1,
        ScopeOp::Assert(_) => 0,
    }
}

/// Effect of one operation on the frame stack.  Popping the base frame
/// or asserting into an empty stack cannot happen through the
/// executable interface and is modelled as a no-op.
pub open spec fn apply_op(v: Seq<Seq<BoolExpr>>, op: ScopeOp) -> Seq<Seq<BoolExpr>> {
    match op {
        ScopeOp::Push => v.push(Seq::empty()),
        ScopeOp::Pop => if v.len() <= 1 {
            v
        } else {
            v.take(v.len() - 1)
        },
        ScopeOp::Assert(f) => if v.len() == 0 {
            v
        } else {
            v.update(v.len() - 1, v.last().push(f))
        },
    }
}

/// Effect of a sequence of operations, applied left to right.
pub open spec fn apply_ops(v: Seq<Seq<BoolExpr>>, ops: Seq<ScopeOp>) -> Seq<Seq<BoolExpr>>
    decreases ops.len(),
{
    if ops.len() == 0 {
        v
    } else {
        apply_ops(apply_op(v, ops.first()), ops.drop_first())
    }
}

/// Net depth change of a sequence of operations.
pub open spec fn net(ops: Seq<ScopeOp>) -> int
    decreases ops.len(),
{
    if ops.len() == 0 {
        0
    } else {
        op_delta(ops.first()) + net(ops.drop_first())
    }
}

/// The operations respect the scope discipline when started at relative
/// depth `slack`: the running depth never drops below zero, so no pop
/// ever reaches below the starting frame.
pub open spec fn scope_respecting(ops: Seq<ScopeOp>, slack: int) -> bool
    decreases ops.len(),
{
    if ops.len() == 0 {
        true
    } else {
        slack + op_delta(ops.first()) >= 0 && scope_respecting(
            ops.drop_first(),
            slack + op_delta(ops.first()),
        )
    }
}

/// Applying operations distributes over concatenation.
pub proof fn lemma_apply_ops_concat(v: Seq<Seq<BoolExpr>>, a: Seq<ScopeOp>, b: Seq<ScopeOp>)
    ensures
        apply_ops(v, a + b) == apply_ops(apply_ops(v, a), b),
    decreases a.len(),
{
    if a.len() == 0 {
        assert(a + b =~= b);
    } else {
        assert((a + b).first() == a.first());
        assert((a + b).drop_first() =~= a.drop_first() + b);
        lemma_apply_ops_concat(apply_op(v, a.first()), a.drop_first(), b);
    }
}

/// Operations that respect the scope discipline at relative depth `j`
/// never touch the frames below the `j + 1` topmost ones: the final
/// stack keeps the untouched frames as a prefix, and its length changes
/// exactly by the net depth change.
pub proof fn lemma_ops_leave_lower_frames(v: Seq<Seq<BoolExpr>>, ops: Seq<ScopeOp>, j: int)
    requires
        0 <= j,
        v.len() >= j + 1,
        scope_respecting(ops, j),
    ensures
        apply_ops(v, ops).len() == v.len() + net(ops),
        apply_ops(v, ops).take(v.len() - 1 - j) == v.take(v.len() - 1 - j),
    decreases ops.len(),
{
    if ops.len() == 0 {
    } else {
        let op = ops.first();
        let rest = ops.drop_first();
        let v2 = apply_op(v, op);
        match op {
            ScopeOp::Push => {
                lemma_ops_leave_lower_frames(v2, rest, j + 1);
                assert(v2.take(v.len() - 1 - j) =~= v.take(v.len() - 1 - j));
            },
            ScopeOp::Pop => {
                lemma_ops_leave_lower_frames(v2, rest, j - 1);
                assert(v2.take(v.len() - 1 - j) =~= v.take(v.len() - 1 - j));
            },
            ScopeOp::Assert(f) => {
                lemma_ops_leave_lower_frames(v2, rest, j);
                assert(v2.take(v.len() - 1 - j) =~= v.take(v.len() - 1 - j));
            },
        }
    }
}

/// Law (stack invariant): pushing a scope, performing inside it any
/// sequence of push, pop and assert operations that respects the scope
/// discipline and closes every scope it opened, and popping the matched
/// scope, restores the frame stack — and therefore the asserted
/// formula — exactly to what it was before the push.
pub proof fn lemma_matched_scope_discarded(v: Seq<Seq<BoolExpr>>, inner: Seq<ScopeOp>)
    requires
        v.len() >= 1,
        scope_respecting(inner, 0),
        net(inner) == 0,
    ensures
        apply_ops(v, seq![ScopeOp::Push] + inner + seq![ScopeOp::Pop]) == v,
        flat(apply_ops(v, seq![ScopeOp::Push] + inner + seq![ScopeOp::Pop])) == flat(v),
{
    let pushed = v.push(Seq::<BoolExpr>::empty());
    lemma_apply_ops_concat(v, seq![ScopeOp::Push], inner + seq![ScopeOp::Pop]);
    assert(seq![ScopeOp::Push] + inner + seq![ScopeOp::Pop] =~= seq![ScopeOp::Push] + (inner
        + seq![ScopeOp::Pop]));
    assert(apply_ops(v, seq![ScopeOp::Push]) == pushed) by {
        reveal_with_fuel(apply_ops, 3);
        assert(seq![ScopeOp::Push].first() == ScopeOp::Push);
        assert(seq![ScopeOp::Push].drop_first() =~= Seq::<ScopeOp>::empty());
    }
    lemma_apply_ops_concat(pushed, inner, seq![ScopeOp::Pop]);
    let w = apply_ops(pushed, inner);
    lemma_ops_leave_lower_frames(pushed, inner, 0);
    assert(w.len() == v.len() + 1);
    assert(w.take(v.len() as int) == pushed.take(v.len() as int));
    assert(pushed.take(v.len() as int) =~= v);
    assert(apply_ops(w, seq![ScopeOp::Pop]) == w.take(v.len() as int)) by {
        reveal_with_fuel(apply_ops, 3);
        assert(seq![ScopeOp::Pop].first() == ScopeOp::Pop);
        assert(seq![ScopeOp::Pop].drop_first() =~= Seq::<ScopeOp>::empty());
    }
}

/// Law (stack invariant, smallest case): a push followed directly by a
/// matching pop is a no-op on the frame stack.
pub proof fn lemma_push_pop_noop(v: Seq<Seq<BoolExpr>>)
    requires
        v.len() >= 1,
    ensures
        apply_ops(v, seq![ScopeOp::Push, ScopeOp::Pop]) == v,
{
    lemma_matched_scope_discarded(v, Seq::<ScopeOp>::empty());
    assert(seq![ScopeOp::Push] + Seq::<ScopeOp>::empty() + seq![ScopeOp::Pop] =~= seq![
        ScopeOp::Push,
        ScopeOp::Pop,
    ]);
}

/// Appending a formula to the top frame appends it to the flattened
/// formula sequence.
pub proof fn lemma_flat_append_top(frames: Seq<Seq<BoolExpr>>, f: BoolExpr)
    requires
        frames.len() >= 1,
    ensures
        flat(frames.update(frames.len() - 1, frames.last().push(f))) == flat(frames).push(f),
{
    let updated = frames.update(frames.len() - 1, frames.last().push(f));
    assert(updated.drop_last() =~= frames.drop_last());
    assert(updated.last() == frames.last().push(f));
    assert(flat(updated) == flat(frames.drop_last()) + frames.last().push(f));
    assert(flat(frames.drop_last()) + frames.last().push(f) =~= (flat(frames.drop_last())
        + frames.last()).push(f));
}

} // verus!
