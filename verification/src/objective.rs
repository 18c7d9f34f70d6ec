//! Weighted objective manager: registers hard constraints, soft
//! (penalized-if-violated) constraints with weights and optional group
//! labels, and hard optimization objectives, then drives the engine's
//! optimizing check.
//!
//! The penalty of an assignment — the sum of the weights of the soft
//! constraints it violates — is defined here exactly, and the
//! registration bookkeeping is verified against it.  Which of several
//! equal-penalty optima the engine picks is its own business and is
//! never assumed.

use vstd::prelude::*;
use crate::ast::{Assignment, BoolExpr, IntExpr, beval, bwf, iwf};
use crate::context::{SolverError, lower_bool, lower_int, read_bool_values, read_int_values};
use crate::engine::{
    CheckResult, bool_const_indexed, int_const_indexed, optimize_assert, optimize_assert_soft,
    optimize_check, optimize_get_model, optimize_maximize, optimize_minimize, optimize_new,
};

verus! {

/// A registered soft constraint: violating `formula` costs `weight`;
/// constraints sharing a group have their penalties summed together.
pub struct SoftConstraint {
    pub formula: BoolExpr,
    pub weight: u64,
    pub group: Option<String>,
}

/// A registered hard objective: an expression and a direction.
pub struct Objective {
    pub expr: IntExpr,
    pub maximize: bool,
}

/// Total weight of the soft constraints that `a` violates.
pub open spec fn penalty(softs: Seq<SoftConstraint>, a: Assignment) -> int
    decreases softs.len(),
{
    if softs.len() == 0 {
        0
    } else {
        penalty(softs.drop_last(), a) + if beval(softs.last().formula, a) {
            0int
        } else {
            softs.last().weight as int
        }
    }
}

/// Total weight of all registered soft constraints.
pub open spec fn total_weight(softs: Seq<SoftConstraint>) -> int
    decreases softs.len(),
{
    if softs.len() == 0 {
        0
    } else {
        total_weight(softs.drop_last()) + softs.last().weight as int
    }
}

/// Law (penalty bounds): an assignment's penalty lies between zero and
/// the total registered weight.
pub proof fn lemma_penalty_bounds(softs: Seq<SoftConstraint>, a: Assignment)
    ensures
        0 <= penalty(softs, a) <= total_weight(softs),
    decreases softs.len(),
{
    if softs.len() > 0 {
        lemma_penalty_bounds(softs.drop_last(), a);
    }
}

/// Law (penalty characterization): the penalty is zero exactly when
/// every soft constraint of positive weight is satisfied.
pub proof fn lemma_zero_penalty(softs: Seq<SoftConstraint>, a: Assignment)
    ensures
        penalty(softs, a) == 0 <==> (forall|i: int|
            0 <= i < softs.len() && (#[trigger] softs[i]).weight > 0 ==> beval(
                softs[i].formula,
                a,
            )),
    decreases softs.len(),
{
    if softs.len() > 0 {
        let prefix = softs.drop_last();
        lemma_zero_penalty(prefix, a);
        lemma_penalty_bounds(prefix, a);
        if penalty(softs, a) == 0 {
            assert forall|i: int|
                0 <= i < softs.len() && (#[trigger] softs[i]).weight > 0 implies beval(
                softs[i].formula,
                a,
            ) by {
                if i < prefix.len() {
                    assert(prefix[i] == softs[i]);
                }
            }
        }
        if forall|i: int|
            0 <= i < softs.len() && (#[trigger] softs[i]).weight > 0 ==> beval(
                softs[i].formula,
                a,
            ) {
            assert forall|i: int|
                0 <= i < prefix.len() && (#[trigger] prefix[i]).weight > 0 implies beval(
                prefix[i].formula,
                a,
            ) by {
                assert(softs[i] == prefix[i]);
            }
        }
    }
}

/// One optimizing session: hard constraints, soft constraints and
/// objectives, with verified bookkeeping.
pub struct OptContext {
    opt: z3::Optimize,
    zints: Vec<z3::ast::Int>,
    zbools: Vec<z3::ast::Bool>,
    hard: Vec<BoolExpr>,
    soft: Vec<SoftConstraint>,
    goals: Vec<Objective>,
    last: Option<CheckResult>,
}

impl OptContext {
    /// The registered hard constraints, in registration order.
    pub closed spec fn hard_constraints(self) -> Seq<BoolExpr> {
        self.hard@
    }

    /// The registered soft constraints, in registration order.
    pub closed spec fn soft_constraints(self) -> Seq<SoftConstraint> {
        self.soft@
    }

    /// The registered objectives, in registration order.
    pub closed spec fn objectives(self) -> Seq<Objective> {
        self.goals@
    }

    /// Number of declared integer variables.
    pub closed spec fn num_ints(self) -> int {
        self.zints@.len() as int
    }

    /// Number of declared boolean variables.
    pub closed spec fn num_bools(self) -> int {
        self.zbools@.len() as int
    }

    /// Result of the last optimizing check, if no mutation happened
    /// since.
    pub closed spec fn last_result(self) -> Option<CheckResult> {
        self.last
    }

    /// A fresh optimizing session with nothing registered.
    pub fn new() -> (s: OptContext)
        ensures
            s.hard_constraints() == Seq::<BoolExpr>::empty(),
            s.soft_constraints() == Seq::<SoftConstraint>::empty(),
            s.objectives() == Seq::<Objective>::empty(),
            s.num_ints() == 0,
            s.num_bools() == 0,
            s.last_result() is None,
    {
        OptContext {
            opt: optimize_new(),
            zints: Vec::new(),
            zbools: Vec::new(),
            hard: Vec::new(),
            soft: Vec::new(),
            goals: Vec::new(),
            last: None,
        }
    }

    /// Declares a fresh integer variable and returns its handle.
    pub fn declare_int(&mut self) -> (v: usize)
        ensures
            v as int == old(self).num_ints(),
            final(self).num_ints() == old(self).num_ints() + 1,
            final(self).num_bools() == old(self).num_bools(),
            final(self).hard_constraints() == old(self).hard_constraints(),
            final(self).soft_constraints() == old(self).soft_constraints(),
            final(self).objectives() == old(self).objectives(),
            final(self).last_result() == old(self).last_result(),
    {
        let v = self.zints.len();
        let c = int_const_indexed(v);
        self.zints.push(c);
        v
    }

    /// Declares a fresh boolean variable and returns its handle.
    pub fn declare_bool(&mut self) -> (v: usize)
        ensures
            v as int == old(self).num_bools(),
            final(self).num_bools() == old(self).num_bools() + 1,
            final(self).num_ints() == old(self).num_ints(),
            final(self).hard_constraints() == old(self).hard_constraints(),
            final(self).soft_constraints() == old(self).soft_constraints(),
            final(self).objectives() == old(self).objectives(),
            final(self).last_result() == old(self).last_result(),
    {
        let v = self.zbools.len();
        let c = bool_const_indexed(v);
        self.zbools.push(c);
        v
    }

    /// Registers a hard constraint.
    pub fn assert_formula(&mut self, f: BoolExpr)
        requires
            bwf(f, old(self).num_ints(), old(self).num_bools()),
        ensures
            final(self).hard_constraints() == old(self).hard_constraints().push(f),
            final(self).soft_constraints() == old(self).soft_constraints(),
            final(self).objectives() == old(self).objectives(),
            final(self).num_ints() == old(self).num_ints(),
            final(self).num_bools() == old(self).num_bools(),
            final(self).last_result() is None,
    {
        let term = lower_bool(&self.zints, &self.zbools, &f);
        optimize_assert(&self.opt, &term);
        self.hard.push(f);
        self.last = None;
    }

    /// Registers a soft constraint: if the optimum violates `f`, it
    /// pays `weight` toward the minimized penalty sum of its group.
    /// A group label crosses the engine's C string boundary, so it
    /// must not contain a NUL character.
    pub fn assert_soft(&mut self, f: BoolExpr, weight: u64, group: Option<&str>)
        requires
            bwf(f, old(self).num_ints(), old(self).num_bools()),
            group matches Some(g) ==> crate::ast::nul_free(g@),
        ensures
            final(self).soft_constraints().len() == old(self).soft_constraints().len() + 1,
            final(self).soft_constraints().drop_last() == old(self).soft_constraints(),
            final(self).soft_constraints().last().formula == f,
            final(self).soft_constraints().last().weight == weight,
            final(self).hard_constraints() == old(self).hard_constraints(),
            final(self).objectives() == old(self).objectives(),
            final(self).num_ints() == old(self).num_ints(),
            final(self).num_bools() == old(self).num_bools(),
            final(self).last_result() is None,
    {
        let term = lower_bool(&self.zints, &self.zbools, &f);
        optimize_assert_soft(&self.opt, &term, weight, group);
        let owned_group = match group {
            Some(g) => Some(g.to_string()),
            None => None,
        };
        self.soft.push(SoftConstraint { formula: f, weight, group: owned_group });
        self.last = None;
        proof {
            assert(final(self).soft_constraints().drop_last() =~= old(self).soft_constraints());
        }
    }

    /// Registers a maximization objective.
    pub fn maximize(&mut self, e: IntExpr)
        requires
            iwf(e, old(self).num_ints(), old(self).num_bools()),
        ensures
            final(self).objectives().len() == old(self).objectives().len() + 1,
            final(self).objectives().drop_last() == old(self).objectives(),
            final(self).objectives().last().expr == e,
            final(self).objectives().last().maximize,
            final(self).hard_constraints() == old(self).hard_constraints(),
            final(self).soft_constraints() == old(self).soft_constraints(),
            final(self).num_ints() == old(self).num_ints(),
            final(self).num_bools() == old(self).num_bools(),
            final(self).last_result() is None,
    {
        let term = lower_int(&self.zints, &self.zbools, &e);
        optimize_maximize(&self.opt, &term);
        self.goals.push(Objective { expr: e, maximize: true });
        self.last = None;
        proof {
            assert(final(self).objectives().drop_last() =~= old(self).objectives());
        }
    }

    /// Registers a minimization objective.
    pub fn minimize(&mut self, e: IntExpr)
        requires
            iwf(e, old(self).num_ints(), old(self).num_bools()),
        ensures
            final(self).objectives().len() == old(self).objectives().len() + 1,
            final(self).objectives().drop_last() == old(self).objectives(),
            final(self).objectives().last().expr == e,
            !final(self).objectives().last().maximize,
            final(self).hard_constraints() == old(self).hard_constraints(),
            final(self).soft_constraints() == old(self).soft_constraints(),
            final(self).num_ints() == old(self).num_ints(),
            final(self).num_bools() == old(self).num_bools(),
            final(self).last_result() is None,
    {
        let term = lower_int(&self.zints, &self.zbools, &e);
        optimize_minimize(&self.opt, &term);
        self.goals.push(Objective { expr: e, maximize: false });
        self.last = None;
        proof {
            assert(final(self).objectives().drop_last() =~= old(self).objectives());
        }
    }

    /// Runs the optimizing check.  Nothing registered changes; only the
    /// recorded result does.
    pub fn check(&mut self) -> (r: CheckResult)
        ensures
            final(self).hard_constraints() == old(self).hard_constraints(),
            final(self).soft_constraints() == old(self).soft_constraints(),
            final(self).objectives() == old(self).objectives(),
            final(self).num_ints() == old(self).num_ints(),
            final(self).num_bools() == old(self).num_bools(),
            final(self).last_result() == Some(r),
    {
        let r = optimize_check(&self.opt);
        self.last = Some(r);
        r
    }

    /// Reads back the values of the given integer variables from the
    /// model of the last optimizing check.
    pub fn model_ints(&self, vars: &Vec<usize>, completion: bool) -> (r: Result<
        Vec<i64>,
        SolverError,
    >)
        requires
            forall|i: int| 0 <= i < vars@.len() ==> (#[trigger] vars@[i] as int)
                < self.num_ints(),
        ensures
            self.last_result() != Some(CheckResult::Sat) ==> r == Err::<Vec<i64>, SolverError>(
                SolverError::NoModel,
            ),
            r matches Ok(vals) ==> self.last_result() == Some(CheckResult::Sat) && vals@.len()
                == vars@.len(),
    {
        match self.last {
            Some(CheckResult::Sat) => {},
            _ => {
                return Err(SolverError::NoModel);
            },
        }
        let model = match optimize_get_model(&self.opt) {
            Some(m) => m,
            None => {
                return Err(SolverError::NoModel);
            },
        };
        read_int_values(&model, &self.zints, vars, completion)
    }

    /// Reads back the values of the given boolean variables from the
    /// model of the last optimizing check.
    pub fn model_bools(&self, vars: &Vec<usize>, completion: bool) -> (r: Result<
        Vec<bool>,
        SolverError,
    >)
        requires
            forall|i: int| 0 <= i < vars@.len() ==> (#[trigger] vars@[i] as int)
                < self.num_bools(),
        ensures
            self.last_result() != Some(CheckResult::Sat) ==> r == Err::<Vec<bool>, SolverError>(
                SolverError::NoModel,
            ),
            r matches Ok(vals) ==> self.last_result() == Some(CheckResult::Sat) && vals@.len()
                == vars@.len(),
    {
        match self.last {
            Some(CheckResult::Sat) => {},
            _ => {
                return Err(SolverError::NoModel);
            },
        }
        let model = match optimize_get_model(&self.opt) {
            Some(m) => m,
            None => {
                return Err(SolverError::NoModel);
            },
        };
        read_bool_values(&model, &self.zbools, vars, completion)
    }
}

} // verus!
