//! Solution enumerator: repeatedly checks satisfiability, reads the
//! distinguishing tuple from the model, and asserts a blocking clause
//! that rules that exact value tuple out, until the engine answers
//! `Unsat` or `Unknown`.
//!
//! The blocking clause is built from the concrete values read back from
//! the model — never from reused symbolic handles — and its meaning is
//! pinned exactly: it is false under an assignment precisely when the
//! assignment gives every tuple variable its just-read value.

use vstd::prelude::*;
use crate::ast::{Assignment, BoolExpr, IntExpr, all_hold, beval, bwf};
use crate::context::{SolverContext, SolverError};
use crate::engine::CheckResult;

verus! {

/// The assignment gives every tuple variable its recorded value.
pub open spec fn tuple_matches(vars: Seq<usize>, vals: Seq<i64>, a: Assignment) -> bool {
    forall|i: int| 0 <= i < vars.len() ==> a.ints[#[trigger] vars[i] as int] == vals[i] as int
}

/// Builds the blocking clause for a value tuple: the negation of "every
/// tuple variable equals its recorded value".
pub fn blocking_clause(vars: &Vec<usize>, vals: &Vec<i64>) -> (r: BoolExpr)
    requires
        vars@.len() == vals@.len(),
    ensures
        forall|a: Assignment| #[trigger] beval(r, a) <==> !tuple_matches(vars@, vals@, a),
        forall|ni: int, nb: int| (forall|p: int|
            0 <= p < vars@.len() ==> (#[trigger] vars@[p] as int) < ni) ==> #[trigger] bwf(
            r,
            ni,
            nb,
        ),
{
    let mut acc = BoolExpr::Const(true);
    let mut i: usize = 0;
    while i < vars.len()
        invariant
            vars@.len() == vals@.len(),
            i <= vars@.len(),
            forall|a: Assignment| #[trigger] beval(acc, a) <==> (forall|p: int|
                0 <= p < i ==> a.ints[#[trigger] vars@[p] as int] == vals@[p] as int),
            forall|ni: int, nb: int| (forall|p: int|
                0 <= p < vars@.len() ==> (#[trigger] vars@[p] as int) < ni) ==> #[trigger] bwf(
                acc,
                ni,
                nb,
            ),
        decreases vars@.len() - i,
    {
        let ghost gacc = acc;
        let eq = BoolExpr::IntEq(
            Box::new(IntExpr::Var(vars[i])),
            Box::new(IntExpr::Const(vals[i])),
        );
        proof {
            assert forall|a: Assignment| #[trigger] beval(eq, a) <==> a.ints[vars@[
            i as int] as int] == vals@[i as int] as int by {
                assert(crate::ast::ieval(*eq->IntEq_0, a) == a.ints[vars@[i as int] as int]);
                assert(crate::ast::ieval(*eq->IntEq_1, a) == vals@[i as int] as int);
            }
            assert forall|ni: int, nb: int| (vars@[i as int] as int) < ni implies #[trigger] bwf(
                eq,
                ni,
                nb,
            ) by {
                assert(crate::ast::iwf(*eq->IntEq_0, ni, nb));
                assert(crate::ast::iwf(*eq->IntEq_1, ni, nb));
            }
        }
        let ghost geq = eq;
        let next = BoolExpr::And(Box::new(acc), Box::new(eq));
        proof {
            assert(*next->And_0 == gacc);
            assert(*next->And_1 == geq);
            assert forall|a: Assignment| #[trigger] beval(next, a) <==> (forall|p: int|
                0 <= p < i + 1 ==> a.ints[#[trigger] vars@[p] as int] == vals@[p] as int) by {
                assert(beval(next, a) == (beval(gacc, a) && beval(geq, a)));
                if beval(next, a) {
                    assert forall|p: int|
                        0 <= p < i + 1 implies a.ints[#[trigger] vars@[p] as int] == vals@[
                        p] as int by {
                        if p < i {
                        } else {
                            assert(beval(geq, a));
                        }
                    }
                }
            }
            assert forall|ni: int, nb: int| (forall|p: int|
                0 <= p < vars@.len() ==> (#[trigger] vars@[p] as int) < ni)
                implies #[trigger] bwf(next, ni, nb) by {
                assert(bwf(next, ni, nb) == (bwf(gacc, ni, nb) && bwf(geq, ni, nb)));
            }
        }
        acc = next;
        i += 1;
    }
    let r = BoolExpr::Not(Box::new(acc));
    proof {
        let ghost gacc = acc;
        assert(*r->Not_0 == gacc);
        assert forall|a: Assignment| #[trigger] beval(r, a) <==> !tuple_matches(
            vars@,
            vals@,
            a,
        ) by {
            assert(beval(r, a) == !beval(gacc, a));
        }
        assert forall|ni: int, nb: int| (forall|p: int|
            0 <= p < vars@.len() ==> (#[trigger] vars@[p] as int) < ni) implies #[trigger] bwf(
            r,
            ni,
            nb,
        ) by {
            assert(bwf(r, ni, nb) == bwf(gacc, ni, nb));
        }
    }
    r
}

/// One step of enumeration.  Checks satisfiability; on `Sat` reads the
/// tuple from the model, asserts the blocking clause for it in the
/// current scope, and yields the tuple; on `Unsat` or `Unknown` yields
/// nothing and leaves the formula untouched.
pub fn next_solution(ctx: &mut SolverContext, vars: &Vec<usize>, completion: bool) -> (r: Result<
    Option<Vec<i64>>,
    SolverError,
>)
    requires
        old(ctx).wf(),
        forall|i: int| 0 <= i < vars@.len() ==> (#[trigger] vars@[i] as int) < old(
            ctx,
        ).num_ints(),
    ensures
        final(ctx).wf(),
        final(ctx).num_ints() == old(ctx).num_ints(),
        final(ctx).num_bools() == old(ctx).num_bools(),
        final(ctx).depth() == old(ctx).depth(),
        final(ctx).trackers() == old(ctx).trackers(),
        r matches Ok(Some(vals)) ==> vals@.len() == vars@.len() && (forall|a: Assignment|
            #[trigger] all_hold(final(ctx).formula(), a) <==> all_hold(old(ctx).formula(), a)
                && !tuple_matches(vars@, vals@, a)),
        r matches Ok(None) ==> final(ctx).frames_view() == old(ctx).frames_view() && (final(
            ctx).last_result() == Some(CheckResult::Unsat) || final(ctx).last_result() == Some(
            CheckResult::Unknown,
        )),
        r matches Err(e) ==> final(ctx).frames_view() == old(ctx).frames_view(),
{
    let outcome = ctx.check();
    match outcome {
        CheckResult::Sat => {
            let vals = match ctx.model_ints(vars, completion) {
                Ok(v) => v,
                Err(e) => {
                    return Err(e);
                },
            };
            let clause = blocking_clause(vars, &vals);
            let ghost mid = *ctx;
            ctx.assert_formula(clause);
            proof {
                assert forall|a: Assignment| #[trigger] all_hold(ctx.formula(), a) <==> all_hold(
                    old(ctx).formula(),
                    a,
                ) && !tuple_matches(vars@, vals@, a) by {
                    crate::encoder::lemma_all_hold_push(mid.formula(), clause, a);
                }
            }
            Ok(Some(vals))
        },
        CheckResult::Unsat => Ok(None),
        CheckResult::Unknown => Ok(None),
    }
}

/// Whether two value tuples hold exactly the same values.
fn tuples_equal(a: &Vec<i64>, b: &Vec<i64>) -> (r: bool)
    ensures
        r <==> a@ == b@,
{
    if a.len() != b.len() {
        return false;
    }
    let n = a.len();
    let mut i: usize = 0;
    while i < n
        invariant
            n == a@.len(),
            a@.len() == b@.len(),
            i <= n,
            forall|p: int| 0 <= p < i ==> a@[p] == b@[p],
        decreases n - i,
    {
        if a[i] != b[i] {
            return false;
        }
        i += 1;
    }
    proof {
        assert(a@ =~= b@);
    }
    true
}

/// Enumerates up to `max` distinct solutions for the tuple of
/// variables, stopping early when the engine reports `Unsat` or
/// `Unknown`.  Every yielded tuple has one value per variable, and the
/// yielded tuples are pairwise distinct: each new tuple is compared in
/// verified code against every tuple already yielded, whatever the
/// engine did with the blocking clauses.
pub fn all_solutions(
    ctx: &mut SolverContext,
    vars: &Vec<usize>,
    completion: bool,
    max: usize,
) -> (r: Result<Vec<Vec<i64>>, SolverError>)
    requires
        old(ctx).wf(),
        forall|i: int| 0 <= i < vars@.len() ==> (#[trigger] vars@[i] as int) < old(
            ctx,
        ).num_ints(),
    ensures
        final(ctx).wf(),
        final(ctx).num_ints() == old(ctx).num_ints(),
        final(ctx).num_bools() == old(ctx).num_bools(),
        final(ctx).depth() == old(ctx).depth(),
        final(ctx).trackers() == old(ctx).trackers(),
        r matches Ok(sols) ==> sols@.len() <= max && (forall|i: int|
            0 <= i < sols@.len() ==> (#[trigger] sols@[i])@.len() == vars@.len()),
        r matches Ok(sols) ==> (forall|i: int, j: int|
            0 <= i < j < sols@.len() ==> (#[trigger] sols@[i])@ != (#[trigger] sols@[j])@),
{
    let mut sols: Vec<Vec<i64>> = Vec::new();
    let mut count: usize = 0;
    while count < max
        invariant
            ctx.wf(),
            count <= max,
            sols@.len() == count,
            ctx.num_ints() == old(ctx).num_ints(),
            ctx.num_bools() == old(ctx).num_bools(),
            ctx.depth() == old(ctx).depth(),
            ctx.trackers() == old(ctx).trackers(),
            forall|i: int| 0 <= i < vars@.len() ==> (#[trigger] vars@[i] as int) < ctx.num_ints(),
            forall|i: int| 0 <= i < sols@.len() ==> (#[trigger] sols@[i])@.len() == vars@.len(),
            forall|i: int, j: int|
                0 <= i < j < sols@.len() ==> (#[trigger] sols@[i])@ != (#[trigger] sols@[j])@,
        decreases max - count,
    {
        let step = next_solution(ctx, vars, completion);
        match step {
            Ok(Some(vals)) => {
                // A repeated tuple would mean the engine ignored a
                // blocking clause; never yield it twice.
                let mut k: usize = 0;
                let n = sols.len();
                while k < n
                    invariant
                        n == sols@.len(),
                        k <= n,
                        ctx.wf(),
                        ctx.num_ints() == old(ctx).num_ints(),
                        ctx.num_bools() == old(ctx).num_bools(),
                        ctx.depth() == old(ctx).depth(),
                        ctx.trackers() == old(ctx).trackers(),
                        sols@.len() <= max,
                        forall|i: int| 0 <= i < sols@.len() ==> (#[trigger] sols@[i])@.len()
                            == vars@.len(),
                        forall|i: int, j: int|
                            0 <= i < j < sols@.len() ==> (#[trigger] sols@[i])@ != (
                            #[trigger] sols@[j])@,
                        forall|p: int| 0 <= p < k ==> (#[trigger] sols@[p])@ != vals@,
                    decreases n - k,
                {
                    if tuples_equal(&sols[k], &vals) {
                        return Ok(sols);
                    }
                    k += 1;
                }
                sols.push(vals);
                count += 1;
            },
            Ok(None) => {
                return Ok(sols);
            },
            Err(e) => {
                return Err(e);
            },
        }
    }
    Ok(sols)
}

/// Law (no repeats): once the blocking clause for a yielded tuple is
/// part of the live formula, no assignment that satisfies the whole
/// formula gives the tuple variables exactly the yielded values again.
pub proof fn lemma_blocked_tuple_stays_excluded(
    fs: Seq<BoolExpr>,
    clause: BoolExpr,
    vars: Seq<usize>,
    vals: Seq<i64>,
    a: Assignment,
)
    requires
        forall|a2: Assignment| #[trigger] beval(clause, a2) <==> !tuple_matches(vars, vals, a2),
        fs.contains(clause),
        all_hold(fs, a),
    ensures
        !tuple_matches(vars, vals, a),
{
    let i = choose|i: int| 0 <= i < fs.len() && fs[i] == clause;
    assert(beval(fs[i], a));
}

} // verus!
