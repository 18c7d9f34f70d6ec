use solvekit::ast::{e_const, e_var, f_eq, f_le, f_lt, e_mul, BoolExpr};
use solvekit::context::{SolverContext, SolverError};
use solvekit::engine::CheckResult;

/// Stack invariant: a pushed scope with its assertions, once popped,
/// leaves the formula exactly as it was (push then pop is a no-op).
#[test]
fn push_pop_restores_formula() {
    let mut ctx = SolverContext::new();
    let x = ctx.declare_int();
    ctx.assert_formula(f_eq(e_var(x), e_const(1)));
    assert_eq!(ctx.check(), CheckResult::Sat);
    assert_eq!(ctx.current_depth(), 0);

    ctx.push();
    assert_eq!(ctx.current_depth(), 1);
    ctx.assert_formula(f_eq(e_var(x), e_const(2)));
    assert_eq!(ctx.check(), CheckResult::Unsat);

    assert!(ctx.pop(1).is_ok());
    assert_eq!(ctx.current_depth(), 0);
    assert_eq!(ctx.check(), CheckResult::Sat);
}

/// Nested scopes unwind one frame at a time.
#[test]
fn nested_scopes() {
    let mut ctx = SolverContext::new();
    let x = ctx.declare_int();
    let y = ctx.declare_int();
    let z = ctx.declare_int();
    // Base: z == x + y, x > 0, y > 0.
    ctx.assert_formula(f_eq(
        e_var(z),
        solvekit::ast::e_add(e_var(x), e_var(y)),
    ));
    ctx.assert_formula(f_lt(e_const(0), e_var(x)));
    ctx.assert_formula(f_lt(e_const(0), e_var(y)));

    // Scope 1: z == 10 is satisfiable.
    ctx.push();
    ctx.assert_formula(f_eq(e_var(z), e_const(10)));
    assert_eq!(ctx.check(), CheckResult::Sat);
    assert!(ctx.pop(1).is_ok());

    // Scope 2: x == 20, y == 30 forces z == 50.
    ctx.push();
    ctx.assert_formula(f_eq(e_var(x), e_const(20)));
    ctx.assert_formula(f_eq(e_var(y), e_const(30)));
    assert_eq!(ctx.check(), CheckResult::Sat);
    let vals = ctx.model_ints(&vec![z], true).unwrap();
    assert_eq!(vals[0], 50);
    assert!(ctx.pop(1).is_ok());

    // Scope 3: z == 5 with x > 10 contradicts the base.
    ctx.push();
    ctx.assert_formula(f_eq(e_var(z), e_const(5)));
    ctx.assert_formula(f_lt(e_const(10), e_var(x)));
    assert_eq!(ctx.check(), CheckResult::Unsat);
    assert!(ctx.pop(1).is_ok());
    assert_eq!(ctx.check(), CheckResult::Sat);
}

/// Popping beyond the current depth fails loudly and changes nothing.
#[test]
fn pop_underflow() {
    let mut ctx = SolverContext::new();
    assert_eq!(ctx.pop(1), Err(SolverError::StackUnderflow));
    ctx.push();
    assert_eq!(ctx.pop(2), Err(SolverError::StackUnderflow));
    assert_eq!(ctx.pop(1), Ok(()));
    assert_eq!(ctx.pop(1), Err(SolverError::StackUnderflow));
}

/// A tracker identifier can be live only once.
#[test]
fn duplicate_tracker_rejected() {
    let mut ctx = SolverContext::new();
    let x = ctx.declare_int();
    assert_eq!(ctx.assert_tracked(f_lt(e_const(0), e_var(x)), 7), Ok(()));
    assert_eq!(
        ctx.assert_tracked(f_lt(e_var(x), e_const(10)), 7),
        Err(SolverError::DuplicateTracker)
    );
    // A popped tracker is no longer live and its identifier can be
    // reused.
    ctx.push();
    assert_eq!(ctx.assert_tracked(f_lt(e_var(x), e_const(10)), 8), Ok(()));
    assert!(ctx.pop(1).is_ok());
    assert_eq!(ctx.assert_tracked(f_lt(e_var(x), e_const(10)), 8), Ok(()));
}

/// A model exists only immediately after a satisfiable check.
#[test]
fn model_requires_sat_check() {
    let mut ctx = SolverContext::new();
    let x = ctx.declare_int();
    assert_eq!(ctx.model_ints(&vec![x], true), Err(SolverError::NoModel));
    ctx.assert_formula(f_eq(e_var(x), e_const(3)));
    assert_eq!(ctx.check(), CheckResult::Sat);
    assert_eq!(ctx.model_ints(&vec![x], true), Ok(vec![3]));
    // Any mutation invalidates the model.
    ctx.push();
    assert_eq!(ctx.model_ints(&vec![x], true), Err(SolverError::NoModel));
}

/// A core exists only immediately after an unsatisfiable check.
#[test]
fn core_requires_unsat_check() {
    let mut ctx = SolverContext::new();
    let x = ctx.declare_int();
    ctx.assert_formula(f_eq(e_var(x), e_const(3)));
    assert_eq!(ctx.check(), CheckResult::Sat);
    assert_eq!(ctx.unsat_core(), Err(SolverError::NoCore));
}

/// Tracked-assertion property: trackers of an unsatisfiable set show
/// up in the returned core, and never anything else.
#[test]
fn unsat_core_names_the_conflict() {
    let mut ctx = SolverContext::new();
    let x = ctx.declare_int();
    // x > 5 (tracker 1) contradicts x < 3 (tracker 2); x > -100
    // (tracker 3) is innocent.
    assert_eq!(ctx.assert_tracked(f_lt(e_const(5), e_var(x)), 1), Ok(()));
    assert_eq!(ctx.assert_tracked(f_lt(e_var(x), e_const(3)), 2), Ok(()));
    assert_eq!(ctx.assert_tracked(f_lt(e_const(-100), e_var(x)), 3), Ok(()));
    assert_eq!(ctx.check(), CheckResult::Unsat);
    let core = ctx.unsat_core().unwrap();
    assert!(!core.is_empty());
    // Only live trackers can appear.
    for id in core.iter() {
        assert!(*id == 1 || *id == 2 || *id == 3);
    }
    // Both members of the minimal conflict appear.
    assert!(core.contains(&1));
    assert!(core.contains(&2));
}

/// A value that does not fit in 64 bits is reported as unavailable,
/// not silently truncated.
#[test]
fn oversized_value_unavailable() {
    let mut ctx = SolverContext::new();
    let x = ctx.declare_int();
    let big = 1i64 << 40;
    ctx.assert_formula(f_eq(e_var(x), e_mul(e_const(big), e_const(big))));
    assert_eq!(ctx.check(), CheckResult::Sat);
    assert_eq!(
        ctx.model_ints(&vec![x], true),
        Err(SolverError::ValueUnavailable)
    );
}

/// The last-check accessor distinguishes the three engine answers and
/// forgets them on mutation.
#[test]
fn last_check_reflects_outcome() {
    let mut ctx = SolverContext::new();
    assert_eq!(ctx.last_check(), None);
    let x = ctx.declare_int();
    ctx.assert_formula(f_eq(e_var(x), e_const(1)));
    assert_eq!(ctx.check(), CheckResult::Sat);
    assert_eq!(ctx.last_check(), Some(CheckResult::Sat));
    ctx.push();
    assert_eq!(ctx.last_check(), None);
    ctx.assert_formula(f_eq(e_var(x), e_const(2)));
    assert_eq!(ctx.check(), CheckResult::Unsat);
    assert_eq!(ctx.last_check(), Some(CheckResult::Unsat));
}

/// Degenerate distinctness and counting constraints: fewer than two
/// variables are vacuously distinct, and an empty count is exactly
/// zero.
#[test]
fn degenerate_constraints() {
    let mut ctx = SolverContext::new();
    let x = ctx.declare_int();
    ctx.assert_formula(BoolExpr::Distinct(vec![x]));
    ctx.assert_formula(BoolExpr::Distinct(Vec::new()));
    ctx.assert_formula(BoolExpr::CountEq(Vec::new(), 0));
    assert_eq!(ctx.check(), CheckResult::Sat);
    ctx.assert_formula(BoolExpr::CountEq(Vec::new(), 1));
    assert_eq!(ctx.check(), CheckResult::Unsat);
}

/// A timeout-bounded context still answers trivial queries.
#[test]
fn timeout_config_accepted() {
    let mut ctx = SolverContext::with_timeout(10_000);
    let x = ctx.declare_int();
    ctx.assert_formula(f_le(e_const(0), e_var(x)));
    assert_eq!(ctx.check(), CheckResult::Sat);
}
