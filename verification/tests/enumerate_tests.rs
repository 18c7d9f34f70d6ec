use solvekit::ast::{e_const, e_var, f_eq, f_le, e_add};
use solvekit::context::SolverContext;
use solvekit::enumerate::{all_solutions, next_solution};
use solvekit::puzzles::enumerate_pair_sums;

/// Enumeration completeness: a formula with exactly three solutions
/// over a bounded domain yields exactly three distinct tuples, then
/// stops.
#[test]
fn pair_sums_exact_set() {
    let sols = enumerate_pair_sums(0, 2, 2, 10);
    assert_eq!(sols.len(), 3);
    assert!(sols.contains(&(0, 2)));
    assert!(sols.contains(&(1, 1)));
    assert!(sols.contains(&(2, 0)));
    // No duplicates: three distinct members of a three-element set.
    for i in 0..sols.len() {
        for j in 0..i {
            assert_ne!(sols[i], sols[j]);
        }
    }
}

/// An unsatisfiable formula yields no solutions at all.
#[test]
fn pair_sums_empty() {
    let sols = enumerate_pair_sums(0, 2, 100, 10);
    assert_eq!(sols.len(), 0);
}

/// The `max` bound truncates the lazy sequence.
#[test]
fn pair_sums_truncated() {
    let sols = enumerate_pair_sums(0, 2, 2, 2);
    assert_eq!(sols.len(), 2);
}

/// Step-by-step enumeration: each step blocks the tuple it yielded, so
/// the values never repeat, and the sequence ends with `None`.
#[test]
fn next_solution_steps() {
    let mut ctx = SolverContext::new();
    let x = ctx.declare_int();
    ctx.assert_formula(f_le(e_const(1), e_var(x)));
    ctx.assert_formula(f_le(e_var(x), e_const(3)));
    let vars = vec![x];
    let mut seen: Vec<i64> = Vec::new();
    loop {
        match next_solution(&mut ctx, &vars, true).unwrap() {
            Some(vals) => {
                assert_eq!(vals.len(), 1);
                assert!(!seen.contains(&vals[0]));
                assert!(1 <= vals[0] && vals[0] <= 3);
                seen.push(vals[0]);
            }
            None => break,
        }
    }
    assert_eq!(seen.len(), 3);
}

/// Blocking clauses persist in the scope they were asserted in.
#[test]
fn all_solutions_finite() {
    let mut ctx = SolverContext::new();
    let x = ctx.declare_int();
    let y = ctx.declare_int();
    ctx.assert_formula(f_le(e_const(0), e_var(x)));
    ctx.assert_formula(f_le(e_var(x), e_const(1)));
    ctx.assert_formula(f_le(e_const(0), e_var(y)));
    ctx.assert_formula(f_le(e_var(y), e_const(1)));
    ctx.assert_formula(f_eq(e_add(e_var(x), e_var(y)), e_const(1)));
    let sols = all_solutions(&mut ctx, &vec![x, y], true, 100).unwrap();
    assert_eq!(sols.len(), 2);
}
