use solvekit::ast::{e_const, e_var, f_eq, f_lt};
use solvekit::context::SolverContext;
use solvekit::search::{solve_coloring, solve_dfs, Graph, SearchOutcome};

/// Search driver correctness: the Petersen graph has no 2-coloring;
/// the driver must drive its index below zero and report failure.
#[test]
fn petersen_two_colors_fail() {
    let g = Graph::new_petersen();
    assert!(solve_coloring(g, 2, 1_000_000).is_none());
}

/// The Petersen graph is 3-chromatic: three colors suffice, and the
/// returned coloring is proper (the library validates it, the test
/// re-checks it).
#[test]
fn petersen_three_colors_found() {
    let g = Graph::new_petersen();
    let colors = solve_coloring(g, 3, 1_000_000).unwrap();
    assert_eq!(colors.len(), 10);
    for c in colors.iter() {
        assert!(1 <= *c && *c <= 3);
    }
    let g2 = Graph::new_petersen();
    for (u, v) in g2.edges.iter() {
        assert_ne!(colors[*u], colors[*v]);
    }
}

/// The committed scopes of a successful search stay live: the depth
/// equals the number of decision variables.
#[test]
fn dfs_commits_one_scope_per_variable() {
    let mut ctx = SolverContext::new();
    let x = ctx.declare_int();
    let y = ctx.declare_int();
    ctx.assert_formula(f_lt(e_var(x), e_var(y)));
    let vars = vec![x, y];
    let domain = vec![1, 2];
    match solve_dfs(&mut ctx, &vars, &domain, 1000) {
        SearchOutcome::Found(vals) => {
            assert_eq!(vals, vec![1, 2]);
            assert_eq!(ctx.current_depth(), 2);
        }
        _ => panic!("expected a solution"),
    }
}

/// Chronological backtracking explores later values after earlier
/// branches fail.
#[test]
fn dfs_backtracks() {
    let mut ctx = SolverContext::new();
    let x = ctx.declare_int();
    ctx.assert_formula(f_eq(e_var(x), e_const(3)));
    let outcome = solve_dfs(&mut ctx, &vec![x], &vec![1, 2, 3], 1000);
    match outcome {
        SearchOutcome::Found(vals) => assert_eq!(vals, vec![3]),
        _ => panic!("expected a solution"),
    }
}

/// Total search failure restores the stack to where it started.
#[test]
fn dfs_exhausted_restores_depth() {
    let mut ctx = SolverContext::new();
    let x = ctx.declare_int();
    ctx.assert_formula(f_lt(e_var(x), e_const(0)));
    let outcome = solve_dfs(&mut ctx, &vec![x], &vec![1, 2, 3], 1000);
    assert!(matches!(outcome, SearchOutcome::Exhausted));
    assert_eq!(ctx.current_depth(), 0);
}

/// The step bound maps exhaustion of the budget to a distinct
/// outcome, with the stack restored.
#[test]
fn dfs_out_of_steps() {
    let mut ctx = SolverContext::new();
    let x = ctx.declare_int();
    let y = ctx.declare_int();
    ctx.assert_formula(f_lt(e_var(x), e_var(y)));
    let outcome = solve_dfs(&mut ctx, &vec![x, y], &vec![1, 2], 1);
    assert!(matches!(outcome, SearchOutcome::OutOfSteps));
    assert_eq!(ctx.current_depth(), 0);
}

/// The Petersen constructor builds the expected topology.
#[test]
fn petersen_topology() {
    let g = Graph::new_petersen();
    assert_eq!(g.num_nodes, 10);
    assert_eq!(g.edges.len(), 15);
    assert_eq!(g.edges[0], (0, 1));
    assert_eq!(g.edges[14], (8, 5));
}
