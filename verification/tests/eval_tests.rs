use solvekit::ast::{
    distance, e_add, e_const, e_mul, e_var, eval_bool, eval_int, f_and, f_eq, f_not, f_or, f_var,
    BoolExpr, IntExpr,
};

/// The evaluator computes exact arithmetic on in-range values.
#[test]
fn arithmetic_evaluation() {
    let iv = vec![5i64, -3];
    let bv: Vec<bool> = Vec::new();
    let e = e_add(e_mul(e_var(0), e_const(4)), e_var(1));
    assert_eq!(eval_int(&e, &iv, &bv), Some(17));
}

/// Overflow is reported as absence, never wrapped.
#[test]
fn overflow_is_none() {
    let iv: Vec<i64> = Vec::new();
    let bv: Vec<bool> = Vec::new();
    let e = e_add(e_const(i64::MAX), e_const(1));
    assert_eq!(eval_int(&e, &iv, &bv), None);
}

/// An undeclared variable cannot be evaluated.
#[test]
fn out_of_range_variable_is_none() {
    let iv = vec![1i64];
    let bv: Vec<bool> = Vec::new();
    assert_eq!(eval_int(&e_var(3), &iv, &bv), None);
}

/// Boolean connectives evaluate classically.
#[test]
fn boolean_evaluation() {
    let iv = vec![2i64];
    let bv = vec![true, false];
    let f = f_and(f_var(0), f_not(f_var(1)));
    assert_eq!(eval_bool(&f, &iv, &bv), Some(true));
    let f2 = f_or(f_var(1), f_var(0));
    assert_eq!(eval_bool(&f2, &iv, &bv), Some(true));
    let g = f_eq(e_var(0), e_const(2));
    assert_eq!(eval_bool(&g, &iv, &bv), Some(true));
    let h = f_eq(e_var(0), e_const(3));
    assert_eq!(eval_bool(&h, &iv, &bv), Some(false));
}

/// Pairwise distinctness over integer variables.
#[test]
fn distinct_evaluation() {
    let bv: Vec<bool> = Vec::new();
    let f = BoolExpr::Distinct(vec![0, 1, 2]);
    assert_eq!(eval_bool(&f, &vec![1, 2, 3], &bv), Some(true));
    assert_eq!(eval_bool(&f, &vec![1, 2, 1], &bv), Some(false));
    assert_eq!(eval_bool(&f, &vec![1, 2], &bv), None);
}

/// Counting constraint over boolean variables.
#[test]
fn count_evaluation() {
    let iv: Vec<i64> = Vec::new();
    let f = BoolExpr::CountEq(vec![0, 1, 2], 1);
    assert_eq!(eval_bool(&f, &iv, &vec![false, true, false]), Some(true));
    assert_eq!(eval_bool(&f, &iv, &vec![true, true, false]), Some(false));
    let g = BoolExpr::CountEq(vec![0, 1], -1);
    assert_eq!(eval_bool(&g, &iv, &vec![false, false]), Some(false));
}

/// The absolute-difference term evaluates to |v - c| on both sides.
#[test]
fn distance_evaluation() {
    let bv: Vec<bool> = Vec::new();
    let d = distance(0, 3);
    assert_eq!(eval_int(&d, &vec![5], &bv), Some(2));
    assert_eq!(eval_int(&d, &vec![1], &bv), Some(2));
    assert_eq!(eval_int(&d, &vec![3], &bv), Some(0));
}

/// A conditional term follows its condition.
#[test]
fn ite_evaluation() {
    let f = IntExpr::Ite(
        Box::new(BoolExpr::Var(0)),
        Box::new(IntExpr::Const(10)),
        Box::new(IntExpr::Const(20)),
    );
    let iv: Vec<i64> = Vec::new();
    assert_eq!(eval_int(&f, &iv, &vec![true]), Some(10));
    assert_eq!(eval_int(&f, &iv, &vec![false]), Some(20));
}
