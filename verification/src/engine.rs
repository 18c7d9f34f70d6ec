//! Trusted boundary around the external constraint-solving engine.
//!
//! Every item in this file either declares an engine type as opaque or
//! wraps exactly one engine call.  The engine is an oracle: nothing is
//! assumed about the answers it gives beyond their Rust types, so no
//! wrapper here carries an `ensures` about satisfiability, models or
//! cores.  All bookkeeping that the rest of the crate relies on (scope
//! depth, live assertions, tracker liveness) is kept in verified code
//! and validated against the values these wrappers return.

use vstd::prelude::*;

verus! {

/// Outcome of a satisfiability or optimization check.
#[derive(Clone, Copy, PartialEq, Eq, Structural, Debug)]
pub enum CheckResult {
    /// The asserted formula has a model.
    Sat,
    /// The asserted formula provably has no model.
    Unsat,
    /// The engine gave up (resource bound, timeout, incompleteness).
    Unknown,
}

#[verifier::external_type_specification]
#[verifier::external_body]
pub struct ExSolver(z3::Solver);

#[verifier::external_type_specification]
#[verifier::external_body]
pub struct ExOptimize(z3::Optimize);

#[verifier::external_type_specification]
#[verifier::external_body]
pub struct ExModel(z3::Model);

#[verifier::external_type_specification]
#[verifier::external_body]
pub struct ExParams(z3::Params);

#[verifier::external_type_specification]
#[verifier::external_body]
pub struct ExInt(z3::ast::Int);

#[verifier::external_type_specification]
#[verifier::external_body]
pub struct ExBool(z3::ast::Bool);

/// Relies on z3::Solver::new: a fresh incremental solver session.
#[verifier::external_body]
pub(crate) fn solver_new() -> z3::Solver {
    z3::Solver::new()
}

/// Relies on z3::Solver::assert: adds a formula to the current scope.
#[verifier::external_body]
pub(crate) fn solver_assert(s: &z3::Solver, f: &z3::ast::Bool) {
    s.assert(f)
}

/// Relies on z3::Solver::assert_and_track: adds a formula tagged with a
/// tracker boolean for unsat-core attribution.
#[verifier::external_body]
pub(crate) fn solver_assert_and_track(s: &z3::Solver, f: &z3::ast::Bool, t: &z3::ast::Bool) {
    s.assert_and_track(f, t)
}

/// Relies on z3::Solver::push: opens one backtracking scope.
#[verifier::external_body]
pub(crate) fn solver_push(s: &z3::Solver) {
    s.push()
}

/// Relies on z3::Solver::pop: closes the top `n` backtracking scopes.
#[verifier::external_body]
pub(crate) fn solver_pop(s: &z3::Solver, n: u32) {
    s.pop(n)
}

/// Relies on z3::Solver::check; the three variants of the engine's
/// answer are mapped one to one onto `CheckResult`.
#[verifier::external_body]
pub(crate) fn solver_check(s: &z3::Solver) -> CheckResult {
    match s.check() {
        z3::SatResult::Sat => CheckResult::Sat,
        z3::SatResult::Unsat => CheckResult::Unsat,
        z3::SatResult::Unknown => CheckResult::Unknown,
    }
}

/// Relies on z3::Solver::get_model: the model of the last check, if any.
#[verifier::external_body]
pub(crate) fn solver_get_model(s: &z3::Solver) -> Option<z3::Model> {
    s.get_model()
}

/// Relies on z3::Solver::get_unsat_core: the tracker booleans of an
/// unsatisfiable subset found by the last failed check.
#[verifier::external_body]
pub(crate) fn solver_get_unsat_core(s: &z3::Solver) -> Vec<z3::ast::Bool> {
    s.get_unsat_core()
}

/// Relies on z3::Solver::set_params: installs configuration parameters.
#[verifier::external_body]
pub(crate) fn solver_set_params(s: &z3::Solver, p: &z3::Params) {
    s.set_params(p)
}

/// Relies on z3::Params::new: an empty parameter set.
#[verifier::external_body]
pub(crate) fn params_new() -> z3::Params {
    z3::Params::new()
}

/// Relies on z3::Params::set_u32, with the engine's fixed "timeout"
/// parameter as the key (a key is converted through a C string, so it
/// must not contain a NUL byte; this fixed one does not): bounds each
/// check to `ms` milliseconds, expiry answering `Unknown`.
#[verifier::external_body]
pub(crate) fn params_set_timeout(p: &mut z3::Params, ms: u32) {
    p.set_u32("timeout", ms)
}

/// Relies on z3::Optimize::new: a fresh optimizing session.
#[verifier::external_body]
pub(crate) fn optimize_new() -> z3::Optimize {
    z3::Optimize::new()
}

/// Relies on z3::Optimize::assert: adds a hard constraint.
#[verifier::external_body]
pub(crate) fn optimize_assert(o: &z3::Optimize, f: &z3::ast::Bool) {
    o.assert(f)
}

/// Relies on z3::Optimize::assert_soft: adds a condition whose violation
/// costs `weight`, optionally grouped under a label.  The label is
/// converted through a C string, so it must not contain a NUL
/// character.
#[verifier::external_body]
pub(crate) fn optimize_assert_soft(o: &z3::Optimize, f: &z3::ast::Bool, weight: u64, group: Option<
    &str,
>)
    requires
        group matches Some(g) ==> crate::ast::nul_free(g@),
{
    let sym = match group {
        Some(g) => Some(z3::Symbol::from(g)),
        None => None,
    };
    o.assert_soft(f, weight, sym)
}

/// Relies on z3::Optimize::maximize: registers a maximization objective.
#[verifier::external_body]
pub(crate) fn optimize_maximize(o: &z3::Optimize, e: &z3::ast::Int) {
    o.maximize(e)
}

/// Relies on z3::Optimize::minimize: registers a minimization objective.
#[verifier::external_body]
pub(crate) fn optimize_minimize(o: &z3::Optimize, e: &z3::ast::Int) {
    o.minimize(e)
}

/// Relies on z3::Optimize::check (with no extra assumptions); the three
/// variants of the answer are mapped one to one onto `CheckResult`.
#[verifier::external_body]
pub(crate) fn optimize_check(o: &z3::Optimize) -> CheckResult {
    match o.check(&[]) {
        z3::SatResult::Sat => CheckResult::Sat,
        z3::SatResult::Unsat => CheckResult::Unsat,
        z3::SatResult::Unknown => CheckResult::Unknown,
    }
}

/// Relies on z3::Optimize::get_model: the model of the last check.
#[verifier::external_body]
pub(crate) fn optimize_get_model(o: &z3::Optimize) -> Option<z3::Model> {
    o.get_model()
}

/// Relies on z3::Model::eval with the given completion flag, on an
/// integer term.
#[verifier::external_body]
pub(crate) fn model_eval_int(m: &z3::Model, x: &z3::ast::Int, completion: bool) -> Option<
    z3::ast::Int,
> {
    m.eval(x, completion)
}

/// Relies on z3::Model::eval with the given completion flag, on a
/// boolean term.
#[verifier::external_body]
pub(crate) fn model_eval_bool(m: &z3::Model, x: &z3::ast::Bool, completion: bool) -> Option<
    z3::ast::Bool,
> {
    m.eval(x, completion)
}

/// Relies on z3::ast::Int::as_i64: the numeral's value when it fits in
/// 64 bits.
#[verifier::external_body]
pub(crate) fn int_value(x: &z3::ast::Int) -> Option<i64> {
    x.as_i64()
}

/// Relies on z3::ast::Bool::as_bool: the literal's truth value if the
/// term is a boolean literal.
#[verifier::external_body]
pub(crate) fn bool_value(x: &z3::ast::Bool) -> Option<bool> {
    x.as_bool()
}

/// Relies on z3::ast::Int::new_const, with the constant's name derived
/// from the declaration index so that distinct indices name distinct
/// engine constants.
#[verifier::external_body]
pub(crate) fn int_const_indexed(i: usize) -> z3::ast::Int {
    z3::ast::Int::new_const(format!("iv_{}", i))
}

/// Relies on z3::ast::Bool::new_const, with the constant's name derived
/// from the declaration index so that distinct indices name distinct
/// engine constants.
#[verifier::external_body]
pub(crate) fn bool_const_indexed(i: usize) -> z3::ast::Bool {
    z3::ast::Bool::new_const(format!("bv_{}", i))
}

/// Relies on z3::ast::Bool::new_const, with the tracker's name derived
/// from the tracker identifier so that distinct identifiers name
/// distinct tracker booleans.
#[verifier::external_body]
pub(crate) fn tracker_const(id: u64) -> z3::ast::Bool {
    z3::ast::Bool::new_const(format!("tk_{}", id))
}

/// Relies on z3::ast::Int::from_i64: an integer literal term.
#[verifier::external_body]
pub(crate) fn int_literal(v: i64) -> z3::ast::Int {
    z3::ast::Int::from_i64(v)
}

/// Relies on z3::ast::Bool::from_bool: a boolean literal term.
#[verifier::external_body]
pub(crate) fn bool_literal(b: bool) -> z3::ast::Bool {
    z3::ast::Bool::from_bool(b)
}

/// Relies on z3::ast::Int::add (through the `+` operator on term
/// references).
#[verifier::external_body]
pub(crate) fn int_add(a: &z3::ast::Int, b: &z3::ast::Int) -> z3::ast::Int {
    a + b
}

/// Relies on z3::ast::Int::sub (through the `-` operator on term
/// references).
#[verifier::external_body]
pub(crate) fn int_sub(a: &z3::ast::Int, b: &z3::ast::Int) -> z3::ast::Int {
    a - b
}

/// Relies on z3::ast::Int::mul (through the `*` operator on term
/// references).
#[verifier::external_body]
pub(crate) fn int_mul(a: &z3::ast::Int, b: &z3::ast::Int) -> z3::ast::Int {
    a * b
}

/// Relies on z3::ast::Int::le: the atom `a <= b`.
#[verifier::external_body]
pub(crate) fn int_le(a: &z3::ast::Int, b: &z3::ast::Int) -> z3::ast::Bool {
    a.le(b)
}

/// Relies on z3::ast::Int::lt: the atom `a < b`.
#[verifier::external_body]
pub(crate) fn int_lt(a: &z3::ast::Int, b: &z3::ast::Int) -> z3::ast::Bool {
    a.lt(b)
}

/// Relies on z3::ast::Ast::eq: the atom `a == b` on integer terms.
#[verifier::external_body]
pub(crate) fn int_eq(a: &z3::ast::Int, b: &z3::ast::Int) -> z3::ast::Bool {
    z3::ast::Ast::eq(a, b)
}

/// Relies on z3::ast::Bool::ite: the conditional integer term.
#[verifier::external_body]
pub(crate) fn int_ite(c: &z3::ast::Bool, t: &z3::ast::Int, e: &z3::ast::Int) -> z3::ast::Int {
    c.ite(t, e)
}

/// Relies on z3::ast::Ast::distinct over integer terms; the engine
/// accepts a distinct construct only over two or more terms.
#[verifier::external_body]
pub(crate) fn int_distinct(xs: &Vec<z3::ast::Int>) -> z3::ast::Bool
    requires
        xs@.len() >= 2,
{
    z3::ast::Ast::distinct(xs.as_slice())
}

/// Relies on z3::ast::Bool::not (through the negation method).
#[verifier::external_body]
pub(crate) fn bool_not(a: &z3::ast::Bool) -> z3::ast::Bool {
    a.not()
}

/// Relies on z3::ast::Bool::and (through the `&` operator on term
/// references).
#[verifier::external_body]
pub(crate) fn bool_and(a: &z3::ast::Bool, b: &z3::ast::Bool) -> z3::ast::Bool {
    a & b
}

/// Relies on z3::ast::Bool::or (through the `|` operator on term
/// references).
#[verifier::external_body]
pub(crate) fn bool_or(a: &z3::ast::Bool, b: &z3::ast::Bool) -> z3::ast::Bool {
    a | b
}

/// Relies on z3::ast::Bool::implies: the atom `a ==> b`.
#[verifier::external_body]
pub(crate) fn bool_implies(a: &z3::ast::Bool, b: &z3::ast::Bool) -> z3::ast::Bool {
    a.implies(b)
}

/// Relies on z3::ast::Bool::iff: the atom `a <=> b`.
#[verifier::external_body]
pub(crate) fn bool_iff(a: &z3::ast::Bool, b: &z3::ast::Bool) -> z3::ast::Bool {
    a.iff(b)
}

/// Relies on z3::ast::Bool::pb_eq: the pseudo-boolean constraint that
/// the weighted count of true terms equals `k`; the term list is kept
/// non-empty, since the engine's behaviour on an empty one is not
/// documented.
#[verifier::external_body]
pub(crate) fn bool_pb_eq(pairs: &Vec<(z3::ast::Bool, i32)>, k: i32) -> z3::ast::Bool
    requires
        pairs@.len() >= 1,
{
    let refs: Vec<(&z3::ast::Bool, i32)> = pairs.iter().map(|p| (&p.0, p.1)).collect();
    z3::ast::Bool::pb_eq(refs.as_slice(), k)
}

/// Relies on the PartialEq impl of z3::ast::Bool (structural identity of
/// the underlying terms); used only to match unsat-core members against
/// the trackers this crate created.
#[verifier::external_body]
pub(crate) fn bool_same(a: &z3::ast::Bool, b: &z3::ast::Bool) -> bool {
    a == b
}

/// Relies on the Clone impl of z3::ast::Bool: another handle to the same
/// term.
#[verifier::external_body]
pub(crate) fn bool_ast_clone(a: &z3::ast::Bool) -> z3::ast::Bool {
    a.clone()
}

/// Relies on the Clone impl of z3::ast::Int: another handle to the same
/// term.
#[verifier::external_body]
pub(crate) fn int_ast_clone(a: &z3::ast::Int) -> z3::ast::Int {
    a.clone()
}

} // verus!
