//! Formula syntax shared by every component: integer and boolean
//! expressions over declared variables, their exact evaluation semantics
//! under an assignment, and an executable evaluator used to validate
//! models reported by the engine.

use vstd::prelude::*;

verus! {

/// Integer-valued expression over integer variables (identified by the
/// index under which the owning context declared them) and constants.
pub enum IntExpr {
    Var(usize),
    Const(i64),
    Add(Box<IntExpr>, Box<IntExpr>),
    Sub(Box<IntExpr>, Box<IntExpr>),
    Mul(Box<IntExpr>, Box<IntExpr>),
    Ite(Box<BoolExpr>, Box<IntExpr>, Box<IntExpr>),
}

/// Boolean-valued formula over boolean variables, integer comparisons,
/// pairwise distinctness and counting constraints.
pub enum BoolExpr {
    Var(usize),
    Const(bool),
    Not(Box<BoolExpr>),
    And(Box<BoolExpr>, Box<BoolExpr>),
    Or(Box<BoolExpr>, Box<BoolExpr>),
    Implies(Box<BoolExpr>, Box<BoolExpr>),
    Iff(Box<BoolExpr>, Box<BoolExpr>),
    IntEq(Box<IntExpr>, Box<IntExpr>),
    Le(Box<IntExpr>, Box<IntExpr>),
    Lt(Box<IntExpr>, Box<IntExpr>),
    /// All listed integer variables take pairwise different values.
    Distinct(Vec<usize>),
    /// Exactly `k` of the listed boolean variables are true.
    CountEq(Vec<usize>, i32),
}

/// A total assignment of mathematical values to variable indices; the
/// semantic domain that formulas are evaluated against.
pub struct Assignment {
    pub ints: Map<int, int>,
    pub bools: Map<int, bool>,
}

/// Number of variables in `vs` that are true under `a`.
pub open spec fn count_true(vs: Seq<usize>, a: Assignment) -> int
    decreases vs.len(),
{
    if vs.len() == 0 {
        0
    } else {
        count_true(vs.drop_last(), a) + if a.bools[vs.last() as int] {
            1int
        } else {
            0int
        }
    }
}

/// Value of an integer expression under an assignment, in unbounded
/// integer arithmetic.
pub open spec fn ieval(e: IntExpr, a: Assignment) -> int
    decreases e,
{
    match e {
        IntExpr::Var(i) => a.ints[i as int],
        IntExpr::Const(c) => c as int,
        IntExpr::Add(x, y) => ieval(*x, a) + ieval(*y, a),
        IntExpr::Sub(x, y) => ieval(*x, a) - ieval(*y, a),
        IntExpr::Mul(x, y) => ieval(*x, a) * ieval(*y, a),
        IntExpr::Ite(c, t, f) => if beval(*c, a) {
            ieval(*t, a)
        } else {
            ieval(*f, a)
        },
    }
}

/// Truth value of a formula under an assignment.
pub open spec fn beval(e: BoolExpr, a: Assignment) -> bool
    decreases e,
{
    match e {
        BoolExpr::Var(i) => a.bools[i as int],
        BoolExpr::Const(b) => b,
        BoolExpr::Not(x) => !beval(*x, a),
        BoolExpr::And(x, y) => beval(*x, a) && beval(*y, a),
        BoolExpr::Or(x, y) => beval(*x, a) || beval(*y, a),
        BoolExpr::Implies(x, y) => beval(*x, a) ==> beval(*y, a),
        BoolExpr::Iff(x, y) => beval(*x, a) <==> beval(*y, a),
        BoolExpr::IntEq(x, y) => ieval(*x, a) == ieval(*y, a),
        BoolExpr::Le(x, y) => ieval(*x, a) <= ieval(*y, a),
        BoolExpr::Lt(x, y) => ieval(*x, a) < ieval(*y, a),
        BoolExpr::Distinct(vs) => forall|p: int, q: int|
            0 <= p < q < vs@.len() ==> a.ints[vs@[p] as int] != a.ints[vs@[q] as int],
        BoolExpr::CountEq(vs, k) => count_true(vs@, a) == k as int,
    }
}

/// Every formula in `fs` holds under `a`.
pub open spec fn all_hold(fs: Seq<BoolExpr>, a: Assignment) -> bool {
    forall|i: int| 0 <= i < fs.len() ==> beval(#[trigger] fs[i], a)
}

/// Well-formedness of an integer expression against the number of
/// declared integer (`ni`) and boolean (`nb`) variables.
pub open spec fn iwf(e: IntExpr, ni: int, nb: int) -> bool
    decreases e,
{
    match e {
        IntExpr::Var(i) => (i as int) < ni,
        IntExpr::Const(_) => true,
        IntExpr::Add(x, y) => iwf(*x, ni, nb) && iwf(*y, ni, nb),
        IntExpr::Sub(x, y) => iwf(*x, ni, nb) && iwf(*y, ni, nb),
        IntExpr::Mul(x, y) => iwf(*x, ni, nb) && iwf(*y, ni, nb),
        IntExpr::Ite(c, t, f) => bwf(*c, ni, nb) && iwf(*t, ni, nb) && iwf(*f, ni, nb),
    }
}

/// Well-formedness of a formula: every variable index it mentions has
/// been declared.
pub open spec fn bwf(e: BoolExpr, ni: int, nb: int) -> bool
    decreases e,
{
    match e {
        BoolExpr::Var(i) => (i as int) < nb,
        BoolExpr::Const(_) => true,
        BoolExpr::Not(x) => bwf(*x, ni, nb),
        BoolExpr::And(x, y) => bwf(*x, ni, nb) && bwf(*y, ni, nb),
        BoolExpr::Or(x, y) => bwf(*x, ni, nb) && bwf(*y, ni, nb),
        BoolExpr::Implies(x, y) => bwf(*x, ni, nb) && bwf(*y, ni, nb),
        BoolExpr::Iff(x, y) => bwf(*x, ni, nb) && bwf(*y, ni, nb),
        BoolExpr::IntEq(x, y) => iwf(*x, ni, nb) && iwf(*y, ni, nb),
        BoolExpr::Le(x, y) => iwf(*x, ni, nb) && iwf(*y, ni, nb),
        BoolExpr::Lt(x, y) => iwf(*x, ni, nb) && iwf(*y, ni, nb),
        BoolExpr::Distinct(vs) => forall|p: int| 0 <= p < vs@.len() ==> (vs@[p] as int) < ni,
        BoolExpr::CountEq(vs, _) => forall|p: int| 0 <= p < vs@.len() ==> (vs@[p] as int) < nb,
    }
}

/// Every formula in `fs` is well-formed.
pub open spec fn all_wf(fs: Seq<BoolExpr>, ni: int, nb: int) -> bool {
    forall|i: int| 0 <= i < fs.len() ==> bwf(#[trigger] fs[i], ni, nb)
}

/// The string holds no NUL character, so it can cross the engine's C
/// string boundary.
pub open spec fn nul_free(s: Seq<char>) -> bool {
    forall|i: int| 0 <= i < s.len() ==> s[i] != '\0'
}

/// The value lies in the 64-bit signed range.
pub open spec fn in64(v: int) -> bool {
    -0x8000000000000000 <= v <= 0x7fffffffffffffff
}

/// Every intermediate value of the integer expression fits in 64 bits
/// under `a`, so 64-bit evaluation cannot overflow.
pub open spec fn ieval_in_range(e: IntExpr, a: Assignment) -> bool
    decreases e,
{
    match e {
        IntExpr::Var(_) => true,
        IntExpr::Const(_) => true,
        IntExpr::Add(x, y) => ieval_in_range(*x, a) && ieval_in_range(*y, a) && in64(
            ieval(*x, a) + ieval(*y, a),
        ),
        IntExpr::Sub(x, y) => ieval_in_range(*x, a) && ieval_in_range(*y, a) && in64(
            ieval(*x, a) - ieval(*y, a),
        ),
        IntExpr::Mul(x, y) => ieval_in_range(*x, a) && ieval_in_range(*y, a) && in64(
            ieval(*x, a) * ieval(*y, a),
        ),
        IntExpr::Ite(c, t, f) => beval_in_range(*c, a) && ieval_in_range(*t, a)
            && ieval_in_range(*f, a),
    }
}

/// Every intermediate value of the formula fits in 64 bits under `a`.
pub open spec fn beval_in_range(e: BoolExpr, a: Assignment) -> bool
    decreases e,
{
    match e {
        BoolExpr::Var(_) => true,
        BoolExpr::Const(_) => true,
        BoolExpr::Not(x) => beval_in_range(*x, a),
        BoolExpr::And(x, y) => beval_in_range(*x, a) && beval_in_range(*y, a),
        BoolExpr::Or(x, y) => beval_in_range(*x, a) && beval_in_range(*y, a),
        BoolExpr::Implies(x, y) => beval_in_range(*x, a) && beval_in_range(*y, a),
        BoolExpr::Iff(x, y) => beval_in_range(*x, a) && beval_in_range(*y, a),
        BoolExpr::IntEq(x, y) => ieval_in_range(*x, a) && ieval_in_range(*y, a),
        BoolExpr::Le(x, y) => ieval_in_range(*x, a) && ieval_in_range(*y, a),
        BoolExpr::Lt(x, y) => ieval_in_range(*x, a) && ieval_in_range(*y, a),
        BoolExpr::Distinct(_) => true,
        BoolExpr::CountEq(_, _) => true,
    }
}

/// The assignment read off from dense vectors of concrete values, one
/// entry per declared variable.
pub open spec fn env(iv: Seq<i64>, bv: Seq<bool>) -> Assignment {
    Assignment {
        ints: Map::new(|k: int| 0 <= k < iv.len(), |k: int| iv[k] as int),
        bools: Map::new(|k: int| 0 <= k < bv.len(), |k: int| bv[k]),
    }
}

/// Executable evaluation of an integer expression against concrete
/// values.  Returns `None` exactly when a variable is out of range or
/// an intermediate value does not fit in 64 bits: any value returned
/// is the exact mathematical value of the expression, and a value is
/// returned whenever the expression is well-formed for the vectors and
/// all its intermediate values fit.
pub fn eval_int(e: &IntExpr, iv: &Vec<i64>, bv: &Vec<bool>) -> (r: Option<i64>)
    ensures
        r matches Some(v) ==> v as int == ieval(*e, env(iv@, bv@)),
        iwf(*e, iv@.len() as int, bv@.len() as int) && ieval_in_range(*e, env(iv@, bv@))
            ==> r is Some,
    decreases *e,
{
    match e {
        IntExpr::Var(i) => if *i < iv.len() {
            Some(iv[*i])
        } else {
            None
        },
        IntExpr::Const(c) => Some(*c),
        IntExpr::Add(x, y) => match (eval_int(&**x, iv, bv), eval_int(&**y, iv, bv)) {
            (Some(a), Some(b)) => a.checked_add(b),
            _ => None,
        },
        IntExpr::Sub(x, y) => match (eval_int(&**x, iv, bv), eval_int(&**y, iv, bv)) {
            (Some(a), Some(b)) => a.checked_sub(b),
            _ => None,
        },
        IntExpr::Mul(x, y) => match (eval_int(&**x, iv, bv), eval_int(&**y, iv, bv)) {
            (Some(a), Some(b)) => a.checked_mul(b),
            _ => None,
        },
        IntExpr::Ite(c, t, f) => match eval_bool(&**c, iv, bv) {
            Some(cv) => if cv {
                eval_int(&**t, iv, bv)
            } else {
                eval_int(&**f, iv, bv)
            },
            None => None,
        },
    }
}

/// Executable evaluation of a formula against concrete values: any
/// truth value returned is the exact semantic truth value, and one is
/// returned whenever the formula is well-formed for the vectors and
/// all its intermediate values fit in 64 bits.
pub fn eval_bool(e: &BoolExpr, iv: &Vec<i64>, bv: &Vec<bool>) -> (r: Option<bool>)
    ensures
        r matches Some(v) ==> v == beval(*e, env(iv@, bv@)),
        bwf(*e, iv@.len() as int, bv@.len() as int) && beval_in_range(*e, env(iv@, bv@))
            ==> r is Some,
    decreases *e,
{
    match e {
        BoolExpr::Var(i) => if *i < bv.len() {
            Some(bv[*i])
        } else {
            None
        },
        BoolExpr::Const(b) => Some(*b),
        BoolExpr::Not(x) => match eval_bool(&**x, iv, bv) {
            Some(v) => Some(!v),
            None => None,
        },
        BoolExpr::And(x, y) => match (eval_bool(&**x, iv, bv), eval_bool(&**y, iv, bv)) {
            (Some(a), Some(b)) => Some(a && b),
            _ => None,
        },
        BoolExpr::Or(x, y) => match (eval_bool(&**x, iv, bv), eval_bool(&**y, iv, bv)) {
            (Some(a), Some(b)) => Some(a || b),
            _ => None,
        },
        BoolExpr::Implies(x, y) => match (eval_bool(&**x, iv, bv), eval_bool(&**y, iv, bv)) {
            (Some(a), Some(b)) => Some(!a || b),
            _ => None,
        },
        BoolExpr::Iff(x, y) => match (eval_bool(&**x, iv, bv), eval_bool(&**y, iv, bv)) {
            (Some(a), Some(b)) => Some(a == b),
            _ => None,
        },
        BoolExpr::IntEq(x, y) => match (eval_int(&**x, iv, bv), eval_int(&**y, iv, bv)) {
            (Some(a), Some(b)) => Some(a == b),
            _ => None,
        },
        BoolExpr::Le(x, y) => match (eval_int(&**x, iv, bv), eval_int(&**y, iv, bv)) {
            (Some(a), Some(b)) => Some(a <= b),
            _ => None,
        },
        BoolExpr::Lt(x, y) => match (eval_int(&**x, iv, bv), eval_int(&**y, iv, bv)) {
            (Some(a), Some(b)) => Some(a < b),
            _ => None,
        },
        BoolExpr::Distinct(vs) => eval_distinct(vs, iv, bv),
        BoolExpr::CountEq(vs, k) => eval_count_eq(vs, *k, iv, bv),
    }
}

/// Executable check that the listed integer variables take pairwise
/// different values under the assignment read off from `iv` and `bv`.
fn eval_distinct(vs: &Vec<usize>, iv: &Vec<i64>, bv: &Vec<bool>) -> (r: Option<bool>)
    ensures
        r matches Some(v) ==> v == (forall|p: int, q: int|
            0 <= p < q < vs@.len() ==> env(iv@, bv@).ints[vs@[p] as int] != env(
                iv@,
                bv@,
            ).ints[vs@[q] as int]),
        (forall|p: int| 0 <= p < vs@.len() ==> (#[trigger] vs@[p] as int) < iv@.len()) ==> r
            is Some,
{
    let ghost a = env(iv@, bv@);
    let n = vs.len();
    let mut p: usize = 0;
    while p < n
        invariant
            n == vs@.len(),
            p <= n,
            a == env(iv@, bv@),
            forall|x: int| 0 <= x < p ==> (#[trigger] vs@[x] as int) < iv@.len(),
            forall|x: int, y: int| 0 <= x < y < p ==> a.ints[vs@[x] as int] != a.ints[vs@[y] as int],
        decreases n - p,
    {
        if vs[p] >= iv.len() {
            return None;
        }
        let mut q: usize = 0;
        while q < p
            invariant
                n == vs@.len(),
                q <= p < n,
                a == env(iv@, bv@),
                (vs@[p as int] as int) < iv@.len(),
                forall|x: int| 0 <= x < p ==> (#[trigger] vs@[x] as int) < iv@.len(),
                forall|x: int, y: int| 0 <= x < y < p ==> a.ints[vs@[x] as int] != a.ints[vs@[y] as int],
                forall|x: int| 0 <= x < q ==> a.ints[#[trigger] vs@[x] as int] != a.ints[vs@[p as int] as int],
            decreases p - q,
        {
            if iv[vs[q]] == iv[vs[p]] {
                return Some(false);
            }
            q += 1;
        }
        p += 1;
    }
    Some(true)
}

/// Executable check that exactly `k` of the listed boolean variables are
/// true under the assignment read off from `iv` and `bv`.
fn eval_count_eq(vs: &Vec<usize>, k: i32, iv: &Vec<i64>, bv: &Vec<bool>) -> (r: Option<bool>)
    ensures
        r matches Some(v) ==> v == (count_true(vs@, env(iv@, bv@)) == k as int),
        (forall|p: int| 0 <= p < vs@.len() ==> (#[trigger] vs@[p] as int) < bv@.len()) ==> r
            is Some,
{
    let ghost a = env(iv@, bv@);
    let n = vs.len();
    let mut count: u64 = 0;
    let mut p: usize = 0;
    while p < n
        invariant
            n == vs@.len(),
            p <= n,
            count <= p,
            a == env(iv@, bv@),
            count as int == count_true(vs@.take(p as int), a),
        decreases n - p,
    {
        if vs[p] >= bv.len() {
            return None;
        }
        proof {
            assert(vs@.take(p + 1).drop_last() =~= vs@.take(p as int));
            assert(vs@.take(p + 1).last() == vs@[p as int]);
        }
        if bv[vs[p]] {
            count += 1;
        }
        p += 1;
    }
    proof {
        assert(vs@.take(n as int) =~= vs@);
    }
    if k < 0 {
        Some(false)
    } else {
        Some(count == k as u64)
    }
}

/// Element-wise copy of a vector of variable indices.
pub fn clone_indices(vs: &Vec<usize>) -> (r: Vec<usize>)
    ensures
        r@ == vs@,
{
    let mut out: Vec<usize> = Vec::new();
    let mut i: usize = 0;
    while i < vs.len()
        invariant
            i <= vs@.len(),
            out@ == vs@.take(i as int),
        decreases vs@.len() - i,
    {
        out.push(vs[i]);
        i += 1;
    }
    proof {
        assert(vs@.take(vs@.len() as int) =~= vs@);
    }
    out
}

/// An integer variable term.
pub fn e_var(i: usize) -> (r: IntExpr)
    ensures
        forall|a: Assignment| #[trigger] ieval(r, a) == a.ints[i as int],
        forall|ni: int, nb: int| (i as int) < ni ==> #[trigger] iwf(r, ni, nb),
{
    IntExpr::Var(i)
}

/// An integer literal term.
pub fn e_const(c: i64) -> (r: IntExpr)
    ensures
        forall|a: Assignment| #[trigger] ieval(r, a) == c as int,
        forall|ni: int, nb: int| #[trigger] iwf(r, ni, nb),
{
    IntExpr::Const(c)
}

/// The sum of two integer terms.
pub fn e_add(x: IntExpr, y: IntExpr) -> (r: IntExpr)
    ensures
        forall|a: Assignment| #[trigger] ieval(r, a) == ieval(x, a) + ieval(y, a),
        forall|ni: int, nb: int| iwf(x, ni, nb) && iwf(y, ni, nb) ==> #[trigger] iwf(r, ni, nb),
{
    let ghost gx = x;
    let ghost gy = y;
    let r = IntExpr::Add(Box::new(x), Box::new(y));
    proof {
        assert(*r->Add_0 == gx);
        assert(*r->Add_1 == gy);
    }
    r
}

/// The difference of two integer terms.
pub fn e_sub(x: IntExpr, y: IntExpr) -> (r: IntExpr)
    ensures
        forall|a: Assignment| #[trigger] ieval(r, a) == ieval(x, a) - ieval(y, a),
        forall|ni: int, nb: int| iwf(x, ni, nb) && iwf(y, ni, nb) ==> #[trigger] iwf(r, ni, nb),
{
    let ghost gx = x;
    let ghost gy = y;
    let r = IntExpr::Sub(Box::new(x), Box::new(y));
    proof {
        assert(*r->Sub_0 == gx);
        assert(*r->Sub_1 == gy);
    }
    r
}

/// The product of two integer terms.
pub fn e_mul(x: IntExpr, y: IntExpr) -> (r: IntExpr)
    ensures
        forall|a: Assignment| #[trigger] ieval(r, a) == ieval(x, a) * ieval(y, a),
        forall|ni: int, nb: int| iwf(x, ni, nb) && iwf(y, ni, nb) ==> #[trigger] iwf(r, ni, nb),
{
    let ghost gx = x;
    let ghost gy = y;
    let r = IntExpr::Mul(Box::new(x), Box::new(y));
    proof {
        assert(*r->Mul_0 == gx);
        assert(*r->Mul_1 == gy);
    }
    r
}

/// The conditional integer term `if c { t } else { e }`.
pub fn e_ite(c: BoolExpr, t: IntExpr, e: IntExpr) -> (r: IntExpr)
    ensures
        forall|a: Assignment| #[trigger] ieval(r, a) == if beval(c, a) {
            ieval(t, a)
        } else {
            ieval(e, a)
        },
        forall|ni: int, nb: int| bwf(c, ni, nb) && iwf(t, ni, nb) && iwf(e, ni, nb)
            ==> #[trigger] iwf(r, ni, nb),
{
    let ghost gc = c;
    let ghost gt = t;
    let ghost ge = e;
    let r = IntExpr::Ite(Box::new(c), Box::new(t), Box::new(e));
    proof {
        assert(*r->Ite_0 == gc);
        assert(*r->Ite_1 == gt);
        assert(*r->Ite_2 == ge);
    }
    r
}

/// A boolean variable atom.
pub fn f_var(i: usize) -> (r: BoolExpr)
    ensures
        forall|a: Assignment| #[trigger] beval(r, a) == a.bools[i as int],
        forall|ni: int, nb: int| (i as int) < nb ==> #[trigger] bwf(r, ni, nb),
{
    BoolExpr::Var(i)
}

/// The atom `x <= y`.
pub fn f_le(x: IntExpr, y: IntExpr) -> (r: BoolExpr)
    ensures
        forall|a: Assignment| #[trigger] beval(r, a) <==> ieval(x, a) <= ieval(y, a),
        forall|ni: int, nb: int| iwf(x, ni, nb) && iwf(y, ni, nb) ==> #[trigger] bwf(r, ni, nb),
{
    let ghost gx = x;
    let ghost gy = y;
    let r = BoolExpr::Le(Box::new(x), Box::new(y));
    proof {
        assert(*r->Le_0 == gx);
        assert(*r->Le_1 == gy);
    }
    r
}

/// The atom `x < y`.
pub fn f_lt(x: IntExpr, y: IntExpr) -> (r: BoolExpr)
    ensures
        forall|a: Assignment| #[trigger] beval(r, a) <==> ieval(x, a) < ieval(y, a),
        forall|ni: int, nb: int| iwf(x, ni, nb) && iwf(y, ni, nb) ==> #[trigger] bwf(r, ni, nb),
{
    let ghost gx = x;
    let ghost gy = y;
    let r = BoolExpr::Lt(Box::new(x), Box::new(y));
    proof {
        assert(*r->Lt_0 == gx);
        assert(*r->Lt_1 == gy);
    }
    r
}

/// The atom `x == y` on integer terms.
pub fn f_eq(x: IntExpr, y: IntExpr) -> (r: BoolExpr)
    ensures
        forall|a: Assignment| #[trigger] beval(r, a) <==> ieval(x, a) == ieval(y, a),
        forall|ni: int, nb: int| iwf(x, ni, nb) && iwf(y, ni, nb) ==> #[trigger] bwf(r, ni, nb),
{
    let ghost gx = x;
    let ghost gy = y;
    let r = BoolExpr::IntEq(Box::new(x), Box::new(y));
    proof {
        assert(*r->IntEq_0 == gx);
        assert(*r->IntEq_1 == gy);
    }
    r
}

/// The negation of a formula.
pub fn f_not(x: BoolExpr) -> (r: BoolExpr)
    ensures
        forall|a: Assignment| #[trigger] beval(r, a) <==> !beval(x, a),
        forall|ni: int, nb: int| bwf(x, ni, nb) ==> #[trigger] bwf(r, ni, nb),
{
    let ghost gx = x;
    let r = BoolExpr::Not(Box::new(x));
    proof {
        assert(*r->Not_0 == gx);
    }
    r
}

/// The conjunction of two formulas.
pub fn f_and(x: BoolExpr, y: BoolExpr) -> (r: BoolExpr)
    ensures
        forall|a: Assignment| #[trigger] beval(r, a) <==> beval(x, a) && beval(y, a),
        forall|ni: int, nb: int| bwf(x, ni, nb) && bwf(y, ni, nb) ==> #[trigger] bwf(r, ni, nb),
{
    let ghost gx = x;
    let ghost gy = y;
    let r = BoolExpr::And(Box::new(x), Box::new(y));
    proof {
        assert(*r->And_0 == gx);
        assert(*r->And_1 == gy);
    }
    r
}

/// The disjunction of two formulas.
pub fn f_or(x: BoolExpr, y: BoolExpr) -> (r: BoolExpr)
    ensures
        forall|a: Assignment| #[trigger] beval(r, a) <==> beval(x, a) || beval(y, a),
        forall|ni: int, nb: int| bwf(x, ni, nb) && bwf(y, ni, nb) ==> #[trigger] bwf(r, ni, nb),
{
    let ghost gx = x;
    let ghost gy = y;
    let r = BoolExpr::Or(Box::new(x), Box::new(y));
    proof {
        assert(*r->Or_0 == gx);
        assert(*r->Or_1 == gy);
    }
    r
}

/// The implication `x ==> y`.
pub fn f_implies(x: BoolExpr, y: BoolExpr) -> (r: BoolExpr)
    ensures
        forall|a: Assignment| #[trigger] beval(r, a) <==> (beval(x, a) ==> beval(y, a)),
        forall|ni: int, nb: int| bwf(x, ni, nb) && bwf(y, ni, nb) ==> #[trigger] bwf(r, ni, nb),
{
    let ghost gx = x;
    let ghost gy = y;
    let r = BoolExpr::Implies(Box::new(x), Box::new(y));
    proof {
        assert(*r->Implies_0 == gx);
        assert(*r->Implies_1 == gy);
    }
    r
}

/// Symbolic absolute difference `|v - c|` between an integer variable
/// and a constant, built with a conditional expression exactly as the
/// engine expects it.
pub fn distance(a: usize, b: i64) -> (r: IntExpr)
    ensures
        forall|asg: Assignment| #[trigger] ieval(r, asg) == if asg.ints[a as int] >= b as int {
            asg.ints[a as int] - b as int
        } else {
            b as int - asg.ints[a as int]
        },
        forall|ni: int, nb: int| (a as int) < ni ==> #[trigger] iwf(r, ni, nb),
{
    let r = IntExpr::Ite(
        Box::new(
            BoolExpr::Not(
                Box::new(
                    BoolExpr::Lt(Box::new(IntExpr::Var(a)), Box::new(IntExpr::Const(b))),
                ),
            ),
        ),
        Box::new(IntExpr::Sub(Box::new(IntExpr::Var(a)), Box::new(IntExpr::Const(b)))),
        Box::new(IntExpr::Sub(Box::new(IntExpr::Const(b)), Box::new(IntExpr::Var(a)))),
    );
    proof {
        assert forall|asg: Assignment| #[trigger] ieval(r, asg) == (if asg.ints[a as int] >= (
        b as int) {
            asg.ints[a as int] - b as int
        } else {
            b as int - asg.ints[a as int]
        }) by {
            reveal_with_fuel(ieval, 3);
            reveal_with_fuel(beval, 3);
        }
        assert forall|ni: int, nb: int| (a as int) < ni implies #[trigger] iwf(r, ni, nb) by {
            reveal_with_fuel(iwf, 5);
            reveal_with_fuel(bwf, 5);
        }
    }
    r
}

} // verus!
