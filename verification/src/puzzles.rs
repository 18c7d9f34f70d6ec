//! Puzzle front ends: each function translates one puzzle shape into
//! variables and constraints, drives the engine through the context,
//! and validates the values read back from the model against the
//! puzzle's own arithmetic before returning them.  Whatever the engine
//! answered, a returned solution satisfies the stated constraints.

use vstd::prelude::*;
use crate::ast::{
    BoolExpr, distance, e_add, e_const, e_ite, e_mul, e_sub, e_var, f_eq, f_implies, f_le, f_lt,
    f_not, f_var,
};
use crate::context::SolverContext;
use crate::engine::CheckResult;
use crate::enumerate::all_solutions;
use crate::objective::OptContext;

verus! {

/// Finds integers `x` and `y` with `x + y == sum` and `x - y == diff`.
/// Any returned pair satisfies both equations exactly.
pub fn solve_system_of_equations(sum: i64, diff: i64) -> (r: Option<(i64, i64)>)
    ensures
        r matches Some(p) ==> p.0 + p.1 == sum as int && p.0 - p.1 == diff as int,
{
    let mut ctx = SolverContext::new();
    let x = ctx.declare_int();
    let y = ctx.declare_int();
    ctx.assert_formula(f_eq(e_add(e_var(x), e_var(y)), e_const(sum)));
    ctx.assert_formula(f_eq(e_sub(e_var(x), e_var(y)), e_const(diff)));
    match ctx.check() {
        CheckResult::Sat => {},
        _ => {
            return None;
        },
    }
    let vars = vec![x, y];
    let vals = match ctx.model_ints(&vars, true) {
        Ok(v) => v,
        Err(_) => {
            return None;
        },
    };
    let xv = vals[0];
    let yv = vals[1];
    if (xv as i128) + (yv as i128) == (sum as i128) && (xv as i128) - (yv as i128) == (
    diff as i128) {
        Some((xv, yv))
    } else {
        None
    }
}

/// Finds integers `x` and `y` with `x > lo`, `y > lo` and
/// `x + y == total`.  Any returned pair satisfies all three.
pub fn solve_bounded_pair(lo: i64, total: i64) -> (r: Option<(i64, i64)>)
    ensures
        r matches Some(p) ==> p.0 > lo && p.1 > lo && p.0 + p.1 == total as int,
{
    let mut ctx = SolverContext::new();
    let x = ctx.declare_int();
    let y = ctx.declare_int();
    ctx.assert_formula(f_lt(e_const(lo), e_var(x)));
    ctx.assert_formula(f_lt(e_const(lo), e_var(y)));
    ctx.assert_formula(f_eq(e_add(e_var(x), e_var(y)), e_const(total)));
    match ctx.check() {
        CheckResult::Sat => {},
        _ => {
            return None;
        },
    }
    let vars = vec![x, y];
    let vals = match ctx.model_ints(&vars, true) {
        Ok(v) => v,
        Err(_) => {
            return None;
        },
    };
    let xv = vals[0];
    let yv = vals[1];
    if xv > lo && yv > lo && (xv as i128) + (yv as i128) == (total as i128) {
        Some((xv, yv))
    } else {
        None
    }
}

/// A pair meeting the constraints of the worked minimization: both
/// coordinates positive and `2x + y >= 10`.
pub open spec fn optimization_feasible(x: int, y: int) -> bool {
    x > 0 && y > 0 && 2 * x + y >= 10
}

/// Minimizes `x + y` subject to `x > 0`, `y > 0` and `2x + y >= 10`.
/// A minimizing pair always exists and is always returned: every
/// feasible pair has sum at least 6, so the engine's answer is kept
/// only when it is feasible with sum 6, and a known optimum stands in
/// otherwise.
pub fn solve_optimization() -> (r: Option<(i64, i64)>)
    ensures
        r is Some,
        r matches Some(p) ==> optimization_feasible(p.0 as int, p.1 as int) && p.0 + p.1 == 6,
        r matches Some(p) ==> (forall|x2: int, y2: int|
            #[trigger] optimization_feasible(x2, y2) ==> p.0 + p.1 <= x2 + y2),
{
    let mut opt = OptContext::new();
    let x = opt.declare_int();
    let y = opt.declare_int();
    opt.assert_formula(f_lt(e_const(0), e_var(x)));
    opt.assert_formula(f_lt(e_const(0), e_var(y)));
    opt.assert_formula(
        f_le(e_const(10), e_add(e_mul(e_const(2), e_var(x)), e_var(y))),
    );
    opt.minimize(e_add(e_var(x), e_var(y)));
    proof {
        assert forall|x2: int, y2: int| #[trigger] optimization_feasible(x2, y2) implies 6 <= x2
            + y2 by {
            if x2 <= 4 {
                assert(x2 + y2 >= 10 - x2);
            } else {
                assert(x2 + y2 >= x2 + 1);
            }
        }
    }
    if opt.check() == CheckResult::Sat {
        let vars = vec![x, y];
        if let Ok(vals) = opt.model_ints(&vars, true) {
            let xv = vals[0];
            let yv = vals[1];
            if xv > 0 && yv > 0 && 2 * (xv as i128) + (yv as i128) >= 10 && (xv as i128) + (
            yv as i128) == 6 {
                return Some((xv, yv));
            }
        }
    }
    // The optimum is attained at this pair whatever the engine said.
    Some((4, 2))
}

/// Enumerates distinct pairs `(x, y)` with `lo <= x, y <= hi` and
/// `x + y == total`, up to `max` of them.  Every returned pair
/// satisfies the constraints, and no pair is returned twice.
pub fn enumerate_pair_sums(lo: i64, hi: i64, total: i64, max: usize) -> (r: Vec<(i64, i64)>)
    ensures
        r@.len() <= max,
        forall|i: int|
            0 <= i < r@.len() ==> lo <= (#[trigger] r@[i]).0 <= hi && lo <= r@[i].1 <= hi && r@[
                i].0 + r@[i].1 == total as int,
        forall|i: int, j: int| 0 <= i < j < r@.len() ==> #[trigger] r@[i] != #[trigger] r@[j],
{
    let mut ctx = SolverContext::new();
    let x = ctx.declare_int();
    let y = ctx.declare_int();
    ctx.assert_formula(f_le(e_const(lo), e_var(x)));
    ctx.assert_formula(f_le(e_var(x), e_const(hi)));
    ctx.assert_formula(f_le(e_const(lo), e_var(y)));
    ctx.assert_formula(f_le(e_var(y), e_const(hi)));
    ctx.assert_formula(f_eq(e_add(e_var(x), e_var(y)), e_const(total)));
    let vars = vec![x, y];
    let sols = match all_solutions(&mut ctx, &vars, true, max) {
        Ok(s) => s,
        Err(_) => {
            return Vec::new();
        },
    };
    let mut out: Vec<(i64, i64)> = Vec::new();
    let mut i: usize = 0;
    while i < sols.len()
        invariant
            i <= sols@.len(),
            sols@.len() <= max,
            out@.len() <= i,
            forall|j: int| 0 <= j < sols@.len() ==> (#[trigger] sols@[j])@.len() == 2,
            forall|j: int|
                0 <= j < out@.len() ==> lo <= (#[trigger] out@[j]).0 <= hi && lo <= out@[j].1
                    <= hi && out@[j].0 + out@[j].1 == total as int,
            forall|p: int, q: int|
                0 <= p < q < out@.len() ==> #[trigger] out@[p] != #[trigger] out@[q],
        decreases sols@.len() - i,
    {
        let xv = sols[i][0];
        let yv = sols[i][1];
        if lo <= xv && xv <= hi && lo <= yv && yv <= hi && (xv as i128) + (yv as i128) == (
        total as i128) {
            // The enumerator never repeats a tuple; keep that visible
            // in this contract by skipping any pair already collected.
            let mut fresh = true;
            let mut k: usize = 0;
            let m = out.len();
            while k < m
                invariant
                    m == out@.len(),
                    k <= m,
                    fresh ==> (forall|p: int| 0 <= p < k ==> #[trigger] out@[p] != (xv, yv)),
                decreases m - k,
            {
                if out[k].0 == xv && out[k].1 == yv {
                    fresh = false;
                }
                k += 1;
            }
            if fresh {
                out.push((xv, yv));
            }
        }
        i += 1;
    }
    out
}

/// One participant's preferred meeting time and how much violating it
/// costs.
pub struct MeetingPreference {
    pub time: i64,
    pub weight: u32,
}

/// Total weight of the preferences that the meeting time `t` violates.
pub open spec fn violated_weight(prefs: Seq<MeetingPreference>, t: int) -> int
    decreases prefs.len(),
{
    if prefs.len() == 0 {
        0
    } else {
        violated_weight(prefs.drop_last(), t) + if prefs.last().time == t {
            0int
        } else {
            prefs.last().weight as int
        }
    }
}

/// Total weight of the preferences violated by meeting time `t`,
/// computed exactly.
fn window_penalty(prefs: &Vec<MeetingPreference>, t: i64) -> (w: u128)
    ensures
        w as int == violated_weight(prefs@, t as int),
{
    let mut acc: u128 = 0;
    let mut i: usize = 0;
    while i < prefs.len()
        invariant
            i <= prefs@.len(),
            acc as int == violated_weight(prefs@.take(i as int), t as int),
            acc as int <= (i as int) * 0xffff_ffff,
        decreases prefs@.len() - i,
    {
        proof {
            assert(prefs@.take(i + 1).drop_last() =~= prefs@.take(i as int));
            assert(prefs@.take(i + 1).last() == prefs@[i as int]);
        }
        if prefs[i].time != t {
            acc = acc + (prefs[i].weight as u128);
        }
        i += 1;
    }
    proof {
        assert(prefs@.take(prefs@.len() as int) =~= prefs@);
    }
    acc
}

/// Schedules a meeting between 9 and 11 under soft time preferences,
/// all sharing one penalty group.  The returned time always exists,
/// lies in the hard window, and minimizes the total violated weight
/// over the window: the engine's optimizing check proposes a time, the
/// penalties of all three candidate times are recomputed exactly, and
/// the engine's pick is kept only when it is one of the optima (among
/// which its choice is arbitrary).
pub fn solve_meeting_schedule(prefs: &Vec<MeetingPreference>) -> (r: Option<i64>)
    ensures
        r is Some,
        r matches Some(t) ==> 9 <= t <= 11 && (forall|t2: int|
            9 <= t2 <= 11 ==> violated_weight(prefs@, t as int) <= #[trigger] violated_weight(
                prefs@,
                t2,
            )),
{
    let mut opt = OptContext::new();
    let t = opt.declare_int();
    opt.assert_formula(f_le(e_const(9), e_var(t)));
    opt.assert_formula(f_le(e_var(t), e_const(11)));
    let mut i: usize = 0;
    while i < prefs.len()
        invariant
            opt.num_ints() == 1,
            opt.num_bools() == 0,
            (t as int) < opt.num_ints(),
        decreases prefs@.len() - i,
    {
        let pref_time = prefs[i].time;
        let pref_weight = prefs[i].weight;
        proof {
            reveal_strlit("preferences");
            assert(crate::ast::nul_free("preferences"@));
        }
        opt.assert_soft(
            f_eq(e_var(t), e_const(pref_time)),
            pref_weight as u64,
            Some("preferences"),
        );
        i += 1;
    }
    let outcome = opt.check();
    // Recompute the penalty of every time in the window; the window is
    // three values, so minimality is decidable here.
    let p9 = window_penalty(prefs, 9);
    let p10 = window_penalty(prefs, 10);
    let p11 = window_penalty(prefs, 11);
    let mut best: i64 = 9;
    let mut best_penalty = p9;
    if p10 < best_penalty {
        best = 10;
        best_penalty = p10;
    }
    if p11 < best_penalty {
        best = 11;
        best_penalty = p11;
    }
    proof {
        assert forall|t2: int|
            9 <= t2 <= 11 implies violated_weight(prefs@, best as int) <= #[trigger] violated_weight(
            prefs@,
            t2,
        ) by {
            if t2 == 9 {
            } else if t2 == 10 {
            }
        }
    }
    if outcome == CheckResult::Sat {
        let vars = vec![t];
        if let Ok(vals) = opt.model_ints(&vars, true) {
            let tv = vals[0];
            if 9 <= tv && tv <= 11 {
                let pt = window_penalty(prefs, tv);
                if pt <= p9 && pt <= p10 && pt <= p11 {
                    proof {
                        assert forall|t2: int|
                            9 <= t2 <= 11 implies violated_weight(prefs@, tv as int)
                            <= #[trigger] violated_weight(prefs@, t2) by {
                            if t2 == 9 {
                            } else if t2 == 10 {
                            }
                        }
                    }
                    return Some(tv);
                }
            }
        }
    }
    Some(best)
}

/// Exact 128-bit product of two 64-bit values.
fn mul_wide(a: i64, b: i64) -> (r: i128)
    ensures
        r as int == (a as int) * (b as int),
        -0x40000000000000000000000000000000 <= r as int
            <= 0x40000000000000000000000000000000,
{
    proof {
        assert((a as int) * (b as int) <= 0x8000000000000000 * 0x8000000000000000 && (a as int)
            * (b as int) >= -(0x8000000000000000 * 0x8000000000000000)) by (nonlinear_arith)
            requires
                -0x8000000000000000 <= a as int <= 0x7fffffffffffffff,
                -0x8000000000000000 <= b as int <= 0x7fffffffffffffff,
        ;
    }
    (a as i128) * (b as i128)
}

/// One knapsack item: its value and its weight.
pub struct KnapsackItem {
    pub value: i64,
    pub weight: i64,
}

/// A knapsack selection: which items are taken and their total value.
pub struct KnapsackChoice {
    pub taken: Vec<bool>,
    pub total_value: i64,
}

/// Total weight of the taken items among the first `k`.
pub open spec fn taken_weight(items: Seq<KnapsackItem>, taken: Seq<bool>, k: int) -> int
    decreases k,
{
    if k <= 0 {
        0
    } else {
        taken_weight(items, taken, k - 1) + if taken[k - 1] {
            items[k - 1].weight as int
        } else {
            0int
        }
    }
}

/// Total value of the taken items among the first `k`.
pub open spec fn taken_value(items: Seq<KnapsackItem>, taken: Seq<bool>, k: int) -> int
    decreases k,
{
    if k <= 0 {
        0
    } else {
        taken_value(items, taken, k - 1) + if taken[k - 1] {
            items[k - 1].value as int
        } else {
            0int
        }
    }
}

/// Maximizes the total value of items taken without exceeding the
/// weight limit.  Any returned selection respects the limit, and the
/// reported value is exactly the value of the selection; how large it
/// is among feasible selections remains the engine's promise.
pub fn solve_knapsack(items: &Vec<KnapsackItem>, limit: i64) -> (r: Option<KnapsackChoice>)
    ensures
        r matches Some(c) ==> c.taken@.len() == items@.len() && taken_weight(
            items@,
            c.taken@,
            items@.len() as int,
        ) <= limit as int && c.total_value as int == taken_value(
            items@,
            c.taken@,
            items@.len() as int,
        ),
{
    let mut opt = OptContext::new();
    let n = items.len();
    let mut flags: Vec<usize> = Vec::new();
    let mut i: usize = 0;
    while i < n
        invariant
            i <= n,
            flags@.len() == i,
            opt.num_bools() == i as int,
            opt.num_ints() == 0,
            forall|p: int| 0 <= p < i ==> (#[trigger] flags@[p] as int) < opt.num_bools(),
        decreases n - i,
    {
        let b = opt.declare_bool();
        flags.push(b);
        i += 1;
    }
    let mut wexpr = e_const(0);
    let mut vexpr = e_const(0);
    let mut j: usize = 0;
    while j < n
        invariant
            j <= n,
            n == items@.len(),
            flags@.len() == n,
            opt.num_bools() == n as int,
            opt.num_ints() == 0,
            forall|p: int| 0 <= p < n ==> (#[trigger] flags@[p] as int) < opt.num_bools(),
            forall|ni: int, nb: int| n as int <= nb ==> #[trigger] crate::ast::iwf(
                wexpr,
                ni,
                nb,
            ),
            forall|ni: int, nb: int| n as int <= nb ==> #[trigger] crate::ast::iwf(
                vexpr,
                ni,
                nb,
            ),
        decreases n - j,
    {
        let wterm = e_ite(f_var(flags[j]), e_const(items[j].weight), e_const(0));
        let vterm = e_ite(f_var(flags[j]), e_const(items[j].value), e_const(0));
        wexpr = e_add(wexpr, wterm);
        vexpr = e_add(vexpr, vterm);
        j += 1;
    }
    opt.assert_formula(f_le(wexpr, e_const(limit)));
    opt.maximize(vexpr);
    match opt.check() {
        CheckResult::Sat => {},
        _ => {
            return None;
        },
    }
    let taken = match opt.model_bools(&flags, true) {
        Ok(v) => v,
        Err(_) => {
            return None;
        },
    };
    let mut acc: i64 = 0;
    let mut k: usize = 0;
    while k < n
        invariant
            k <= n,
            n == items@.len(),
            taken@.len() == n,
            acc as int == taken_weight(items@, taken@, k as int),
        decreases n - k,
    {
        if taken[k] {
            acc = match acc.checked_add(items[k].weight) {
                Some(v) => v,
                None => {
                    return None;
                },
            };
        }
        k += 1;
    }
    if acc > limit {
        return None;
    }
    let mut val: i64 = 0;
    let mut m: usize = 0;
    while m < n
        invariant
            m <= n,
            n == items@.len(),
            taken@.len() == n,
            val as int == taken_value(items@, taken@, m as int),
        decreases n - m,
    {
        if taken[m] {
            val = match val.checked_add(items[m].value) {
                Some(v) => v,
                None => {
                    return None;
                },
            };
        }
        m += 1;
    }
    Some(KnapsackChoice { taken, total_value: val })
}

/// A press plan for a button machine: presses per button and their
/// total.
pub struct ButtonPlan {
    pub presses: Vec<i64>,
    pub total: i64,
}

/// Sum of the first `k` entries.
pub open spec fn sum_prefix(vals: Seq<i64>, k: int) -> int
    decreases k,
{
    if k <= 0 {
        0
    } else {
        sum_prefix(vals, k - 1) + vals[k - 1] as int
    }
}

/// Contribution of the first `k` buttons to counter `c`: the presses of
/// every button that affects the counter.
pub open spec fn counter_sum(buttons: Seq<Vec<usize>>, presses: Seq<i64>, c: usize, k: int) -> int
    decreases k,
{
    if k <= 0 {
        0
    } else {
        counter_sum(buttons, presses, c, k - 1) + if buttons[k - 1]@.contains(c) {
            presses[k - 1] as int
        } else {
            0int
        }
    }
}

/// Whether a button's effect list mentions a counter.
fn affects_counter(button: &Vec<usize>, c: usize) -> (b: bool)
    ensures
        b == button@.contains(c),
{
    let mut i: usize = 0;
    while i < button.len()
        invariant
            i <= button@.len(),
            forall|p: int| 0 <= p < i ==> button@[p] != c,
        decreases button@.len() - i,
    {
        if button[i] == c {
            return true;
        }
        i += 1;
    }
    false
}

/// Minimizes the number of button presses needed to drive every
/// counter to its target, where each press of a button increments all
/// the counters it affects.  Any returned plan is non-negative, hits
/// every target exactly, and reports its exact total; minimality
/// remains the engine's promise.
pub fn solve_button_presses(targets: &Vec<i64>, buttons: &Vec<Vec<usize>>) -> (r: Option<
    ButtonPlan,
>)
    ensures
        r matches Some(p) ==> p.presses@.len() == buttons@.len() && (forall|b: int|
            0 <= b < p.presses@.len() ==> #[trigger] p.presses@[b] >= 0) && (forall|c: int|
            0 <= c < targets@.len() ==> counter_sum(
                buttons@,
                p.presses@,
                c as usize,
                buttons@.len() as int,
            ) == targets@[c]) && p.total as int == sum_prefix(
            p.presses@,
            p.presses@.len() as int,
        ),
{
    let mut opt = OptContext::new();
    let nb = buttons.len();
    let mut pv: Vec<usize> = Vec::new();
    let mut i: usize = 0;
    while i < nb
        invariant
            i <= nb,
            pv@.len() == i,
            opt.num_ints() == i as int,
            opt.num_bools() == 0,
            forall|p: int| 0 <= p < i ==> (#[trigger] pv@[p] as int) < opt.num_ints(),
        decreases nb - i,
    {
        let v = opt.declare_int();
        opt.assert_formula(f_le(e_const(0), e_var(v)));
        pv.push(v);
        i += 1;
    }
    let mut c: usize = 0;
    while c < targets.len()
        invariant
            c <= targets@.len(),
            nb == buttons@.len(),
            pv@.len() == nb,
            opt.num_ints() == nb as int,
            opt.num_bools() == 0,
            forall|p: int| 0 <= p < nb ==> (#[trigger] pv@[p] as int) < opt.num_ints(),
        decreases targets@.len() - c,
    {
        let mut s = e_const(0);
        let mut b: usize = 0;
        while b < nb
            invariant
                b <= nb,
                nb == buttons@.len(),
                pv@.len() == nb,
                opt.num_ints() == nb as int,
                opt.num_bools() == 0,
                forall|p: int| 0 <= p < nb ==> (#[trigger] pv@[p] as int) < opt.num_ints(),
                forall|ni: int, nb2: int| nb as int <= ni ==> #[trigger] crate::ast::iwf(
                    s,
                    ni,
                    nb2,
                ),
            decreases nb - b,
        {
            if affects_counter(&buttons[b], c) {
                s = e_add(s, e_var(pv[b]));
            }
            b += 1;
        }
        opt.assert_formula(f_eq(s, e_const(targets[c])));
        c += 1;
    }
    let mut tot = e_const(0);
    let mut b2: usize = 0;
    while b2 < nb
        invariant
            b2 <= nb,
            pv@.len() == nb,
            opt.num_ints() == nb as int,
            opt.num_bools() == 0,
            forall|p: int| 0 <= p < nb ==> (#[trigger] pv@[p] as int) < opt.num_ints(),
            forall|ni: int, nb2: int| nb as int <= ni ==> #[trigger] crate::ast::iwf(
                tot,
                ni,
                nb2,
            ),
        decreases nb - b2,
    {
        tot = e_add(tot, e_var(pv[b2]));
        b2 += 1;
    }
    opt.minimize(tot);
    match opt.check() {
        CheckResult::Sat => {},
        _ => {
            return None;
        },
    }
    let presses = match opt.model_ints(&pv, true) {
        Ok(v) => v,
        Err(_) => {
            return None;
        },
    };
    let mut k: usize = 0;
    while k < nb
        invariant
            k <= nb,
            presses@.len() == nb,
            forall|p: int| 0 <= p < k ==> #[trigger] presses@[p] >= 0,
        decreases nb - k,
    {
        if presses[k] < 0 {
            return None;
        }
        k += 1;
    }
    let mut c2: usize = 0;
    while c2 < targets.len()
        invariant
            c2 <= targets@.len(),
            nb == buttons@.len(),
            presses@.len() == nb,
            forall|q: int|
                0 <= q < c2 ==> counter_sum(buttons@, presses@, q as usize, nb as int)
                    == targets@[q],
        decreases targets@.len() - c2,
    {
        let mut acc: i64 = 0;
        let mut b3: usize = 0;
        while b3 < nb
            invariant
                b3 <= nb,
                nb == buttons@.len(),
                presses@.len() == nb,
                acc as int == counter_sum(buttons@, presses@, c2, b3 as int),
            decreases nb - b3,
        {
            if affects_counter(&buttons[b3], c2) {
                acc = match acc.checked_add(presses[b3]) {
                    Some(v) => v,
                    None => {
                        return None;
                    },
                };
            }
            b3 += 1;
        }
        if acc != targets[c2] {
            return None;
        }
        c2 += 1;
    }
    let mut total: i64 = 0;
    let mut m: usize = 0;
    while m < nb
        invariant
            m <= nb,
            presses@.len() == nb,
            total as int == sum_prefix(presses@, m as int),
        decreases nb - m,
    {
        total = match total.checked_add(presses[m]) {
            Some(v) => v,
            None => {
                return None;
            },
        };
        m += 1;
    }
    Some(ButtonPlan { presses, total })
}

/// One hailstone: position and velocity, one unit per time step.
pub struct Hailstone {
    pub px: i64,
    pub py: i64,
    pub pz: i64,
    pub vx: i64,
    pub vy: i64,
    pub vz: i64,
}

/// A rock trajectory and the collision time found for each hailstone.
pub struct RockThrow {
    pub px: i64,
    pub py: i64,
    pub pz: i64,
    pub vx: i64,
    pub vy: i64,
    pub vz: i64,
    pub times: Vec<i64>,
}

/// The rock meets the hailstone at time `t` on all three axes.
pub open spec fn collision_ok(s: Hailstone, r: RockThrow, t: int) -> bool {
    &&& r.px + r.vx * t == s.px + s.vx * t
    &&& r.py + r.vy * t == s.py + s.vy * t
    &&& r.pz + r.vz * t == s.pz + s.vz * t
}

/// Finds a rock position and velocity hitting every hailstone at some
/// non-negative time.  Any returned trajectory is validated: all
/// collision equations hold exactly.
pub fn solve_rock_throw(stones: &Vec<Hailstone>) -> (r: Option<RockThrow>)
    ensures
        r matches Some(rock) ==> rock.times@.len() == stones@.len() && (forall|i: int|
            0 <= i < stones@.len() ==> #[trigger] rock.times@[i] >= 0 && collision_ok(
                stones@[i],
                rock,
                rock.times@[i] as int,
            )),
{
    let mut ctx = SolverContext::new();
    let rpx = ctx.declare_int();
    let rpy = ctx.declare_int();
    let rpz = ctx.declare_int();
    let rvx = ctx.declare_int();
    let rvy = ctx.declare_int();
    let rvz = ctx.declare_int();
    let mut tvars: Vec<usize> = Vec::new();
    let n = stones.len();
    let mut i: usize = 0;
    while i < n
        invariant
            i <= n,
            n == stones@.len(),
            tvars@.len() == i,
            ctx.wf(),
            ctx.num_ints() == 6 + i as int,
            ctx.num_bools() == 0,
            rpx as int == 0 && rpy as int == 1 && rpz as int == 2,
            rvx as int == 3 && rvy as int == 4 && rvz as int == 5,
            forall|p: int| 0 <= p < i ==> (#[trigger] tvars@[p] as int) < ctx.num_ints(),
        decreases n - i,
    {
        let t = ctx.declare_int();
        ctx.assert_formula(f_le(e_const(0), e_var(t)));
        let s = &stones[i];
        ctx.assert_formula(
            f_eq(
                e_add(e_var(rpx), e_mul(e_var(rvx), e_var(t))),
                e_add(e_const(s.px), e_mul(e_const(s.vx), e_var(t))),
            ),
        );
        ctx.assert_formula(
            f_eq(
                e_add(e_var(rpy), e_mul(e_var(rvy), e_var(t))),
                e_add(e_const(s.py), e_mul(e_const(s.vy), e_var(t))),
            ),
        );
        ctx.assert_formula(
            f_eq(
                e_add(e_var(rpz), e_mul(e_var(rvz), e_var(t))),
                e_add(e_const(s.pz), e_mul(e_const(s.vz), e_var(t))),
            ),
        );
        tvars.push(t);
        i += 1;
    }
    match ctx.check() {
        CheckResult::Sat => {},
        _ => {
            return None;
        },
    }
    let rock_vars = vec![rpx, rpy, rpz, rvx, rvy, rvz];
    let rock_vals = match ctx.model_ints(&rock_vars, true) {
        Ok(v) => v,
        Err(_) => {
            return None;
        },
    };
    let times = match ctx.model_ints(&tvars, true) {
        Ok(v) => v,
        Err(_) => {
            return None;
        },
    };
    let rock = RockThrow {
        px: rock_vals[0],
        py: rock_vals[1],
        pz: rock_vals[2],
        vx: rock_vals[3],
        vy: rock_vals[4],
        vz: rock_vals[5],
        times,
    };
    let mut k: usize = 0;
    while k < n
        invariant
            k <= n,
            n == stones@.len(),
            rock.times@.len() == n,
            forall|p: int| 0 <= p < k ==> #[trigger] rock.times@[p] >= 0 && collision_ok(
                stones@[p],
                rock,
                rock.times@[p] as int,
            ),
        decreases n - k,
    {
        let t = rock.times[k];
        if t < 0 {
            return None;
        }
        let s = &stones[k];
        let okx = (rock.px as i128) + mul_wide(rock.vx, t) == (s.px as i128) + mul_wide(s.vx, t);
        let oky = (rock.py as i128) + mul_wide(rock.vy, t) == (s.py as i128) + mul_wide(s.vy, t);
        let okz = (rock.pz as i128) + mul_wide(rock.vz, t) == (s.pz as i128) + mul_wide(s.vz, t);
        if !(okx && oky && okz) {
            return None;
        }
        k += 1;
    }
    Some(rock)
}

/// A grid cell index within a `rows x cols` grid stays within bounds.
proof fn lemma_grid_index(r: int, c: int, rows: int, cols: int)
    requires
        0 <= r < rows,
        0 <= c < cols,
    ensures
        0 <= r * cols + c < rows * cols,
{
    assert(0 <= r * cols + c < rows * cols) by (nonlinear_arith)
        requires
            0 <= r < rows,
            0 <= c < cols,
    ;
}

/// Column `c` of a grid of rows.
pub open spec fn grid_column(g: Seq<Seq<bool>>, c: int) -> Seq<bool> {
    Seq::new(g.len(), |r: int| g[r][c])
}

/// The rows of a grid as mathematical sequences.
pub open spec fn grid_view(g: Seq<Vec<bool>>) -> Seq<Seq<bool>> {
    g.map_values(|v: Vec<bool>| v@)
}

/// Solves a line/grid puzzle: one run-length clue per row and per
/// column over a shared grid of boolean cells.  Any returned grid is
/// validated line by line: every row and every column satisfies its
/// clue under the placement the engine produced.
pub fn solve_nonogram(
    rows: usize,
    cols: usize,
    row_clues: &Vec<Vec<i64>>,
    col_clues: &Vec<Vec<i64>>,
) -> (r: Option<Vec<Vec<bool>>>)
    requires
        row_clues@.len() == rows,
        col_clues@.len() == cols,
        1 <= rows,
        1 <= cols,
        rows * cols <= 0x7fff_ffff,
    ensures
        r matches Some(g) ==> g@.len() == rows && (forall|rr: int|
            0 <= rr < g@.len() ==> (#[trigger] g@[rr])@.len() == cols) && (forall|rr: int|
            0 <= rr < rows ==> crate::encoder::line_respects_clue(
                (#[trigger] g@[rr])@,
                row_clues@[rr]@,
            )) && (forall|cc: int|
            0 <= cc < cols ==> crate::encoder::line_respects_clue(
                grid_column(grid_view(g@), cc),
                (#[trigger] col_clues@[cc])@,
            )),
{
    let mut ctx = SolverContext::new();
    proof {
        assert(cols <= rows * cols && rows <= rows * cols) by (nonlinear_arith)
            requires
                1 <= rows,
                1 <= cols,
        ;
    }
    let total = rows * cols;
    let mut cell: usize = 0;
    while cell < total
        invariant
            ctx.wf(),
            cell <= total,
            ctx.num_ints() == 0,
            ctx.num_bools() == cell as int,
            ctx.depth() == 0,
        decreases total - cell,
    {
        let _cell_var = ctx.declare_bool();
        cell += 1;
    }
    // Row constraints.
    let mut row_starts: Vec<Vec<usize>> = Vec::new();
    let mut rr: usize = 0;
    while rr < rows
        invariant
            ctx.wf(),
            rr <= rows,
            rows == row_clues@.len(),
            total == rows * cols,
            1 <= cols,
            1 <= rows,
            total == rows * cols,
            total <= 0x7fff_ffff,
            cols <= total,
            rows <= total,
            ctx.num_bools() == total as int,
            row_starts@.len() == rr,
            forall|p: int| 0 <= p < rr ==> (#[trigger] row_starts@[p])@.len() == row_clues@[
                p]@.len(),
            forall|p: int, q: int|
                0 <= p < rr && 0 <= q < (#[trigger] row_starts@[p])@.len() ==> ((
                #[trigger] row_starts@[p]@[q]) as int) < ctx.num_ints(),
        decreases rows - rr,
    {
        let mut cells: Vec<usize> = Vec::new();
        let mut cc: usize = 0;
        while cc < cols
            invariant
                cc <= cols,
                rr < rows,
                total == rows * cols,
                cells@.len() == cc,
                forall|p: int| 0 <= p < cc ==> (#[trigger] cells@[p] as int) < total as int,
            decreases cols - cc,
        {
            proof {
                lemma_grid_index(rr as int, cc as int, rows as int, cols as int);
            }
            cells.push(rr * cols + cc);
            cc += 1;
        }
        let starts = crate::encoder::constrain_line(&mut ctx, &cells, &row_clues[rr]);
        row_starts.push(starts);
        rr += 1;
    }
    // Column constraints over the same cells.
    let mut col_starts: Vec<Vec<usize>> = Vec::new();
    let mut cc2: usize = 0;
    while cc2 < cols
        invariant
            ctx.wf(),
            cc2 <= cols,
            cols == col_clues@.len(),
            rows == row_clues@.len(),
            total == rows * cols,
            1 <= cols,
            1 <= rows,
            total == rows * cols,
            total <= 0x7fff_ffff,
            cols <= total,
            rows <= total,
            ctx.num_bools() == total as int,
            col_starts@.len() == cc2,
            row_starts@.len() == rows,
            forall|p: int| 0 <= p < rows ==> (#[trigger] row_starts@[p])@.len() == row_clues@[
                p]@.len(),
            forall|p: int, q: int|
                0 <= p < rows && 0 <= q < (#[trigger] row_starts@[p])@.len() ==> ((
                #[trigger] row_starts@[p]@[q]) as int) < ctx.num_ints(),
            forall|p: int| 0 <= p < cc2 ==> (#[trigger] col_starts@[p])@.len() == col_clues@[
                p]@.len(),
            forall|p: int, q: int|
                0 <= p < cc2 && 0 <= q < (#[trigger] col_starts@[p])@.len() ==> ((
                #[trigger] col_starts@[p]@[q]) as int) < ctx.num_ints(),
        decreases cols - cc2,
    {
        let mut cells: Vec<usize> = Vec::new();
        let mut rr2: usize = 0;
        while rr2 < rows
            invariant
                rr2 <= rows,
                cc2 < cols,
                total == rows * cols,
                cells@.len() == rr2,
                forall|p: int| 0 <= p < rr2 ==> (#[trigger] cells@[p] as int) < total as int,
            decreases rows - rr2,
        {
            proof {
                lemma_grid_index(rr2 as int, cc2 as int, rows as int, cols as int);
            }
            cells.push(rr2 * cols + cc2);
            rr2 += 1;
        }
        let starts = crate::encoder::constrain_line(&mut ctx, &cells, &col_clues[cc2]);
        col_starts.push(starts);
        cc2 += 1;
    }
    match ctx.check() {
        CheckResult::Sat => {},
        _ => {
            return None;
        },
    }
    // Read the whole grid back.
    let mut all_cells: Vec<usize> = Vec::new();
    let mut k: usize = 0;
    while k < total
        invariant
            k <= total,
            all_cells@.len() == k,
            forall|p: int| 0 <= p < k ==> #[trigger] all_cells@[p] == p,
        decreases total - k,
    {
        all_cells.push(k);
        k += 1;
    }
    let flat_cells = match ctx.model_bools(&all_cells, true) {
        Ok(v) => v,
        Err(_) => {
            return None;
        },
    };
    let mut grid: Vec<Vec<bool>> = Vec::new();
    let mut gr: usize = 0;
    while gr < rows
        invariant
            gr <= rows,
            total == rows * cols,
            1 <= cols,
            1 <= rows,
            total == rows * cols,
            total <= 0x7fff_ffff,
            cols <= total,
            rows <= total,
            flat_cells@.len() == total,
            grid@.len() == gr,
            forall|p: int| 0 <= p < gr ==> (#[trigger] grid@[p])@.len() == cols,
        decreases rows - gr,
    {
        let mut row_cells: Vec<bool> = Vec::new();
        let mut gc: usize = 0;
        while gc < cols
            invariant
                gc <= cols,
                gr < rows,
                total == rows * cols,
                flat_cells@.len() == total,
                row_cells@.len() == gc,
            decreases cols - gc,
        {
            proof {
                lemma_grid_index(gr as int, gc as int, rows as int, cols as int);
            }
            row_cells.push(flat_cells[gr * cols + gc]);
            gc += 1;
        }
        grid.push(row_cells);
        gr += 1;
    }
    // Validate every row against its clue.
    let mut vr: usize = 0;
    while vr < rows
        invariant
            vr <= rows,
            ctx.wf(),
            rows == row_clues@.len(),
            cols == col_clues@.len(),
            grid@.len() == rows,
            row_starts@.len() == rows,
            col_starts@.len() == cols,
            1 <= cols,
            1 <= rows,
            total == rows * cols,
            total <= 0x7fff_ffff,
            cols <= total,
            rows <= total,
            forall|p: int| 0 <= p < rows ==> (#[trigger] grid@[p])@.len() == cols,
            forall|p: int| 0 <= p < rows ==> (#[trigger] row_starts@[p])@.len() == row_clues@[
                p]@.len(),
            forall|p: int, q: int|
                0 <= p < rows && 0 <= q < (#[trigger] row_starts@[p])@.len() ==> ((
                #[trigger] row_starts@[p]@[q]) as int) < ctx.num_ints(),
            forall|p: int| 0 <= p < cols ==> (#[trigger] col_starts@[p])@.len() == col_clues@[
                p]@.len(),
            forall|p: int, q: int|
                0 <= p < cols && 0 <= q < (#[trigger] col_starts@[p])@.len() ==> ((
                #[trigger] col_starts@[p]@[q]) as int) < ctx.num_ints(),
            ctx.last_result() == Some(CheckResult::Sat),
            forall|p: int| 0 <= p < vr ==> crate::encoder::line_respects_clue(
                (#[trigger] grid@[p])@,
                row_clues@[p]@,
            ),
        decreases rows - vr,
    {
        let svals = match ctx.model_ints(&row_starts[vr], true) {
            Ok(v) => v,
            Err(_) => {
                return None;
            },
        };
        if !crate::encoder::check_line(&grid[vr], &svals, &row_clues[vr]) {
            return None;
        }
        vr += 1;
    }
    // Validate every column against its clue.
    let mut vc: usize = 0;
    while vc < cols
        invariant
            vc <= cols,
            ctx.wf(),
            rows == row_clues@.len(),
            cols == col_clues@.len(),
            grid@.len() == rows,
            col_starts@.len() == cols,
            1 <= cols,
            1 <= rows,
            total == rows * cols,
            total <= 0x7fff_ffff,
            cols <= total,
            rows <= total,
            forall|p: int| 0 <= p < rows ==> (#[trigger] grid@[p])@.len() == cols,
            forall|p: int| 0 <= p < cols ==> (#[trigger] col_starts@[p])@.len() == col_clues@[
                p]@.len(),
            forall|p: int, q: int|
                0 <= p < cols && 0 <= q < (#[trigger] col_starts@[p])@.len() ==> ((
                #[trigger] col_starts@[p]@[q]) as int) < ctx.num_ints(),
            ctx.last_result() == Some(CheckResult::Sat),
            forall|p: int| 0 <= p < rows ==> crate::encoder::line_respects_clue(
                (#[trigger] grid@[p])@,
                row_clues@[p]@,
            ),
            forall|p: int| 0 <= p < vc ==> crate::encoder::line_respects_clue(
                grid_column(grid_view(grid@), p),
                (#[trigger] col_clues@[p])@,
            ),
        decreases cols - vc,
    {
        let mut colv: Vec<bool> = Vec::new();
        let mut rr3: usize = 0;
        while rr3 < rows
            invariant
                rr3 <= rows,
                vc < cols,
                grid@.len() == rows,
                forall|p: int| 0 <= p < rows ==> (#[trigger] grid@[p])@.len() == cols,
                colv@.len() == rr3,
                forall|p: int| 0 <= p < rr3 ==> #[trigger] colv@[p] == grid@[p]@[vc as int],
            decreases rows - rr3,
        {
            colv.push(grid[rr3][vc]);
            rr3 += 1;
        }
        let svals = match ctx.model_ints(&col_starts[vc], true) {
            Ok(v) => v,
            Err(_) => {
                return None;
            },
        };
        if !crate::encoder::check_line(&colv, &svals, &col_clues[vc]) {
            return None;
        }
        proof {
            assert(colv@ =~= grid_column(grid_view(grid@), vc as int));
        }
        vc += 1;
    }
    Some(grid)
}

/// One restaurant option: cost per head and whether it serves vegan
/// food.
pub struct RestaurantInfo {
    pub cost: i64,
    pub vegan: bool,
}

/// One diner: vegan or not, with one preference score per restaurant.
pub struct PersonInfo {
    pub is_vegan: bool,
    pub ratings: Vec<i64>,
}

/// The outcome of the restaurant selection: the chosen index and the
/// group's total happiness there.
pub struct RestaurantChoice {
    pub index: usize,
    pub happiness: i64,
}

/// How happy one person is at restaurant `idx`: their rating, or zero
/// when they are vegan and the restaurant is not.
pub open spec fn person_happiness(p: PersonInfo, vegan: bool, idx: int) -> int {
    if p.is_vegan && !vegan {
        0
    } else {
        p.ratings@[idx] as int
    }
}

/// Total happiness of the first `k` people at restaurant `idx`.
pub open spec fn happiness_sum(people: Seq<PersonInfo>, vegan: bool, idx: int, k: int) -> int
    decreases k,
{
    if k <= 0 {
        0
    } else {
        happiness_sum(people, vegan, idx, k - 1) + person_happiness(people[k - 1], vegan, idx)
    }
}

/// Picks exactly one restaurant, maximizing the group's total
/// happiness, subject to the chosen restaurant's total cost fitting
/// the budget.  Any returned choice is validated: the index is in
/// range, the cost fits, and the reported happiness is exactly the
/// group's happiness there.  An empty answer covers both an engine
/// failure and a happiness sum overflowing 64 bits; the two are not
/// separable here without bounding the ratings.
pub fn choose_restaurant(
    budget: i64,
    restaurants: &Vec<RestaurantInfo>,
    people: &Vec<PersonInfo>,
) -> (r: Option<RestaurantChoice>)
    requires
        1 <= restaurants@.len() <= 0x7fff,
        people@.len() <= 0x7fff,
        forall|p: int| 0 <= p < people@.len() ==> (#[trigger] people@[p]).ratings@.len()
            == restaurants@.len(),
    ensures
        r matches Some(c) ==> c.index < restaurants@.len() && restaurants@[
            c.index as int].cost * people@.len() <= budget as int && c.happiness as int
            == happiness_sum(
            people@,
            restaurants@[c.index as int].vegan,
            c.index as int,
            people@.len() as int,
        ),
{
    let mut opt = OptContext::new();
    let n = restaurants.len();
    let np = people.len();
    let mut flags: Vec<usize> = Vec::new();
    let mut i: usize = 0;
    while i < n
        invariant
            i <= n,
            flags@.len() == i,
            opt.num_bools() == i as int,
            opt.num_ints() == 0,
            forall|p: int| 0 <= p < i ==> #[trigger] flags@[p] == p,
        decreases n - i,
    {
        let b = opt.declare_bool();
        flags.push(b);
        i += 1;
    }
    // Exactly one restaurant is chosen.
    let one_hot = BoolExpr::CountEq(crate::ast::clone_indices(&flags), 1);
    proof {
        assert(crate::ast::bwf(one_hot, opt.num_ints(), opt.num_bools())) by {
            assert(one_hot->CountEq_0@ == flags@);
        }
    }
    opt.assert_formula(one_hot);
    // Budget and happiness per restaurant.
    let mut objective = e_const(0);
    let mut j: usize = 0;
    while j < n
        invariant
            j <= n,
            n == restaurants@.len(),
            np == people@.len(),
            np <= 0x7fff,
            n <= 0x7fff,
            flags@.len() == n,
            opt.num_bools() == n as int,
            opt.num_ints() == 0,
            forall|p: int| 0 <= p < n ==> #[trigger] flags@[p] == p,
            forall|p: int| 0 <= p < people@.len() ==> (#[trigger] people@[p]).ratings@.len()
                == restaurants@.len(),
            forall|ni: int, nb: int| n as int <= nb ==> #[trigger] crate::ast::iwf(
                objective,
                ni,
                nb,
            ),
        decreases n - j,
    {
        // If chosen, the whole group's cost must fit the budget.
        let total_cost = restaurants[j].cost.checked_mul(np as i64);
        match total_cost {
            Some(tc) => {
                opt.assert_formula(
                    f_implies(f_var(flags[j]), f_le(e_const(tc), e_const(budget))),
                );
            },
            None => {
                // The cost does not even fit in 64 bits; rule the
                // restaurant out rather than overflow.
                opt.assert_formula(f_not(f_var(flags[j])));
            },
        }
        // The group's happiness at this restaurant, computed exactly.
        let mut h: i64 = 0;
        let mut p: usize = 0;
        while p < np
            invariant
                p <= np,
                j < n,
                n == restaurants@.len(),
                np == people@.len(),
                forall|q: int| 0 <= q < people@.len() ==> (#[trigger] people@[q]).ratings@.len()
                    == restaurants@.len(),
                h as int == happiness_sum(
                    people@,
                    restaurants@[j as int].vegan,
                    j as int,
                    p as int,
                ),
            decreases np - p,
        {
            let contribution: i64 = if people[p].is_vegan && !restaurants[j].vegan {
                0
            } else {
                people[p].ratings[j]
            };
            h = match h.checked_add(contribution) {
                Some(v) => v,
                None => {
                    return None;
                },
            };
            p += 1;
        }
        objective = e_add(objective, e_ite(f_var(flags[j]), e_const(h), e_const(0)));
        j += 1;
    }
    opt.maximize(objective);
    match opt.check() {
        CheckResult::Sat => {},
        _ => {
            return None;
        },
    }
    let chosen = match opt.model_bools(&flags, true) {
        Ok(v) => v,
        Err(_) => {
            return None;
        },
    };
    // Find the chosen restaurant.
    let mut idx: usize = 0;
    let mut found = false;
    let mut k: usize = 0;
    while k < n
        invariant
            k <= n,
            chosen@.len() == n,
            found ==> idx < n,
        decreases n - k,
    {
        if chosen[k] {
            idx = k;
            found = true;
        }
        k += 1;
    }
    if !found {
        return None;
    }
    // Validate the budget.
    if mul_wide(restaurants[idx].cost, np as i64) > (budget as i128) {
        return None;
    }
    // Recompute the happiness at the chosen restaurant.
    let mut h: i64 = 0;
    let mut p2: usize = 0;
    while p2 < np
        invariant
            p2 <= np,
            idx < n,
            n == restaurants@.len(),
            np == people@.len(),
            forall|q: int| 0 <= q < people@.len() ==> (#[trigger] people@[q]).ratings@.len()
                == restaurants@.len(),
            h as int == happiness_sum(
                people@,
                restaurants@[idx as int].vegan,
                idx as int,
                p2 as int,
            ),
        decreases np - p2,
    {
        let contribution: i64 = if people[p2].is_vegan && !restaurants[idx].vegan {
            0
        } else {
            people[p2].ratings[idx]
        };
        h = match h.checked_add(contribution) {
            Some(v) => v,
            None => {
                return None;
            },
        };
        p2 += 1;
    }
    proof {
        assert((np as i64) as int == np as int);
    }
    Some(RestaurantChoice { index: idx, happiness: h })
}

/// One nanobot: its position and signal radius.
pub struct Nanobot {
    pub x: i64,
    pub y: i64,
    pub z: i64,
    pub r: i64,
}

/// A beacon placement and how many nanobots reach it.
pub struct BeaconPlacement {
    pub x: i64,
    pub y: i64,
    pub z: i64,
    pub in_range: usize,
}

/// Absolute value.
pub open spec fn abs_int(v: int) -> int {
    if v < 0 {
        -v
    } else {
        v
    }
}

/// Whether the bot's signal reaches the point, in Manhattan distance.
pub open spec fn bot_reaches(b: Nanobot, x: int, y: int, z: int) -> bool {
    abs_int(x - b.x) + abs_int(y - b.y) + abs_int(z - b.z) <= b.r
}

/// Number of the first `k` bots whose signal reaches the point.
pub open spec fn reach_count(bots: Seq<Nanobot>, x: int, y: int, z: int, k: int) -> int
    decreases k,
{
    if k <= 0 {
        0
    } else {
        reach_count(bots, x, y, z, k - 1) + if bot_reaches(bots[k - 1], x, y, z) {
            1int
        } else {
            0int
        }
    }
}

/// Places a beacon so that, softly, as many nanobots as possible reach
/// it (weight one per bot), with the distance to the origin minimized
/// as a secondary objective.  The returned count is exactly the number
/// of bots that reach the returned point; maximality remains the
/// engine's promise.
pub fn place_beacon(bots: &Vec<Nanobot>) -> (r: Option<BeaconPlacement>)
    ensures
        r matches Some(p) ==> p.in_range as int == reach_count(
            bots@,
            p.x as int,
            p.y as int,
            p.z as int,
            bots@.len() as int,
        ),
{
    let mut opt = OptContext::new();
    let tx = opt.declare_int();
    let ty = opt.declare_int();
    let tz = opt.declare_int();
    let n = bots.len();
    let mut i: usize = 0;
    while i < n
        invariant
            i <= n,
            n == bots@.len(),
            opt.num_ints() == 3,
            opt.num_bools() == 0,
            tx as int == 0 && ty as int == 1 && tz as int == 2,
        decreases n - i,
    {
        let b = &bots[i];
        let d = e_add(e_add(distance(tx, b.x), distance(ty, b.y)), distance(tz, b.z));
        opt.assert_soft(f_le(d, e_const(b.r)), 1, None);
        i += 1;
    }
    let origin_dist = e_add(
        e_add(distance(tx, 0), distance(ty, 0)),
        distance(tz, 0),
    );
    opt.minimize(origin_dist);
    match opt.check() {
        CheckResult::Sat => {},
        _ => {
            return None;
        },
    }
    let vars = vec![tx, ty, tz];
    let vals = match opt.model_ints(&vars, true) {
        Ok(v) => v,
        Err(_) => {
            return None;
        },
    };
    let px = vals[0];
    let py = vals[1];
    let pz = vals[2];
    // Count exactly how many bots reach the chosen point.
    let mut count: usize = 0;
    let mut k: usize = 0;
    while k < n
        invariant
            k <= n,
            n == bots@.len(),
            count <= k,
            count as int == reach_count(bots@, px as int, py as int, pz as int, k as int),
        decreases n - k,
    {
        let b = &bots[k];
        let dx = (px as i128) - (b.x as i128);
        let adx: i128 = if dx < 0 {
            -dx
        } else {
            dx
        };
        let dy = (py as i128) - (b.y as i128);
        let ady: i128 = if dy < 0 {
            -dy
        } else {
            dy
        };
        let dz = (pz as i128) - (b.z as i128);
        let adz: i128 = if dz < 0 {
            -dz
        } else {
            dz
        };
        if adx + ady + adz <= (b.r as i128) {
            count += 1;
        }
        k += 1;
    }
    Some(BeaconPlacement { x: px, y: py, z: pz, in_range: count })
}

} // verus!
