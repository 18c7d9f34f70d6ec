//! Depth-first backtracking search driver.
//!
//! The driver assigns a finite ordered domain value to each decision
//! variable in turn, using the context's scope stack as its only undo
//! mechanism: one pushed, accepted scope per committed variable, so the
//! stack depth always equals the current index.  Failed branches are
//! absorbed silently; only total exhaustion is reported.  A step bound
//! caps the number of iterations, mirroring the resource bound of the
//! engine's own checks.

use vstd::prelude::*;
use crate::ast::{Assignment, BoolExpr, IntExpr, all_hold, beval};
use crate::context::{SolverContext, SolverError, TrackerInfo, flat};
use crate::engine::CheckResult;
use crate::enumerate::tuple_matches;

verus! {

/// Result of a depth-first search.
pub enum SearchOutcome {
    /// Every variable got a domain value; the committed scopes are
    /// still live on the context's stack.
    Found(Vec<i64>),
    /// The whole tree was explored and no assignment satisfies the
    /// formula; the stack is back to where the search started.
    Exhausted,
    /// The step bound ran out; the stack is back to where the search
    /// started.
    OutOfSteps,
}

/// An undirected graph given by its node count and edge list.
pub struct Graph {
    pub num_nodes: usize,
    pub edges: Vec<(usize, usize)>,
}

/// The edges of the Petersen graph: an outer 5-cycle, five spokes, and
/// the inner 5-cycle connecting every second inner node.
pub open spec fn petersen_edges() -> Seq<(usize, usize)> {
    seq![
        (0usize, 1usize),
        (1usize, 2usize),
        (2usize, 3usize),
        (3usize, 4usize),
        (4usize, 0usize),
        (0usize, 5usize),
        (1usize, 6usize),
        (2usize, 7usize),
        (3usize, 8usize),
        (4usize, 9usize),
        (5usize, 7usize),
        (7usize, 9usize),
        (9usize, 6usize),
        (6usize, 8usize),
        (8usize, 5usize),
    ]
}

impl Graph {
    /// The 10-node Petersen graph.
    pub fn new_petersen() -> (g: Graph)
        ensures
            g.num_nodes == 10,
            g.edges@ == petersen_edges(),
            forall|i: int| 0 <= i < g.edges@.len() ==> (#[trigger] g.edges@[i]).0 < g.num_nodes
                && g.edges@[i].1 < g.num_nodes,
    {
        let edges: Vec<(usize, usize)> = vec![
            (0, 1),
            (1, 2),
            (2, 3),
            (3, 4),
            (4, 0),
            (0, 5),
            (1, 6),
            (2, 7),
            (3, 8),
            (4, 9),
            (5, 7),
            (7, 9),
            (9, 6),
            (6, 8),
            (8, 5),
        ];
        let g = Graph { num_nodes: 10, edges };
        proof {
            assert(g.edges@ =~= petersen_edges());
        }
        g
    }
}

/// The decision variables of a graph-coloring problem: one integer
/// variable per node of the graph.
pub struct RegionMap {
    pub graph: Graph,
    pub regions: Vec<usize>,
}

/// A proper coloring: every node's color lies in `[lo, hi]` and the two
/// ends of every edge differ.
pub open spec fn coloring_ok(
    regions: Seq<usize>,
    edges: Seq<(usize, usize)>,
    lo: int,
    hi: int,
    a: Assignment,
) -> bool {
    &&& forall|i: int|
        0 <= i < regions.len() ==> lo <= a.ints[#[trigger] regions[i] as int] <= hi
    &&& forall|e: int|
        0 <= e < edges.len() ==> a.ints[regions[(#[trigger] edges[e]).0 as int] as int]
            != a.ints[regions[edges[e].1 as int] as int]
}

impl RegionMap {
    /// Declares one color variable per node of the graph.
    pub fn new(ctx: &mut SolverContext, graph: Graph) -> (m: RegionMap)
        requires
            old(ctx).wf(),
        ensures
            final(ctx).wf(),
            m.graph == graph,
            m.regions@.len() == graph.num_nodes,
            final(ctx).num_ints() == old(ctx).num_ints() + graph.num_nodes,
            forall|i: int| 0 <= i < m.regions@.len() ==> (#[trigger] m.regions@[i] as int)
                == old(ctx).num_ints() + i,
            forall|i: int| 0 <= i < m.regions@.len() ==> (#[trigger] m.regions@[i] as int)
                < final(ctx).num_ints(),
            final(ctx).num_bools() == old(ctx).num_bools(),
            final(ctx).frames_view() == old(ctx).frames_view(),
            final(ctx).trackers() == old(ctx).trackers(),
            final(ctx).depth() == old(ctx).depth(),
    {
        let mut regions: Vec<usize> = Vec::new();
        let n = graph.num_nodes;
        let mut i: usize = 0;
        while i < n
            invariant
                ctx.wf(),
                i <= n,
                regions@.len() == i,
                ctx.num_ints() == old(ctx).num_ints() + i,
                forall|p: int| 0 <= p < i ==> (#[trigger] regions@[p] as int) == old(
                    ctx,
                ).num_ints() + p,
                ctx.num_bools() == old(ctx).num_bools(),
                ctx.frames_view() == old(ctx).frames_view(),
                ctx.trackers() == old(ctx).trackers(),
            decreases n - i,
        {
            let v = ctx.declare_int();
            regions.push(v);
            i += 1;
        }
        RegionMap { graph, regions }
    }

    /// Asserts the base coloring constraints: every node's color in
    /// `[lo, hi]`, and different colors across every edge.
    pub fn init_constraints(&self, ctx: &mut SolverContext, lo: i64, hi: i64)
        requires
            old(ctx).wf(),
            forall|i: int| 0 <= i < self.regions@.len() ==> (#[trigger] self.regions@[i] as int)
                < old(ctx).num_ints(),
            forall|e: int| 0 <= e < self.graph.edges@.len() ==> (
            #[trigger] self.graph.edges@[e]).0 < self.regions@.len() && self.graph.edges@[e].1
                < self.regions@.len(),
        ensures
            final(ctx).wf(),
            final(ctx).num_ints() == old(ctx).num_ints(),
            final(ctx).num_bools() == old(ctx).num_bools(),
            final(ctx).depth() == old(ctx).depth(),
            final(ctx).trackers() == old(ctx).trackers(),
            forall|a: Assignment| #[trigger] all_hold(final(ctx).formula(), a) <==> all_hold(
                old(ctx).formula(),
                a,
            ) && coloring_ok(
                self.regions@,
                self.graph.edges@,
                lo as int,
                hi as int,
                a,
            ),
    {
        let mut fs: Vec<BoolExpr> = Vec::new();
        let mut i: usize = 0;
        while i < self.regions.len()
            invariant
                i <= self.regions@.len(),
                forall|p: int| 0 <= p < self.regions@.len() ==> (
                #[trigger] self.regions@[p] as int) < old(ctx).num_ints(),
                forall|a: Assignment| #[trigger] all_hold(fs@, a) <==> (forall|p: int|
                    0 <= p < i ==> lo as int <= a.ints[#[trigger] self.regions@[p] as int]
                        <= hi as int),
                forall|ni: int, nb: int| old(ctx).num_ints() <= ni
                    ==> #[trigger] crate::ast::all_wf(fs@, ni, nb),
            decreases self.regions@.len() - i,
        {
            let v = self.regions[i];
            let lob = BoolExpr::Le(Box::new(IntExpr::Const(lo)), Box::new(IntExpr::Var(v)));
            let hib = BoolExpr::Le(Box::new(IntExpr::Var(v)), Box::new(IntExpr::Const(hi)));
            proof {
                assert forall|a: Assignment| (#[trigger] beval(lob, a) <==> lo as int <= a.ints[
                    self.regions@[i as int] as int]) && (beval(hib, a) <==> a.ints[self.regions@[
                    i as int] as int] <= hi as int) by {
                    assert(crate::ast::ieval(*lob->Le_0, a) == lo as int);
                    assert(crate::ast::ieval(*lob->Le_1, a) == a.ints[self.regions@[
                        i as int] as int]);
                    assert(crate::ast::ieval(*hib->Le_0, a) == a.ints[self.regions@[
                        i as int] as int]);
                    assert(crate::ast::ieval(*hib->Le_1, a) == hi as int);
                }
                assert forall|ni: int, nb: int| (self.regions@[i as int] as int) < ni
                    implies #[trigger] crate::ast::bwf(lob, ni, nb) && crate::ast::bwf(
                    hib,
                    ni,
                    nb,
                ) by {
                    assert(crate::ast::iwf(*lob->Le_0, ni, nb));
                    assert(crate::ast::iwf(*lob->Le_1, ni, nb));
                    assert(crate::ast::iwf(*hib->Le_0, ni, nb));
                    assert(crate::ast::iwf(*hib->Le_1, ni, nb));
                }
            }
            let ghost fs0 = fs@;
            fs.push(lob);
            fs.push(hib);
            proof {
                assert forall|a: Assignment| #[trigger] all_hold(fs@, a) <==> (forall|p: int|
                    0 <= p < i + 1 ==> lo as int <= a.ints[#[trigger] self.regions@[p] as int]
                        <= hi as int) by {
                    crate::encoder::lemma_all_hold_push(fs0, lob, a);
                    crate::encoder::lemma_all_hold_push(fs0.push(lob), hib, a);
                }
                assert forall|ni: int, nb: int| old(ctx).num_ints() <= ni
                    implies #[trigger] crate::ast::all_wf(fs@, ni, nb) by {
                    crate::encoder::lemma_all_wf_push(fs0, lob, ni, nb);
                    crate::encoder::lemma_all_wf_push(fs0.push(lob), hib, ni, nb);
                }
            }
            i += 1;
        }
        let mut e: usize = 0;
        while e < self.graph.edges.len()
            invariant
                e <= self.graph.edges@.len(),
                forall|p: int| 0 <= p < self.regions@.len() ==> (
                #[trigger] self.regions@[p] as int) < old(ctx).num_ints(),
                forall|q: int| 0 <= q < self.graph.edges@.len() ==> (
                #[trigger] self.graph.edges@[q]).0 < self.regions@.len()
                    && self.graph.edges@[q].1 < self.regions@.len(),
                forall|a: Assignment| #[trigger] all_hold(fs@, a) <==> (forall|p: int|
                    0 <= p < self.regions@.len() ==> lo as int <= a.ints[
                        #[trigger] self.regions@[p] as int] <= hi as int) && (forall|q: int|
                    0 <= q < e ==> a.ints[self.regions@[(
                    #[trigger] self.graph.edges@[q]).0 as int] as int] != a.ints[self.regions@[
                        self.graph.edges@[q].1 as int] as int]),
                forall|ni: int, nb: int| old(ctx).num_ints() <= ni
                    ==> #[trigger] crate::ast::all_wf(fs@, ni, nb),
            decreases self.graph.edges@.len() - e,
        {
            let (u, w) = self.graph.edges[e];
            let ne = BoolExpr::Not(
                Box::new(
                    BoolExpr::IntEq(
                        Box::new(IntExpr::Var(self.regions[u])),
                        Box::new(IntExpr::Var(self.regions[w])),
                    ),
                ),
            );
            proof {
                let eq = *ne->Not_0;
                assert forall|a: Assignment| #[trigger] beval(ne, a) <==> a.ints[self.regions@[
                    self.graph.edges@[e as int].0 as int] as int] != a.ints[self.regions@[
                    self.graph.edges@[e as int].1 as int] as int] by {
                    assert(crate::ast::ieval(*eq->IntEq_0, a) == a.ints[self.regions@[
                        self.graph.edges@[e as int].0 as int] as int]);
                    assert(crate::ast::ieval(*eq->IntEq_1, a) == a.ints[self.regions@[
                        self.graph.edges@[e as int].1 as int] as int]);
                    assert(beval(ne, a) == !beval(eq, a));
                }
                assert forall|ni: int, nb: int| old(ctx).num_ints() <= ni
                    implies #[trigger] crate::ast::bwf(ne, ni, nb) by {
                    assert(crate::ast::iwf(*eq->IntEq_0, ni, nb));
                    assert(crate::ast::iwf(*eq->IntEq_1, ni, nb));
                    assert(crate::ast::bwf(eq, ni, nb));
                }
            }
            let ghost fs1 = fs@;
            fs.push(ne);
            proof {
                assert forall|a: Assignment| #[trigger] all_hold(fs@, a) <==> (forall|p: int|
                    0 <= p < self.regions@.len() ==> lo as int <= a.ints[
                        #[trigger] self.regions@[p] as int] <= hi as int) && (forall|q: int|
                    0 <= q < e + 1 ==> a.ints[self.regions@[(
                    #[trigger] self.graph.edges@[q]).0 as int] as int] != a.ints[self.regions@[
                        self.graph.edges@[q].1 as int] as int]) by {
                    crate::encoder::lemma_all_hold_push(fs1, ne, a);
                }
                assert forall|ni: int, nb: int| old(ctx).num_ints() <= ni
                    implies #[trigger] crate::ast::all_wf(fs@, ni, nb) by {
                    crate::encoder::lemma_all_wf_push(fs1, ne, ni, nb);
                }
            }
            e += 1;
        }
        let ghost before = *ctx;
        crate::encoder::assert_all(ctx, fs);
        proof {
            assert forall|a: Assignment| #[trigger] all_hold(ctx.formula(), a) <==> all_hold(
                old(ctx).formula(),
                a,
            ) && coloring_ok(self.regions@, self.graph.edges@, lo as int, hi as int, a) by {
                crate::encoder::lemma_all_hold_concat(before.formula(), fs@, a);
            }
        }
    }
}

/// A sequence of one-formula frames, one per committed search level.
pub open spec fn singleton_frames(fs: Seq<BoolExpr>) -> Seq<Seq<BoolExpr>> {
    Seq::new(fs.len(), |l: int| seq![fs[l]])
}

/// Flattening one-formula frames yields exactly the formulas.
pub proof fn lemma_flat_singleton_frames(fs: Seq<BoolExpr>)
    ensures
        flat(singleton_frames(fs)) == fs,
    decreases fs.len(),
{
    if fs.len() == 0 {
        assert(flat(singleton_frames(fs)) =~= fs);
    } else {
        assert(singleton_frames(fs).drop_last() =~= singleton_frames(fs.drop_last()));
        lemma_flat_singleton_frames(fs.drop_last());
        assert(singleton_frames(fs).last() =~= seq![fs.last()]);
        assert(flat(singleton_frames(fs)) =~= fs.drop_last() + seq![fs.last()]);
        assert(fs.drop_last() + seq![fs.last()] =~= fs);
    }
}

/// Flattening distributes over frame-stack concatenation.
pub proof fn lemma_flat_concat(v: Seq<Seq<BoolExpr>>, w: Seq<Seq<BoolExpr>>)
    ensures
        flat(v + w) == flat(v) + flat(w),
    decreases w.len(),
{
    if w.len() == 0 {
        assert(v + w =~= v);
        assert(flat(v) + flat(w) =~= flat(v));
    } else {
        assert((v + w).drop_last() =~= v + w.drop_last());
        lemma_flat_concat(v, w.drop_last());
        assert((v + w).last() == w.last());
        assert(flat(v) + flat(w.drop_last()) + w.last() =~= flat(v) + (flat(w.drop_last())
            + w.last()));
    }
}

/// Depth-first backtracking assignment search.  Tries the domain values
/// in increasing order for each variable in turn, committing a pushed
/// scope per accepted value and popping it to undo; chronological
/// backtracking is the entire undo mechanism.  Stops after `step_limit`
/// iterations of the outer loop.
pub fn solve_dfs(
    ctx: &mut SolverContext,
    vars: &Vec<usize>,
    domain: &Vec<i64>,
    step_limit: u64,
) -> (r: SearchOutcome)
    requires
        old(ctx).wf(),
        vars@.len() >= 1,
        forall|i: int| 0 <= i < vars@.len() ==> (#[trigger] vars@[i] as int) < old(
            ctx,
        ).num_ints(),
    ensures
        final(ctx).wf(),
        final(ctx).num_ints() == old(ctx).num_ints(),
        final(ctx).num_bools() == old(ctx).num_bools(),
        final(ctx).trackers() == old(ctx).trackers(),
        r matches SearchOutcome::Found(vals) ==> vals@.len() == vars@.len(),
        r matches SearchOutcome::Found(vals) ==> (forall|j: int|
            0 <= j < vals@.len() ==> domain@.contains(#[trigger] vals@[j])),
        r matches SearchOutcome::Found(vals) ==> final(ctx).depth() == old(ctx).depth()
            + vars@.len(),
        r matches SearchOutcome::Found(vals) ==> final(ctx).last_result() == Some(
            CheckResult::Sat,
        ),
        r matches SearchOutcome::Found(vals) ==> (forall|a: Assignment|
            #[trigger] all_hold(final(ctx).formula(), a) <==> all_hold(old(ctx).formula(), a)
                && tuple_matches(vars@, vals@, a)),
        r is Exhausted ==> final(ctx).frames_view() == old(ctx).frames_view(),
        r is OutOfSteps ==> final(ctx).frames_view() == old(ctx).frames_view(),
{
    let k = vars.len();
    let d = domain.len();
    if d == 0 {
        return SearchOutcome::Exhausted;
    }
    let mut att: Vec<usize> = Vec::new();
    let mut i: usize = 0;
    while i < k
        invariant
            i <= k,
            att@.len() == i,
        decreases k - i,
    {
        att.push(0);
        i += 1;
    }
    let mut committed: Vec<i64> = Vec::new();
    let ghost mut fs_stack: Seq<BoolExpr> = Seq::empty();
    let mut idx: usize = 0;
    let mut steps: u64 = 0;
    proof {
        assert(ctx.frames_view() =~= old(ctx).frames_view() + singleton_frames(fs_stack));
    }
    while steps < step_limit
        invariant
            ctx.wf(),
            old(ctx).wf(),
            k == vars@.len(),
            d == domain@.len(),
            1 <= k,
            1 <= d,
            idx <= k,
            att@.len() == k,
            committed@.len() == idx,
            fs_stack.len() == idx,
            steps <= step_limit,
            ctx.num_ints() == old(ctx).num_ints(),
            ctx.num_bools() == old(ctx).num_bools(),
            ctx.trackers() == old(ctx).trackers(),
            forall|j: int| 0 <= j < vars@.len() ==> (#[trigger] vars@[j] as int)
                < ctx.num_ints(),
            forall|j: int| 0 <= j < idx ==> domain@.contains(#[trigger] committed@[j]),
            ctx.frames_view() == old(ctx).frames_view() + singleton_frames(fs_stack),
            forall|l: int, a: Assignment|
                0 <= l < idx ==> (#[trigger] beval(fs_stack[l], a) <==> a.ints[vars@[
                    l] as int] == committed@[l] as int),
            idx == k ==> ctx.last_result() == Some(CheckResult::Sat),
        decreases step_limit - steps,
    {
        steps += 1;
        if idx == k {
            proof {
                lemma_found_formula(old(ctx).frames_view(), fs_stack, vars@, committed@);
            }
            return SearchOutcome::Found(committed);
        }
        let t = att[idx];
        if t < d {
            att.set(idx, t + 1);
            ctx.push();
            let f = BoolExpr::IntEq(
                Box::new(IntExpr::Var(vars[idx])),
                Box::new(IntExpr::Const(domain[t])),
            );
            proof {
                assert forall|a: Assignment| #[trigger] beval(f, a) <==> a.ints[vars@[
                    idx as int] as int] == domain@[t as int] as int by {
                    assert(crate::ast::ieval(*f->IntEq_0, a) == a.ints[vars@[
                        idx as int] as int]);
                    assert(crate::ast::ieval(*f->IntEq_1, a) == domain@[t as int] as int);
                }
                assert(crate::ast::bwf(f, ctx.num_ints(), ctx.num_bools())) by {
                    assert(crate::ast::iwf(*f->IntEq_0, ctx.num_ints(), ctx.num_bools()));
                    assert(crate::ast::iwf(*f->IntEq_1, ctx.num_ints(), ctx.num_bools()));
                }
            }
            let ghost gf = f;
            ctx.assert_formula(f);
            proof {
                assert(ctx.frames_view() =~= old(ctx).frames_view() + singleton_frames(
                    fs_stack.push(gf),
                ));
            }
            let rc = ctx.check();
            if rc == CheckResult::Sat {
                committed.push(domain[t]);
                proof {
                    fs_stack = fs_stack.push(gf);
                    assert(domain@.contains(domain@[t as int]));
                }
                idx += 1;
            } else {
                proof {
                    old(ctx).lemma_wf_base_frame();
                    old(ctx).lemma_wf_trackers();
                    assert(ctx.depth() >= 1);
                }
                let popped = ctx.pop(1);
                proof {
                    assert(popped == Ok::<(), SolverError>(()));
                    assert(ctx.frames_view() =~= old(ctx).frames_view() + singleton_frames(
                        fs_stack,
                    ));
                }
            }
        } else {
            att.set(idx, 0);
            if idx == 0 {
                proof {
                    assert(ctx.frames_view() =~= old(ctx).frames_view());
                }
                return SearchOutcome::Exhausted;
            }
            proof {
                old(ctx).lemma_wf_base_frame();
                old(ctx).lemma_wf_trackers();
                assert(ctx.depth() >= 1);
            }
            let popped = ctx.pop(1);
            committed.pop();
            proof {
                assert(popped == Ok::<(), SolverError>(()));
                fs_stack = fs_stack.drop_last();
                assert(ctx.frames_view() =~= old(ctx).frames_view() + singleton_frames(
                    fs_stack,
                ));
            }
            idx -= 1;
        }
    }
    proof {
        old(ctx).lemma_wf_base_frame();
        old(ctx).lemma_wf_trackers();
        assert(idx <= ctx.depth());
    }
    let unwound = ctx.pop(idx);
    proof {
        assert(unwound == Ok::<(), SolverError>(()));
        assert(ctx.frames_view() =~= old(ctx).frames_view());
    }
    SearchOutcome::OutOfSteps
}

/// After `k` accepted levels, the live formula is the starting formula
/// plus one pinning equality per variable, so an assignment satisfies
/// it exactly when it satisfies the start and matches the commitments.
proof fn lemma_found_formula(
    base: Seq<Seq<BoolExpr>>,
    fs_stack: Seq<BoolExpr>,
    vars: Seq<usize>,
    vals: Seq<i64>,
)
    requires
        fs_stack.len() == vars.len(),
        vals.len() == vars.len(),
        forall|l: int, a: Assignment|
            0 <= l < fs_stack.len() ==> (#[trigger] beval(fs_stack[l], a) <==> a.ints[vars[
                l] as int] == vals[l] as int),
    ensures
        forall|a: Assignment|
            #[trigger] all_hold(flat(base + singleton_frames(fs_stack)), a) <==> all_hold(
                flat(base),
                a,
            ) && tuple_matches(vars, vals, a),
{
    lemma_flat_concat(base, singleton_frames(fs_stack));
    lemma_flat_singleton_frames(fs_stack);
    assert forall|a: Assignment|
        #[trigger] all_hold(flat(base + singleton_frames(fs_stack)), a) <==> all_hold(
            flat(base),
            a,
        ) && tuple_matches(vars, vals, a) by {
        crate::encoder::lemma_all_hold_concat(flat(base), fs_stack, a);
        assert(all_hold(fs_stack, a) <==> tuple_matches(vars, vals, a)) by {
            if all_hold(fs_stack, a) {
                assert forall|i: int| 0 <= i < vars.len() implies a.ints[
                    #[trigger] vars[i] as int] == vals[i] as int by {
                    assert(beval(fs_stack[i], a));
                }
            }
            if tuple_matches(vars, vals, a) {
                assert forall|i: int| 0 <= i < fs_stack.len() implies beval(
                    #[trigger] fs_stack[i],
                    a,
                ) by {
                    assert(a.ints[vars[i] as int] == vals[i] as int);
                }
            }
        }
    }
}

/// Solves a graph-coloring instance end to end: declares the color
/// variables, asserts the base constraints, and runs the search driver
/// with colors `1..=num_colors`.  Any returned coloring is validated in
/// place: it is proper and within range, whatever the engine did.
pub fn solve_coloring(graph: Graph, num_colors: i64, step_limit: u64) -> (r: Option<Vec<i64>>)
    requires
        1 <= num_colors <= 0x7fff_ffff,
        graph.num_nodes >= 1,
        forall|e: int| 0 <= e < graph.edges@.len() ==> (#[trigger] graph.edges@[e]).0
            < graph.num_nodes && graph.edges@[e].1 < graph.num_nodes,
    ensures
        r matches Some(colors) ==> colors@.len() == graph.num_nodes && (forall|j: int|
            0 <= j < colors@.len() ==> 1 <= #[trigger] colors@[j] <= num_colors) && (forall|
            e: int,
        |
            0 <= e < graph.edges@.len() ==> colors@[(#[trigger] graph.edges@[e]).0 as int]
                != colors@[graph.edges@[e].1 as int]),
{
    let mut ctx = SolverContext::new();
    let region_map = RegionMap::new(&mut ctx, graph);
    let graph = &region_map.graph;
    region_map.init_constraints(&mut ctx, 1, num_colors);
    let mut domain: Vec<i64> = Vec::new();
    let mut c: i64 = 1;
    while c <= num_colors
        invariant
            1 <= c <= num_colors + 1,
            num_colors <= 0x7fff_ffff,
            domain@.len() == c - 1,
        decreases num_colors + 1 - c,
    {
        domain.push(c);
        c += 1;
    }
    let outcome = solve_dfs(&mut ctx, &region_map.regions, &domain, step_limit);
    let colors = match outcome {
        SearchOutcome::Found(vals) => vals,
        SearchOutcome::Exhausted => {
            return None;
        },
        SearchOutcome::OutOfSteps => {
            return None;
        },
    };
    // Validate the engine-driven result against the puzzle itself.
    let n = colors.len();
    let mut j: usize = 0;
    while j < n
        invariant
            n == colors@.len(),
            j <= n,
            forall|p: int| 0 <= p < j ==> 1 <= #[trigger] colors@[p] <= num_colors,
        decreases n - j,
    {
        if colors[j] < 1 || colors[j] > num_colors {
            return None;
        }
        j += 1;
    }
    let mut e: usize = 0;
    while e < graph.edges.len()
        invariant
            n == colors@.len(),
            n == graph.num_nodes,
            forall|q: int| 0 <= q < graph.edges@.len() ==> (#[trigger] graph.edges@[q]).0
                < graph.num_nodes && graph.edges@[q].1 < graph.num_nodes,
            e <= graph.edges@.len(),
            forall|q: int| 0 <= q < e ==> colors@[(#[trigger] graph.edges@[q]).0 as int]
                != colors@[graph.edges@[q].1 as int],
        decreases graph.edges@.len() - e,
    {
        let (u, w) = graph.edges[e];
        if colors[u] == colors[w] {
            return None;
        }
        e += 1;
    }
    Some(colors)
}

} // verus!
