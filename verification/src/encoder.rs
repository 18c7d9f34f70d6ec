//! Run-length line encoder: translates a one-dimensional clue (ordered
//! block lengths) over a sequence of boolean cell variables into
//! primitive constraints, via one auxiliary integer start variable per
//! block.
//!
//! The encoding is characterized exactly: an assignment satisfies the
//! generated formulas if and only if the block starts form a valid
//! placement and every cell is true exactly where some block covers it
//! (an empty clue forces every cell false).

use vstd::prelude::*;
use crate::ast::{Assignment, BoolExpr, IntExpr, all_hold, beval, bwf};
use crate::context::SolverContext;

verus! {

/// Integer values taken by the given start variables under `a`.
pub open spec fn start_vals(starts: Seq<usize>, a: Assignment) -> Seq<int> {
    Seq::new(starts.len(), |i: int| a.ints[starts[i] as int])
}

/// Truth values taken by the given cell variables under `a`.
pub open spec fn cell_vals(cells: Seq<usize>, a: Assignment) -> Seq<bool> {
    Seq::new(cells.len(), |j: int| a.bools[cells[j] as int])
}

/// Mathematical values of the block lengths.
pub open spec fn len_vals(lens: Seq<i64>) -> Seq<int> {
    Seq::new(lens.len(), |i: int| lens[i] as int)
}

/// The first `k` blocks lie inside the line and keep forward order with
/// at least one free cell between consecutive blocks.
pub open spec fn placement_ok_upto(starts: Seq<int>, lens: Seq<int>, n: int, k: int) -> bool {
    &&& forall|i: int| 0 <= i < k ==> 0 <= #[trigger] starts[i] && starts[i] + lens[i] <= n
    &&& forall|i: int| 1 <= i < k ==> starts[i - 1] + lens[i - 1] + 1 <= #[trigger] starts[i]
}

/// A complete valid placement of all blocks on a line of length `n`.
pub open spec fn placement_ok(starts: Seq<int>, lens: Seq<int>, n: int) -> bool {
    starts.len() == lens.len() && placement_ok_upto(starts, lens, n, starts.len() as int)
}

/// Cell `j` lies inside one of the first `k` blocks.
pub open spec fn covers_upto(starts: Seq<int>, lens: Seq<int>, j: int, k: int) -> bool {
    exists|i: int| 0 <= i < k && #[trigger] starts[i] <= j && j < starts[i] + lens[i]
}

/// Cell `j` lies inside some block.
pub open spec fn covers(starts: Seq<int>, lens: Seq<int>, j: int) -> bool {
    covers_upto(starts, lens, j, starts.len() as int)
}

/// What the encoding of a line means: either the clue is empty and all
/// cells are false, or the starts form a valid placement and each cell
/// is true exactly where some block covers it.
pub open spec fn line_encoding_holds(
    cells: Seq<usize>,
    starts: Seq<usize>,
    lens: Seq<i64>,
    a: Assignment,
) -> bool {
    if lens.len() == 0 {
        forall|j: int| 0 <= j < cells.len() ==> !(#[trigger] cell_vals(cells, a)[j])
    } else {
        &&& placement_ok(start_vals(starts, a), len_vals(lens), cells.len() as int)
        &&& forall|j: int|
            0 <= j < cells.len() ==> #[trigger] cell_vals(cells, a)[j] == covers(
                start_vals(starts, a),
                len_vals(lens),
                j,
            )
    }
}

/// Extending a formula list by one formula conjoins its meaning.
pub proof fn lemma_all_hold_push(fs: Seq<BoolExpr>, f: BoolExpr, a: Assignment)
    ensures
        all_hold(fs.push(f), a) <==> all_hold(fs, a) && beval(f, a),
{
    if all_hold(fs, a) && beval(f, a) {
        assert forall|i: int| 0 <= i < fs.push(f).len() implies beval(
            #[trigger] fs.push(f)[i],
            a,
        ) by {
            if i < fs.len() {
                assert(fs.push(f)[i] == fs[i]);
            } else {
                assert(fs.push(f)[i] == f);
            }
        }
    }
    if all_hold(fs.push(f), a) {
        assert forall|i: int| 0 <= i < fs.len() implies beval(#[trigger] fs[i], a) by {
            assert(fs.push(f)[i] == fs[i]);
        }
        assert(beval(f, a)) by {
            assert(fs.push(f)[fs.len() as int] == f);
        }
    }
}

/// Extending a formula list by one formula conjoins well-formedness.
pub proof fn lemma_all_wf_push(fs: Seq<BoolExpr>, f: BoolExpr, ni: int, nb: int)
    ensures
        crate::ast::all_wf(fs.push(f), ni, nb) <==> crate::ast::all_wf(fs, ni, nb) && bwf(
            f,
            ni,
            nb,
        ),
{
    if crate::ast::all_wf(fs, ni, nb) && bwf(f, ni, nb) {
        assert forall|i: int| 0 <= i < fs.push(f).len() implies bwf(
            #[trigger] fs.push(f)[i],
            ni,
            nb,
        ) by {
            if i < fs.len() {
                assert(fs.push(f)[i] == fs[i]);
            } else {
                assert(fs.push(f)[i] == f);
            }
        }
    }
    if crate::ast::all_wf(fs.push(f), ni, nb) {
        assert forall|i: int| 0 <= i < fs.len() implies bwf(#[trigger] fs[i], ni, nb) by {
            assert(fs.push(f)[i] == fs[i]);
        }
        assert(bwf(f, ni, nb)) by {
            assert(fs.push(f)[fs.len() as int] == f);
        }
    }
}

/// The constraint that block `i` (start variable `s`, length `l`)
/// covers cell `j`: `s <= j < s + l`.
fn block_cover_expr(s: usize, l: i64, j: i64) -> (r: BoolExpr)
    ensures
        forall|a: Assignment| #[trigger] beval(r, a) <==> (a.ints[s as int] <= j as int && (
        j as int) < a.ints[s as int] + l as int),
        forall|ni: int, nb: int| (s as int) < ni ==> #[trigger] bwf(r, ni, nb),
{
    let r = BoolExpr::And(
        Box::new(BoolExpr::Le(Box::new(IntExpr::Var(s)), Box::new(IntExpr::Const(j)))),
        Box::new(
            BoolExpr::Lt(
                Box::new(IntExpr::Const(j)),
                Box::new(IntExpr::Add(Box::new(IntExpr::Var(s)), Box::new(IntExpr::Const(l)))),
            ),
        ),
    );
    proof {
        let le = *r->And_0;
        let lt = *r->And_1;
        let add = *lt->Lt_1;
        assert forall|a: Assignment| #[trigger] beval(r, a) <==> (a.ints[s as int] <= j as int
            && (j as int) < a.ints[s as int] + l as int) by {
            assert(crate::ast::ieval(*le->Le_0, a) == a.ints[s as int]);
            assert(crate::ast::ieval(*le->Le_1, a) == j as int);
            assert(crate::ast::ieval(*add->Add_0, a) == a.ints[s as int]);
            assert(crate::ast::ieval(*add->Add_1, a) == l as int);
            assert(crate::ast::ieval(add, a) == a.ints[s as int] + l as int);
            assert(beval(le, a) == (a.ints[s as int] <= j as int));
            assert(beval(lt, a) == ((j as int) < a.ints[s as int] + l as int));
            assert(beval(r, a) == (beval(le, a) && beval(lt, a)));
        }
        assert forall|ni: int, nb: int| (s as int) < ni implies #[trigger] bwf(r, ni, nb) by {
            assert(crate::ast::iwf(*le->Le_0, ni, nb) == ((s as int) < ni));
            assert(crate::ast::iwf(*le->Le_1, ni, nb));
            assert(crate::ast::iwf(*add->Add_0, ni, nb) == ((s as int) < ni));
            assert(crate::ast::iwf(*add->Add_1, ni, nb));
            assert(crate::ast::iwf(add, ni, nb) == ((s as int) < ni));
            assert(bwf(le, ni, nb) == ((s as int) < ni));
            assert(bwf(lt, ni, nb) == ((s as int) < ni));
            assert(bwf(r, ni, nb) == (bwf(le, ni, nb) && bwf(lt, ni, nb)));
        }
    }
    r
}

/// The disjunction over all blocks of "block `i` covers cell `j`".
fn line_cover_expr(starts: &Vec<usize>, lens: &Vec<i64>, j: i64) -> (r: BoolExpr)
    requires
        starts@.len() == lens@.len(),
        starts@.len() >= 1,
    ensures
        forall|a: Assignment| #[trigger] beval(r, a) <==> covers(
            start_vals(starts@, a),
            len_vals(lens@),
            j as int,
        ),
        forall|ni: int, nb: int| (forall|p: int|
            0 <= p < starts@.len() ==> (#[trigger] starts@[p] as int) < ni) ==> #[trigger] bwf(
            r,
            ni,
            nb,
        ),
{
    let mut acc = block_cover_expr(starts[0], lens[0], j);
    proof {
        assert forall|a: Assignment| #[trigger] beval(acc, a) <==> covers_upto(
            start_vals(starts@, a),
            len_vals(lens@),
            j as int,
            1,
        ) by {
            let sv = start_vals(starts@, a);
            let lv = len_vals(lens@);
            assert(sv[0] == a.ints[starts@[0] as int]);
            assert(lv[0] == lens@[0] as int);
            if beval(acc, a) {
                assert(sv[0] <= j as int && (j as int) < sv[0] + lv[0]);
            }
            if covers_upto(sv, lv, j as int, 1) {
                let w = choose|b: int|
                    0 <= b < 1 && #[trigger] sv[b] <= j as int && (j as int) < sv[b] + lv[b];
                assert(w == 0);
            }
        }
    }
    let mut i: usize = 1;
    while i < starts.len()
        invariant
            starts@.len() == lens@.len(),
            1 <= i <= starts@.len(),
            forall|a: Assignment| #[trigger] beval(acc, a) <==> covers_upto(
                start_vals(starts@, a),
                len_vals(lens@),
                j as int,
                i as int,
            ),
            forall|ni: int, nb: int| (forall|p: int|
                0 <= p < starts@.len() ==> (#[trigger] starts@[p] as int) < ni)
                ==> #[trigger] bwf(acc, ni, nb),
        decreases starts@.len() - i,
    {
        let ghost gacc = acc;
        let blk = block_cover_expr(starts[i], lens[i], j);
        let ghost gblk = blk;
        let next = BoolExpr::Or(Box::new(acc), Box::new(blk));
        proof {
            assert(*next->Or_0 == gacc);
            assert(*next->Or_1 == gblk);
            assert forall|a: Assignment| #[trigger] beval(next, a) <==> covers_upto(
                start_vals(starts@, a),
                len_vals(lens@),
                j as int,
                i + 1,
            ) by {
                let sv = start_vals(starts@, a);
                let lv = len_vals(lens@);
                assert(sv[i as int] == a.ints[starts@[i as int] as int]);
                assert(lv[i as int] == lens@[i as int] as int);
                assert(beval(next, a) == (beval(gacc, a) || beval(gblk, a)));
                if beval(next, a) {
                    if beval(gblk, a) {
                        assert(sv[i as int] <= j as int
                            && (j as int) < sv[i as int] + lv[i as int]);
                    }
                }
                if covers_upto(sv, lv, j as int, i + 1) {
                    let w = choose|b: int|
                        0 <= b < i + 1 && #[trigger] sv[b] <= j as int && (j as int) < sv[b]
                            + lv[b];
                    if w < i {
                        assert(covers_upto(sv, lv, j as int, i as int));
                    } else {
                        assert(beval(gblk, a));
                    }
                }
            }
            assert forall|ni: int, nb: int| (forall|p: int|
                0 <= p < starts@.len() ==> (#[trigger] starts@[p] as int) < ni)
                implies #[trigger] bwf(next, ni, nb) by {
                assert(bwf(next, ni, nb) == (bwf(gacc, ni, nb) && bwf(gblk, ni, nb)));
            }
        }
        acc = next;
        i += 1;
    }
    acc
}

/// Builds the placement constraints for the block start variables: each
/// block inside the line, consecutive blocks in order with a gap.  An
/// assignment satisfies them exactly when it is a valid placement.
fn placement_formulas(starts: &Vec<usize>, lens: &Vec<i64>, n: i64) -> (r: Vec<BoolExpr>)
    requires
        starts@.len() == lens@.len(),
    ensures
        forall|a: Assignment| #[trigger] all_hold(r@, a) <==> placement_ok(
            start_vals(starts@, a),
            len_vals(lens@),
            n as int,
        ),
        forall|ni: int, nb: int| (forall|p: int|
            0 <= p < starts@.len() ==> (#[trigger] starts@[p] as int) < ni)
            ==> #[trigger] crate::ast::all_wf(r@, ni, nb),
{
    let mut fs: Vec<BoolExpr> = Vec::new();
    let mut i: usize = 0;
    while i < starts.len()
        invariant
            starts@.len() == lens@.len(),
            i <= starts@.len(),
            forall|a: Assignment| #[trigger] all_hold(fs@, a) <==> placement_ok_upto(
                start_vals(starts@, a),
                len_vals(lens@),
                n as int,
                i as int,
            ),
            forall|ni: int, nb: int| (forall|p: int|
                0 <= p < starts@.len() ==> (#[trigger] starts@[p] as int) < ni)
                ==> #[trigger] crate::ast::all_wf(fs@, ni, nb),
        decreases starts@.len() - i,
    {
        let lower = BoolExpr::Le(Box::new(IntExpr::Const(0)), Box::new(IntExpr::Var(starts[i])));
        let upper = BoolExpr::Le(
            Box::new(IntExpr::Add(Box::new(IntExpr::Var(starts[i])), Box::new(IntExpr::Const(
                lens[i],
            )))),
            Box::new(IntExpr::Const(n)),
        );
        proof {
            let usum = *upper->Le_0;
            assert forall|a: Assignment| (#[trigger] beval(lower, a) <==> 0 <= a.ints[starts@[
                i as int] as int]) && (beval(upper, a) <==> a.ints[starts@[i as int] as int]
                + lens@[i as int] as int <= n as int) by {
                assert(crate::ast::ieval(*lower->Le_0, a) == 0);
                assert(crate::ast::ieval(*lower->Le_1, a) == a.ints[starts@[i as int] as int]);
                assert(crate::ast::ieval(*usum->Add_0, a) == a.ints[starts@[i as int] as int]);
                assert(crate::ast::ieval(*usum->Add_1, a) == lens@[i as int] as int);
                assert(crate::ast::ieval(usum, a) == a.ints[starts@[i as int] as int] + lens@[
                    i as int] as int);
                assert(crate::ast::ieval(*upper->Le_1, a) == n as int);
            }
            assert forall|ni: int, nb: int| (starts@[i as int] as int) < ni implies #[trigger] bwf(
                lower,
                ni,
                nb,
            ) && bwf(upper, ni, nb) by {
                assert(crate::ast::iwf(*lower->Le_0, ni, nb));
                assert(crate::ast::iwf(*lower->Le_1, ni, nb));
                assert(crate::ast::iwf(*usum->Add_0, ni, nb));
                assert(crate::ast::iwf(*usum->Add_1, ni, nb));
                assert(crate::ast::iwf(usum, ni, nb));
                assert(crate::ast::iwf(*upper->Le_1, ni, nb));
            }
        }
        let ghost fs0 = fs@;
        fs.push(lower);
        fs.push(upper);
        proof {
            assert forall|a: Assignment| #[trigger] all_hold(fs@, a) <==> (placement_ok_upto(
                start_vals(starts@, a),
                len_vals(lens@),
                n as int,
                i as int,
            ) && 0 <= start_vals(starts@, a)[i as int] && start_vals(starts@, a)[i as int]
                + len_vals(lens@)[i as int] <= n as int) by {
                lemma_all_hold_push(fs0, lower, a);
                lemma_all_hold_push(fs0.push(lower), upper, a);
                assert(start_vals(starts@, a)[i as int] == a.ints[starts@[i as int] as int]);
                assert(len_vals(lens@)[i as int] == lens@[i as int] as int);
            }
            assert forall|ni: int, nb: int| (forall|p: int|
                0 <= p < starts@.len() ==> (#[trigger] starts@[p] as int) < ni)
                implies #[trigger] crate::ast::all_wf(fs@, ni, nb) by {
                lemma_all_wf_push(fs0, lower, ni, nb);
                lemma_all_wf_push(fs0.push(lower), upper, ni, nb);
                assert((starts@[i as int] as int) < ni);
            }
        }
        if i > 0 {
            let gap = BoolExpr::Le(
                Box::new(
                    IntExpr::Add(
                        Box::new(
                            IntExpr::Add(
                                Box::new(IntExpr::Var(starts[i - 1])),
                                Box::new(IntExpr::Const(lens[i - 1])),
                            ),
                        ),
                        Box::new(IntExpr::Const(1)),
                    ),
                ),
                Box::new(IntExpr::Var(starts[i])),
            );
            proof {
                let outer = *gap->Le_0;
                let inner = *outer->Add_0;
                assert forall|a: Assignment| #[trigger] beval(gap, a) <==> a.ints[starts@[i - 1
                ] as int] + lens@[i - 1] as int + 1 <= a.ints[starts@[i as int] as int] by {
                    assert(crate::ast::ieval(*inner->Add_0, a) == a.ints[starts@[i - 1] as int]);
                    assert(crate::ast::ieval(*inner->Add_1, a) == lens@[i - 1] as int);
                    assert(crate::ast::ieval(inner, a) == a.ints[starts@[i - 1] as int] + lens@[
                        i - 1] as int);
                    assert(crate::ast::ieval(*outer->Add_1, a) == 1);
                    assert(crate::ast::ieval(outer, a) == a.ints[starts@[i - 1] as int] + lens@[
                        i - 1] as int + 1);
                    assert(crate::ast::ieval(*gap->Le_1, a) == a.ints[starts@[i as int] as int]);
                }
                assert forall|ni: int, nb: int| (starts@[i - 1] as int) < ni && (starts@[
                i as int] as int) < ni implies #[trigger] bwf(gap, ni, nb) by {
                    assert(crate::ast::iwf(*inner->Add_0, ni, nb));
                    assert(crate::ast::iwf(*inner->Add_1, ni, nb));
                    assert(crate::ast::iwf(inner, ni, nb));
                    assert(crate::ast::iwf(*outer->Add_1, ni, nb));
                    assert(crate::ast::iwf(outer, ni, nb));
                    assert(crate::ast::iwf(*gap->Le_1, ni, nb));
                }
            }
            let ghost fs1 = fs@;
            fs.push(gap);
            proof {
                assert forall|a: Assignment| #[trigger] all_hold(fs@, a) <==> placement_ok_upto(
                    start_vals(starts@, a),
                    len_vals(lens@),
                    n as int,
                    i + 1,
                ) by {
                    lemma_all_hold_push(fs1, gap, a);
                    let sv = start_vals(starts@, a);
                    let lv = len_vals(lens@);
                    assert(sv[i as int] == a.ints[starts@[i as int] as int]);
                    assert(lv[i as int] == lens@[i as int] as int);
                    assert(sv[i - 1] == a.ints[starts@[i - 1] as int]);
                    assert(lv[i - 1] == lens@[i - 1] as int);
                    if all_hold(fs@, a) {
                        assert(placement_ok_upto(sv, lv, n as int, i as int));
                        assert forall|p: int| 0 <= p < i + 1 implies 0 <= #[trigger] sv[p] && sv[p]
                            + lv[p] <= n as int by {}
                        assert forall|p: int| 1 <= p < i + 1 implies sv[p - 1] + lv[p - 1] + 1
                            <= #[trigger] sv[p] by {}
                    }
                    if placement_ok_upto(sv, lv, n as int, i + 1) {
                        assert(0 <= sv[i as int] && sv[i as int] + lv[i as int] <= n as int);
                        assert(sv[i - 1] + lv[i - 1] + 1 <= sv[i as int]);
                    }
                }
                assert forall|ni: int, nb: int| (forall|p: int|
                    0 <= p < starts@.len() ==> (#[trigger] starts@[p] as int) < ni)
                    implies #[trigger] crate::ast::all_wf(fs@, ni, nb) by {
                    lemma_all_wf_push(fs1, gap, ni, nb);
                    assert((starts@[i - 1] as int) < ni && (starts@[i as int] as int) < ni);
                }
            }
        } else {
            proof {
                assert forall|a: Assignment| #[trigger] all_hold(fs@, a) <==> placement_ok_upto(
                    start_vals(starts@, a),
                    len_vals(lens@),
                    n as int,
                    i + 1,
                ) by {}
            }
        }
        i += 1;
    }
    proof {
        assert forall|a: Assignment| #[trigger] all_hold(fs@, a) <==> placement_ok(
            start_vals(starts@, a),
            len_vals(lens@),
            n as int,
        ) by {}
    }
    fs
}

/// Builds the cell constraints: each cell variable is true exactly when
/// some block covers it.
fn cell_formulas(cells: &Vec<usize>, starts: &Vec<usize>, lens: &Vec<i64>) -> (r: Vec<BoolExpr>)
    requires
        starts@.len() == lens@.len(),
        starts@.len() >= 1,
        cells@.len() <= 0x7fff_ffff,
    ensures
        forall|a: Assignment| #[trigger] all_hold(r@, a) <==> (forall|j: int|
            0 <= j < cells@.len() ==> #[trigger] cell_vals(cells@, a)[j] == covers(
                start_vals(starts@, a),
                len_vals(lens@),
                j,
            )),
        forall|ni: int, nb: int| ((forall|p: int|
            0 <= p < starts@.len() ==> (#[trigger] starts@[p] as int) < ni) && (forall|p: int|
            0 <= p < cells@.len() ==> (#[trigger] cells@[p] as int) < nb))
            ==> #[trigger] crate::ast::all_wf(r@, ni, nb),
{
    let mut fs: Vec<BoolExpr> = Vec::new();
    let mut j: usize = 0;
    while j < cells.len()
        invariant
            starts@.len() == lens@.len(),
            starts@.len() >= 1,
            cells@.len() <= 0x7fff_ffff,
            j <= cells@.len(),
            forall|a: Assignment| #[trigger] all_hold(fs@, a) <==> (forall|p: int|
                0 <= p < j ==> #[trigger] cell_vals(cells@, a)[p] == covers(
                    start_vals(starts@, a),
                    len_vals(lens@),
                    p,
                )),
            forall|ni: int, nb: int| ((forall|p: int|
                0 <= p < starts@.len() ==> (#[trigger] starts@[p] as int) < ni) && (forall|
                p: int,
            |
                0 <= p < cells@.len() ==> (#[trigger] cells@[p] as int) < nb))
                ==> #[trigger] crate::ast::all_wf(fs@, ni, nb),
        decreases cells@.len() - j,
    {
        let cover = line_cover_expr(starts, lens, j as i64);
        let ghost gcover = cover;
        let f = BoolExpr::Iff(Box::new(BoolExpr::Var(cells[j])), Box::new(cover));
        proof {
            assert(*f->Iff_1 == gcover);
            assert forall|a: Assignment| #[trigger] beval(f, a) <==> (cell_vals(cells@, a)[
            j as int] == covers(start_vals(starts@, a), len_vals(lens@), j as int)) by {
                assert(beval(f, a) == (beval(*f->Iff_0, a) <==> beval(gcover, a)));
                assert(beval(*f->Iff_0, a) == a.bools[cells@[j as int] as int]);
                assert(cell_vals(cells@, a)[j as int] == a.bools[cells@[j as int] as int]);
            }
            assert forall|ni: int, nb: int| ((forall|p: int|
                0 <= p < starts@.len() ==> (#[trigger] starts@[p] as int) < ni) && (forall|
                p: int,
            |
                0 <= p < cells@.len() ==> (#[trigger] cells@[p] as int) < nb)) implies #[trigger] bwf(
                f,
                ni,
                nb,
            ) by {
                assert(bwf(f, ni, nb) == (bwf(*f->Iff_0, ni, nb) && bwf(gcover, ni, nb)));
                assert(bwf(*f->Iff_0, ni, nb) == ((cells@[j as int] as int) < nb));
            }
        }
        let ghost fs0 = fs@;
        fs.push(f);
        proof {
            assert forall|a: Assignment| #[trigger] all_hold(fs@, a) <==> (forall|p: int|
                0 <= p < j + 1 ==> #[trigger] cell_vals(cells@, a)[p] == covers(
                    start_vals(starts@, a),
                    len_vals(lens@),
                    p,
                )) by {
                lemma_all_hold_push(fs0, f, a);
            }
            assert forall|ni: int, nb: int| ((forall|p: int|
                0 <= p < starts@.len() ==> (#[trigger] starts@[p] as int) < ni) && (forall|
                p: int,
            |
                0 <= p < cells@.len() ==> (#[trigger] cells@[p] as int) < nb))
                implies #[trigger] crate::ast::all_wf(fs@, ni, nb) by {
                assert forall|q: int| 0 <= q < fs@.len() implies bwf(#[trigger] fs@[q], ni, nb) by {
                    if q < fs0.len() {
                        assert(crate::ast::all_wf(fs0, ni, nb));
                        assert(fs@[q] == fs0[q]);
                    } else {
                        assert(fs@[q] == f);
                    }
                }
            }
        }
        j += 1;
    }
    fs
}

/// Builds the constraints forcing every cell of the line to false, for
/// an empty clue.
fn empty_clue_formulas(cells: &Vec<usize>) -> (r: Vec<BoolExpr>)
    ensures
        forall|a: Assignment| #[trigger] all_hold(r@, a) <==> (forall|j: int|
            0 <= j < cells@.len() ==> !(#[trigger] cell_vals(cells@, a)[j])),
        forall|ni: int, nb: int| (forall|p: int|
            0 <= p < cells@.len() ==> (#[trigger] cells@[p] as int) < nb)
            ==> #[trigger] crate::ast::all_wf(r@, ni, nb),
{
    let mut fs: Vec<BoolExpr> = Vec::new();
    let mut j: usize = 0;
    while j < cells.len()
        invariant
            j <= cells@.len(),
            forall|a: Assignment| #[trigger] all_hold(fs@, a) <==> (forall|p: int|
                0 <= p < j ==> !(#[trigger] cell_vals(cells@, a)[p])),
            forall|ni: int, nb: int| (forall|p: int|
                0 <= p < cells@.len() ==> (#[trigger] cells@[p] as int) < nb)
                ==> #[trigger] crate::ast::all_wf(fs@, ni, nb),
        decreases cells@.len() - j,
    {
        let f = BoolExpr::Iff(
            Box::new(BoolExpr::Var(cells[j])),
            Box::new(BoolExpr::Const(false)),
        );
        proof {
            assert forall|a: Assignment| #[trigger] beval(f, a) <==> !cell_vals(cells@, a)[
            j as int] by {
                assert(beval(f, a) == (beval(*f->Iff_0, a) <==> beval(*f->Iff_1, a)));
                assert(beval(*f->Iff_0, a) == a.bools[cells@[j as int] as int]);
                assert(!beval(*f->Iff_1, a));
                assert(cell_vals(cells@, a)[j as int] == a.bools[cells@[j as int] as int]);
            }
            assert forall|ni: int, nb: int| (cells@[j as int] as int) < nb implies #[trigger] bwf(
                f,
                ni,
                nb,
            ) by {
                assert(bwf(f, ni, nb) == (bwf(*f->Iff_0, ni, nb) && bwf(*f->Iff_1, ni, nb)));
                assert(bwf(*f->Iff_0, ni, nb) == ((cells@[j as int] as int) < nb));
                assert(bwf(*f->Iff_1, ni, nb));
            }
        }
        let ghost fs0 = fs@;
        fs.push(f);
        proof {
            assert forall|a: Assignment| #[trigger] all_hold(fs@, a) <==> (forall|p: int|
                0 <= p < j + 1 ==> !(#[trigger] cell_vals(cells@, a)[p])) by {
                lemma_all_hold_push(fs0, f, a);
            }
            assert forall|ni: int, nb: int| (forall|p: int|
                0 <= p < cells@.len() ==> (#[trigger] cells@[p] as int) < nb)
                implies #[trigger] crate::ast::all_wf(fs@, ni, nb) by {
                assert forall|q: int| 0 <= q < fs@.len() implies bwf(#[trigger] fs@[q], ni, nb) by {
                    if q < fs0.len() {
                        assert(crate::ast::all_wf(fs0, ni, nb));
                        assert(fs@[q] == fs0[q]);
                    } else {
                        assert(fs@[q] == f);
                    }
                }
            }
        }
        j += 1;
    }
    fs
}

/// Extending a formula list by a second list conjoins the meanings.
pub proof fn lemma_all_hold_concat(xs: Seq<BoolExpr>, ys: Seq<BoolExpr>, a: Assignment)
    ensures
        all_hold(xs + ys, a) <==> all_hold(xs, a) && all_hold(ys, a),
{
    if all_hold(xs, a) && all_hold(ys, a) {
        assert forall|i: int| 0 <= i < (xs + ys).len() implies beval(#[trigger] (xs + ys)[i], a) by {
            if i < xs.len() {
                assert((xs + ys)[i] == xs[i]);
            } else {
                assert((xs + ys)[i] == ys[i - xs.len()]);
            }
        }
    }
    if all_hold(xs + ys, a) {
        assert forall|i: int| 0 <= i < xs.len() implies beval(#[trigger] xs[i], a) by {
            assert((xs + ys)[i] == xs[i]);
        }
        assert forall|i: int| 0 <= i < ys.len() implies beval(#[trigger] ys[i], a) by {
            assert((xs + ys)[xs.len() + i] == ys[i]);
        }
    }
}

/// Translates one run-length clue over the given cell variables into
/// primitive constraints, using the given start variables (one per
/// block).  The returned formulas hold under an assignment exactly when
/// `line_encoding_holds` does.
pub fn encode_line_formulas(cells: &Vec<usize>, starts: &Vec<usize>, lens: &Vec<i64>) -> (r: Vec<
    BoolExpr,
>)
    requires
        starts@.len() == lens@.len(),
        cells@.len() <= 0x7fff_ffff,
    ensures
        forall|a: Assignment| #[trigger] all_hold(r@, a) <==> line_encoding_holds(
            cells@,
            starts@,
            lens@,
            a,
        ),
        forall|ni: int, nb: int| ((forall|p: int|
            0 <= p < starts@.len() ==> (#[trigger] starts@[p] as int) < ni) && (forall|p: int|
            0 <= p < cells@.len() ==> (#[trigger] cells@[p] as int) < nb))
            ==> #[trigger] crate::ast::all_wf(r@, ni, nb),
{
    if lens.len() == 0 {
        empty_clue_formulas(cells)
    } else {
        let mut fs = placement_formulas(starts, lens, cells.len() as i64);
        let ghost ps = fs@;
        let mut cs = cell_formulas(cells, starts, lens);
        let ghost css = cs@;
        fs.append(&mut cs);
        proof {
            assert(fs@ == ps + css);
            assert forall|a: Assignment| #[trigger] all_hold(fs@, a) <==> line_encoding_holds(
                cells@,
                starts@,
                lens@,
                a,
            ) by {
                lemma_all_hold_concat(ps, css, a);
            }
            assert forall|ni: int, nb: int| ((forall|p: int|
                0 <= p < starts@.len() ==> (#[trigger] starts@[p] as int) < ni) && (forall|
                p: int,
            |
                0 <= p < cells@.len() ==> (#[trigger] cells@[p] as int) < nb))
                implies #[trigger] crate::ast::all_wf(fs@, ni, nb) by {
                assert forall|i: int| 0 <= i < fs@.len() implies bwf(#[trigger] fs@[i], ni, nb) by {
                    if i < ps.len() {
                        assert(fs@[i] == ps[i]);
                        assert(crate::ast::all_wf(ps, ni, nb));
                    } else {
                        assert(fs@[i] == css[i - ps.len()]);
                        assert(crate::ast::all_wf(css, ni, nb));
                    }
                }
            }
        }
        fs
    }
}

/// The given concrete start positions are a valid placement of the
/// clue's blocks on the line, covering exactly the true cells (for an
/// empty clue: every cell is false, whatever was read for the starts).
pub open spec fn placement_covers_exactly(
    cells: Seq<bool>,
    svals: Seq<i64>,
    lens: Seq<i64>,
) -> bool {
    if lens.len() == 0 {
        forall|j: int| 0 <= j < cells.len() ==> !cells[j]
    } else {
        let sv = Seq::new(svals.len(), |i: int| svals[i] as int);
        &&& placement_ok(sv, len_vals(lens), cells.len() as int)
        &&& forall|j: int| 0 <= j < cells.len() ==> cells[j] == covers(sv, len_vals(lens), j)
    }
}

/// A line of cells satisfies a run-length clue: some placement of the
/// clue's blocks is valid for the line and covers exactly its true
/// cells (an empty clue means every cell is false).
pub open spec fn line_respects_clue(cells: Seq<bool>, lens: Seq<i64>) -> bool {
    if lens.len() == 0 {
        forall|j: int| 0 <= j < cells.len() ==> !cells[j]
    } else {
        exists|sv: Seq<int>|
            placement_ok(sv, len_vals(lens), cells.len() as int) && (forall|j: int|
                0 <= j < cells.len() ==> cells[j] == covers(sv, len_vals(lens), j))
    }
}

/// Whether cell `j` falls inside one of the blocks placed at the given
/// concrete start positions.
fn block_covers_cell(svals: &Vec<i64>, lens: &Vec<i64>, j: usize) -> (b: bool)
    requires
        svals@.len() == lens@.len(),
        j <= 0x7fff_ffff,
    ensures
        b == covers(
            Seq::new(svals@.len(), |i: int| svals@[i] as int),
            len_vals(lens@),
            j as int,
        ),
{
    let ghost sv = Seq::new(svals@.len(), |i: int| svals@[i] as int);
    let ghost lv = len_vals(lens@);
    let n = svals.len();
    let mut i: usize = 0;
    while i < n
        invariant
            n == svals@.len(),
            svals@.len() == lens@.len(),
            i <= n,
            j <= 0x7fff_ffff,
            sv == Seq::new(svals@.len(), |p: int| svals@[p] as int),
            lv == len_vals(lens@),
            !covers_upto(sv, lv, j as int, i as int),
        decreases n - i,
    {
        if (svals[i] as i128) <= (j as i128) && (j as i128) < (svals[i] as i128) + (
        lens[i] as i128) {
            proof {
                assert(sv[i as int] == svals@[i as int] as int);
                assert(lv[i as int] == lens@[i as int] as int);
                assert(sv[i as int] <= j as int && (j as int) < sv[i as int] + lv[i as int]);
            }
            return true;
        }
        proof {
            assert(sv[i as int] == svals@[i as int] as int);
            assert(lv[i as int] == lens@[i as int] as int);
            assert forall|p: int| 0 <= p < i + 1 implies !(sv[p] <= j as int && (j as int) < sv[p]
                + lv[p]) by {
                if p == i {
                }
            }
            assert(!covers_upto(sv, lv, j as int, i + 1)) by {
                if covers_upto(sv, lv, j as int, i + 1) {
                    let w = choose|b: int|
                        0 <= b < i + 1 && #[trigger] sv[b] <= j as int && (j as int) < sv[b]
                            + lv[b];
                }
            }
        }
        i += 1;
    }
    proof {
        assert(!covers(sv, lv, j as int)) by {
            assert(sv.len() == n as int);
        }
    }
    false
}

/// Validates a line of concrete cell values against a clue, given the
/// concrete block start positions read back from the model: the blocks
/// must form a valid placement and must cover exactly the true cells.
#[verifier::rlimit(30)]
pub fn check_line(cells: &Vec<bool>, svals: &Vec<i64>, lens: &Vec<i64>) -> (ok: bool)
    requires
        svals@.len() == lens@.len(),
        cells@.len() <= 0x7fff_ffff,
    ensures
        ok == placement_covers_exactly(cells@, svals@, lens@),
        ok ==> line_respects_clue(cells@, lens@),
{
    let n = cells.len();
    if lens.len() == 0 {
        let mut j: usize = 0;
        while j < n
            invariant
                n == cells@.len(),
                lens@.len() == 0,
                j <= n,
                forall|p: int| 0 <= p < j ==> !cells@[p],
            decreases n - j,
        {
            if cells[j] {
                return false;
            }
            j += 1;
        }
        return true;
    }
    let ghost sv = Seq::new(svals@.len(), |i: int| svals@[i] as int);
    let ghost lv = len_vals(lens@);
    // Placement: each block inside the line, in order with gaps.
    let mut i: usize = 0;
    while i < svals.len()
        invariant
            svals@.len() == lens@.len(),
            n == cells@.len(),
            n <= 0x7fff_ffff,
            i <= svals@.len(),
            sv == Seq::new(svals@.len(), |p: int| svals@[p] as int),
            lv == len_vals(lens@),
            placement_ok_upto(sv, lv, n as int, i as int),
        decreases svals@.len() - i,
    {
        if svals[i] < 0 {
            proof {
                assert(!placement_ok(sv, lv, n as int)) by {
                    assert(sv[i as int] == svals@[i as int] as int);
                }
            }
            return false;
        }
        if (svals[i] as i128) + (lens[i] as i128) > (n as i128) {
            proof {
                assert(!placement_ok(sv, lv, n as int)) by {
                    assert(sv[i as int] == svals@[i as int] as int);
                    assert(lv[i as int] == lens@[i as int] as int);
                }
            }
            return false;
        }
        if i > 0 {
            if (svals[i - 1] as i128) + (lens[i - 1] as i128) + 1 > (svals[i] as i128) {
                proof {
                    assert(!placement_ok(sv, lv, n as int)) by {
                        assert(sv[i as int] == svals@[i as int] as int);
                        assert(sv[i - 1] == svals@[i - 1] as int);
                        assert(lv[i - 1] == lens@[i - 1] as int);
                    }
                }
                return false;
            }
        }
        proof {
            assert(sv[i as int] == svals@[i as int] as int);
            assert(lv[i as int] == lens@[i as int] as int);
            if i > 0 {
                assert(sv[i - 1] == svals@[i - 1] as int);
                assert(lv[i - 1] == lens@[i - 1] as int);
            }
            assert forall|p: int| 0 <= p < i + 1 implies 0 <= #[trigger] sv[p] && sv[p] + lv[p]
                <= n as int by {}
            assert forall|p: int| 1 <= p < i + 1 implies sv[p - 1] + lv[p - 1] + 1
                <= #[trigger] sv[p] by {}
        }
        i += 1;
    }
    // Coverage: each cell true exactly where some block covers it.
    let mut j: usize = 0;
    while j < n
        invariant
            svals@.len() == lens@.len(),
            n == cells@.len(),
            n <= 0x7fff_ffff,
            j <= n,
            sv == Seq::new(svals@.len(), |p: int| svals@[p] as int),
            lv == len_vals(lens@),
            placement_ok_upto(sv, lv, n as int, svals@.len() as int),
            forall|p: int| 0 <= p < j ==> cells@[p] == covers(sv, lv, p),
        decreases n - j,
    {
        let cov = block_covers_cell(svals, lens, j);
        if cells[j] != cov {
            proof {
                assert(cells@[j as int] != covers(sv, lv, j as int));
            }
            return false;
        }
        j += 1;
    }
    proof {
        assert(placement_ok(sv, lv, n as int));
        assert(line_respects_clue(cells@, lens@)) by {
            assert(placement_ok(sv, lv, cells@.len() as int) && (forall|p: int|
                0 <= p < cells@.len() ==> cells@[p] == covers(sv, lv, p)));
        }
    }
    true
}

/// Declares the start variables for a clue and asserts the whole line
/// encoding in the context's current scope.  Returns the start-variable
/// handles; the formulas appended to the context are exactly the ones
/// `encode_line_formulas` characterizes.
pub fn constrain_line(ctx: &mut SolverContext, cells: &Vec<usize>, lens: &Vec<i64>) -> (starts:
    Vec<usize>)
    requires
        old(ctx).wf(),
        cells@.len() <= 0x7fff_ffff,
        forall|p: int| 0 <= p < cells@.len() ==> (#[trigger] cells@[p] as int) < old(
            ctx,
        ).num_bools(),
    ensures
        final(ctx).wf(),
        starts@.len() == lens@.len(),
        final(ctx).num_bools() == old(ctx).num_bools(),
        final(ctx).num_ints() == old(ctx).num_ints() + lens@.len(),
        final(ctx).depth() == old(ctx).depth(),
        final(ctx).trackers() == old(ctx).trackers(),
        forall|p: int| 0 <= p < starts@.len() ==> (#[trigger] starts@[p] as int) == old(
            ctx,
        ).num_ints() + p,
        forall|a: Assignment| #[trigger] all_hold(final(ctx).formula(), a) <==> all_hold(
            old(ctx).formula(),
            a,
        ) && line_encoding_holds(cells@, starts@, lens@, a),
{
    let mut starts: Vec<usize> = Vec::new();
    let mut i: usize = 0;
    while i < lens.len()
        invariant
            old(ctx).wf(),
            ctx.wf(),
            i <= lens@.len(),
            starts@.len() == i,
            ctx.num_bools() == old(ctx).num_bools(),
            ctx.num_ints() == old(ctx).num_ints() + i,
            ctx.frames_view() == old(ctx).frames_view(),
            ctx.trackers() == old(ctx).trackers(),
            forall|p: int| 0 <= p < i ==> (#[trigger] starts@[p] as int) == old(
                ctx,
            ).num_ints() + p,
        decreases lens@.len() - i,
    {
        let v = ctx.declare_int();
        starts.push(v);
        i += 1;
    }
    let fs = encode_line_formulas(cells, &starts, lens);
    let ghost fs_seq = fs@;
    let ghost mid = *ctx;
    proof {
        assert(crate::ast::all_wf(fs_seq, ctx.num_ints(), ctx.num_bools()));
    }
    assert_all(ctx, fs);
    proof {
        assert forall|a: Assignment| #[trigger] all_hold(ctx.formula(), a) <==> all_hold(
            old(ctx).formula(),
            a,
        ) && line_encoding_holds(cells@, starts@, lens@, a) by {
            lemma_all_hold_concat(mid.formula(), fs_seq, a);
            assert(mid.formula() == old(ctx).formula());
        }
    }
    starts
}

/// Asserts every formula of `fs` in the context's current scope, in
/// order.
pub fn assert_all(ctx: &mut SolverContext, fs: Vec<BoolExpr>)
    requires
        old(ctx).wf(),
        crate::ast::all_wf(fs@, old(ctx).num_ints(), old(ctx).num_bools()),
    ensures
        final(ctx).wf(),
        final(ctx).formula() == old(ctx).formula() + fs@,
        final(ctx).num_ints() == old(ctx).num_ints(),
        final(ctx).num_bools() == old(ctx).num_bools(),
        final(ctx).depth() == old(ctx).depth(),
        final(ctx).trackers() == old(ctx).trackers(),
{
    let ghost fs_seq = fs@;
    let mut rest = fs;
    let mut i: usize = 0;
    let n = rest.len();
    while i < n
        invariant
            ctx.wf(),
            i <= n,
            n == fs_seq.len(),
            rest@ == fs_seq.skip(i as int),
            crate::ast::all_wf(fs_seq, ctx.num_ints(), ctx.num_bools()),
            ctx.num_ints() == old(ctx).num_ints(),
            ctx.num_bools() == old(ctx).num_bools(),
            ctx.depth() == old(ctx).depth(),
            ctx.trackers() == old(ctx).trackers(),
            ctx.formula() == old(ctx).formula() + fs_seq.take(i as int),
        decreases n - i,
    {
        proof {
            assert(rest@.len() > 0);
            assert(rest@[0] == fs_seq[i as int]);
            assert(bwf(fs_seq[i as int], ctx.num_ints(), ctx.num_bools())) by {
                assert(crate::ast::all_wf(fs_seq, ctx.num_ints(), ctx.num_bools()));
            }
        }
        let f = rest.remove(0);
        ctx.assert_formula(f);
        proof {
            assert(rest@ =~= fs_seq.skip(i + 1));
            assert(ctx.formula() =~= old(ctx).formula() + fs_seq.take(i + 1));
        }
        i += 1;
    }
    proof {
        assert(fs_seq.take(fs_seq.len() as int) =~= fs_seq);
    }
}

} // verus!
