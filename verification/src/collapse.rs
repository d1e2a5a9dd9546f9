//! The collapse/propagation loop: resolve a starting cell, then for a
//! bounded number of iterations narrow the neighbors of the cell just
//! resolved and resolve the next lowest-entropy cell.

use vstd::prelude::*;
use crate::entropy::pick_lowest_entropy;
use crate::grid::Cell;
use crate::grid::Grid;
use crate::grid::coords_match;
use crate::grid::lemma_evolution_trans;
use crate::grid::lemma_grid_lookup;
use crate::grid::lemma_options_only_coords;
use crate::grid::lemma_options_only_trans;
use crate::grid::lemma_resolved_count_same;
use crate::grid::lemma_resolved_count_update;
use crate::grid::only_options_changed;
use crate::grid::options_narrow;
use crate::grid::preserves_resolved;
use crate::grid::resolved_count;
use crate::grid::with_options;
use crate::rng::random_index;
use crate::rules::Direction;
use crate::rules::Rule;
use crate::terrain::Terrain;
use crate::terrain::TerrainSet;
use crate::terrain::lemma_empty_count;
use crate::terrain::lemma_subset_contains;

verus! {

/// The number of collapse iterations in the reference configuration.
pub const ITERATIONS: usize = 700;

/// A contradiction: the coordinate whose option set became empty,
/// signaling an unsatisfiable constraint state.
#[derive(Clone, Copy, Debug, PartialEq, Eq, Structural)]
pub struct Contradiction {
    pub row: usize,
    pub col: usize,
}

/// `(rr, cc)` is one of the eight neighbors of `(r, c)`.
pub open spec fn spec_adjacent(r: int, c: int, rr: int, cc: int) -> bool {
    &&& !(rr == r && cc == c)
    &&& -1 <= rr - r <= 1
    &&& -1 <= cc - c <= 1
}

/// The direction that leads from a cell to the neighbor at row offset
/// `dr`, column offset `dc` (rows grow downward).
pub open spec fn spec_dir_of(dr: int, dc: int) -> Direction {
    if dr == -1 && dc == 0 {
        Direction::Top
    } else if dr == 1 && dc == 0 {
        Direction::Bottom
    } else if dr == 0 && dc == -1 {
        Direction::Left
    } else if dr == 0 && dc == 1 {
        Direction::Right
    } else if dr == -1 && dc == -1 {
        Direction::TopLeft
    } else if dr == -1 && dc == 1 {
        Direction::TopRight
    } else if dr == 1 && dc == -1 {
        Direction::BottomLeft
    } else {
        Direction::BottomRight
    }
}

/// The conjunction of the rule table's constraints on direction `d`
/// beside a cell holding `t`: the intersection of the `d` sets of
/// every rule whose tile is `t` (the full set when no rule matches).
pub open spec fn spec_filter(rules: Seq<Rule>, t: Terrain, d: Direction) -> TerrainSet
    decreases rules.len(),
{
    if rules.len() == 0 {
        TerrainSet::spec_full()
    } else {
        let prev = spec_filter(rules.drop_last(), t, d);
        if rules.last().tile == t {
            prev.spec_intersect(rules.last().spec_dir_set(d))
        } else {
            prev
        }
    }
}

/// Intersect `options` with every constraint the rule table places on
/// direction `d` beside a cell holding `t`.
fn filter_options(options: TerrainSet, rules: &Vec<Rule>, t: Terrain, d: Direction) -> (r:
    TerrainSet)
    ensures
        r == options.spec_intersect(spec_filter(rules@, t, d)),
{
    let n = rules.len();
    let mut r = options;
    for k in 0..n
        invariant
            n == rules@.len(),
            r == options.spec_intersect(spec_filter(rules@.take(k as int), t, d)),
    {
        let rule = &rules[k];
        if rule.tile == t {
            r = r.intersect(&rule.dir_set(d));
        }
        proof {
            assert(rules@.take(k as int + 1).drop_last() =~= rules@.take(k as int));
            assert(rules@.take(k as int + 1).last() == rules@[k as int]);
        }
    }
    proof {
        assert(rules@.take(n as int) =~= rules@);
    }
    r
}

/// Narrow the options of the cell at `(tr, tc)` by the constraints for
/// direction `d` beside a cell holding `st`.  A resolved cell's options
/// are irrelevant and left untouched; an unresolved cell whose options
/// become empty is a contradiction.
fn narrow_at(g: &mut Grid, tr: usize, tc: usize, st: Terrain, rules: &Vec<Rule>, d: Direction) -> (res:
    Result<(), Contradiction>)
    requires
        old(g).wf(),
        tr < old(g).size,
        tc < old(g).size,
    ensures
        final(g).wf(),
        final(g).size == old(g).size,
        preserves_resolved(*old(g), *final(g)),
        options_narrow(*old(g), *final(g)),
        only_options_changed(*old(g), *final(g)),
        forall|rr: int, cc: int|
            old(g).in_bounds(rr, cc) && !(rr == tr && cc == tc) ==> #[trigger] final(g).cell_at(
                rr,
                cc,
            ) == old(g).cell_at(rr, cc),
        old(g).cell_at(tr as int, tc as int).resolved ==> final(g).cell_at(tr as int, tc as int)
            == old(g).cell_at(tr as int, tc as int) && res is Ok,
        !old(g).cell_at(tr as int, tc as int).resolved ==> {
            let oldc = old(g).cell_at(tr as int, tc as int);
            let newc = final(g).cell_at(tr as int, tc as int);
            &&& newc == with_options(
                oldc,
                oldc.options.spec_intersect(spec_filter(rules@, st, d)),
            )
            &&& (res is Ok <==> !newc.options.spec_is_empty())
        },
        res matches Err(e) ==> e.row == tr && e.col == tc,
{
    let cell = g.get(tr, tc);
    if cell.resolved {
        return Ok(());
    }
    let narrowed = filter_options(cell.options, rules, st, d);
    let newcell = Cell { options: narrowed, ..cell };
    g.set(tr, tc, newcell);
    proof {
        assert forall|i: int| 0 <= i < old(g).cells@.len() implies #[trigger] final(g).cells@[i]
            == with_options(old(g).cells@[i], final(g).cells@[i].options) by {
            lemma_grid_lookup(*old(g), tr as int, tc as int);
        }
        assert forall|i: int|
            0 <= i < old(g).cells@.len() implies (#[trigger] final(g).cells@[i]).options
            .spec_subset(old(g).cells@[i].options) by {
            lemma_grid_lookup(*old(g), tr as int, tc as int);
        }
        assert forall|i: int|
            0 <= i < old(g).cells@.len() && (#[trigger] old(g).cells@[i]).resolved implies final(g).cells@[i]
            == old(g).cells@[i] by {
            lemma_grid_lookup(*old(g), tr as int, tc as int);
        }
    }
    if narrowed.is_empty() {
        return Err(Contradiction { row: tr, col: tc });
    }
    Ok(())
}

/// The fixed order in which the eight directions are propagated.
spec fn spec_dir_order(j: int) -> Direction {
    if j == 0 {
        Direction::Top
    } else if j == 1 {
        Direction::Bottom
    } else if j == 2 {
        Direction::Left
    } else if j == 3 {
        Direction::Right
    } else if j == 4 {
        Direction::TopLeft
    } else if j == 5 {
        Direction::TopRight
    } else if j == 6 {
        Direction::BottomLeft
    } else {
        Direction::BottomRight
    }
}

/// `(rr, cc)` is the in-bounds cell one step in direction `d` from
/// `(row, col)`.
spec fn spec_target_of(row: int, col: int, size: int, rr: int, cc: int, d: Direction) -> bool {
    &&& rr == row + d.spec_dr()
    &&& cc == col + d.spec_dc()
    &&& 0 <= rr < size
    &&& 0 <= cc < size
}

/// The step in direction `d` from `(row, col)` stays on the grid.
spec fn spec_dir_in_bounds(row: int, col: int, size: int, d: Direction) -> bool {
    0 <= row + d.spec_dr() < size && 0 <= col + d.spec_dc() < size
}

/// `(rr, cc)` is the in-bounds target of one of the first `k`
/// directions in propagation order.
spec fn spec_processed(row: int, col: int, size: int, rr: int, cc: int, k: int) -> bool {
    ||| (k > 0 && spec_target_of(row, col, size, rr, cc, Direction::Top))
    ||| (k > 1 && spec_target_of(row, col, size, rr, cc, Direction::Bottom))
    ||| (k > 2 && spec_target_of(row, col, size, rr, cc, Direction::Left))
    ||| (k > 3 && spec_target_of(row, col, size, rr, cc, Direction::Right))
    ||| (k > 4 && spec_target_of(row, col, size, rr, cc, Direction::TopLeft))
    ||| (k > 5 && spec_target_of(row, col, size, rr, cc, Direction::TopRight))
    ||| (k > 6 && spec_target_of(row, col, size, rr, cc, Direction::BottomLeft))
    ||| (k > 7 && spec_target_of(row, col, size, rr, cc, Direction::BottomRight))
}

/// The state of a propagation run from `(row, col)` after the first
/// `k` directions: each processed unresolved neighbor holds exactly
/// its prior options cut down by the matching permitted set (and, as
/// long as no contradiction was hit, a non-empty cut); every other
/// cell still holds its starting value.
spec fn spec_partial(
    g0: Grid,
    cur: Grid,
    row: int,
    col: int,
    rules: Seq<Rule>,
    k: int,
    ok: bool,
) -> bool {
    &&& cur.size == g0.size
    &&& cur.cells@.len() == g0.cells@.len()
    &&& forall|rr: int, cc: int|
        g0.in_bounds(rr, cc) ==> {
            let curc = #[trigger] cur.cell_at(rr, cc);
            if spec_processed(row, col, g0.size as int, rr, cc, k) && !g0.cell_at(
                rr,
                cc,
            ).resolved {
                &&& curc == with_options(
                    g0.cell_at(rr, cc),
                    g0.cell_at(rr, cc).options.spec_intersect(
                        spec_filter(
                            rules,
                            g0.cell_at(row, col).state,
                            spec_dir_of(rr - row, cc - col),
                        ),
                    ),
                )
                &&& (ok ==> !curc.options.spec_is_empty())
            } else {
                curc == g0.cell_at(rr, cc)
            }
        }
}

/// One direction of a propagation run: narrow the in-bounds target of
/// the `k`-th direction and extend the partial-run invariant by it.
fn narrow_step(
    g: &mut Grid,
    row: usize,
    col: usize,
    tr: usize,
    tc: usize,
    st: Terrain,
    rules: &Vec<Rule>,
    d: Direction,
    Ghost(g0): Ghost<Grid>,
    Ghost(k): Ghost<int>,
) -> (res: Result<(), Contradiction>)
    requires
        old(g).wf(),
        g0.wf(),
        row < old(g).size,
        col < old(g).size,
        0 <= k < 8,
        d == spec_dir_order(k),
        spec_target_of(row as int, col as int, old(g).size as int, tr as int, tc as int, d),
        st == g0.cell_at(row as int, col as int).state,
        spec_partial(g0, *old(g), row as int, col as int, rules@, k, true),
        preserves_resolved(g0, *old(g)),
        options_narrow(g0, *old(g)),
        only_options_changed(g0, *old(g)),
    ensures
        final(g).wf(),
        final(g).size == old(g).size,
        preserves_resolved(g0, *final(g)),
        options_narrow(g0, *final(g)),
        only_options_changed(g0, *final(g)),
        res is Ok ==> spec_partial(g0, *final(g), row as int, col as int, rules@, k + 1, true),
        res matches Err(e) ==> spec_partial(g0, *final(g), row as int, col as int, rules@, k + 1, false)
            && final(g).in_bounds(e.row as int, e.col as int) && spec_adjacent(
            row as int,
            col as int,
            e.row as int,
            e.col as int,
        ) && !final(g).cell_at(e.row as int, e.col as int).resolved && final(g).cell_at(
            e.row as int,
            e.col as int,
        ).options.spec_is_empty() && !g0.cell_at(e.row as int, e.col as int).resolved && g0.cell_at(
            e.row as int,
            e.col as int,
        ).options.spec_intersect(
            spec_filter(rules@, st, spec_dir_of(e.row - row, e.col - col)),
        ).spec_is_empty(),
{
    let ghost gp = *g;
    let res = narrow_at(g, tr, tc, st, rules, d);
    proof {
        compose_steps(g0, gp, *g);
        assert(!spec_processed(row as int, col as int, g0.size as int, tr as int, tc as int, k));
        assert(gp.cell_at(tr as int, tc as int) == g0.cell_at(tr as int, tc as int));
        assert(spec_dir_of(tr as int - row as int, tc as int - col as int) == d);
    }
    res
}

/// An out-of-range direction applies no constraint: skipping it
/// extends the partial-run invariant unchanged.
proof fn lemma_skip_step(g0: Grid, cur: Grid, row: int, col: int, rules: Seq<Rule>, k: int)
    requires
        0 <= k < 8,
        !spec_dir_in_bounds(row, col, g0.size as int, spec_dir_order(k)),
        spec_partial(g0, cur, row, col, rules, k, true),
    ensures
        spec_partial(g0, cur, row, col, rules, k + 1, true),
{
}

/// A cell that no processed direction targets still holds its
/// starting value: anything off the eight-neighbor ring is untouched.
proof fn lemma_partial_frame(g0: Grid, cur: Grid, row: int, col: int, rules: Seq<Rule>, k: int, ok: bool)
    requires
        spec_partial(g0, cur, row, col, rules, k, ok),
    ensures
        forall|rr: int, cc: int|
            g0.in_bounds(rr, cc) && !spec_adjacent(row, col, rr, cc) ==> #[trigger] cur.cell_at(
                rr,
                cc,
            ) == g0.cell_at(rr, cc),
{
    assert forall|rr: int, cc: int|
        g0.in_bounds(rr, cc) && !spec_adjacent(row, col, rr, cc) implies #[trigger] cur.cell_at(
        rr,
        cc,
    ) == g0.cell_at(rr, cc) by {
        assert(!spec_processed(row, col, g0.size as int, rr, cc, k));
    }
}

/// After all eight directions, every in-bounds unresolved neighbor
/// holds exactly its prior options cut down by the matching permitted
/// set, and the cut is non-empty.
proof fn lemma_partial_full(g0: Grid, cur: Grid, row: int, col: int, rules: Seq<Rule>)
    requires
        g0.in_bounds(row, col),
        spec_partial(g0, cur, row, col, rules, 8, true),
    ensures
        forall|rr: int, cc: int|
            g0.in_bounds(rr, cc) && spec_adjacent(row, col, rr, cc) && !g0.cell_at(
                rr,
                cc,
            ).resolved ==> (#[trigger] cur.cell_at(rr, cc)) == with_options(
                g0.cell_at(rr, cc),
                g0.cell_at(rr, cc).options.spec_intersect(
                    spec_filter(rules, g0.cell_at(row, col).state, spec_dir_of(rr - row, cc - col)),
                ),
            ) && !cur.cell_at(rr, cc).options.spec_is_empty(),
{
    assert forall|rr: int, cc: int|
        g0.in_bounds(rr, cc) && spec_adjacent(row, col, rr, cc) && !g0.cell_at(
            rr,
            cc,
        ).resolved implies (#[trigger] cur.cell_at(rr, cc)) == with_options(
        g0.cell_at(rr, cc),
        g0.cell_at(rr, cc).options.spec_intersect(
            spec_filter(rules, g0.cell_at(row, col).state, spec_dir_of(rr - row, cc - col)),
        ),
    ) && !cur.cell_at(rr, cc).options.spec_is_empty() by {
        assert(spec_processed(row, col, g0.size as int, rr, cc, 8));
    }
}

/// Apply the single-step propagation of the cell at `(row, col)`: for
/// each of the eight compass directions, narrow the options of the
/// in-bounds, unresolved neighbor in that direction by the permitted
/// set the rule table gives for the cell's state, and fail fast with
/// the offending coordinate when a neighbor's options become empty.
/// Out-of-range directions apply no constraint; narrowing never grows
/// an option set and touches nothing but option sets.
#[verifier::rlimit(100)]
pub fn propagate(g: &mut Grid, row: usize, col: usize, rules: &Vec<Rule>) -> (res: Result<
    (),
    Contradiction,
>)
    requires
        old(g).wf(),
        row < old(g).size,
        col < old(g).size,
    ensures
        final(g).wf(),
        final(g).size == old(g).size,
        preserves_resolved(*old(g), *final(g)),
        options_narrow(*old(g), *final(g)),
        only_options_changed(*old(g), *final(g)),
        forall|rr: int, cc: int|
            old(g).in_bounds(rr, cc) && !spec_adjacent(row as int, col as int, rr, cc)
                ==> #[trigger] final(g).cell_at(rr, cc) == old(g).cell_at(rr, cc),
        res is Ok ==> forall|rr: int, cc: int|
            old(g).in_bounds(rr, cc) && spec_adjacent(row as int, col as int, rr, cc) && !old(g).cell_at(rr, cc).resolved ==> (#[trigger] final(g).cell_at(rr, cc)) == with_options(
                old(g).cell_at(rr, cc),
                old(g).cell_at(rr, cc).options.spec_intersect(
                    spec_filter(
                        rules@,
                        old(g).cell_at(row as int, col as int).state,
                        spec_dir_of(rr - row, cc - col),
                    ),
                ),
            ) && !final(g).cell_at(rr, cc).options.spec_is_empty(),
        res matches Err(e) ==> final(g).in_bounds(e.row as int, e.col as int) && spec_adjacent(
            row as int,
            col as int,
            e.row as int,
            e.col as int,
        ) && !final(g).cell_at(e.row as int, e.col as int).resolved && final(g).cell_at(
            e.row as int,
            e.col as int,
        ).options.spec_is_empty(),
        res matches Err(e) ==> !old(g).cell_at(e.row as int, e.col as int).resolved
            && old(g).cell_at(e.row as int, e.col as int).options.spec_intersect(
            spec_filter(
                rules@,
                old(g).cell_at(row as int, col as int).state,
                spec_dir_of(e.row - row, e.col - col),
            ),
        ).spec_is_empty(),
{
    let ghost g0 = *g;
    let size = g.size;
    let center = g.get(row, col);
    let st = center.state;

    if row >= 1 {
        match narrow_step(g, row, col, row - 1, col, st, rules, Direction::Top, Ghost(g0), Ghost(0)) {
            Err(e) => {
                proof {
                    lemma_partial_frame(g0, *g, row as int, col as int, rules@, 1, false);
                }
                return Err(e);
            },
            Ok(_) => {},
        }
    } else {
        proof {
            lemma_skip_step(g0, *g, row as int, col as int, rules@, 0);
        }
    }

    if row + 1 < size {
        match narrow_step(g, row, col, row + 1, col, st, rules, Direction::Bottom, Ghost(g0), Ghost(1)) {
            Err(e) => {
                proof {
                    lemma_partial_frame(g0, *g, row as int, col as int, rules@, 2, false);
                }
                return Err(e);
            },
            Ok(_) => {},
        }
    } else {
        proof {
            lemma_skip_step(g0, *g, row as int, col as int, rules@, 1);
        }
    }

    if col >= 1 {
        match narrow_step(g, row, col, row, col - 1, st, rules, Direction::Left, Ghost(g0), Ghost(2)) {
            Err(e) => {
                proof {
                    lemma_partial_frame(g0, *g, row as int, col as int, rules@, 3, false);
                }
                return Err(e);
            },
            Ok(_) => {},
        }
    } else {
        proof {
            lemma_skip_step(g0, *g, row as int, col as int, rules@, 2);
        }
    }

    if col + 1 < size {
        match narrow_step(g, row, col, row, col + 1, st, rules, Direction::Right, Ghost(g0), Ghost(3)) {
            Err(e) => {
                proof {
                    lemma_partial_frame(g0, *g, row as int, col as int, rules@, 4, false);
                }
                return Err(e);
            },
            Ok(_) => {},
        }
    } else {
        proof {
            lemma_skip_step(g0, *g, row as int, col as int, rules@, 3);
        }
    }

    if row >= 1 && col >= 1 {
        match narrow_step(g, row, col, row - 1, col - 1, st, rules, Direction::TopLeft, Ghost(g0), Ghost(4)) {
            Err(e) => {
                proof {
                    lemma_partial_frame(g0, *g, row as int, col as int, rules@, 5, false);
                }
                return Err(e);
            },
            Ok(_) => {},
        }
    } else {
        proof {
            lemma_skip_step(g0, *g, row as int, col as int, rules@, 4);
        }
    }

    if row >= 1 && col + 1 < size {
        match narrow_step(g, row, col, row - 1, col + 1, st, rules, Direction::TopRight, Ghost(g0), Ghost(5)) {
            Err(e) => {
                proof {
                    lemma_partial_frame(g0, *g, row as int, col as int, rules@, 6, false);
                }
                return Err(e);
            },
            Ok(_) => {},
        }
    } else {
        proof {
            lemma_skip_step(g0, *g, row as int, col as int, rules@, 5);
        }
    }

    if row + 1 < size && col >= 1 {
        match narrow_step(g, row, col, row + 1, col - 1, st, rules, Direction::BottomLeft, Ghost(g0), Ghost(6)) {
            Err(e) => {
                proof {
                    lemma_partial_frame(g0, *g, row as int, col as int, rules@, 7, false);
                }
                return Err(e);
            },
            Ok(_) => {},
        }
    } else {
        proof {
            lemma_skip_step(g0, *g, row as int, col as int, rules@, 6);
        }
    }

    if row + 1 < size && col + 1 < size {
        match narrow_step(g, row, col, row + 1, col + 1, st, rules, Direction::BottomRight, Ghost(g0), Ghost(7)) {
            Err(e) => {
                proof {
                    lemma_partial_frame(g0, *g, row as int, col as int, rules@, 8, false);
                }
                return Err(e);
            },
            Ok(_) => {},
        }
    } else {
        proof {
            lemma_skip_step(g0, *g, row as int, col as int, rules@, 7);
        }
    }

    proof {
        lemma_partial_frame(g0, *g, row as int, col as int, rules@, 8, true);
        lemma_partial_full(g0, *g, row as int, col as int, rules@);
    }
    Ok(())
}

/// Run the collapse/propagation loop from a forced interior seed.
/// The seed cell is resolved to `Grass` regardless of its prior
/// options; each iteration then narrows the eight neighbors of the
/// cell just resolved, stops early once no unresolved cell remains,
/// and otherwise resolves one lowest-entropy cell to a state drawn
/// uniformly from its remaining options.  `Ok(n)` reports `n`
/// completed iterations, with `n` short of the budget only when the
/// whole grid resolved; a contradiction (an option set narrowed to
/// nothing) aborts the run with the offending coordinate.
pub fn collapse_from(
    g: &mut Grid,
    rules: &Vec<Rule>,
    start_row: usize,
    start_col: usize,
    iterations: usize,
) -> (res: Result<usize, Contradiction>)
    requires
        old(g).wf(),
        1 <= start_row && start_row + 1 < old(g).size,
        1 <= start_col && start_col + 1 < old(g).size,
        !old(g).cell_at(start_row as int, start_col as int).resolved,
    ensures
        final(g).wf(),
        final(g).size == old(g).size,
        preserves_resolved(*old(g), *final(g)),
        options_narrow(*old(g), *final(g)),
        coords_match(*old(g), *final(g)),
        final(g).cell_at(start_row as int, start_col as int).resolved,
        final(g).cell_at(start_row as int, start_col as int).state == Terrain::Grass,
        forall|i: int|
            0 <= i < old(g).cells@.len() && i != old(g).flat(start_row as int, start_col as int)
                && !(#[trigger] old(g).cells@[i]).resolved && final(g).cells@[i].resolved ==> old(g).cells@[i].options.spec_contains(final(g).cells@[i].state),
        forall|i: int|
            0 <= i < old(g).cells@.len() && !(#[trigger] final(g).cells@[i]).resolved ==> final(g).cells@[i].state == old(g).cells@[i].state,
        iterations == 0 ==> res is Ok,
        match res {
            Ok(n) => n <= iterations && resolved_count(final(g).cells@) == resolved_count(
                old(g).cells@,
            ) + 1 + n && (n < iterations ==> forall|i: int|
                0 <= i < final(g).cells@.len() ==> (#[trigger] final(g).cells@[i]).resolved),
            Err(e) => final(g).in_bounds(e.row as int, e.col as int) && !final(g).cell_at(
                e.row as int,
                e.col as int,
            ).resolved && final(g).cell_at(e.row as int, e.col as int).options.spec_is_empty(),
        },
{
    let ghost g0 = *g;
    let ghost seed_idx = old(g).flat(start_row as int, start_col as int);
    proof {
        lemma_grid_lookup(*g, start_row as int, start_col as int);
    }
    let seed = g.get(start_row, start_col);
    let forced = Cell { state: Terrain::Grass, resolved: true, ..seed };
    g.set(start_row, start_col, forced);
    proof {
        lemma_resolved_count_update(g0.cells@, seed_idx, forced);
    }
    let mut cur_row = start_row;
    let mut cur_col = start_col;

    for it in 0..iterations
        invariant
            g.wf(),
            g0 == *old(g),
            g0.wf(),
            g.size == g0.size,
            g.cells@.len() == g0.cells@.len(),
            cur_row < g.size,
            cur_col < g.size,
            seed_idx == g0.flat(start_row as int, start_col as int),
            0 <= seed_idx < g.cells@.len(),
            g.cells@[seed_idx].resolved,
            g.cells@[seed_idx].state == Terrain::Grass,
            preserves_resolved(g0, *g),
            options_narrow(g0, *g),
            coords_match(g0, *g),
            resolved_count(g.cells@) == resolved_count(g0.cells@) + 1 + it,
            forall|i: int|
                0 <= i < g0.cells@.len() && i != seed_idx && !(#[trigger] g0.cells@[i]).resolved
                    && g.cells@[i].resolved ==> g0.cells@[i].options.spec_contains(
                    g.cells@[i].state,
                ),
            forall|i: int|
                0 <= i < g0.cells@.len() && !(#[trigger] g.cells@[i]).resolved ==> g.cells@[i].state
                    == g0.cells@[i].state,
    {
        let ghost gp = *g;
        match propagate(g, cur_row, cur_col, rules) {
            Err(e) => {
                proof {
                    carry_invariants(g0, gp, *g, seed_idx);
                }
                return Err(e);
            },
            Ok(_) => {},
        }
        proof {
            carry_invariants(g0, gp, *g, seed_idx);
        }
        if !g.has_unresolved() {
            return Ok(it);
        }
        let idx = pick_lowest_entropy(g);
        let cell = g.cells[idx];
        let cnt = cell.options.count();
        if cnt == 0 {
            proof {
                lemma_empty_count(cell.options);
            }
            return Err(Contradiction { row: cell.row, col: cell.col });
        }
        let k = random_index(cnt);
        let t = cell.options.nth(k);
        let ghost gq = *g;
        let newcell = Cell { state: t, resolved: true, ..cell };
        g.set(cell.row, cell.col, newcell);
        proof {
            assert(gq.flat(cell.row as int, cell.col as int) == idx);
            lemma_resolved_count_update(gq.cells@, idx as int, newcell);
            lemma_subset_contains(gq.cells@[idx as int].options, g0.cells@[idx as int].options, t);
            assert forall|i: int|
                0 <= i < g0.cells@.len() && (#[trigger] g0.cells@[i]).resolved implies g.cells@[i]
                == g0.cells@[i] by {
                assert(gq.cells@[i] == g0.cells@[i]);
            }
            assert forall|i: int| 0 <= i < g0.cells@.len() implies (#[trigger] g.cells@[i]).options
                .spec_subset(g0.cells@[i].options) by {
                assert(gq.cells@[i].options.spec_subset(g0.cells@[i].options));
            }
            assert forall|i: int|
                0 <= i < g0.cells@.len() && i != seed_idx && !(#[trigger] g0.cells@[i]).resolved
                    && g.cells@[i].resolved implies g0.cells@[i].options.spec_contains(
                g.cells@[i].state,
            ) by {
                if i != idx {
                    assert(g.cells@[i] == gq.cells@[i]);
                }
            }
        }
        cur_row = cell.row;
        cur_col = cell.col;
    }
    Ok(iterations)
}

/// Carry the loop's evolution facts across one propagation step,
/// which touches nothing but option sets.
proof fn carry_invariants(g0: Grid, gp: Grid, gc: Grid, seed_idx: int)
    requires
        preserves_resolved(g0, gp),
        options_narrow(g0, gp),
        coords_match(g0, gp),
        preserves_resolved(gp, gc),
        options_narrow(gp, gc),
        only_options_changed(gp, gc),
        0 <= seed_idx < g0.cells@.len(),
        gp.cells@[seed_idx].resolved,
        gp.cells@[seed_idx].state == Terrain::Grass,
        forall|i: int|
            0 <= i < g0.cells@.len() && i != seed_idx && !(#[trigger] g0.cells@[i]).resolved
                && gp.cells@[i].resolved ==> g0.cells@[i].options.spec_contains(gp.cells@[i].state),
        forall|i: int|
            0 <= i < g0.cells@.len() && !(#[trigger] gp.cells@[i]).resolved ==> gp.cells@[i].state
                == g0.cells@[i].state,
    ensures
        preserves_resolved(g0, gc),
        options_narrow(g0, gc),
        coords_match(g0, gc),
        resolved_count(gc.cells@) == resolved_count(gp.cells@),
        gc.cells@[seed_idx].resolved,
        gc.cells@[seed_idx].state == Terrain::Grass,
        forall|i: int|
            0 <= i < g0.cells@.len() && i != seed_idx && !(#[trigger] g0.cells@[i]).resolved
                && gc.cells@[i].resolved ==> g0.cells@[i].options.spec_contains(gc.cells@[i].state),
        forall|i: int|
            0 <= i < g0.cells@.len() && !(#[trigger] gc.cells@[i]).resolved ==> gc.cells@[i].state
                == g0.cells@[i].state,
{
    lemma_options_only_coords(gp, gc);
    lemma_evolution_trans(g0, gp, gc);
    assert forall|i: int|
        0 <= i < gp.cells@.len() implies (#[trigger] gc.cells@[i]).resolved
        == gp.cells@[i].resolved by {
        assert(gc.cells@[i] == with_options(gp.cells@[i], gc.cells@[i].options));
    }
    lemma_resolved_count_same(gp.cells@, gc.cells@);
    assert(gc.cells@[seed_idx] == with_options(gp.cells@[seed_idx], gc.cells@[seed_idx].options));
    assert forall|i: int|
        0 <= i < g0.cells@.len() && i != seed_idx && !(#[trigger] g0.cells@[i]).resolved
            && gc.cells@[i].resolved implies g0.cells@[i].options.spec_contains(
        gc.cells@[i].state,
    ) by {
        assert(gc.cells@[i] == with_options(gp.cells@[i], gc.cells@[i].options));
    }
    assert forall|i: int|
        0 <= i < g0.cells@.len() && !(#[trigger] gc.cells@[i]).resolved implies gc.cells@[i].state
        == g0.cells@[i].state by {
        assert(gc.cells@[i] == with_options(gp.cells@[i], gc.cells@[i].options));
    }
}

/// Run the collapse/propagation loop on a freshly initialized grid:
/// force a uniformly random interior seed to `Grass`, then iterate as
/// `collapse_from` does.  The interior of the grid must still be
/// unresolved, as the initializer leaves it.
pub fn collapse(g: &mut Grid, rules: &Vec<Rule>, iterations: usize) -> (res: Result<
    usize,
    Contradiction,
>)
    requires
        old(g).wf(),
        3 <= old(g).size,
        forall|i: int|
            0 <= i < old(g).cells@.len() ==> {
                let cell = #[trigger] old(g).cells@[i];
                old(g).is_interior(cell.row as int, cell.col as int) ==> !cell.resolved
            },
    ensures
        final(g).wf(),
        final(g).size == old(g).size,
        preserves_resolved(*old(g), *final(g)),
        options_narrow(*old(g), *final(g)),
        coords_match(*old(g), *final(g)),
        exists|r: int, c: int|
            #![auto]
            old(g).is_interior(r, c) && final(g).cell_at(r, c).resolved && final(g).cell_at(
                r,
                c,
            ).state == Terrain::Grass,
        forall|i: int|
            0 <= i < old(g).cells@.len() && !(#[trigger] old(g).cells@[i]).resolved && final(g).cells@[i].resolved ==> old(g).cells@[i].options.spec_contains(final(g).cells@[i].state)
                || (old(g).is_interior(
                old(g).cells@[i].row as int,
                old(g).cells@[i].col as int,
            ) && final(g).cells@[i].state == Terrain::Grass),
        forall|i: int|
            0 <= i < old(g).cells@.len() && !(#[trigger] final(g).cells@[i]).resolved ==> final(g).cells@[i].state == old(g).cells@[i].state,
        iterations == 0 ==> res is Ok,
        match res {
            Ok(n) => n <= iterations && resolved_count(final(g).cells@) == resolved_count(
                old(g).cells@,
            ) + 1 + n && (n < iterations ==> forall|i: int|
                0 <= i < final(g).cells@.len() ==> (#[trigger] final(g).cells@[i]).resolved),
            Err(e) => final(g).in_bounds(e.row as int, e.col as int) && !final(g).cell_at(
                e.row as int,
                e.col as int,
            ).resolved && final(g).cell_at(e.row as int, e.col as int).options.spec_is_empty(),
        },
{
    let span = g.size - 2;
    let start_row = 1 + random_index(span);
    let start_col = 1 + random_index(span);
    proof {
        lemma_grid_lookup(*g, start_row as int, start_col as int);
    }
    let res = collapse_from(g, rules, start_row, start_col, iterations);
    proof {
        lemma_grid_lookup(*old(g), start_row as int, start_col as int);
        assert(old(g).is_interior(start_row as int, start_col as int));
        assert(final(g).cell_at(start_row as int, start_col as int).state == Terrain::Grass);
    }
    res
}

/// Chain one narrowing step onto the evolution seen so far.
proof fn compose_steps(a: Grid, b: Grid, c: Grid)
    requires
        preserves_resolved(a, b),
        preserves_resolved(b, c),
        options_narrow(a, b),
        options_narrow(b, c),
        only_options_changed(a, b),
        only_options_changed(b, c),
    ensures
        preserves_resolved(a, c),
        options_narrow(a, c),
        only_options_changed(a, c),
        coords_match(a, c),
{
    lemma_options_only_coords(a, b);
    lemma_options_only_coords(b, c);
    lemma_options_only_trans(a, b, c);
    lemma_evolution_trans(a, b, c);
}

} // verus!
