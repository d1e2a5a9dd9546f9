//! The cell lattice: a flat row-major sequence of cells forming a
//! square grid, and the initializer that pre-resolves the border ring.

use vstd::prelude::*;
use crate::terrain::Terrain;
use crate::terrain::TerrainSet;

verus! {

/// One grid position.  `state` is meaningful once `resolved` is true;
/// `options` is the set of categories the cell may still take while it
/// is unresolved.
#[derive(Clone, Copy, Debug, PartialEq, Eq, Structural)]
pub struct Cell {
    pub state: Terrain,
    pub row: usize,
    pub col: usize,
    pub resolved: bool,
    pub options: TerrainSet,
}

/// `cell` with its option set replaced and every other field kept.
pub open spec fn with_options(cell: Cell, options: TerrainSet) -> Cell {
    Cell { options, ..cell }
}

/// A square lattice of `size * size` cells in row-major order:
/// the cell at row `r`, column `c` sits at index `r * size + c`.
pub struct Grid {
    pub size: usize,
    pub cells: Vec<Cell>,
}

impl Grid {
    /// The flat index of row `r`, column `c`.
    pub open spec fn flat(self, r: int, c: int) -> int {
        r * self.size + c
    }

    /// The cell at row `r`, column `c`.
    pub open spec fn cell_at(self, r: int, c: int) -> Cell {
        self.cells@[self.flat(r, c)]
    }

    /// `(r, c)` lies on the grid.
    pub open spec fn in_bounds(self, r: int, c: int) -> bool {
        0 <= r < self.size && 0 <= c < self.size
    }

    /// `(r, c)` lies on the outermost ring.
    pub open spec fn is_border(self, r: int, c: int) -> bool {
        r == 0 || r == self.size - 1 || c == 0 || c == self.size - 1
    }

    /// `(r, c)` lies on the grid but not on the outermost ring.
    pub open spec fn is_interior(self, r: int, c: int) -> bool {
        self.in_bounds(r, c) && !self.is_border(r, c)
    }

    /// Well-formedness: the lattice holds exactly `size * size` cells,
    /// and every cell records the coordinates of its own position.
    pub open spec fn wf(self) -> bool {
        &&& self.cells@.len() == self.size * self.size
        &&& forall|i: int|
            0 <= i < self.cells@.len() ==> {
                let cell = #[trigger] self.cells@[i];
                &&& cell.row < self.size
                &&& cell.col < self.size
                &&& cell.row * self.size + cell.col == i
            }
    }

    /// Read the cell at row `r`, column `c`.
    pub fn get(&self, r: usize, c: usize) -> (cell: Cell)
        requires
            self.wf(),
            r < self.size,
            c < self.size,
        ensures
            cell == self.cell_at(r as int, c as int),
            cell.row == r,
            cell.col == c,
    {
        let n = self.cells.len();
        proof {
            lemma_grid_lookup(*self, r as int, c as int);
        }
        self.cells[r * self.size + c]
    }

    /// Replace the cell at row `r`, column `c`; the new cell must carry
    /// those same coordinates.
    pub fn set(&mut self, r: usize, c: usize, cell: Cell)
        requires
            old(self).wf(),
            r < old(self).size,
            c < old(self).size,
            cell.row == r,
            cell.col == c,
        ensures
            final(self).wf(),
            final(self).size == old(self).size,
            final(self).cells@.len() == old(self).cells@.len(),
            final(self).cell_at(r as int, c as int) == cell,
            final(self).cells@ == old(self).cells@.update(old(self).flat(r as int, c as int), cell),
            forall|rr: int, cc: int|
                old(self).in_bounds(rr, cc) && !(rr == r && cc == c) ==> final(self).cell_at(rr, cc)
                    == old(self).cell_at(rr, cc),
    {
        let n = self.cells.len();
        proof {
            lemma_grid_lookup(*self, r as int, c as int);
        }
        let i = r * self.size + c;
        self.cells.set(i, cell);
        proof {
            assert forall|rr: int, cc: int|
                old(self).in_bounds(rr, cc) && !(rr == r && cc == c) implies final(self).cell_at(
                rr,
                cc,
            ) == old(self).cell_at(rr, cc) by {
                lemma_grid_lookup(*old(self), rr, cc);
                if old(self).flat(rr, cc) == old(self).flat(r as int, c as int) {
                    lemma_flat_injective(old(self).size as int, rr, cc, r as int, c as int);
                }
            }
            assert(final(self).wf());
        }
    }

    /// Whether some cell of the grid is still unresolved.
    pub fn has_unresolved(&self) -> (b: bool)
        ensures
            b == exists|i: int|
                0 <= i < self.cells@.len() && !(#[trigger] self.cells@[i]).resolved,
    {
        let n = self.cells.len();
        for i in 0..n
            invariant
                n == self.cells@.len(),
                forall|j: int| 0 <= j < i ==> (#[trigger] self.cells@[j]).resolved,
        {
            if !self.cells[i].resolved {
                return true;
            }
        }
        false
    }
}

/// For `r < size` and `c < size` the flat index `r * size + c` lies
/// within a lattice of `size * size` cells.
pub proof fn lemma_flat_in_range(size: int, r: int, c: int)
    requires
        0 <= r < size,
        0 <= c < size,
    ensures
        0 <= r * size + c < size * size,
{
    assert(0 <= r * size + c < size * size) by (nonlinear_arith)
        requires
            0 <= r < size,
            0 <= c < size,
    ;
}

/// Row-major flattening is injective: two coordinate pairs with the
/// same flat index are the same pair.
pub proof fn lemma_flat_injective(size: int, r1: int, c1: int, r2: int, c2: int)
    requires
        0 <= r1 < size,
        0 <= c1 < size,
        0 <= r2 < size,
        0 <= c2 < size,
        r1 * size + c1 == r2 * size + c2,
    ensures
        r1 == r2,
        c1 == c2,
{
    assert(r1 == r2 && c1 == c2) by (nonlinear_arith)
        requires
            0 <= r1 < size,
            0 <= c1 < size,
            0 <= r2 < size,
            0 <= c2 < size,
            r1 * size + c1 == r2 * size + c2,
    ;
}

/// In a well-formed grid the cell at flat index `r * size + c` records
/// exactly the coordinates `(r, c)`.
pub proof fn lemma_grid_lookup(g: Grid, r: int, c: int)
    requires
        g.wf(),
        g.in_bounds(r, c),
    ensures
        0 <= g.flat(r, c) < g.cells@.len(),
        g.cell_at(r, c).row == r,
        g.cell_at(r, c).col == c,
{
    lemma_flat_in_range(g.size as int, r, c);
    let cell = g.cells@[g.flat(r, c)];
    lemma_flat_injective(g.size as int, cell.row as int, cell.col as int, r, c);
}

/// The cell the initializer places at row `r`, column `c` of a grid of
/// the given size: border cells are pre-resolved to the sentinel
/// `Empty` with `{Empty}` as their only option; interior cells start
/// unresolved with every placeable category admissible.
pub open spec fn spec_initial_cell(size: int, r: int, c: int) -> Cell {
    if r == 0 || r == size - 1 || c == 0 || c == size - 1 {
        Cell {
            state: Terrain::Empty,
            row: r as usize,
            col: c as usize,
            resolved: true,
            options: TerrainSet::spec_only(Terrain::Empty),
        }
    } else {
        Cell {
            state: Terrain::Empty,
            row: r as usize,
            col: c as usize,
            resolved: false,
            options: TerrainSet::spec_all_real(),
        }
    }
}

/// Every border cell of `g` is resolved to the sentinel `Empty`.
pub open spec fn border_resolved_empty(g: Grid) -> bool {
    forall|r: int, c: int|
        g.in_bounds(r, c) && g.is_border(r, c) ==> (#[trigger] g.cell_at(r, c)).resolved
            && g.cell_at(r, c).state == Terrain::Empty
}

/// Build the initial cell lattice for a square grid of the given size.
/// Deterministic: cells on the outermost ring are pre-resolved to
/// `Empty`, interior cells start unresolved with all four placeable
/// categories as options.
pub fn build_grid(size: usize) -> (g: Grid)
    requires
        size * size <= usize::MAX,
    ensures
        g.wf(),
        g.size == size,
        forall|r: int, c: int|
            g.in_bounds(r, c) ==> #[trigger] g.cell_at(r, c) == spec_initial_cell(
                size as int,
                r,
                c,
            ),
        border_resolved_empty(g),
{
    let mut cells: Vec<Cell> = Vec::new();
    for row in 0..size
        invariant
            size * size <= usize::MAX,
            cells@.len() == row * size,
            forall|i: int|
                0 <= i < cells@.len() ==> {
                    let cell = #[trigger] cells@[i];
                    &&& cell.row < size
                    &&& cell.col < size
                    &&& cell.row * size + cell.col == i
                    &&& cell == spec_initial_cell(size as int, cell.row as int, cell.col as int)
                },
    {
        for col in 0..size
            invariant
                size * size <= usize::MAX,
                row < size,
                cells@.len() == row * size + col,
                forall|i: int|
                    0 <= i < cells@.len() ==> {
                        let cell = #[trigger] cells@[i];
                        &&& cell.row < size
                        &&& cell.col < size
                        &&& cell.row * size + cell.col == i
                        &&& cell == spec_initial_cell(size as int, cell.row as int, cell.col as int)
                    },
        {
            proof {
                lemma_flat_in_range(size as int, row as int, col as int);
            }
            let border = row == 0 || row == size - 1 || col == 0 || col == size - 1;
            let cell = if border {
                Cell {
                    state: Terrain::Empty,
                    row,
                    col,
                    resolved: true,
                    options: TerrainSet::only(Terrain::Empty),
                }
            } else {
                Cell {
                    state: Terrain::Empty,
                    row,
                    col,
                    resolved: false,
                    options: TerrainSet::all_real(),
                }
            };
            cells.push(cell);
        }
        proof {
            assert(row * size + size == (row + 1) * size) by (nonlinear_arith);
        }
    }
    let g = Grid { size, cells };
    proof {
        assert(g.wf());
        assert forall|r: int, c: int| g.in_bounds(r, c) implies #[trigger] g.cell_at(r, c)
            == spec_initial_cell(size as int, r, c) by {
            lemma_grid_lookup(g, r, c);
        }
    }
    g
}

/// A step from `a` to `b` that leaves every resolved cell of `a`
/// untouched: the lattice keeps its shape, and each cell that was
/// already resolved in `a` is carried over unchanged.
pub open spec fn preserves_resolved(a: Grid, b: Grid) -> bool {
    &&& a.size == b.size
    &&& a.cells@.len() == b.cells@.len()
    &&& forall|i: int|
        0 <= i < a.cells@.len() && (#[trigger] a.cells@[i]).resolved ==> b.cells@[i] == a.cells@[i]
}

/// Every cell's option set in `b` is a subset of its option set in `a`,
/// and the lattice keeps its shape.
pub open spec fn options_narrow(a: Grid, b: Grid) -> bool {
    &&& a.size == b.size
    &&& a.cells@.len() == b.cells@.len()
    &&& forall|i: int|
        0 <= i < a.cells@.len() ==> (#[trigger] b.cells@[i]).options.spec_subset(
            a.cells@[i].options,
        )
}

/// Law: a grid whose border ring is resolved to `Empty` keeps that
/// border through any step that leaves resolved cells unchanged; in
/// particular the border placed by the initializer outlives the whole
/// collapse run.
pub proof fn lemma_border_preserved(a: Grid, b: Grid)
    requires
        a.wf(),
        border_resolved_empty(a),
        preserves_resolved(a, b),
    ensures
        border_resolved_empty(b),
{
    assert forall|r: int, c: int| b.in_bounds(r, c) && b.is_border(r, c) implies (#[trigger] b
        .cell_at(r, c)).resolved && b.cell_at(r, c).state == Terrain::Empty by {
        lemma_grid_lookup(a, r, c);
        assert(a.cell_at(r, c).resolved);
    }
}

/// How many of the cells are resolved.
pub open spec fn resolved_count(cells: Seq<Cell>) -> int
    decreases cells.len(),
{
    if cells.len() == 0 {
        0
    } else {
        resolved_count(cells.drop_last()) + if cells.last().resolved {
            1int
        } else {
            0int
        }
    }
}

/// Law: replacing one cell moves the resolved count by exactly the
/// difference the replacement makes at that index.
pub proof fn lemma_resolved_count_update(cells: Seq<Cell>, i: int, c: Cell)
    requires
        0 <= i < cells.len(),
    ensures
        resolved_count(cells.update(i, c)) == resolved_count(cells) - (if cells[i].resolved {
            1int
        } else {
            0int
        }) + (if c.resolved {
            1int
        } else {
            0int
        }),
    decreases cells.len(),
{
    let upd = cells.update(i, c);
    if i == cells.len() - 1 {
        assert(upd.drop_last() =~= cells.drop_last());
        assert(upd.last() == c);
    } else {
        assert(upd.drop_last() =~= cells.drop_last().update(i, c));
        assert(upd.last() == cells.last());
        lemma_resolved_count_update(cells.drop_last(), i, c);
    }
}

/// Law: two lattices whose cells agree on the resolved flag at every
/// index have the same resolved count.
pub proof fn lemma_resolved_count_same(a: Seq<Cell>, b: Seq<Cell>)
    requires
        a.len() == b.len(),
        forall|i: int| 0 <= i < a.len() ==> (#[trigger] b[i]).resolved == a[i].resolved,
    ensures
        resolved_count(a) == resolved_count(b),
    decreases a.len(),
{
    if a.len() > 0 {
        assert forall|i: int|
            0 <= i < a.drop_last().len() implies (#[trigger] b.drop_last()[i]).resolved
            == a.drop_last()[i].resolved by {
            assert(b.drop_last()[i] == b[i]);
            assert(a.drop_last()[i] == a[i]);
        }
        lemma_resolved_count_same(a.drop_last(), b.drop_last());
        assert(b.last().resolved == a.last().resolved);
    }
}

/// The two grids give every index the same coordinates.
pub open spec fn coords_match(a: Grid, b: Grid) -> bool {
    &&& a.cells@.len() == b.cells@.len()
    &&& forall|i: int|
        0 <= i < a.cells@.len() ==> (#[trigger] b.cells@[i]).row == a.cells@[i].row
            && b.cells@[i].col == a.cells@[i].col
}

/// Each cell of `b` differs from its counterpart in `a` at most in its
/// option set: coordinates, state and the resolved flag are kept.
pub open spec fn only_options_changed(a: Grid, b: Grid) -> bool {
    &&& a.size == b.size
    &&& a.cells@.len() == b.cells@.len()
    &&& forall|i: int|
        0 <= i < a.cells@.len() ==> #[trigger] b.cells@[i] == with_options(
            a.cells@[i],
            b.cells@[i].options,
        )
}

/// A step that touches nothing but option sets keeps every coordinate.
pub proof fn lemma_options_only_coords(a: Grid, b: Grid)
    requires
        only_options_changed(a, b),
    ensures
        coords_match(a, b),
{
}

/// Law: steps that touch nothing but option sets compose.
pub proof fn lemma_options_only_trans(a: Grid, b: Grid, c: Grid)
    requires
        only_options_changed(a, b),
        only_options_changed(b, c),
    ensures
        only_options_changed(a, c),
{
    assert forall|i: int| 0 <= i < a.cells@.len() implies #[trigger] c.cells@[i] == with_options(
        a.cells@[i],
        c.cells@[i].options,
    ) by {
        assert(b.cells@[i] == with_options(a.cells@[i], b.cells@[i].options));
    }
}

/// Law: the grid-evolution relations are transitive, so they span a
/// whole run when each step provides them.
pub proof fn lemma_evolution_trans(a: Grid, b: Grid, c: Grid)
    requires
        preserves_resolved(a, b),
        preserves_resolved(b, c),
        options_narrow(a, b),
        options_narrow(b, c),
        coords_match(a, b),
        coords_match(b, c),
    ensures
        preserves_resolved(a, c),
        options_narrow(a, c),
        coords_match(a, c),
{
    assert forall|i: int|
        0 <= i < a.cells@.len() && (#[trigger] a.cells@[i]).resolved implies c.cells@[i]
        == a.cells@[i] by {
        assert(b.cells@[i] == a.cells@[i]);
    }
    assert forall|i: int| 0 <= i < a.cells@.len() implies (#[trigger] c.cells@[i]).options
        .spec_subset(a.cells@[i].options) by {
        assert(b.cells@[i].options.spec_subset(a.cells@[i].options));
        assert(c.cells@[i].options.spec_subset(b.cells@[i].options));
    }
    assert forall|i: int| 0 <= i < a.cells@.len() implies (#[trigger] c.cells@[i]).row
        == a.cells@[i].row && c.cells@[i].col == a.cells@[i].col by {
        assert(b.cells@[i].row == a.cells@[i].row);
        assert(b.cells@[i].col == a.cells@[i].col);
    }
}

} // verus!
