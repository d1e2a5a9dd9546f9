//! The entropy-based cell-selection policy: among unresolved cells,
//! pick one with the fewest remaining options, ties broken at random.

use vstd::prelude::*;
use crate::grid::Grid;
use crate::rng::random_index;

verus! {

/// Scan the whole grid and return the flat index of one unresolved
/// cell whose option count is minimal among all unresolved cells; when
/// several attain the minimum, one of them is chosen at random.  Must
/// only be called while an unresolved cell remains.
pub fn pick_lowest_entropy(g: &Grid) -> (idx: usize)
    requires
        exists|i: int| 0 <= i < g.cells@.len() && !(#[trigger] g.cells@[i]).resolved,
    ensures
        idx < g.cells@.len(),
        !g.cells@[idx as int].resolved,
        forall|j: int|
            0 <= j < g.cells@.len() && !(#[trigger] g.cells@[j]).resolved ==> g.cells@[idx as int].options.spec_count()
                <= g.cells@[j].options.spec_count(),
{
    let n = g.cells.len();
    let mut lowest: usize = usize::MAX;
    let mut candidates: Vec<usize> = Vec::new();
    for i in 0..n
        invariant
            n == g.cells@.len(),
            candidates@.len() == 0 ==> lowest == usize::MAX && forall|j: int|
                0 <= j < i ==> (#[trigger] g.cells@[j]).resolved,
            forall|k: int|
                0 <= k < candidates@.len() ==> {
                    let cj = #[trigger] candidates@[k];
                    &&& cj < i
                    &&& !g.cells@[cj as int].resolved
                    &&& g.cells@[cj as int].options.spec_count() == lowest
                },
            forall|j: int|
                0 <= j < i && !(#[trigger] g.cells@[j]).resolved ==> lowest <= g.cells@[j].options.spec_count(),
    {
        let cell = &g.cells[i];
        if !cell.resolved {
            let entropy = cell.options.count();
            if entropy < lowest {
                lowest = entropy;
                candidates.clear();
                candidates.push(i);
            } else if entropy == lowest {
                candidates.push(i);
            }
        }
    }
    let pick = random_index(candidates.len());
    candidates[pick]
}

} // verus!
