//! Tests of the grid engine: rule table, initializer, selector, and
//! the collapse/propagation loop.

use wfc_grid::collapse::collapse;
use wfc_grid::collapse::collapse_from;
use wfc_grid::collapse::propagate;
use wfc_grid::collapse::ITERATIONS;
use wfc_grid::entropy::pick_lowest_entropy;
use wfc_grid::grid::build_grid;
use wfc_grid::grid::Grid;
use wfc_grid::rules::allowed_set;
use wfc_grid::rules::build_rules;
use wfc_grid::rules::Rule;
use wfc_grid::terrain::Terrain;
use wfc_grid::terrain::TerrainSet;
use wfc_grid::ROWS;

fn set_of(members: &[Terrain]) -> TerrainSet {
    let mut s = TerrainSet::none();
    for t in members {
        s = s.with(*t);
    }
    s
}

fn real_terrains() -> [Terrain; 4] {
    [Terrain::Grass, Terrain::Water, Terrain::Mountain, Terrain::Forest]
}

#[test]
fn terrain_set_operations() {
    let s = set_of(&[Terrain::Grass, Terrain::Water]);
    assert_eq!(s.count(), 2);
    assert!(s.has(Terrain::Grass));
    assert!(s.has(Terrain::Water));
    assert!(!s.has(Terrain::Forest));
    assert!(!s.is_empty());
    assert!(TerrainSet::none().is_empty());
    assert_eq!(TerrainSet::all_real().count(), 4);
    assert_eq!(TerrainSet::only(Terrain::Empty).count(), 1);
    assert!(TerrainSet::only(Terrain::Empty).has(Terrain::Empty));

    let t = set_of(&[Terrain::Water, Terrain::Forest]);
    let both = s.intersect(&t);
    assert_eq!(both, TerrainSet::only(Terrain::Water));
    assert!(both.subset_of(&s));
    assert!(both.subset_of(&t));
    assert!(!s.subset_of(&t));

    assert_eq!(s.nth(0), Terrain::Grass);
    assert_eq!(s.nth(1), Terrain::Water);
    let all = TerrainSet::all_real();
    assert_eq!(all.nth(2), Terrain::Mountain);
    assert_eq!(all.nth(3), Terrain::Forest);
}

#[test]
fn rule_table_contents() {
    let rules = build_rules();
    assert_eq!(rules.len(), 5);
    let tiles: Vec<Terrain> = rules.iter().map(|r| r.tile).collect();
    assert_eq!(
        tiles,
        vec![Terrain::Grass, Terrain::Forest, Terrain::Mountain, Terrain::Water, Terrain::Empty]
    );
    assert_eq!(rules[0].top, set_of(&[Terrain::Grass, Terrain::Forest, Terrain::Water]));
    assert_eq!(rules[1].top, set_of(&[Terrain::Forest, Terrain::Grass, Terrain::Mountain]));
    assert_eq!(rules[2].top, set_of(&[Terrain::Mountain, Terrain::Forest]));
    assert_eq!(rules[3].top, set_of(&[Terrain::Water, Terrain::Grass]));
    assert_eq!(rules[4].top, TerrainSet::all_real());
    for rule in &rules {
        for s in [
            rule.bottom, rule.left, rule.right, rule.top_left, rule.top_right, rule.bottom_left,
            rule.bottom_right,
        ] {
            assert_eq!(s, rule.top);
        }
    }
}

#[test]
fn rule_symmetry_between_real_terrains() {
    for a in real_terrains() {
        for b in real_terrains() {
            assert_eq!(
                allowed_set(a).has(b),
                allowed_set(b).has(a),
                "asymmetry between {:?} and {:?}",
                a,
                b
            );
        }
    }
}

#[test]
fn rule_asymmetry_of_the_sentinel() {
    for t in real_terrains() {
        assert!(allowed_set(Terrain::Empty).has(t));
        assert!(!allowed_set(t).has(Terrain::Empty));
    }
}

fn idx(g: &Grid, r: usize, c: usize) -> usize {
    r * g.size + c
}

fn assert_border_empty(g: &Grid) {
    for r in 0..g.size {
        for c in 0..g.size {
            if r == 0 || r == g.size - 1 || c == 0 || c == g.size - 1 {
                let cell = &g.cells[idx(g, r, c)];
                assert!(cell.resolved, "border cell ({}, {}) not resolved", r, c);
                assert_eq!(cell.state, Terrain::Empty);
            }
        }
    }
}

#[test]
fn initial_grid_shape_and_border() {
    let g = build_grid(4);
    assert_eq!(g.size, 4);
    assert_eq!(g.cells.len(), 16);
    assert_border_empty(&g);
    let mut interior = 0;
    for r in 0..4 {
        for c in 0..4 {
            let cell = &g.cells[idx(&g, r, c)];
            assert_eq!(cell.row, r);
            assert_eq!(cell.col, c);
            if r == 0 || r == 3 || c == 0 || c == 3 {
                assert_eq!(cell.options, TerrainSet::only(Terrain::Empty));
            } else {
                assert!(!cell.resolved);
                assert_eq!(cell.options, TerrainSet::all_real());
                interior += 1;
            }
        }
    }
    assert_eq!(interior, 4);
}

#[test]
fn border_stays_empty_through_a_run() {
    let rules = build_rules();
    let mut g = build_grid(6);
    let _ = collapse_from(&mut g, &rules, 2, 3, 25);
    assert_border_empty(&g);
}

#[test]
fn propagation_narrows_only_the_neighbors() {
    let rules = build_rules();
    let mut g = build_grid(5);
    let seed = idx(&g, 2, 2);
    g.cells[seed].state = Terrain::Grass;
    g.cells[seed].resolved = true;
    let before = g.cells.clone();
    let res = propagate(&mut g, 2, 2, &rules);
    assert!(res.is_ok());
    let permitted = set_of(&[Terrain::Grass, Terrain::Forest, Terrain::Water]);
    for r in 0..5 {
        for c in 0..5 {
            let i = idx(&g, r, c);
            let adjacent =
                !(r == 2 && c == 2) && (1..=3).contains(&r) && (1..=3).contains(&c);
            if adjacent && !before[i].resolved {
                assert_eq!(g.cells[i].options, before[i].options.intersect(&permitted));
                assert_eq!(g.cells[i].resolved, before[i].resolved);
                assert_eq!(g.cells[i].state, before[i].state);
            } else {
                assert_eq!(g.cells[i], before[i]);
            }
        }
    }
}

#[test]
fn options_narrow_monotonically() {
    let rules = build_rules();
    let mut g = build_grid(7);
    let before = g.cells.clone();
    let _ = collapse_from(&mut g, &rules, 3, 3, 12);
    for (after, prior) in g.cells.iter().zip(before.iter()) {
        assert!(after.options.subset_of(&prior.options));
    }
}

#[test]
fn resolved_cells_never_change() {
    let rules = build_rules();
    let mut g = build_grid(7);
    let _ = collapse_from(&mut g, &rules, 2, 4, 6);
    let mid = g.cells.clone();
    // Continue narrowing from an already-resolved cell: nothing that is
    // resolved may move again.
    let _ = propagate(&mut g, 2, 4, &rules);
    for (after, prior) in g.cells.iter().zip(mid.iter()) {
        if prior.resolved {
            assert_eq!(after, prior);
        }
    }
}

#[test]
fn entropy_picks_a_fewest_option_cell() {
    // Unresolved cells with option counts {3, 1, 1, 2}: the selector
    // must return one of the two count-1 cells every time.
    let mut g = build_grid(6);
    for r in 1..5 {
        for c in 1..5 {
            g.cells[r * 6 + c].resolved = true;
        }
    }
    let spots = [
        (1usize, 1usize, set_of(&[Terrain::Grass, Terrain::Water, Terrain::Mountain])),
        (1, 2, set_of(&[Terrain::Water])),
        (2, 1, set_of(&[Terrain::Mountain])),
        (2, 2, set_of(&[Terrain::Grass, Terrain::Forest])),
    ];
    for (r, c, options) in &spots {
        let i = r * 6 + c;
        g.cells[i].resolved = false;
        g.cells[i].options = *options;
    }
    for _ in 0..40 {
        let picked = pick_lowest_entropy(&g);
        assert!(picked == 1 * 6 + 2 || picked == 2 * 6 + 1, "picked index {}", picked);
    }
}

#[test]
fn entropy_on_a_single_candidate() {
    let mut g = build_grid(5);
    for cell in g.cells.iter_mut() {
        cell.resolved = true;
    }
    g.cells[2 * 5 + 3].resolved = false;
    for _ in 0..10 {
        assert_eq!(pick_lowest_entropy(&g), 2 * 5 + 3);
    }
}

#[test]
fn one_iteration_on_a_four_by_four() {
    // A 4x4 grid has a 2x2 interior.  One iteration from a forced
    // Grass seed must narrow every other interior cell to exactly the
    // permitted set for Grass, and leave all 12 border cells at Empty.
    let rules = build_rules();
    let mut g = build_grid(4);
    let res = collapse_from(&mut g, &rules, 1, 1, 1);
    assert_eq!(res, Ok(1));
    let seed = &g.cells[1 * 4 + 1];
    assert!(seed.resolved);
    assert_eq!(seed.state, Terrain::Grass);
    let permitted = set_of(&[Terrain::Grass, Terrain::Forest, Terrain::Water]);
    for (r, c) in [(1usize, 2usize), (2, 1), (2, 2)] {
        let cell = &g.cells[r * 4 + c];
        assert_eq!(cell.options, permitted);
        if cell.resolved {
            assert!(permitted.has(cell.state));
        }
    }
    assert_border_empty(&g);
}

fn hostile_rule(tile: Terrain, permits: Terrain) -> Rule {
    let s = TerrainSet::only(permits);
    Rule {
        tile,
        top: s,
        bottom: s,
        left: s,
        right: s,
        top_left: s,
        top_right: s,
        bottom_left: s,
        bottom_right: s,
    }
}

#[test]
fn disjoint_rules_surface_a_contradiction() {
    // Grass tolerates only Water beside it and Water only Grass: two
    // adjacent interior cells must run into an empty option set.
    let rules = vec![
        hostile_rule(Terrain::Grass, Terrain::Water),
        hostile_rule(Terrain::Water, Terrain::Grass),
    ];
    let mut g = build_grid(4);
    let res = collapse_from(&mut g, &rules, 1, 1, 5);
    let err = res.expect_err("a contradiction was owed");
    assert!(err.row < 4 && err.col < 4);
    let cell = &g.cells[err.row * 4 + err.col];
    assert!(!cell.resolved);
    assert!(cell.options.is_empty());
    assert_eq!(cell.options.count(), 0);
}

#[test]
fn zero_iterations_force_only_the_seed() {
    let rules = build_rules();
    let mut g = build_grid(8);
    let before = g.cells.clone();
    let res = collapse_from(&mut g, &rules, 4, 5, 0);
    assert_eq!(res, Ok(0));
    for (i, (after, prior)) in g.cells.iter().zip(before.iter()).enumerate() {
        if i == 4 * 8 + 5 {
            assert!(after.resolved);
            assert_eq!(after.state, Terrain::Grass);
            assert_eq!(after.options, prior.options);
        } else {
            assert_eq!(after, prior);
        }
    }
}

fn count_resolved(g: &Grid) -> usize {
    g.cells.iter().filter(|cell| cell.resolved).count()
}

#[test]
fn budget_is_spent_exactly_while_cells_remain() {
    // Three iterations cannot resolve a 10x10 interior, so the loop
    // must return after exactly its configured count, having resolved
    // the seed plus one cell per iteration.
    let rules = build_rules();
    let mut g = build_grid(12);
    let before = count_resolved(&g);
    let res = collapse_from(&mut g, &rules, 6, 6, 3);
    assert_eq!(res, Ok(3));
    assert_eq!(count_resolved(&g), before + 1 + 3);
    assert!(g.cells.iter().any(|cell| !cell.resolved));
}

#[test]
fn run_stops_once_the_grid_resolves() {
    // On a 4x4 grid the reference rules can never empty an option set
    // (every narrowed set keeps Grass), so the run must resolve the
    // 2x2 interior and stop: seed plus one cell for each of exactly
    // three iterations, well short of the budget.
    let rules = build_rules();
    let mut g = build_grid(4);
    let res = collapse_from(&mut g, &rules, 1, 1, 50);
    assert_eq!(res, Ok(3));
    assert!(g.cells.iter().all(|cell| cell.resolved));
}

#[test]
fn full_run_on_the_reference_configuration() {
    let rules = build_rules();
    let mut g = build_grid(ROWS);
    match collapse(&mut g, &rules, ITERATIONS) {
        Ok(n) => {
            assert!(n <= ITERATIONS);
            assert_border_empty(&g);
            for cell in &g.cells {
                let border = cell.row == 0
                    || cell.row == g.size - 1
                    || cell.col == 0
                    || cell.col == g.size - 1;
                if cell.resolved && !border {
                    assert_ne!(cell.state, Terrain::Empty);
                }
            }
        }
        Err(e) => {
            let cell = &g.cells[e.row * g.size + e.col];
            assert!(!cell.resolved);
            assert!(cell.options.is_empty());
        }
    }
}
