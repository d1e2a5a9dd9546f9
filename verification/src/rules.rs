//! The static adjacency rule table: which categories may sit next to
//! which, in each of the eight compass directions.

use vstd::prelude::*;
use crate::terrain::Terrain;
use crate::terrain::TerrainSet;

verus! {

/// One of the eight compass directions from a cell to a neighbor.
#[derive(Clone, Copy, Debug, PartialEq, Eq, Structural)]
pub enum Direction {
    Top,
    Bottom,
    Left,
    Right,
    TopLeft,
    TopRight,
    BottomLeft,
    BottomRight,
}

impl Direction {
    /// The row offset of a step in this direction (rows grow downward).
    pub open spec fn spec_dr(self) -> int {
        match self {
            Direction::Top => -1,
            Direction::Bottom => 1,
            Direction::Left => 0,
            Direction::Right => 0,
            Direction::TopLeft => -1,
            Direction::TopRight => -1,
            Direction::BottomLeft => 1,
            Direction::BottomRight => 1,
        }
    }

    /// The column offset of a step in this direction.
    pub open spec fn spec_dc(self) -> int {
        match self {
            Direction::Top => 0,
            Direction::Bottom => 0,
            Direction::Left => -1,
            Direction::Right => 1,
            Direction::TopLeft => -1,
            Direction::TopRight => 1,
            Direction::BottomLeft => -1,
            Direction::BottomRight => 1,
        }
    }

    /// The direction with both offsets negated.
    pub open spec fn spec_opposite(self) -> Direction {
        match self {
            Direction::Top => Direction::Bottom,
            Direction::Bottom => Direction::Top,
            Direction::Left => Direction::Right,
            Direction::Right => Direction::Left,
            Direction::TopLeft => Direction::BottomRight,
            Direction::TopRight => Direction::BottomLeft,
            Direction::BottomLeft => Direction::TopRight,
            Direction::BottomRight => Direction::TopLeft,
        }
    }
}

/// The adjacency rule for one terrain category: for each of the eight
/// directions, the categories permitted to occupy the neighboring cell
/// in that direction when the current cell holds `tile`.
#[derive(Clone, Copy, Debug, PartialEq, Eq, Structural)]
pub struct Rule {
    pub tile: Terrain,
    pub top: TerrainSet,
    pub bottom: TerrainSet,
    pub left: TerrainSet,
    pub right: TerrainSet,
    pub top_left: TerrainSet,
    pub top_right: TerrainSet,
    pub bottom_left: TerrainSet,
    pub bottom_right: TerrainSet,
}

impl Rule {
    /// The permitted set for direction `d`.
    pub open spec fn spec_dir_set(self, d: Direction) -> TerrainSet {
        match d {
            Direction::Top => self.top,
            Direction::Bottom => self.bottom,
            Direction::Left => self.left,
            Direction::Right => self.right,
            Direction::TopLeft => self.top_left,
            Direction::TopRight => self.top_right,
            Direction::BottomLeft => self.bottom_left,
            Direction::BottomRight => self.bottom_right,
        }
    }

    /// The permitted set for direction `d`.
    pub fn dir_set(&self, d: Direction) -> (s: TerrainSet)
        ensures
            s == self.spec_dir_set(d),
    {
        match d {
            Direction::Top => self.top,
            Direction::Bottom => self.bottom,
            Direction::Left => self.left,
            Direction::Right => self.right,
            Direction::TopLeft => self.top_left,
            Direction::TopRight => self.top_right,
            Direction::BottomLeft => self.bottom_left,
            Direction::BottomRight => self.bottom_right,
        }
    }
}

/// The categories permitted next to `t`, the same in every direction:
/// grass borders grass, forest and water; forest borders forest, grass
/// and mountain; mountain borders mountain and forest; water borders
/// water and grass; an `Empty` border cell permits any placeable
/// category beside it.
pub open spec fn allowed(t: Terrain) -> TerrainSet {
    match t {
        Terrain::Grass => TerrainSet {
            grass: true,
            water: true,
            mountain: false,
            forest: true,
            empty: false,
        },
        Terrain::Forest => TerrainSet {
            grass: true,
            water: false,
            mountain: true,
            forest: true,
            empty: false,
        },
        Terrain::Mountain => TerrainSet {
            grass: false,
            water: false,
            mountain: true,
            forest: true,
            empty: false,
        },
        Terrain::Water => TerrainSet {
            grass: true,
            water: true,
            mountain: false,
            forest: false,
            empty: false,
        },
        Terrain::Empty => TerrainSet::spec_all_real(),
    }
}

/// The rule entry for category `t`: the same permitted set, `allowed(t)`,
/// in all eight directions.
pub open spec fn spec_rule_for(t: Terrain) -> Rule {
    Rule {
        tile: t,
        top: allowed(t),
        bottom: allowed(t),
        left: allowed(t),
        right: allowed(t),
        top_left: allowed(t),
        top_right: allowed(t),
        bottom_left: allowed(t),
        bottom_right: allowed(t),
    }
}

/// The reference rule table: one entry per category, in the fixed order
/// `Grass, Forest, Mountain, Water, Empty`.
pub open spec fn spec_rule_table() -> Seq<Rule> {
    seq![
        spec_rule_for(Terrain::Grass),
        spec_rule_for(Terrain::Forest),
        spec_rule_for(Terrain::Mountain),
        spec_rule_for(Terrain::Water),
        spec_rule_for(Terrain::Empty),
    ]
}

/// The permitted set for `t`, as an executable value.
pub fn allowed_set(t: Terrain) -> (s: TerrainSet)
    ensures
        s == allowed(t),
{
    match t {
        Terrain::Grass => TerrainSet {
            grass: true,
            water: true,
            mountain: false,
            forest: true,
            empty: false,
        },
        Terrain::Forest => TerrainSet {
            grass: true,
            water: false,
            mountain: true,
            forest: true,
            empty: false,
        },
        Terrain::Mountain => TerrainSet {
            grass: false,
            water: false,
            mountain: true,
            forest: true,
            empty: false,
        },
        Terrain::Water => TerrainSet {
            grass: true,
            water: true,
            mountain: false,
            forest: false,
            empty: false,
        },
        Terrain::Empty => TerrainSet::all_real(),
    }
}

/// The rule entry for category `t`.
fn rule_for(t: Terrain) -> (r: Rule)
    ensures
        r == spec_rule_for(t),
{
    let a = allowed_set(t);
    Rule {
        tile: t,
        top: a,
        bottom: a,
        left: a,
        right: a,
        top_left: a,
        top_right: a,
        bottom_left: a,
        bottom_right: a,
    }
}

/// Build the static adjacency rule table, one entry per terrain
/// category.  Pure construction; no side effects.
pub fn build_rules() -> (rules: Vec<Rule>)
    ensures
        rules@ == spec_rule_table(),
        rules@.len() == 5,
        forall|i: int, d: Direction|
            0 <= i < rules@.len() ==> (#[trigger] rules@[i].spec_dir_set(d)) == allowed(
                rules@[i].tile,
            ),
{
    let mut rules: Vec<Rule> = Vec::new();
    rules.push(rule_for(Terrain::Grass));
    rules.push(rule_for(Terrain::Forest));
    rules.push(rule_for(Terrain::Mountain));
    rules.push(rule_for(Terrain::Water));
    rules.push(rule_for(Terrain::Empty));
    proof {
        assert(rules@ =~= spec_rule_table());
    }
    rules
}

/// Law: between placeable categories, adjacency permission is
/// symmetric — whenever `b` is permitted beside `a`, `a` is permitted
/// beside `b`.  The sentinel `Empty` is the one asymmetry of the
/// reference table (every placeable category is permitted beside
/// `Empty`, but `Empty` is permitted beside none) and is left out here.
pub proof fn lemma_rule_symmetry(a: Terrain, b: Terrain)
    requires
        a != Terrain::Empty,
        b != Terrain::Empty,
    ensures
        allowed(a).spec_contains(b) == allowed(b).spec_contains(a),
{
}

/// Law: in the reference table the permitted sets are direction-blind,
/// so whenever `b` is permitted in direction `d` from `a`, `a` is
/// permitted in the opposite direction from `b` — for placeable
/// categories.
pub proof fn lemma_rule_table_symmetry(a: Terrain, b: Terrain, d: Direction)
    requires
        a != Terrain::Empty,
        b != Terrain::Empty,
    ensures
        spec_rule_for(a).spec_dir_set(d).spec_contains(b) == spec_rule_for(
            b,
        ).spec_dir_set(d.spec_opposite()).spec_contains(a),
{
    lemma_rule_symmetry(a, b);
}

} // verus!
