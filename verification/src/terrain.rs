//! The terrain categories and duplicate-free sets of them.

use vstd::prelude::*;

verus! {

/// One of the five categories a grid cell can hold.  `Empty` is the
/// sentinel for cells outside the playable area (the border ring); it
/// is never placed on an interior cell.
#[derive(Clone, Copy, Debug, PartialEq, Eq, Structural)]
pub enum Terrain {
    Grass,
    Water,
    Mountain,
    Forest,
    Empty,
}

/// A duplicate-free, order-insensitive set of terrain categories,
/// kept as one membership flag per category.
#[derive(Clone, Copy, Debug, PartialEq, Eq, Structural)]
pub struct TerrainSet {
    pub grass: bool,
    pub water: bool,
    pub mountain: bool,
    pub forest: bool,
    pub empty: bool,
}

impl TerrainSet {
    /// Whether `t` is a member of the set.
    pub open spec fn spec_contains(self, t: Terrain) -> bool {
        match t {
            Terrain::Grass => self.grass,
            Terrain::Water => self.water,
            Terrain::Mountain => self.mountain,
            Terrain::Forest => self.forest,
            Terrain::Empty => self.empty,
        }
    }

    /// The members, listed in the fixed category order
    /// `Grass, Water, Mountain, Forest, Empty`.
    pub open spec fn spec_members(self) -> Seq<Terrain> {
        let s0 = Seq::<Terrain>::empty();
        let s1 = if self.grass { s0.push(Terrain::Grass) } else { s0 };
        let s2 = if self.water { s1.push(Terrain::Water) } else { s1 };
        let s3 = if self.mountain { s2.push(Terrain::Mountain) } else { s2 };
        let s4 = if self.forest { s3.push(Terrain::Forest) } else { s3 };
        if self.empty { s4.push(Terrain::Empty) } else { s4 }
    }

    /// How many categories the set holds.
    pub open spec fn spec_count(self) -> int {
        self.spec_members().len() as int
    }

    /// The set holds no category at all.
    pub open spec fn spec_is_empty(self) -> bool {
        !self.grass && !self.water && !self.mountain && !self.forest && !self.empty
    }

    /// Every member of `self` is also a member of `other`.
    pub open spec fn spec_subset(self, other: TerrainSet) -> bool {
        &&& (self.grass ==> other.grass)
        &&& (self.water ==> other.water)
        &&& (self.mountain ==> other.mountain)
        &&& (self.forest ==> other.forest)
        &&& (self.empty ==> other.empty)
    }

    /// The set holding exactly the categories common to `self` and `other`.
    pub open spec fn spec_intersect(self, other: TerrainSet) -> TerrainSet {
        TerrainSet {
            grass: self.grass && other.grass,
            water: self.water && other.water,
            mountain: self.mountain && other.mountain,
            forest: self.forest && other.forest,
            empty: self.empty && other.empty,
        }
    }

    /// The set with no members.
    pub open spec fn spec_none() -> TerrainSet {
        TerrainSet { grass: false, water: false, mountain: false, forest: false, empty: false }
    }

    /// The set of all five categories.
    pub open spec fn spec_full() -> TerrainSet {
        TerrainSet { grass: true, water: true, mountain: true, forest: true, empty: true }
    }

    /// The set of the four placeable categories (everything but `Empty`).
    pub open spec fn spec_all_real() -> TerrainSet {
        TerrainSet { grass: true, water: true, mountain: true, forest: true, empty: false }
    }

    /// The singleton set holding `t` alone.
    pub open spec fn spec_only(t: Terrain) -> TerrainSet {
        match t {
            Terrain::Grass => TerrainSet { grass: true, ..Self::spec_none() },
            Terrain::Water => TerrainSet { water: true, ..Self::spec_none() },
            Terrain::Mountain => TerrainSet { mountain: true, ..Self::spec_none() },
            Terrain::Forest => TerrainSet { forest: true, ..Self::spec_none() },
            Terrain::Empty => TerrainSet { empty: true, ..Self::spec_none() },
        }
    }

    /// The set with no members.
    pub fn none() -> (r: TerrainSet)
        ensures
            r == Self::spec_none(),
    {
        TerrainSet { grass: false, water: false, mountain: false, forest: false, empty: false }
    }

    /// The set of the four placeable categories.
    pub fn all_real() -> (r: TerrainSet)
        ensures
            r == Self::spec_all_real(),
    {
        TerrainSet { grass: true, water: true, mountain: true, forest: true, empty: false }
    }

    /// The singleton set holding `t` alone.
    pub fn only(t: Terrain) -> (r: TerrainSet)
        ensures
            r == Self::spec_only(t),
    {
        let base = Self::none();
        match t {
            Terrain::Grass => TerrainSet { grass: true, ..base },
            Terrain::Water => TerrainSet { water: true, ..base },
            Terrain::Mountain => TerrainSet { mountain: true, ..base },
            Terrain::Forest => TerrainSet { forest: true, ..base },
            Terrain::Empty => TerrainSet { empty: true, ..base },
        }
    }

    /// `self` with `t` added.
    pub fn with(self, t: Terrain) -> (r: TerrainSet)
        ensures
            forall|u: Terrain| r.spec_contains(u) == (self.spec_contains(u) || u == t),
    {
        match t {
            Terrain::Grass => TerrainSet { grass: true, ..self },
            Terrain::Water => TerrainSet { water: true, ..self },
            Terrain::Mountain => TerrainSet { mountain: true, ..self },
            Terrain::Forest => TerrainSet { forest: true, ..self },
            Terrain::Empty => TerrainSet { empty: true, ..self },
        }
    }

    /// Membership test.
    pub fn has(&self, t: Terrain) -> (b: bool)
        ensures
            b == self.spec_contains(t),
    {
        match t {
            Terrain::Grass => self.grass,
            Terrain::Water => self.water,
            Terrain::Mountain => self.mountain,
            Terrain::Forest => self.forest,
            Terrain::Empty => self.empty,
        }
    }

    /// Whether the set holds no category.
    pub fn is_empty(&self) -> (b: bool)
        ensures
            b == self.spec_is_empty(),
            b == (self.spec_count() == 0),
    {
        !(self.grass || self.water || self.mountain || self.forest || self.empty)
    }

    /// Whether every member of `self` is a member of `other`.
    pub fn subset_of(&self, other: &TerrainSet) -> (b: bool)
        ensures
            b == self.spec_subset(*other),
    {
        (!self.grass || other.grass) && (!self.water || other.water)
            && (!self.mountain || other.mountain) && (!self.forest || other.forest)
            && (!self.empty || other.empty)
    }

    /// The intersection of the two sets.
    pub fn intersect(&self, other: &TerrainSet) -> (r: TerrainSet)
        ensures
            r == self.spec_intersect(*other),
    {
        TerrainSet {
            grass: self.grass && other.grass,
            water: self.water && other.water,
            mountain: self.mountain && other.mountain,
            forest: self.forest && other.forest,
            empty: self.empty && other.empty,
        }
    }

    /// The number of categories the set holds.
    pub fn count(&self) -> (n: usize)
        ensures
            n == self.spec_count(),
            n <= 5,
    {
        let mut n: usize = 0;
        if self.grass {
            n = n + 1;
        }
        if self.water {
            n = n + 1;
        }
        if self.mountain {
            n = n + 1;
        }
        if self.forest {
            n = n + 1;
        }
        if self.empty {
            n = n + 1;
        }
        n
    }

    /// The `i`-th member in the fixed category order.
    pub fn nth(&self, i: usize) -> (t: Terrain)
        requires
            i < self.spec_count(),
        ensures
            t == self.spec_members()[i as int],
            self.spec_contains(t),
    {
        let mut idx = i;
        if self.grass {
            if idx == 0 {
                return Terrain::Grass;
            }
            idx = idx - 1;
        }
        if self.water {
            if idx == 0 {
                return Terrain::Water;
            }
            idx = idx - 1;
        }
        if self.mountain {
            if idx == 0 {
                return Terrain::Mountain;
            }
            idx = idx - 1;
        }
        if self.forest {
            if idx == 0 {
                return Terrain::Forest;
            }
            idx = idx - 1;
        }
        Terrain::Empty
    }
}

/// Law: intersection never grows a set; its result is a subset of both
/// operands, and a member of the result is exactly a common member.
pub proof fn lemma_intersect_narrows(a: TerrainSet, b: TerrainSet)
    ensures
        a.spec_intersect(b).spec_subset(a),
        a.spec_intersect(b).spec_subset(b),
        forall|t: Terrain|
            a.spec_intersect(b).spec_contains(t) == (a.spec_contains(t) && b.spec_contains(t)),
{
}

/// Law: a member of a subset is a member of the superset.
pub proof fn lemma_subset_contains(a: TerrainSet, b: TerrainSet, t: Terrain)
    requires
        a.spec_subset(b),
        a.spec_contains(t),
    ensures
        b.spec_contains(t),
{
}

/// Law: a set counts zero members exactly when it has none.
pub proof fn lemma_empty_count(s: TerrainSet)
    ensures
        s.spec_is_empty() <==> s.spec_count() == 0,
{
}

/// Law: subset is reflexive and transitive.
pub proof fn lemma_subset_trans(a: TerrainSet, b: TerrainSet, c: TerrainSet)
    requires
        a.spec_subset(b),
        b.spec_subset(c),
    ensures
        a.spec_subset(a),
        a.spec_subset(c),
{
}

} // verus!
