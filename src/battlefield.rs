//! The map: terrain and occupant of every hex, stored densely.

use vstd::prelude::*;

use crate::battlestate::UnitRef;
use crate::hexgrid::{hex_in_rect, Hex};

verus! {

#[derive(Clone, Copy, Debug, PartialEq, Eq, Structural)]
pub enum Terrain {
    Plain,
    Forest,
    Mountain,
    Water,
}

/// Things that may lie on a hex besides a unit.
#[derive(Clone, Copy, Debug, PartialEq, Eq, Structural)]
pub enum Object {
    HealingShrine,
    Trap,
}

/// Units can walk over plains and forests only.
pub open spec fn terrain_passable(t: Terrain) -> bool {
    t == Terrain::Plain || t == Terrain::Forest
}

#[derive(Clone, Debug)]
pub struct HexInfo {
    pub terrain: Terrain,
    pub passable: bool,
    pub occupying_unit: Option<UnitRef>,
    pub objects: Vec<Object>,
}

impl HexInfo {
    pub fn new(terrain: Terrain) -> (r: Self)
        ensures
            r.terrain == terrain,
            r.passable == terrain_passable(terrain),
            r.occupying_unit.is_none(),
            r.objects@.len() == 0,
    {
        let passable = match terrain {
            Terrain::Plain | Terrain::Forest => true,
            Terrain::Mountain | Terrain::Water => false,
        };
        HexInfo { terrain, passable, occupying_unit: None, objects: Vec::new() }
    }

    pub fn is_occupied(&self) -> (r: bool)
        ensures
            r == self.occupying_unit.is_some(),
    {
        self.occupying_unit.is_some()
    }
}

/// A rectangular map of `width` columns and `height` rows, stored densely:
/// hex `(q, r)` lives at index `q * height + r`.
pub struct Battlefield {
    pub width: i32,
    pub height: i32,
    pub hexes: Vec<HexInfo>,
}

pub proof fn lemma_index_in_range(q: int, r: int, w: int, ht: int)
    requires
        0 <= q < w,
        0 <= r < ht,
    ensures
        0 <= q * ht + r < w * ht,
{
    assert(q * ht <= (w - 1) * ht) by (nonlinear_arith)
        requires 0 <= q < w, 0 <= ht;
    assert((w - 1) * ht + ht == w * ht) by (nonlinear_arith);
    assert(0 <= q * ht) by (nonlinear_arith)
        requires 0 <= q, 0 <= ht;
}

/// Distinct hexes of the map are stored at distinct places.
pub proof fn lemma_index_injective(q1: int, r1: int, q2: int, r2: int, ht: int)
    requires
        0 <= r1 < ht,
        0 <= r2 < ht,
        q1 * ht + r1 == q2 * ht + r2,
    ensures
        q1 == q2,
        r1 == r2,
{
    if q1 < q2 {
        assert(q1 * ht + ht <= q2 * ht) by (nonlinear_arith)
            requires q1 < q2, 0 < ht;
    } else if q2 < q1 {
        assert(q2 * ht + ht <= q1 * ht) by (nonlinear_arith)
            requires q2 < q1, 0 < ht;
    }
}

impl Battlefield {
    pub open spec fn wf(&self) -> bool {
        &&& 0 <= self.width
        &&& 0 <= self.height
        &&& self.hexes@.len() == self.width * self.height
    }

    pub open spec fn contains_spec(&self, h: Hex) -> bool {
        hex_in_rect(h, self.width as int, self.height as int)
    }

    pub open spec fn index_spec(&self, h: Hex) -> int {
        h.q * self.height + h.r
    }

    /// The record of a hex of the map.
    pub open spec fn info_spec(&self, h: Hex) -> HexInfo {
        self.hexes@[self.index_spec(h)]
    }

    /// A hex can be entered when it is on the map, its terrain allows it and no
    /// unit stands on it.
    pub open spec fn passable_spec(&self, h: Hex) -> bool {
        &&& self.contains_spec(h)
        &&& self.info_spec(h).passable
        &&& self.info_spec(h).occupying_unit.is_none()
    }

    /// A map of plains only, with no unit on it.
    pub fn new(width: i32, height: i32) -> (r: Self)
        requires
            0 <= width,
            0 <= height,
            width * height <= usize::MAX,
        ensures
            r.wf(),
            r.width == width,
            r.height == height,
            forall|h: Hex| r.contains_spec(h) ==> (#[trigger] r.info_spec(h)).terrain == Terrain::Plain
                && r.info_spec(h).passable && r.info_spec(h).occupying_unit.is_none(),
    {
        let n: usize = (width as usize) * (height as usize);
        let mut hexes: Vec<HexInfo> = Vec::new();
        let mut i: usize = 0;
        while i < n
            invariant
                i <= n,
                hexes@.len() == i,
                forall|j: int| 0 <= j < i ==> (#[trigger] hexes@[j]).terrain == Terrain::Plain
                    && hexes@[j].passable && hexes@[j].occupying_unit.is_none(),
            decreases n - i,
        {
            hexes.push(HexInfo::new(Terrain::Plain));
            i += 1;
        }
        let r = Battlefield { width, height, hexes };
        proof {
            assert forall|h: Hex| r.contains_spec(h) implies (#[trigger] r.info_spec(h)).terrain
                == Terrain::Plain && r.info_spec(h).passable && r.info_spec(h).occupying_unit.is_none() by {
                lemma_index_in_range(h.q as int, h.r as int, width as int, height as int);
            }
        }
        r
    }

    /// Where the record of `h` is stored, if `h` is on the map.
    pub fn index(&self, h: Hex) -> (r: Option<usize>)
        requires
            self.wf(),
        ensures
            r.is_some() == self.contains_spec(h),
            r.is_some() ==> r.unwrap() as int == self.index_spec(h) && r.unwrap() < self.hexes@.len(),
    {
        let n = self.hexes.len();
        if 0 <= h.q && h.q < self.width && 0 <= h.r && h.r < self.height {
            proof {
                lemma_index_in_range(h.q as int, h.r as int, self.width as int, self.height as int);
                assert(0 <= (h.q as int) * (self.height as int)) by (nonlinear_arith)
                    requires 0 <= h.q, 0 <= self.height;
            }
            Some((h.q as usize) * (self.height as usize) + (h.r as usize))
        } else {
            None
        }
    }

    /// The largest column and row of the map.
    pub fn boundary(&self) -> (r: Hex)
        requires
            self.wf(),
        ensures
            r.q == self.width - 1,
            r.r == self.height - 1,
    {
        Hex { q: self.width - 1, r: self.height - 1 }
    }

    /// Whether a unit may step onto `h`; a hex off the map cannot be entered.
    pub fn is_hex_passable(&self, h: Hex) -> (r: bool)
        requires
            self.wf(),
        ensures
            r == self.passable_spec(h),
    {
        match self.index(h) {
            Some(i) => self.hexes[i].passable && self.hexes[i].occupying_unit.is_none(),
            None => false,
        }
    }

    /// Gives hex `h` the terrain `t`, leaving every other record as it was.
    pub fn set_terrain(&mut self, h: Hex, t: Terrain)
        requires
            old(self).wf(),
        ensures
            final(self).wf(),
            final(self).width == old(self).width,
            final(self).height == old(self).height,
            final(self).hexes@.len() == old(self).hexes@.len(),
            forall|j: int| 0 <= j < old(self).hexes@.len() && (!old(self).contains_spec(h) || j
                != old(self).index_spec(h)) ==> final(self).hexes@[j] == old(self).hexes@[j],
            old(self).contains_spec(h) ==> final(self).info_spec(h).terrain == t
                && final(self).info_spec(h).passable == terrain_passable(t)
                && final(self).info_spec(h).occupying_unit.is_none(),
    {
        match self.index(h) {
            Some(i) => {
                self.hexes.set(i, HexInfo::new(t));
            },
            None => {},
        }
    }

    /// Puts `u` as the occupant of the record at `i`, leaving the rest as it was.
    pub fn set_occupant_at(&mut self, i: usize, u: Option<UnitRef>)
        requires
            old(self).wf(),
            i < old(self).hexes@.len(),
        ensures
            final(self).wf(),
            final(self).width == old(self).width,
            final(self).height == old(self).height,
            final(self).hexes@ == old(self).hexes@.update(
                i as int,
                HexInfo { occupying_unit: u, ..old(self).hexes@[i as int] },
            ),
    {
        let mut info = HexInfo::new(Terrain::Plain);
        self.hexes.set_and_swap(i, &mut info);
        info.occupying_unit = u;
        self.hexes.set(i, info);
    }
}

} // verus!
