//! Keeping the map in step with the units, and the standard map layout.

use vstd::prelude::*;

use crate::battlefield::{
    lemma_index_in_range, lemma_index_injective, terrain_passable, Battlefield, HexInfo, Terrain,
};
use crate::battlestate::{
    enemy_pos, hero_pos, lemma_enemy_pos, lemma_hero_pos, BattleState, EnemyInstance, HeroInstance, UnitRef,
};
use crate::hexgrid::Hex;

verus! {

/// The map records the same hexes as `before`, with only their occupants changed.
pub open spec fn same_ground(before: Battlefield, after: Battlefield) -> bool {
    &&& after.width == before.width
    &&& after.height == before.height
    &&& after.hexes@.len() == before.hexes@.len()
    &&& forall|j: int| 0 <= j < before.hexes@.len() ==> (#[trigger] after.hexes@[j]) == HexInfo {
        occupying_unit: after.hexes@[j].occupying_unit,
        ..before.hexes@[j]
    }
}

/// `u` is among the first `nh` heroes or the first `ne` enemies, standing on `h`.
pub open spec fn stamped(
    heroes: Seq<HeroInstance>,
    enemies: Seq<EnemyInstance>,
    u: UnitRef,
    h: Hex,
    nh: int,
    ne: int,
) -> bool {
    match u {
        UnitRef::Hero(id) => exists|t: int| 0 <= t < nh && (#[trigger] heroes[t]).id == id && heroes[t].hex == h,
        UnitRef::Enemy(id) => exists|t: int| 0 <= t < ne && (#[trigger] enemies[t]).id == id && enemies[t].hex == h,
    }
}

impl BattleState {
    /// Records on the map where every living unit stands, and nothing else: all
    /// occupants are cleared, then each unit is stamped on its hex.
    #[verifier::rlimit(40)]
    pub fn update_occupied_hexes(&mut self)
        requires
            old(self).wf(),
        ensures
            final(self).wf(),
            final(self).occupancy_ok(),
            same_ground(old(self).field, final(self).field),
            final(self).heroes == old(self).heroes,
            final(self).enemies == old(self).enemies,
            final(self).turn_order == old(self).turn_order,
            final(self).active_unit_idx == old(self).active_unit_idx,
            final(self).selected_unit == old(self).selected_unit,
            final(self).selected_unit_range == old(self).selected_unit_range,
            final(self).selected_ability == old(self).selected_ability,
            final(self).selected_ability_range == old(self).selected_ability_range,
            final(self).phase == old(self).phase,
            final(self).input_mode == old(self).input_mode,
            final(self).result == old(self).result,
    {
        let mut field = Battlefield { width: 0, height: 0, hexes: Vec::new() };
        core::mem::swap(&mut field, &mut self.field);
        let ghost start = field;
        let n = field.hexes.len();
        let mut j: usize = 0;
        while j < n
            invariant
                field.wf(),
                n == field.hexes@.len(),
                j <= n,
                same_ground(start, field),
                forall|t: int| 0 <= t < j ==> (#[trigger] field.hexes@[t]).occupying_unit.is_none(),
            decreases n - j,
        {
            field.set_occupant_at(j, None);
            j += 1;
        }
        let ghost w = field.width as int;
        let ghost ht = field.height as int;
        proof {
            assert forall|h: Hex| #[trigger] field.contains_spec(h) implies field.info_spec(h).occupying_unit.is_none() by {
                lemma_index_in_range(h.q as int, h.r as int, w, ht);
            }
        }
        let nh = self.heroes.len();
        let mut i: usize = 0;
        while i < nh
            invariant
                field.wf(),
                field.width == w,
                field.height == ht,
                nh == self.heroes@.len(),
                i <= nh,
                same_ground(start, field),
                forall|h: Hex| #[trigger] field.contains_spec(h) ==> match field.info_spec(h).occupying_unit {
                    Some(u) => stamped(self.heroes@, self.enemies@, u, h, i as int, 0),
                    None => true,
                },
                forall|t: int| 0 <= t < i && field.contains_spec(#[trigger] self.heroes@[t].hex)
                    ==> field.info_spec(self.heroes@[t].hex).occupying_unit.is_some(),
            decreases nh - i,
        {
            let h = self.heroes[i].hex;
            let id = self.heroes[i].id;
            match field.index(h) {
                Some(k) => {
                    let ghost before = field;
                    field.set_occupant_at(k, Some(UnitRef::Hero(id)));
                    proof {
                        assert(self.heroes@[i as int].id == id);
                        assert forall|g: Hex| #[trigger] field.contains_spec(g) implies match field.info_spec(g).occupying_unit {
                            Some(u) => stamped(self.heroes@, self.enemies@, u, g, i + 1, 0),
                            None => true,
                        } by {
                            lemma_index_in_range(g.q as int, g.r as int, w, ht);
                            if g != h {
                                if field.index_spec(g) == k as int {
                                    lemma_index_injective(g.q as int, g.r as int, h.q as int, h.r as int, ht);
                                }
                                assert(before.contains_spec(g));
                                assert(field.info_spec(g) == before.info_spec(g));
                            }
                        }
                        assert forall|t: int| 0 <= t < i + 1 && field.contains_spec(#[trigger] self.heroes@[t].hex)
                            implies field.info_spec(self.heroes@[t].hex).occupying_unit.is_some() by {
                            let g = self.heroes@[t].hex;
                            lemma_index_in_range(g.q as int, g.r as int, w, ht);
                            if g != h {
                                if field.index_spec(g) == k as int {
                                    lemma_index_injective(g.q as int, g.r as int, h.q as int, h.r as int, ht);
                                }
                                assert(field.info_spec(g) == before.info_spec(g));
                            }
                        }
                    }
                },
                None => {
                    proof {
                        assert forall|g: Hex| #[trigger] field.contains_spec(g) implies match field.info_spec(g).occupying_unit {
                            Some(u) => stamped(self.heroes@, self.enemies@, u, g, i + 1, 0),
                            None => true,
                        } by {
                            match field.info_spec(g).occupying_unit {
                                Some(u) => {
                                    assert(stamped(self.heroes@, self.enemies@, u, g, i as int, 0));
                                },
                                None => {},
                            }
                        }
                    }
                },
            }
            i += 1;
        }
        let ne = self.enemies.len();
        let mut i: usize = 0;
        while i < ne
            invariant
                field.wf(),
                field.width == w,
                field.height == ht,
                nh == self.heroes@.len(),
                ne == self.enemies@.len(),
                i <= ne,
                same_ground(start, field),
                forall|h: Hex| #[trigger] field.contains_spec(h) ==> match field.info_spec(h).occupying_unit {
                    Some(u) => stamped(self.heroes@, self.enemies@, u, h, nh as int, i as int),
                    None => true,
                },
                forall|t: int| 0 <= t < nh && field.contains_spec(#[trigger] self.heroes@[t].hex)
                    ==> field.info_spec(self.heroes@[t].hex).occupying_unit.is_some(),
                forall|t: int| 0 <= t < i && field.contains_spec(#[trigger] self.enemies@[t].hex)
                    ==> field.info_spec(self.enemies@[t].hex).occupying_unit.is_some(),
            decreases ne - i,
        {
            let h = self.enemies[i].hex;
            let id = self.enemies[i].id;
            match field.index(h) {
                Some(k) => {
                    let ghost before = field;
                    field.set_occupant_at(k, Some(UnitRef::Enemy(id)));
                    proof {
                        assert(self.enemies@[i as int].id == id);
                        assert forall|g: Hex| #[trigger] field.contains_spec(g) implies match field.info_spec(g).occupying_unit {
                            Some(u) => stamped(self.heroes@, self.enemies@, u, g, nh as int, i + 1),
                            None => true,
                        } by {
                            lemma_index_in_range(g.q as int, g.r as int, w, ht);
                            if g != h {
                                if field.index_spec(g) == k as int {
                                    lemma_index_injective(g.q as int, g.r as int, h.q as int, h.r as int, ht);
                                }
                                assert(field.info_spec(g) == before.info_spec(g));
                                assert(before.contains_spec(g));
                                match field.info_spec(g).occupying_unit {
                                    Some(UnitRef::Enemy(e)) => {
                                        let t = choose|t: int| 0 <= t < i && (#[trigger] self.enemies@[t]).id == e
                                            && self.enemies@[t].hex == g;
                                        assert(0 <= t < i + 1);
                                    },
                                    _ => {},
                                }
                            } else {
                                assert(field.info_spec(g).occupying_unit == Some(UnitRef::Enemy(id)));
                                assert(self.enemies@[i as int].hex == g);
                                assert(stamped(self.heroes@, self.enemies@, UnitRef::Enemy(id), g, nh as int, i + 1));
                            }
                        }
                        assert forall|t: int| 0 <= t < nh && field.contains_spec(#[trigger] self.heroes@[t].hex)
                            implies field.info_spec(self.heroes@[t].hex).occupying_unit.is_some() by {
                            let g = self.heroes@[t].hex;
                            lemma_index_in_range(g.q as int, g.r as int, w, ht);
                            if g != h {
                                if field.index_spec(g) == k as int {
                                    lemma_index_injective(g.q as int, g.r as int, h.q as int, h.r as int, ht);
                                }
                                assert(field.info_spec(g) == before.info_spec(g));
                            }
                        }
                        assert forall|t: int| 0 <= t < i + 1 && field.contains_spec(#[trigger] self.enemies@[t].hex)
                            implies field.info_spec(self.enemies@[t].hex).occupying_unit.is_some() by {
                            let g = self.enemies@[t].hex;
                            lemma_index_in_range(g.q as int, g.r as int, w, ht);
                            if g != h {
                                if field.index_spec(g) == k as int {
                                    lemma_index_injective(g.q as int, g.r as int, h.q as int, h.r as int, ht);
                                }
                                assert(field.info_spec(g) == before.info_spec(g));
                            }
                        }
                    }
                },
                None => {
                    proof {
                        assert forall|g: Hex| #[trigger] field.contains_spec(g) implies match field.info_spec(g).occupying_unit {
                            Some(u) => stamped(self.heroes@, self.enemies@, u, g, nh as int, i + 1),
                            None => true,
                        } by {
                            match field.info_spec(g).occupying_unit {
                                Some(u) => {
                                    assert(stamped(self.heroes@, self.enemies@, u, g, nh as int, i as int));
                                    match u {
                                        UnitRef::Enemy(id) => {
                                            let t = choose|t: int| 0 <= t < i && (#[trigger] self.enemies@[t]).id == id
                                                && self.enemies@[t].hex == g;
                                            assert(0 <= t < i + 1);
                                        },
                                        UnitRef::Hero(_) => {},
                                    }
                                },
                                None => {},
                            }
                        }
                    }
                },
            }
            i += 1;
        }
        self.field = field;
        proof {
            assert forall|h: Hex| #[trigger] self.field.contains_spec(h) implies match self.field.info_spec(h).occupying_unit {
                Some(u) => self.unit_hex_spec(u) == Some(h),
                None => true,
            } by {
                match self.field.info_spec(h).occupying_unit {
                    Some(u) => {
                        assert(stamped(self.heroes@, self.enemies@, u, h, nh as int, ne as int));
                        match u {
                            UnitRef::Hero(id) => {
                                let t = choose|t: int| 0 <= t < nh && (#[trigger] self.heroes@[t]).id == id
                                    && self.heroes@[t].hex == h;
                                lemma_hero_pos(self.heroes@, t);
                            },
                            UnitRef::Enemy(id) => {
                                let t = choose|t: int| 0 <= t < ne && (#[trigger] self.enemies@[t]).id == id
                                    && self.enemies@[t].hex == h;
                                lemma_enemy_pos(self.enemies@, t);
                            },
                        }
                    },
                    None => {},
                }
            }
            assert forall|u: UnitRef| #[trigger] self.alive(u) && self.field.contains_spec(self.unit_hex_spec(u).unwrap())
                implies self.field.info_spec(self.unit_hex_spec(u).unwrap()).occupying_unit.is_some() by {
                match u {
                    UnitRef::Hero(id) => {
                        let t = hero_pos(self.heroes@, id).unwrap();
                        assert(self.heroes@[t].id == id);
                    },
                    UnitRef::Enemy(id) => {
                        let t = enemy_pos(self.enemies@, id).unwrap();
                        assert(self.enemies@[t].id == id);
                    },
                }
            }
        }
    }
}

/// The terrain of the standard map: mountains on five hexes, forest where
/// `q + r` is a multiple of five, plain elsewhere.
pub open spec fn standard_terrain(q: int, r: int) -> Terrain {
    if (q == 3 && r == 4) || (q == 4 && r == 4) || (q == 5 && r == 2) || (q == 8 && r == 2) || (q == 9 && r == 4) {
        Terrain::Mountain
    } else if (q + r) % 5 == 0 {
        Terrain::Forest
    } else {
        Terrain::Plain
    }
}

fn terrain_at(q: i32, r: i32) -> (t: Terrain)
    requires
        q >= 0,
        r >= 0,
    ensures
        t == standard_terrain(q as int, r as int),
{
    if (q == 3 && r == 4) || (q == 4 && r == 4) || (q == 5 && r == 2) || (q == 8 && r == 2) || (q == 9 && r == 4) {
        Terrain::Mountain
    } else if (q as i64 + r as i64) % 5 == 0 {
        Terrain::Forest
    } else {
        Terrain::Plain
    }
}

impl BattleState {
    /// Lays out the standard map over the grid: every hex gets its standard
    /// terrain and no occupant.
    pub fn initialize_hex_map(&mut self)
        requires
            old(self).wf(),
        ensures
            final(self).wf(),
            final(self).field.width == old(self).field.width,
            final(self).field.height == old(self).field.height,
            forall|h: Hex| #[trigger] final(self).field.contains_spec(h) ==> final(self).field.info_spec(h).terrain
                == standard_terrain(h.q as int, h.r as int) && final(self).field.info_spec(h).passable == terrain_passable(
                standard_terrain(h.q as int, h.r as int),
            ) && final(self).field.info_spec(h).occupying_unit.is_none(),
            final(self).heroes == old(self).heroes,
            final(self).enemies == old(self).enemies,
            final(self).turn_order == old(self).turn_order,
            final(self).active_unit_idx == old(self).active_unit_idx,
            final(self).selected_unit == old(self).selected_unit,
            final(self).selected_unit_range == old(self).selected_unit_range,
            final(self).selected_ability == old(self).selected_ability,
            final(self).selected_ability_range == old(self).selected_ability_range,
            final(self).phase == old(self).phase,
            final(self).input_mode == old(self).input_mode,
            final(self).result == old(self).result,
    {
        let w = self.field.width;
        let ht = self.field.height;
        let mut hexes: Vec<HexInfo> = Vec::new();
        let mut q: i32 = 0;
        while q < w
            invariant
                0 <= q <= w,
                0 <= ht,
                w * ht == self.field.hexes@.len(),
                hexes@.len() == q * ht,
                forall|a: int, b: int| 0 <= a < q && 0 <= b < ht ==> (#[trigger] hexes@[a * ht + b]).terrain
                    == standard_terrain(a, b) && hexes@[a * ht + b].passable == terrain_passable(standard_terrain(a, b))
                    && hexes@[a * ht + b].occupying_unit.is_none(),
            decreases w - q,
        {
            let mut r: i32 = 0;
            while r < ht
                invariant
                    0 <= q < w,
                    0 <= r <= ht,
                    w * ht == self.field.hexes@.len(),
                    hexes@.len() == q * ht + r,
                    forall|a: int, b: int| 0 <= a < q && 0 <= b < ht ==> (#[trigger] hexes@[a * ht + b]).terrain
                        == standard_terrain(a, b) && hexes@[a * ht + b].passable == terrain_passable(standard_terrain(a, b))
                    && hexes@[a * ht + b].occupying_unit.is_none(),
                    forall|b: int| 0 <= b < r ==> (#[trigger] hexes@[q * ht + b]).terrain == standard_terrain(q as int, b)
                        && hexes@[q * ht + b].passable == terrain_passable(standard_terrain(q as int, b))
                        && hexes@[q * ht + b].occupying_unit.is_none(),
                decreases ht - r,
            {
                proof {
                    lemma_index_in_range(q as int, r as int, w as int, ht as int);
                }
                let ghost before = hexes@;
                hexes.push(HexInfo::new(terrain_at(q, r)));
                proof {
                    assert forall|a: int, b: int| 0 <= a < q && 0 <= b < ht implies (#[trigger] hexes@[a * ht + b]).terrain
                        == standard_terrain(a, b) && hexes@[a * ht + b].passable == terrain_passable(standard_terrain(a, b))
                    && hexes@[a * ht + b].occupying_unit.is_none() by {
                        lemma_index_in_range(a, b, q as int, ht as int);
                        assert(hexes@[a * ht + b] == before[a * ht + b]);
                    }
                }
                r += 1;
            }
            proof {
                assert((q + 1) * ht == q * ht + ht) by (nonlinear_arith);
            }
            q += 1;
        }
        let ghost pre = *self;
        self.field = Battlefield { width: w, height: ht, hexes };
        proof {
            assert forall|h: Hex| #[trigger] self.field.contains_spec(h) implies self.field.info_spec(h).terrain
                == standard_terrain(h.q as int, h.r as int) && self.field.info_spec(h).passable == terrain_passable(
                standard_terrain(h.q as int, h.r as int),
            ) && self.field.info_spec(h).occupying_unit.is_none() by {}
            assert(self.turn_order_ok());
        }
    }
}

} // verus!
