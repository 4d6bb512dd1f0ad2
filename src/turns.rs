//! Turn order and the turn state machine.

use vstd::prelude::*;

use crate::ai::{ai_turn, enemy_ai, lemma_ai_turn_frame};
use crate::battlefield::{lemma_index_in_range, terrain_passable, Battlefield, HexInfo};
use crate::battlemap::standard_terrain;
use crate::battlestate::{
    enemy_pos, find_enemy, find_hero, hero_pos, lemma_enemies_update, lemma_record_replaced, lemma_enemy_pos, lemma_hero_pos, lemma_heroes_update,
    lemma_occupancy_frame, BattleResult, BattleState, EnemyInstance, HeroInstance, InputMode, TurnPhase, UnitRef,
};
use crate::character::{Enemy, Hero};
use crate::hexgrid::Hex;

verus! {

/// Some place of the result came from place `t`.
pub open spec fn takes_from(perm: Seq<int>, t: int) -> bool {
    exists|k: int| 0 <= k < perm.len() && perm[k] == t
}

/// Entries in order of key, highest first, equal keys in the order of `perm`.
pub open spec fn sorted_desc(out: Seq<(i32, UnitRef)>, perm: Seq<int>) -> bool {
    forall|a: int, b: int|
        0 <= a < b < out.len() ==> (#[trigger] out[a]).0 > (#[trigger] out[b]).0 || (out[a].0 == out[b].0
            && perm[a] < perm[b])
}

/// A stable sort of `units` by key, highest first. `perm` tells, for each place
/// of the result, which place of `units` it came from.
fn sort_by_initiative(units: &Vec<(i32, UnitRef)>) -> (r: (Vec<(i32, UnitRef)>, Ghost<Seq<int>>))
    ensures
        r.0@.len() == units@.len(),
        r.1@.len() == units@.len(),
        forall|k: int| 0 <= k < units@.len() ==> 0 <= #[trigger] r.1@[k] < units@.len() && r.0@[k] == units@[r.1@[k]],
        forall|a: int, b: int| 0 <= a < b < units@.len() ==> #[trigger] r.1@[a] != #[trigger] r.1@[b],
        forall|t: int| 0 <= t < units@.len() ==> #[trigger] takes_from(r.1@, t),
        sorted_desc(r.0@, r.1@),
{
    let mut out: Vec<(i32, UnitRef)> = Vec::new();
    let ghost mut perm: Seq<int> = Seq::empty();
    let n = units.len();
    let mut m: usize = 0;
    while m < n
        invariant
            n == units@.len(),
            m <= n,
            out@.len() == m,
            perm.len() == m,
            forall|k: int| 0 <= k < m ==> 0 <= #[trigger] perm[k] < m && out@[k] == units@[perm[k]],
            forall|a: int, b: int| 0 <= a < b < m ==> #[trigger] perm[a] != #[trigger] perm[b],
            forall|t: int| 0 <= t < m ==> #[trigger] takes_from(perm, t),
            sorted_desc(out@, perm),
        decreases n - m,
    {
        let x = units[m];
        let mut p: usize = 0;
        while p < out.len() && out[p].0 >= x.0
            invariant
                p <= out@.len(),
                forall|k: int| 0 <= k < p ==> (#[trigger] out@[k]).0 >= x.0,
            decreases out@.len() - p,
        {
            p += 1;
        }
        let ghost old_out = out@;
        let ghost old_perm = perm;
        out.insert(p, x);
        proof {
            perm = old_perm.insert(p as int, m as int);
            assert forall|k: int| 0 <= k < m + 1 implies 0 <= #[trigger] perm[k] < m + 1 && out@[k] == units@[perm[k]] by {
                if k < p {
                    assert(perm[k] == old_perm[k]);
                } else if k > p {
                    assert(perm[k] == old_perm[k - 1]);
                }
            }
            assert forall|a: int, b: int| 0 <= a < b < m + 1 implies #[trigger] perm[a] != #[trigger] perm[b] by {
                if a < p && b < p {
                    assert(old_perm[a] != old_perm[b]);
                } else if a < p && b > p {
                    assert(old_perm[a] != old_perm[b - 1]);
                } else if a > p && b > p {
                    assert(old_perm[a - 1] != old_perm[b - 1]);
                } else if a == p {
                    assert(old_perm[b - 1] < m);
                } else {
                    assert(old_perm[a] < m);
                }
            }
            assert forall|t: int| 0 <= t < m + 1 implies #[trigger] takes_from(perm, t) by {
                if t == m {
                    assert(perm[p as int] == t);
                } else {
                    assert(takes_from(old_perm, t));
                    let k = choose|k: int| 0 <= k < old_perm.len() && old_perm[k] == t;
                    if k < p {
                        assert(perm[k] == t);
                    } else {
                        assert(perm[k + 1] == t);
                    }
                }
            }
            assert forall|a: int, b: int| 0 <= a < b < out@.len() implies (#[trigger] out@[a]).0 > (#[trigger] out@[b]).0
                || (out@[a].0 == out@[b].0 && perm[a] < perm[b]) by {
                if p < old_out.len() {
                    assert(old_out[p as int].0 < x.0);
                }
                if a < p && b < p {
                    assert(out@[a] == old_out[a] && out@[b] == old_out[b]);
                } else if a < p && b == p {
                    assert(out@[a] == old_out[a]);
                    assert(old_perm[a] < m);
                } else if a < p && b > p {
                    assert(out@[a] == old_out[a] && out@[b] == old_out[b - 1]);
                } else if a == p {
                    assert(out@[b] == old_out[b - 1]);
                    if p < b - 1 {
                        assert(old_out[p as int].0 > old_out[b - 1].0 || old_out[p as int].0 == old_out[b - 1].0);
                    }
                } else {
                    assert(out@[a] == old_out[a - 1] && out@[b] == old_out[b - 1]);
                }
            }
        }
        m += 1;
    }
    (out, Ghost(perm))
}

impl BattleState {
    /// Orders all units for the round: higher initiative first, ties in the
    /// order in which the units are kept (heroes before enemies). The first unit
    /// becomes active.
    #[verifier::rlimit(40)]
    pub fn generate_turn_order(&mut self)
        requires
            old(self).store_ok(),
        ensures
            final(self).wf(),
            final(self).active_unit_idx == 0,
            final(self).sorted_by_initiative(final(self).turn_order@),
            final(self).heroes == old(self).heroes,
            final(self).enemies == old(self).enemies,
            final(self).field == old(self).field,
            final(self).selected_unit == old(self).selected_unit,
            final(self).selected_unit_range == old(self).selected_unit_range,
            final(self).selected_ability == old(self).selected_ability,
            final(self).selected_ability_range == old(self).selected_ability_range,
            final(self).phase == old(self).phase,
            final(self).input_mode == old(self).input_mode,
            final(self).result == old(self).result,
    {
        let mut units: Vec<(i32, UnitRef)> = Vec::new();
        let nh = self.heroes.len();
        let ne = self.enemies.len();
        let mut i: usize = 0;
        while i < nh
            invariant
                nh == self.heroes@.len(),
                i <= nh,
                units@.len() == i,
                forall|t: int| 0 <= t < i ==> #[trigger] units@[t] == (self.heroes@[t].stats.initiative, UnitRef::Hero(self.heroes@[t].id)),
            decreases nh - i,
        {
            units.push((self.heroes[i].stats.initiative, UnitRef::Hero(self.heroes[i].id)));
            i += 1;
        }
        let mut i: usize = 0;
        while i < ne
            invariant
                nh == self.heroes@.len(),
                ne == self.enemies@.len(),
                i <= ne,
                units@.len() == nh + i,
                forall|t: int| 0 <= t < nh ==> #[trigger] units@[t] == (self.heroes@[t].stats.initiative, UnitRef::Hero(self.heroes@[t].id)),
                forall|t: int| 0 <= t < i ==> #[trigger] units@[nh + t] == (self.enemies@[t].stats.initiative, UnitRef::Enemy(self.enemies@[t].id)),
            decreases ne - i,
        {
            units.push((self.enemies[i].stats.initiative, UnitRef::Enemy(self.enemies[i].id)));
            i += 1;
        }
        proof {
            assert forall|t: int| 0 <= t < units@.len() implies self.alive(#[trigger] units@[t].1)
                && self.rank(units@[t].1) == t && self.initiative_spec(units@[t].1) == units@[t].0 by {
                if t < nh {
                    lemma_hero_pos(self.heroes@, t);
                } else {
                    assert(units@[nh + (t - nh)] == units@[t]);
                    lemma_enemy_pos(self.enemies@, t - nh);
                }
            }
        }
        let (sorted, Ghost(perm)) = sort_by_initiative(&units);
        let n = sorted.len();
        let mut order: Vec<UnitRef> = Vec::new();
        let mut k: usize = 0;
        while k < n
            invariant
                n == sorted@.len(),
                k <= n,
                order@.len() == k,
                forall|j: int| 0 <= j < k ==> #[trigger] order@[j] == sorted@[j].1,
            decreases n - k,
        {
            order.push(sorted[k].1);
            k += 1;
        }
        self.turn_order = order;
        self.active_unit_idx = 0;
        proof {
            let t = self.turn_order@;
            assert forall|j: int| 0 <= j < t.len() implies #[trigger] t[j] == units@[perm[j]].1 by {}
            assert forall|a: int, b: int| 0 <= a < t.len() && 0 <= b < t.len() && a != b implies t[a] != t[b] by {
                assert(t[a] == units@[perm[a]].1);
                assert(t[b] == units@[perm[b]].1);
                if a < b {
                    assert(perm[a] != perm[b]);
                } else {
                    assert(perm[b] != perm[a]);
                }
            }
            assert(t.no_duplicates());
            assert forall|j: int| 0 <= j < t.len() implies self.alive(#[trigger] t[j]) by {
                assert(t[j] == units@[perm[j]].1);
            }
            assert forall|u: UnitRef| self.alive(u) implies #[trigger] t.contains(u) by {
                let r = match u {
                    UnitRef::Hero(id) => hero_pos(self.heroes@, id).unwrap(),
                    UnitRef::Enemy(id) => nh + enemy_pos(self.enemies@, id).unwrap(),
                };
                match u {
                    UnitRef::Hero(id) => {
                        assert(self.heroes@[r].id == id);
                    },
                    UnitRef::Enemy(id) => {
                        let e = enemy_pos(self.enemies@, id).unwrap();
                        assert(self.enemies@[e].id == id);
                        assert(units@[nh + e] == units@[r]);
                    },
                }
                assert(units@[r].1 == u);
                assert(takes_from(perm, r));
                let j = choose|j: int| 0 <= j < perm.len() && perm[j] == r;
                assert(t[j] == u);
            }
            assert forall|a: int, b: int| 0 <= a < b < t.len() implies self.initiative_spec(#[trigger] t[a]) > self.initiative_spec(
                #[trigger] t[b],
            ) || (self.initiative_spec(t[a]) == self.initiative_spec(t[b]) && self.rank(t[a]) < self.rank(t[b])) by {
                assert(t[a] == units@[perm[a]].1);
                assert(t[b] == units@[perm[b]].1);
                assert(sorted@[a].0 > sorted@[b].0 || (sorted@[a].0 == sorted@[b].0 && perm[a] < perm[b]));
            }
        }
    }
}

impl BattleState {
    /// Gives `unit` its whole movement back and, for a hero, its action.
    fn reset_for_turn(&mut self, unit: UnitRef)
        requires
            old(self).wf(),
            old(self).alive(unit),
        ensures
            final(self).wf(),
            old(self).occupancy_ok() ==> final(self).occupancy_ok(),
            forall|v: UnitRef|
                (#[trigger] final(self).alive(v) == old(self).alive(v)) && final(self).unit_hex_spec(v) == old(
                    self,
                ).unit_hex_spec(v) && final(self).unit_stats_spec(v) == old(self).unit_stats_spec(v),
            forall|v: UnitRef| v != unit ==> #[trigger] final(self).unit_current_movement_spec(v) == old(self).unit_current_movement_spec(v),
            final(self).unit_current_movement_spec(unit) == Some(old(self).unit_stats_spec(unit).unwrap().movement),
            unit is Hero ==> final(self).hero_spec(unit->Hero_0).action_available,
            final(self).turn_order == old(self).turn_order,
            final(self).active_unit_idx == old(self).active_unit_idx,
            final(self).field == old(self).field,
            final(self).selected_unit == old(self).selected_unit,
            final(self).selected_ability == old(self).selected_ability,
            final(self).selected_ability_range == old(self).selected_ability_range,
            final(self).phase == old(self).phase,
            final(self).input_mode == old(self).input_mode,
            final(self).result == old(self).result,
    {
        let ghost pre = *self;
        match unit {
            UnitRef::Hero(id) => {
                let p = find_hero(&self.heroes, id).unwrap();
                let mut h = self.heroes.remove(p);
                h.current_movement = h.stats.movement;
                h.action_available = true;
                self.heroes.insert(p, h);
                proof {
                    assert(self.heroes@ =~= pre.heroes@.update(p as int, h));
                }
            },
            UnitRef::Enemy(id) => {
                let p = find_enemy(&self.enemies, id).unwrap();
                let mut e = self.enemies.remove(p);
                e.current_movement = e.stats.movement;
                self.enemies.insert(p, e);
                proof {
                    assert(self.enemies@ =~= pre.enemies@.update(p as int, e));
                }
            },
        }
        proof {
            lemma_record_replaced(pre, *self, unit);
        }
    }

    /// Start of a unit's turn: it gets its whole movement back; a hero also gets
    /// its action back and is selected, ready to move.
    fn start_phase(&mut self)
        requires
            old(self).wf(),
            old(self).occupancy_ok(),
            old(self).turn_order@.len() > 0,
        ensures
            final(self).wf(),
            final(self).occupancy_ok(),
            final(self).phase == TurnPhase::Action,
            final(self).turn_order == old(self).turn_order,
            final(self).active_unit_idx == old(self).active_unit_idx,
            final(self).result == old(self).result,
            final(self).units_kept_but_movement(old(self), old(self).active_unit_spec()),
            final(self).unit_current_movement_spec(old(self).active_unit_spec()) == Some(
                old(self).unit_stats_spec(old(self).active_unit_spec()).unwrap().movement,
            ),
            old(self).active_unit_spec() is Hero ==> final(self).hero_spec(
                old(self).active_unit_spec()->Hero_0,
            ).action_available && final(self).selected_unit == Some(old(self).active_unit_spec())
                && final(self).selection_ok() && final(self).input_mode == InputMode::Movement,
            old(self).active_unit_spec() is Enemy ==> final(self).selected_unit == old(self).selected_unit
                && final(self).input_mode == old(self).input_mode,
    {
        let unit = self.active_unit();
        let ghost start = *self;
        self.reset_for_turn(unit);
        let ghost r0 = *self;
        match unit {
            UnitRef::Hero(_) => {
                self.select_unit(unit);
                let ghost pre = *self;
                self.input_mode = InputMode::Movement;
                proof {
                    lemma_occupancy_frame(&pre, self);
                }
            },
            UnitRef::Enemy(_) => {},
        }
        let ghost pre = *self;
        self.phase = TurnPhase::Action;
        proof {
            lemma_occupancy_frame(&pre, self);
            assert forall|v: UnitRef| (#[trigger] self.alive(v) == start.alive(v)) && self.unit_hex_spec(v)
                == start.unit_hex_spec(v) && self.unit_stats_spec(v) == start.unit_stats_spec(v) by {
                assert(r0.alive(v) == start.alive(v));
            }
            assert forall|v: UnitRef| v != unit implies #[trigger] self.unit_current_movement_spec(v)
                == start.unit_current_movement_spec(v) by {
                assert(r0.unit_current_movement_spec(v) == start.unit_current_movement_spec(v));
            }
        }
    }

    /// Every unit is alive or not, stands and has stats as in `old`, and units
    /// other than `u` have the movement left that they had.
    pub open spec fn units_kept_but_movement(&self, old: &Self, u: UnitRef) -> bool {
        &&& forall|v: UnitRef|
            (#[trigger] self.alive(v) == old.alive(v)) && self.unit_hex_spec(v) == old.unit_hex_spec(v)
                && self.unit_stats_spec(v) == old.unit_stats_spec(v)
        &&& forall|v: UnitRef| v != u ==> #[trigger] self.unit_current_movement_spec(v) == old.unit_current_movement_spec(v)
    }

    /// End of a turn: the selection is cleared, the turn passes to the next unit
    /// and the battle is decided if one side is gone.
    fn end_phase(&mut self)
        requires
            old(self).wf(),
            old(self).occupancy_ok(),
        ensures
            final(self).wf(),
            final(self).occupancy_ok(),
            final(self).phase == TurnPhase::Start,
            final(self).selected_unit.is_none(),
            final(self).selected_unit_range@.len() == 0,
            final(self).heroes == old(self).heroes,
            final(self).enemies == old(self).enemies,
            final(self).field == old(self).field,
            final(self).turn_order == old(self).turn_order,
            old(self).turn_order@.len() > 0 ==> final(self).active_unit_idx as int == (old(
                self,
            ).active_unit_idx + 1) % (old(self).turn_order@.len() as int),
            final(self).result == if old(self).enemies@.len() == 0 {
                Some(BattleResult::Victory)
            } else if old(self).heroes@.len() == 0 {
                Some(BattleResult::Defeat)
            } else {
                old(self).result
            },
    {
        let ghost pre = *self;
        if self.enemies.len() == 0 {
            self.result = Some(BattleResult::Victory);
        } else if self.heroes.len() == 0 {
            self.result = Some(BattleResult::Defeat);
        }
        self.selected_unit = None;
        self.selected_unit_range = Vec::new();
        self.next_unit();
        self.phase = TurnPhase::Start;
        proof {
            lemma_occupancy_frame(&pre, self);
        }
    }

    /// Advances the battle by one step of the turn state machine: Start gives
    /// the active unit its turn, Action waits for the player on a hero's turn and
    /// plays an enemy's turn at once, End hands the turn on. Once the battle is
    /// decided, or with no unit left, nothing happens.
    #[verifier::rlimit(40)]
    pub fn tick(&mut self)
        requires
            old(self).wf(),
            old(self).occupancy_ok(),
        ensures
            final(self).wf(),
            final(self).occupancy_ok(),
            old(self).result.is_some() || old(self).turn_order@.len() == 0 ==> final(self).phase == old(
                self,
            ).phase && final(self).heroes == old(self).heroes && final(self).enemies == old(self).enemies
                && final(self).turn_order == old(self).turn_order && final(self).active_unit_idx == old(
                self,
            ).active_unit_idx,
            old(self).result.is_none() && old(self).turn_order@.len() > 0 ==> match old(self).phase {
                TurnPhase::Start => {
                    let u = old(self).active_unit_spec();
                    &&& final(self).phase == TurnPhase::Action
                    &&& final(self).turn_order == old(self).turn_order
                    &&& final(self).active_unit_idx == old(self).active_unit_idx
                    &&& final(self).units_kept_but_movement(old(self), u)
                    &&& final(self).unit_current_movement_spec(u) == Some(old(self).unit_stats_spec(u).unwrap().movement)
                    &&& u is Hero ==> final(self).hero_spec(u->Hero_0).action_available && final(self).selected_unit
                        == Some(u) && final(self).selection_ok() && final(self).input_mode == InputMode::Movement
                    &&& u is Enemy ==> final(self).selected_unit == old(self).selected_unit && final(self).input_mode
                        == old(self).input_mode
                },
                TurnPhase::Action => if old(self).active_unit_spec() is Hero {
                    *final(self) == *old(self)
                } else {
                    &&& final(self).phase == TurnPhase::End
                    &&& ai_turn(*old(self), *final(self), old(self).active_unit_spec())
                },
                TurnPhase::End => {
                    &&& final(self).phase == TurnPhase::Start
                    &&& final(self).active_unit_idx as int == (old(self).active_unit_idx + 1) % (old(
                        self,
                    ).turn_order@.len() as int)
                    &&& final(self).turn_order == old(self).turn_order
                    &&& final(self).heroes == old(self).heroes
                    &&& final(self).enemies == old(self).enemies
                    &&& final(self).selected_unit.is_none()
                    &&& final(self).selected_unit_range@.len() == 0
                    &&& final(self).result == if old(self).enemies@.len() == 0 {
                        Some(BattleResult::Victory)
                    } else if old(self).heroes@.len() == 0 {
                        Some(BattleResult::Defeat)
                    } else {
                        None
                    }
                },
            },
    {
        if self.result.is_some() || self.turn_order.len() == 0 {
            return;
        }
        match self.phase {
            TurnPhase::Start => self.start_phase(),
            TurnPhase::Action => self.action_phase(),
            TurnPhase::End => self.end_phase(),
        }
    }

    /// A hero's action phase waits for the player's commands; an enemy's is
    /// played by the AI at once, and its turn ends.
    fn action_phase(&mut self)
        requires
            old(self).wf(),
            old(self).occupancy_ok(),
            old(self).turn_order@.len() > 0,
        ensures
            final(self).wf(),
            final(self).occupancy_ok(),
            final(self).result == old(self).result,
            old(self).active_unit_spec() is Hero ==> *final(self) == *old(self),
            old(self).active_unit_spec() is Enemy ==> final(self).phase == TurnPhase::End && ai_turn(
                *old(self),
                *final(self),
                old(self).active_unit_spec(),
            ),
    {
        let ghost start = *self;
        let unit = self.active_unit();
        match unit {
            UnitRef::Hero(_) => {},
            UnitRef::Enemy(_) => {
                enemy_ai(self, unit);
                let ghost pre = *self;
                self.phase = TurnPhase::End;
                proof {
                    lemma_occupancy_frame(&pre, self);
                    lemma_ai_turn_frame(start, pre, *self, unit);
                }
            },
        }
    }
}

impl BattleState {
    /// A battle on the standard ten by ten map. Hero `i` joins with id `i` on
    /// hex `(2 + i, 3)`, enemy `i` with id `i` on hex `(7 + i, 5)`; the turn
    /// order is drawn up and the first unit in it is active, in its Start phase.
    pub fn new(heroes: &Vec<Hero>, enemies: &Vec<Enemy>) -> (r: Self)
        requires
            heroes@.len() <= i32::MAX - 2,
            enemies@.len() <= i32::MAX - 7,
            forall|i: int| 0 <= i < heroes@.len() ==> (#[trigger] heroes@[i]).stats.wf(),
            forall|i: int| 0 <= i < enemies@.len() ==> (#[trigger] enemies@[i]).stats.wf(),
        ensures
            r.wf(),
            r.occupancy_ok(),
            r.field.width == 10,
            r.field.height == 10,
            r.heroes@.len() == heroes@.len(),
            r.enemies@.len() == enemies@.len(),
            forall|i: int| 0 <= i < heroes@.len() ==> (#[trigger] r.heroes@[i]).id == i && r.heroes@[i].hex == (Hex { q: (2 + i) as i32, r: 3 }) && r.heroes@[i].stats == heroes@[i].stats && r.heroes@[i].current_movement == heroes@[i].stats.movement
                && r.heroes@[i].name@ == heroes@[i].name@ && r.heroes@[i].action_available && r.heroes@[i].effects@.len() == 0,
            forall|i: int| 0 <= i < enemies@.len() ==> (#[trigger] r.enemies@[i]).id == i && r.enemies@[i].hex == (Hex { q: (7 + i) as i32, r: 5 }) && r.enemies@[i].stats == enemies@[i].stats && r.enemies@[i].current_movement == enemies@[i].stats.movement
                && r.enemies@[i].name@ == enemies@[i].name@ && r.enemies@[i].effects@.len() == 0,
            forall|h: Hex| #[trigger] r.field.contains_spec(h) ==> r.field.info_spec(h).terrain == standard_terrain(
                h.q as int,
                h.r as int,
            ) && r.field.info_spec(h).passable == terrain_passable(standard_terrain(h.q as int, h.r as int)),
            r.active_unit_idx == 0,
            r.sorted_by_initiative(r.turn_order@),
            r.phase == TurnPhase::Start,
            r.input_mode == InputMode::Normal,
            r.result.is_none(),
            r.selected_unit.is_none(),
    {
        let mut hs: Vec<HeroInstance> = Vec::new();
        let mut i: usize = 0;
        while i < heroes.len()
            invariant
                i <= heroes@.len() <= i32::MAX - 2,
                hs@.len() == i,
                forall|t: int| 0 <= t < i ==> (#[trigger] hs@[t]).id == t && hs@[t].hex == (Hex { q: (2 + t) as i32, r: 3 })
                    && hs@[t].stats == heroes@[t].stats && hs@[t].current_movement == heroes@[t].stats.movement
                    && hs@[t].name@ == heroes@[t].name@ && hs@[t].action_available && hs@[t].effects@.len() == 0,
            decreases heroes@.len() - i,
        {
            let mut h = HeroInstance::from_hero(&heroes[i], Hex { q: 2 + i as i32, r: 3 });
            h.id = i as u32;
            hs.push(h);
            i += 1;
        }
        let mut es: Vec<EnemyInstance> = Vec::new();
        let mut i: usize = 0;
        while i < enemies.len()
            invariant
                i <= enemies@.len() <= i32::MAX - 7,
                es@.len() == i,
                forall|t: int| 0 <= t < i ==> (#[trigger] es@[t]).id == t && es@[t].hex == (Hex { q: (7 + t) as i32, r: 5 })
                    && es@[t].stats == enemies@[t].stats && es@[t].current_movement == enemies@[t].stats.movement
                    && es@[t].name@ == enemies@[t].name@ && es@[t].effects@.len() == 0,
            decreases enemies@.len() - i,
        {
            let mut e = EnemyInstance::from_enemy(&enemies[i], Hex { q: 7 + i as i32, r: 5 });
            e.id = i as u32;
            es.push(e);
            i += 1;
        }
        let mut battle = BattleState {
            heroes: hs,
            enemies: es,
            turn_order: Vec::new(),
            active_unit_idx: 0,
            selected_unit: None,
            selected_unit_range: Vec::new(),
            selected_ability: None,
            selected_ability_range: Vec::new(),
            field: Battlefield::new(10, 10),
            phase: TurnPhase::Start,
            input_mode: InputMode::Normal,
            result: None,
        };
        battle.generate_turn_order();
        battle.initialize_hex_map();
        let ghost laid = battle;
        battle.update_occupied_hexes();
        proof {
            assert forall|h: Hex| #[trigger] battle.field.contains_spec(h) implies battle.field.info_spec(h).terrain
                == standard_terrain(h.q as int, h.r as int) && battle.field.info_spec(h).passable == terrain_passable(
                standard_terrain(h.q as int, h.r as int),
            ) by {
                assert(laid.field.contains_spec(h));
                lemma_index_in_range(h.q as int, h.r as int, laid.field.width as int, laid.field.height as int);
                assert(battle.field.hexes@[laid.field.index_spec(h)] == HexInfo {
                    occupying_unit: battle.field.hexes@[laid.field.index_spec(h)].occupying_unit,
                    ..laid.field.hexes@[laid.field.index_spec(h)]
                });
            }
        }
        battle
    }
}

/// The turn order of a well-formed battle holds exactly the living units: as
/// many entries as there are units, none of them dead, none twice.
pub proof fn lemma_turn_order_is_the_living(b: BattleState)
    requires
        b.wf(),
    ensures
        b.turn_order@.len() == b.heroes@.len() + b.enemies@.len(),
        forall|i: int| 0 <= i < b.turn_order@.len() ==> b.alive(#[trigger] b.turn_order@[i]),
        forall|u: UnitRef| b.alive(u) ==> #[trigger] b.turn_order@.contains(u),
        b.turn_order@.no_duplicates(),
        b.turn_order@.len() > 0 ==> b.active_unit_idx < b.turn_order@.len(),
{
}

} // verus!
