//! The player's commands during a hero's turn.

use vstd::prelude::*;

use crate::battlefield::Battlefield;
use crate::battlemap::same_ground;
use crate::battlestate::{
    attack_outcome, lemma_record_replaced, enemy_pos, find_enemy, find_hero, hero_pos, lemma_enemies_update, lemma_hero_pos, lemma_heroes_update, lemma_occupancy_frame,
    BattleCommand, BattleState, HeroInstance, InputMode, TurnPhase, UnitRef,
};
use crate::combat::{damage_spec, hp_after_spec};
use crate::effect::Effect;
use crate::hexgrid::{within_steps, Hex};
use crate::pathfinding::{entry_ok, free_rule, is_walk, movement_range, reached};

verus! {

/// The steps that a movement allows: none when it is not positive.
pub open spec fn budget_of(movement: int) -> int {
    if movement <= 0 { 0 } else { movement }
}

/// Reaching `target` from `start` over free hexes of `field` takes `c` steps at
/// the fewest.
pub open spec fn fewest_steps(field: Battlefield, start: Hex, target: Hex, c: int) -> bool {
    &&& exists|p: Seq<Hex>|
        is_walk(p, start, field.width as int, field.height as int, free_rule(field)) && #[trigger] p.last()
            == target && p.len() - 1 == c
    &&& forall|p: Seq<Hex>|
        is_walk(p, start, field.width as int, field.height as int, free_rule(field)) && #[trigger] p.last()
            == target ==> c <= p.len() - 1
}

impl BattleState {
    /// The selected unit is the active one and can reach `target` with the
    /// movement it has left.
    pub open spec fn can_move_selected_to(&self, target: Hex) -> bool {
        &&& self.turn_order@.len() > 0
        &&& self.selected_unit == Some(self.active_unit_spec())
        &&& exists|p: Seq<Hex>|
            is_walk(
                p,
                self.unit_hex_spec(self.active_unit_spec()).unwrap(),
                self.field.width as int,
                self.field.height as int,
                free_rule(self.field),
            ) && #[trigger] p.last() == target && p.len() - 1 <= budget_of(
                self.unit_current_movement_spec(self.active_unit_spec()).unwrap() as int,
            )
    }

    /// Selects a living unit and shows where it can go; a unit that is gone is
    /// not selected.
    pub(crate) fn select_unit(&mut self, unit: UnitRef)
        requires
            old(self).wf(),
        ensures
            final(self).wf(),
            old(self).occupancy_ok() ==> final(self).occupancy_ok(),
            unit_selected(*old(self), *final(self), unit),
    {
        if self.unit_hex(unit).is_none() {
            return;
        }
        let ghost pre = *self;
        self.selected_unit = Some(unit);
        self.update_selected_unit_range();
        proof {
            if pre.occupancy_ok() {
                lemma_occupancy_frame(&pre, self);
            }
        }
    }

    /// Selects the unit standing on `hex`, if any, and turns to moving it.
    pub fn try_select_unit_at_hex(&mut self, hex: Hex)
        requires
            old(self).wf(),
        ensures
            final(self).wf(),
            old(self).occupancy_ok() ==> final(self).occupancy_ok(),
            selected_at_hex(*old(self), *final(self), hex),
    {
        let ghost pre = *self;
        match self.field.index(hex) {
            Some(i) => match self.field.hexes[i].occupying_unit {
                Some(u) => {
                    self.select_unit(u);
                    self.input_mode = InputMode::Movement;
                },
                None => {},
            },
            None => {},
        }
        proof {
            if pre.occupancy_ok() {
                lemma_occupancy_frame(&pre, self);
            }
        }
    }

    /// Moves the selected unit to `target_hex` when it is the active unit and can
    /// get there, paying the fewest steps that it takes; otherwise does nothing.
    pub fn try_move_selected(&mut self, target_hex: Hex)
        requires
            old(self).wf(),
            old(self).occupancy_ok(),
        ensures
            final(self).wf(),
            final(self).occupancy_ok(),
            moved_selected(*old(self), *final(self), target_hex),
    {
        if self.turn_order.len() == 0 {
            return;
        }
        let active = self.active_unit();
        if self.selected_unit != Some(active) {
            return;
        }
        let start = self.unit_hex(active).unwrap();
        let movement = self.unit_current_movement(active).unwrap();
        let reachable = movement_range(start, movement, &self.field);
        let ghost w = self.field.width as int;
        let ghost ht = self.field.height as int;
        let ghost rule = free_rule(self.field);
        let ghost budget = if movement <= 0 { 0 } else { movement as int };
        let mut found: Option<usize> = None;
        let mut i: usize = 0;
        while i < reachable.len()
            invariant
                i <= reachable@.len(),
                found.is_none() ==> forall|j: int| 0 <= j < i ==> (#[trigger] reachable@[j]).hex != target_hex,
                found.is_some() ==> found.unwrap() < reachable@.len() && reachable@[found.unwrap() as int].hex == target_hex,
            decreases reachable@.len() - i,
        {
            if found.is_none() && reachable[i].hex == target_hex {
                found = Some(i);
            }
            i += 1;
        }
        match found {
            Some(f) => {
                let cost = reachable[f].cost;
                proof {
                    assert(entry_ok(reachable@[f as int], start, w, ht, rule, budget));
                    let p = reachable@[f as int].path@;
                    assert(is_walk(p, start, w, ht, rule) && p.last() == target_hex && p.len() - 1 == cost);
                    assert forall|q: Seq<Hex>| is_walk(q, start, w, ht, rule) && #[trigger] q.last() == target_hex
                        implies cost <= q.len() - 1 by {
                        assert(q.last() == reachable@[f as int].hex);
                    }
                    assert(fewest_steps(self.field, start, target_hex, cost as int));
                    assert(self.can_move_selected_to(target_hex));
                }
                self.move_unit(active, target_hex, cost as i32);
            },
            None => {
                proof {
                    if self.can_move_selected_to(target_hex) {
                        let p = choose|p: Seq<Hex>| is_walk(p, start, w, ht, rule) && #[trigger] p.last() == target_hex
                            && p.len() - 1 <= budget;
                        if movement <= 0 {
                            assert(p.len() == 1);
                            assert(reachable@[0].hex == start);
                            assert(reachable@[0].hex == target_hex);
                        }
                        assert(reached(reachable@, p.last(), p.len() - 1));
                        let j = choose|j: int| 0 <= j < reachable@.len() && (#[trigger] reachable@[j]).hex == p.last()
                            && reachable@[j].cost <= p.len() - 1;
                        assert(reachable@[j].hex == target_hex);
                    }
                }
            },
        }
    }

    /// Chooses ability `ability_idx` of the selected hero and shows the hexes it
    /// can reach; ignored unless a living hero is selected and has that ability.
    pub fn select_ability(&mut self, ability_idx: usize)
        requires
            old(self).wf(),
        ensures
            final(self).wf(),
            old(self).occupancy_ok() ==> final(self).occupancy_ok(),
            ability_chosen(*old(self), *final(self), ability_idx),
    {
        let id = match self.selected_unit {
            Some(UnitRef::Hero(id)) => id,
            _ => return,
        };
        let p = match find_hero(&self.heroes, id) {
            Some(p) => p,
            None => return,
        };
        if ability_idx >= self.heroes[p].abilities.len() {
            return;
        }
        let range = self.heroes[p].abilities[ability_idx].range;
        let area = self.heroes[p].hex.range_to_area(range, self.field.width, self.field.height);
        let ghost pre = *self;
        self.selected_ability = Some(ability_idx);
        self.selected_ability_range = area;
        self.input_mode = InputMode::AbilityTarget(ability_idx);
        proof {
            if pre.occupancy_ok() {
                lemma_occupancy_frame(&pre, self);
            }
        }
    }

    /// Drops the chosen ability and goes back to moving.
    pub fn clear_ability_selection(&mut self)
        ensures
            action_cancelled(*old(self), *final(self)),
    {
        self.selected_ability = None;
        self.selected_ability_range = Vec::new();
        self.input_mode = InputMode::Movement;
    }

    /// Ends a hero's turn when asked during its action phase; ignored otherwise.
    pub fn request_end_turn(&mut self)
        requires
            old(self).wf(),
        ensures
            end_requested(*old(self), *final(self)),
    {
        if self.phase == TurnPhase::Action && self.is_player_turn() {
            self.phase = TurnPhase::End;
        }
    }
}

impl BattleState {
    /// Every unit is alive or not, stands, has stats and movement left as in `old`.
    pub open spec fn units_same(&self, old: &Self) -> bool {
        forall|v: UnitRef|
            (#[trigger] self.alive(v) == old.alive(v)) && self.unit_hex_spec(v) == old.unit_hex_spec(v)
                && self.unit_stats_spec(v) == old.unit_stats_spec(v) && self.unit_current_movement_spec(v)
                == old.unit_current_movement_spec(v)
    }

    /// The player may use the chosen ability on `target`: it is a living hero's
    /// turn, its action is still available, the ability is one of its own, the
    /// hex is within the ability's reach and an enemy stands on it.
    pub open spec fn ability_use_valid(&self, target: Hex) -> bool {
        &&& self.turn_order@.len() > 0
        &&& self.active_unit_spec() is Hero
        &&& self.hero_spec(self.active_unit_spec()->Hero_0).action_available
        &&& self.selected_ability.is_some()
        &&& self.selected_ability.unwrap() < self.hero_spec(self.active_unit_spec()->Hero_0).abilities@.len()
        &&& self.selected_ability_range@.contains(target)
        &&& self.field.contains_spec(target)
        &&& self.field.info_spec(target).occupying_unit matches Some(UnitRef::Enemy(_))
    }

    fn set_action_available(&mut self, p: usize, value: bool)
        requires
            old(self).wf(),
            p < old(self).heroes@.len(),
        ensures
            final(self).wf(),
            old(self).occupancy_ok() ==> final(self).occupancy_ok(),
            final(self).units_same(old(self)),
            final(self).heroes@ == old(self).heroes@.update(
                p as int,
                HeroInstance { action_available: value, ..old(self).heroes@[p as int] },
            ),
            final(self).enemies == old(self).enemies,
            final(self).turn_order == old(self).turn_order,
            final(self).active_unit_idx == old(self).active_unit_idx,
            final(self).field == old(self).field,
            final(self).selected_unit == old(self).selected_unit,
            final(self).selected_unit_range == old(self).selected_unit_range,
            final(self).selected_ability == old(self).selected_ability,
            final(self).selected_ability_range == old(self).selected_ability_range,
            final(self).phase == old(self).phase,
            final(self).input_mode == old(self).input_mode,
            final(self).result == old(self).result,
    {
        let ghost pre = *self;
        let mut h = self.heroes.remove(p);
        h.action_available = value;
        self.heroes.insert(p, h);
        proof {
            assert(self.heroes@ =~= pre.heroes@.update(p as int, h));
            lemma_hero_pos(pre.heroes@, p as int);
            lemma_record_replaced(pre, *self, UnitRef::Hero(h.id));
        }
    }

    /// Puts effect `e` on the living enemy `id`.
    fn add_enemy_effect(&mut self, id: u32, e: Effect)
        requires
            old(self).wf(),
            old(self).alive(UnitRef::Enemy(id)),
        ensures
            final(self).wf(),
            old(self).occupancy_ok() ==> final(self).occupancy_ok(),
            final(self).units_same(old(self)),
            final(self).effects_spec(UnitRef::Enemy(id)) == old(self).effects_spec(UnitRef::Enemy(id)).push(e),
            final(self).heroes == old(self).heroes,
            final(self).turn_order == old(self).turn_order,
            final(self).active_unit_idx == old(self).active_unit_idx,
            final(self).field == old(self).field,
            final(self).selected_unit == old(self).selected_unit,
            final(self).selected_unit_range == old(self).selected_unit_range,
            final(self).selected_ability == old(self).selected_ability,
            final(self).selected_ability_range == old(self).selected_ability_range,
            final(self).phase == old(self).phase,
            final(self).input_mode == old(self).input_mode,
            final(self).result == old(self).result,
    {
        let ghost pre = *self;
        let p = find_enemy(&self.enemies, id).unwrap();
        let mut x = self.enemies.remove(p);
        x.effects.push(e);
        self.enemies.insert(p, x);
        proof {
            assert(self.enemies@ =~= pre.enemies@.update(p as int, x));
            lemma_record_replaced(pre, *self, UnitRef::Enemy(id));
        }
    }

    /// Uses the chosen ability of the active hero on the enemy standing on
    /// `target`: an attack with the ability's damage modifier, then its effect
    /// on the target if it survives. The hero's action is spent and the ability
    /// choice cleared. An invalid use (see `ability_use_valid`) changes nothing.
    #[verifier::rlimit(80)]
    pub fn try_use_ability(&mut self, target: Hex)
        requires
            old(self).wf(),
            old(self).occupancy_ok(),
        ensures
            final(self).wf(),
            final(self).occupancy_ok(),
            final(self).phase == old(self).phase,
            final(self).result == old(self).result,
            ability_used(*old(self), *final(self), target),
    {
        let ghost pre = *self;
        if self.turn_order.len() == 0 {
            return;
        }
        let cid = match self.active_unit() {
            UnitRef::Hero(cid) => cid,
            UnitRef::Enemy(_) => return,
        };
        let p = find_hero(&self.heroes, cid).unwrap();
        if !self.heroes[p].action_available {
            return;
        }
        let ai = match self.selected_ability {
            Some(ai) => ai,
            None => return,
        };
        if ai >= self.heroes[p].abilities.len() {
            return;
        }
        let mut in_range = false;
        let mut j: usize = 0;
        while j < self.selected_ability_range.len()
            invariant
                j <= self.selected_ability_range@.len(),
                in_range == exists|m: int| 0 <= m < j && self.selected_ability_range@[m] == target,
            decreases self.selected_ability_range@.len() - j,
        {
            if self.selected_ability_range[j] == target {
                in_range = true;
            }
            j += 1;
        }
        if !in_range {
            return;
        }
        let k = match self.field.index(target) {
            Some(k) => k,
            None => return,
        };
        let victim = match self.field.hexes[k].occupying_unit {
            Some(UnitRef::Enemy(eid)) => UnitRef::Enemy(eid),
            _ => return,
        };
        let multiplier = self.heroes[p].abilities[ai].damage_modifier;
        let effect = self.heroes[p].abilities[ai].effect;
        proof {
            assert(pre.ability_use_valid(target));
            assert(pre.alive(victim));
            lemma_hero_pos(self.heroes@, p as int);
        }
        let caster = UnitRef::Hero(cid);
        self.attack_unit(caster, victim, multiplier);
        let ghost mid = *self;
        proof {
            assert(mid.alive(caster) == pre.alive(caster));
        }
        match effect {
            Some(e) => match victim {
                UnitRef::Enemy(eid) => {
                    if self.unit_hex(victim).is_some() {
                        self.add_enemy_effect(eid, e);
                    }
                },
                UnitRef::Hero(_) => {},
            },
            None => {},
        }
        let ghost mid2 = *self;
        let p2 = find_hero(&self.heroes, cid).unwrap();
        self.set_action_available(p2, false);
        let ghost mid3 = *self;
        self.clear_ability_selection();
        proof {
            assert forall|u: UnitRef| #[trigger] self.alive(u) == mid2.alive(u) && self.unit_hex_spec(u) == mid2.unit_hex_spec(u) by {
                assert(mid3.alive(u) == mid2.alive(u));
            }
            lemma_occupancy_frame(&mid2, self);
            assert(self.units_same(&mid));
            assert forall|v: UnitRef| v != victim implies (#[trigger] self.alive(v) == pre.alive(v)) && self.unit_hex_spec(v)
                == pre.unit_hex_spec(v) && self.unit_stats_spec(v) == pre.unit_stats_spec(v)
                && self.unit_current_movement_spec(v) == pre.unit_current_movement_spec(v) by {
                assert(self.alive(v) == mid.alive(v));
                assert(mid.alive(v) == pre.alive(v));
            }
            lemma_hero_pos(self.heroes@, p2 as int);
            let roll = choose|roll: int|
                pre.unit_stats_spec(caster).unwrap().damage.0 <= roll <= pre.unit_stats_spec(caster).unwrap().damage.1
                    && #[trigger] attack_outcome(pre, mid, caster, victim, multiplier as int, roll);
            assert(self.alive(victim) == mid.alive(victim));
            assert(self.unit_stats_spec(victim) == mid.unit_stats_spec(victim));
            assert(self.enemies == mid2.enemies);
        }
    }
}

impl BattleState {
    /// Carries out one of the player's intents.
    pub fn handle_command(&mut self, cmd: BattleCommand)
        requires
            old(self).wf(),
            old(self).occupancy_ok(),
        ensures
            final(self).wf(),
            final(self).occupancy_ok(),
            final(self).result == old(self).result,
            match cmd {
                BattleCommand::SelectUnit(u) => unit_selected(*old(self), *final(self), u),
                BattleCommand::SelectUnitAtHex(h) => selected_at_hex(*old(self), *final(self), h),
                BattleCommand::MoveSelectedUnit(h) => moved_selected(*old(self), *final(self), h),
                BattleCommand::SelectAbility(i) => ability_chosen(*old(self), *final(self), i),
                BattleCommand::UseAbility(h) => ability_used(*old(self), *final(self), h),
                BattleCommand::CancelAction => action_cancelled(*old(self), *final(self)),
                BattleCommand::RequestEndTurn => end_requested(*old(self), *final(self)),
            },
    {
        let ghost pre = *self;
        match cmd {
            BattleCommand::SelectUnit(unit) => {
                self.select_unit(unit);
            },
            BattleCommand::SelectUnitAtHex(hex) => {
                self.try_select_unit_at_hex(hex);
            },
            BattleCommand::MoveSelectedUnit(hex) => {
                self.try_move_selected(hex);
            },
            BattleCommand::SelectAbility(ability_idx) => {
                self.select_ability(ability_idx);
            },
            BattleCommand::UseAbility(target) => {
                self.try_use_ability(target);
            },
            BattleCommand::CancelAction => {
                self.clear_ability_selection();
                proof {
                    lemma_occupancy_frame(&pre, self);
                }
            },
            BattleCommand::RequestEndTurn => {
                self.request_end_turn();
                proof {
                    lemma_occupancy_frame(&pre, self);
                }
            },
        }
    }
}

/// Nothing of the units, the turn order or the map changes between `old` and
/// `new`, nor the phase or the result.
pub open spec fn same_battle(old: BattleState, new: BattleState) -> bool {
    &&& new.heroes == old.heroes
    &&& new.enemies == old.enemies
    &&& new.turn_order == old.turn_order
    &&& new.active_unit_idx == old.active_unit_idx
    &&& new.field == old.field
    &&& new.phase == old.phase
    &&& new.result == old.result
}

/// What selecting unit `u` does: a living unit is selected, with its movement
/// preview; a unit that is gone changes nothing.
pub open spec fn unit_selected(old: BattleState, new: BattleState, u: UnitRef) -> bool {
    &&& same_battle(old, new)
    &&& new.input_mode == old.input_mode
    &&& new.selected_ability == old.selected_ability
    &&& new.selected_ability_range == old.selected_ability_range
    &&& old.alive(u) ==> new.selected_unit == Some(u) && new.selection_ok()
    &&& !old.alive(u) ==> new.selected_unit == old.selected_unit && new.selected_unit_range
        == old.selected_unit_range
}

/// What selecting the unit on `hex` does: it selects the unit standing there,
/// if any, and turns to moving it.
pub open spec fn selected_at_hex(old: BattleState, new: BattleState, hex: Hex) -> bool {
    let occ = if old.field.contains_spec(hex) {
        old.field.info_spec(hex).occupying_unit
    } else {
        None
    };
    &&& same_battle(old, new)
    &&& new.selected_ability == old.selected_ability
    &&& new.selected_ability_range == old.selected_ability_range
    &&& match occ {
        Some(u) => {
            &&& new.input_mode == InputMode::Movement
            &&& old.alive(u) ==> new.selected_unit == Some(u) && new.selection_ok()
            &&& !old.alive(u) ==> new.selected_unit == old.selected_unit && new.selected_unit_range
                == old.selected_unit_range
        },
        None => {
            &&& new.input_mode == old.input_mode
            &&& new.selected_unit == old.selected_unit
            &&& new.selected_unit_range == old.selected_unit_range
        },
    }
}

/// What cancelling does: the chosen ability is dropped and the player is back
/// to moving; nothing else changes.
pub open spec fn action_cancelled(old: BattleState, new: BattleState) -> bool {
    &&& same_battle(old, new)
    &&& new.selected_unit == old.selected_unit
    &&& new.selected_unit_range == old.selected_unit_range
    &&& new.selected_ability.is_none()
    &&& new.selected_ability_range@.len() == 0
    &&& new.input_mode == InputMode::Movement
}

/// What asking to end the turn does: during a hero's action phase the phase
/// becomes End; nothing else changes, ever.
pub open spec fn end_requested(old: BattleState, new: BattleState) -> bool {
    &&& new.phase == if old.phase == TurnPhase::Action && old.turn_order@.len() > 0
        && old.active_unit_spec() is Hero {
        TurnPhase::End
    } else {
        old.phase
    }
    &&& new == BattleState { phase: new.phase, ..old }
}

/// What a move command does: the active, selected unit goes to `target_hex` when
/// it can reach it, paying the fewest steps; otherwise no unit and no hex
/// changes.
pub open spec fn moved_selected(old: BattleState, new: BattleState, target_hex: Hex) -> bool {
    &&& new.turn_order == old.turn_order
    &&& new.active_unit_idx == old.active_unit_idx
    &&& new.selected_unit == old.selected_unit
    &&& new.phase == old.phase
    &&& new.result == old.result
    &&& new.input_mode == old.input_mode
    &&& new.selected_ability == old.selected_ability
    &&& new.selected_ability_range == old.selected_ability_range
    &&& old.can_move_selected_to(target_hex) ==> {
        let u = old.active_unit_spec();
        &&& new.unit_hex_spec(u) == Some(target_hex)
        &&& exists|c: int|
            fewest_steps(old.field, old.unit_hex_spec(u).unwrap(), target_hex, c)
                && #[trigger] new.unit_current_movement_spec(u) == Some(
                (old.unit_current_movement_spec(u).unwrap() - c) as i32,
            )
        &&& new.others_unchanged(&old, u)
        &&& new.selection_ok()
    }
    &&& !old.can_move_selected_to(target_hex) ==> {
        &&& new.heroes == old.heroes
        &&& new.enemies == old.enemies
        &&& new.field == old.field
        &&& new.selected_unit_range == old.selected_unit_range
    }
}

/// What choosing ability `ability_idx` does: for a selected living hero that has
/// it, the choice is made and the hexes that it reaches are shown; otherwise
/// nothing.
pub open spec fn ability_chosen(old: BattleState, new: BattleState, ability_idx: usize) -> bool {
    let ok = match old.selected_unit {
        Some(UnitRef::Hero(id)) => ability_idx < old.hero_spec(id).abilities@.len(),
        _ => false,
    };
    &&& same_battle(old, new)
    &&& new.selected_unit == old.selected_unit
    &&& new.selected_unit_range == old.selected_unit_range
    &&& if ok {
        let caster = old.hero_spec(old.selected_unit.unwrap()->Hero_0);
        let range = caster.abilities@[ability_idx as int].range;
        &&& new.selected_ability == Some(ability_idx)
        &&& new.input_mode == InputMode::AbilityTarget(ability_idx)
        &&& forall|h: Hex|
            #[trigger] new.selected_ability_range@.contains(h) <==> (range >= 0 && within_steps(
                caster.hex,
                h,
                range as int,
                old.field.width as int,
                old.field.height as int,
            ))
    } else {
        &&& new.selected_ability == old.selected_ability
        &&& new.selected_ability_range == old.selected_ability_range
        &&& new.input_mode == old.input_mode
    }
}

/// What using the chosen ability on `target` does: when the use is valid (see
/// `ability_use_valid`), the enemy there takes the damage of some roll in the
/// hero's damage range scaled by the ability's modifier, and gets the ability's
/// effect if it survives; the hero's action is spent and the choice cleared.
/// Otherwise nothing changes.
pub open spec fn ability_used(old: BattleState, new: BattleState, target: Hex) -> bool {
    &&& !old.ability_use_valid(target) ==> new == old
    &&& old.ability_use_valid(target) ==> {
        let caster = old.active_unit_spec();
        let hero = old.hero_spec(caster->Hero_0);
        let victim = old.field.info_spec(target).occupying_unit.unwrap();
        let ability = hero.abilities@[old.selected_ability.unwrap() as int];
        let t = old.unit_stats_spec(victim).unwrap();
        &&& exists|roll: int|
            hero.stats.damage.0 <= roll <= hero.stats.damage.1 && #[trigger] hp_after_spec(
                t.hp as int,
                damage_spec(roll, hero.stats.attack as int, t.defense as int, ability.damage_modifier as int),
            ) == match new.unit_stats_spec(victim) {
                Some(s) => s.hp as int,
                None => 0,
            } && (new.alive(victim) <==> hp_after_spec(
                t.hp as int,
                damage_spec(roll, hero.stats.attack as int, t.defense as int, ability.damage_modifier as int),
            ) > 0)
        &&& new.others_unchanged(&old, victim)
        &&& same_ground(old.field, new.field)
        &&& if new.alive(victim) {
            &&& new.turn_order == old.turn_order
            &&& new.active_unit_idx == old.active_unit_idx
            &&& new.unit_hex_spec(victim) == old.unit_hex_spec(victim)
            &&& new.unit_current_movement_spec(victim) == old.unit_current_movement_spec(victim)
            &&& new.selected_unit == old.selected_unit
            &&& new.selected_unit_range == old.selected_unit_range
        } else {
            &&& new.left_turn_order(&old, victim)
            &&& new.selection_ok()
            &&& new.selected_unit == if old.selected_unit == Some(victim) {
                None
            } else {
                old.selected_unit
            }
        }
        &&& new.alive(victim) ==> new.effects_spec(victim) == match ability.effect {
            Some(e) => old.effects_spec(victim).push(e),
            None => old.effects_spec(victim),
        }
        &&& !new.hero_spec(caster->Hero_0).action_available
        &&& new.selected_ability.is_none()
        &&& new.selected_ability_range@.len() == 0
        &&& new.input_mode == InputMode::Movement
    }
}

} // verus!
