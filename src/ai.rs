//! The enemy AI: walk towards the nearest hero, then strike the weakest one in reach.

use vstd::prelude::*;

use crate::battlefield::Battlefield;
use crate::battlestate::{attack_outcome, BattleState, HeroInstance, UnitRef};
use crate::combat::{damage_spec, hp_after_spec};
use crate::hexgrid::{distance_spec, within_steps, Hex};
use crate::pathfinding::{bfs_path, is_bfs_path};

verus! {

fn distance_wide(a: Hex, b: Hex) -> (r: i64)
    ensures
        r == distance_spec(a, b),
        r >= 0,
{
    let dq: i64 = a.q as i64 - b.q as i64;
    let dr: i64 = a.r as i64 - b.r as i64;
    let s: i64 = dq + dr;
    let x: i64 = if dq < 0 { -dq } else { dq };
    let y: i64 = if s < 0 { -s } else { s };
    let z: i64 = if dr < 0 { -dr } else { dr };
    (x + y + z) / 2
}

/// The axial distance between two hexes.
pub fn hex_distance(a: Hex, b: Hex) -> (r: i32)
    requires
        distance_spec(a, b) <= i32::MAX,
    ensures
        r == distance_spec(a, b),
{
    distance_wide(a, b) as i32
}

/// Hero `c` is the nearest one to `from`, and the first of the nearest.
pub open spec fn closest_hero(heroes: Seq<HeroInstance>, from: Hex, c: int) -> bool {
    &&& 0 <= c < heroes.len()
    &&& forall|j: int| 0 <= j < heroes.len() ==> distance_spec(from, heroes[c].hex) <= distance_spec(from, #[trigger] heroes[j].hex)
    &&& forall|j: int| 0 <= j < c ==> distance_spec(from, #[trigger] heroes[j].hex) > distance_spec(from, heroes[c].hex)
}

/// The last place of `path` reached by stepping from place `i` on, one place at
/// a time, while the place is free and within `limit` steps of the start.
pub open spec fn free_run(path: Seq<Hex>, field: Battlefield, i: int, limit: int) -> int
    decreases path.len() - i,
{
    if i < 1 || i >= path.len() || i > limit || !field.passable_spec(path[i]) {
        i - 1
    } else {
        free_run(path, field, i + 1, limit)
    }
}

/// Where an enemy walking along `path` stops: as far as its movement takes it
/// over free hexes, or where it stands.
pub open spec fn stop_on(path: Seq<Hex>, field: Battlefield, movement: int, start: Hex) -> Hex {
    let k = free_run(path, field, 1, movement);
    if k <= 0 { start } else { path[k] }
}

/// `dest` is where the AI sends `enemy`: nowhere without movement or heroes;
/// otherwise along a shortest path towards the nearest hero, as far as its
/// movement allows and no further than the first hex that is not free.
pub open spec fn ai_destination(b: BattleState, enemy: UnitRef, dest: Hex) -> bool {
    let start = b.unit_hex_spec(enemy).unwrap();
    let m = b.unit_stats_spec(enemy).unwrap().movement as int;
    if m <= 0 || b.heroes@.len() == 0 {
        dest == start
    } else {
        exists|c: int, p: Seq<Hex>|
            closest_hero(b.heroes@, start, c) && #[trigger] is_bfs_path(p, start, b.heroes@[c].hex, b.field)
                && dest == stop_on(p, b.field, m, start)
    }
}

fn find_closest_hero(battle: &BattleState, from: Hex) -> (r: Option<usize>)
    ensures
        r.is_none() <==> battle.heroes@.len() == 0,
        r.is_some() ==> closest_hero(battle.heroes@, from, r.unwrap() as int),
{
    if battle.heroes.len() == 0 {
        return None;
    }
    let mut best: usize = 0;
    let mut best_d = distance_wide(from, battle.heroes[0].hex);
    let mut i: usize = 1;
    while i < battle.heroes.len()
        invariant
            1 <= i <= battle.heroes@.len(),
            best < i,
            best_d == distance_spec(from, battle.heroes@[best as int].hex),
            forall|j: int| 0 <= j < i ==> best_d <= distance_spec(from, #[trigger] battle.heroes@[j].hex),
            forall|j: int| 0 <= j < best ==> distance_spec(from, #[trigger] battle.heroes@[j].hex) > best_d,
        decreases battle.heroes@.len() - i,
    {
        let d = distance_wide(from, battle.heroes[i].hex);
        if d < best_d {
            best = i;
            best_d = d;
        }
        i += 1;
    }
    Some(best)
}

/// Where the AI moves `enemy`: see `ai_destination`.
pub fn enemy_ai_move(battle: &BattleState, enemy: UnitRef) -> (r: Hex)
    requires
        battle.wf(),
        battle.alive(enemy),
    ensures
        ai_destination(*battle, enemy, r),
{
    let start = battle.unit_hex(enemy).unwrap();
    let movement = battle.unit_movement(enemy).unwrap();
    if movement <= 0 {
        return start;
    }
    let c = match find_closest_hero(battle, start) {
        Some(c) => c,
        None => return start,
    };
    let target = battle.heroes[c].hex;
    let path = bfs_path(start, target, &battle.field);
    let mut last = start;
    let mut i: usize = 1;
    while i < path.len() && i <= movement as usize && battle.field.is_hex_passable(path[i])
        invariant
            1 <= i,
            movement > 0,
            i <= path@.len() || path@.len() == 0,
            battle.field.wf(),
            free_run(path@, battle.field, i as int, movement as int) == free_run(path@, battle.field, 1, movement as int),
            last == if i == 1 { start } else { path@[i - 1] },
        decreases path@.len() - i,
    {
        proof {
            assert(battle.field.passable_spec(path@[i as int]));
            assert(free_run(path@, battle.field, i as int, movement as int) == free_run(
                path@,
                battle.field,
                i as int + 1,
                movement as int,
            ));
        }
        last = path[i];
        i += 1;
    }
    proof {
        assert(free_run(path@, battle.field, i as int, movement as int) == i - 1);
        assert(closest_hero(battle.heroes@, start, c as int) && is_bfs_path(path@, start, battle.heroes@[c as int].hex, battle.field)
            && last == stop_on(path@, battle.field, movement as int, start));
    }
    last
}

/// Hero `v` stands on a hex at most one step from `center`.
pub open spec fn hero_in_reach(b: BattleState, center: Hex, v: UnitRef) -> bool {
    &&& v is Hero
    &&& b.alive(v)
    &&& within_steps(center, b.unit_hex_spec(v).unwrap(), 1, b.field.width as int, b.field.height as int)
}

/// Whether `hero` stands within one step of `enemy`.
pub fn enemy_ai_can_attack_hero(battle: &BattleState, enemy: UnitRef, hero: UnitRef) -> (r: bool)
    requires
        battle.wf(),
        battle.alive(enemy),
        battle.alive(hero),
    ensures
        r == within_steps(
            battle.unit_hex_spec(enemy).unwrap(),
            battle.unit_hex_spec(hero).unwrap(),
            1,
            battle.field.width as int,
            battle.field.height as int,
        ),
{
    let hex = battle.unit_hex(enemy).unwrap();
    let attack_area = hex.range_to_area(1, battle.field.width, battle.field.height);
    battle.is_unit_in_area(hero, &attack_area)
}

fn enemy_ai_attack_hero(battle: &mut BattleState, enemy: UnitRef, hero: UnitRef)
    requires
        old(battle).wf(),
        old(battle).occupancy_ok(),
    ensures
        final(battle).wf(),
        final(battle).occupancy_ok(),
        !old(battle).alive(enemy) ==> attack_outcome(*old(battle), *final(battle), enemy, hero, 100, 0),
        old(battle).alive(enemy) ==> exists|roll: int|
            old(battle).unit_stats_spec(enemy).unwrap().damage.0 <= roll <= old(battle).unit_stats_spec(
                enemy,
            ).unwrap().damage.1 && #[trigger] attack_outcome(*old(battle), *final(battle), enemy, hero, 100, roll),
{
    battle.attack_unit(enemy, hero, 100);
}

/// Unit `v` is alive or not, stands and has stats in `b` as in `a`.
pub open spec fn same_unit(a: BattleState, b: BattleState, v: UnitRef) -> bool {
    &&& b.alive(v) == a.alive(v)
    &&& b.unit_stats_spec(v) == a.unit_stats_spec(v)
    &&& b.unit_hex_spec(v) == a.unit_hex_spec(v)
}

/// The AI's attack from `dest`: `t` is a hero within reach with the least
/// health there, the first kept of those, and it took the damage of a roll of
/// `roll` from `enemy`.
pub open spec fn ai_attack(old: BattleState, new: BattleState, enemy: UnitRef, dest: Hex, t: UnitRef, roll: int) -> bool {
    let a = old.unit_stats_spec(enemy).unwrap();
    let s = old.unit_stats_spec(t).unwrap();
    let left = hp_after_spec(s.hp as int, damage_spec(roll, a.attack as int, s.defense as int, 100));
    &&& hero_in_reach(old, dest, t)
    &&& forall|v: UnitRef| #[trigger] hero_in_reach(old, dest, v) ==> s.hp <= old.unit_stats_spec(v).unwrap().hp
    &&& forall|v: UnitRef| #[trigger] hero_in_reach(old, dest, v) && old.unit_stats_spec(v).unwrap().hp == s.hp
        ==> old.rank(t) <= old.rank(v)
    &&& a.damage.0 <= roll <= a.damage.1
    &&& (new.alive(t) <==> left > 0)
    &&& left > 0 ==> new.unit_stats_spec(t).unwrap().hp == left
}

/// What an enemy's turn does: `enemy` ends on the hex that `ai_destination`
/// allows, its own stats unchanged; if a hero stands within one step of it, the
/// weakest such hero (`ai_attack`) takes the damage of one roll; no other unit
/// changes, and no enemy dies.
pub open spec fn ai_turn(old: BattleState, new: BattleState, enemy: UnitRef) -> bool {
    let dest = new.unit_hex_spec(enemy).unwrap();
    &&& new.result == old.result
    &&& new.input_mode == old.input_mode
    &&& new.alive(enemy)
    &&& ai_destination(old, enemy, dest)
    &&& new.unit_stats_spec(enemy) == old.unit_stats_spec(enemy)
    &&& forall|v: UnitRef| v is Enemy ==> #[trigger] new.alive(v) == old.alive(v)
    &&& forall|v: UnitRef| v != enemy && !hero_in_reach(old, dest, v) ==> #[trigger] same_unit(old, new, v)
    &&& (exists|v: UnitRef| #[trigger] hero_in_reach(old, dest, v)) ==> exists|t: UnitRef, roll: int|
        #[trigger] ai_attack(old, new, enemy, dest, t, roll) && forall|v: UnitRef|
            v != enemy && v != t ==> #[trigger] same_unit(old, new, v)
}

/// The outcome of an enemy's turn depends on the units alone, not on the phase
/// or the selection.
pub proof fn lemma_ai_turn_frame(old: BattleState, mid: BattleState, new: BattleState, enemy: UnitRef)
    requires
        ai_turn(old, mid, enemy),
        new.heroes == mid.heroes,
        new.enemies == mid.enemies,
        new.result == mid.result,
        new.input_mode == mid.input_mode,
    ensures
        ai_turn(old, new, enemy),
{
    let dest = mid.unit_hex_spec(enemy).unwrap();
    assert(new.unit_hex_spec(enemy) == mid.unit_hex_spec(enemy));
    assert forall|v: UnitRef| v is Enemy implies #[trigger] new.alive(v) == old.alive(v) by {
        assert(mid.alive(v) == old.alive(v));
    }
    assert forall|v: UnitRef| v != enemy && !hero_in_reach(old, dest, v) implies #[trigger] same_unit(old, new, v) by {
        assert(same_unit(old, mid, v));
    }
    if exists|v: UnitRef| #[trigger] hero_in_reach(old, dest, v) {
        let (t, roll) = choose|t: UnitRef, roll: int|
            #[trigger] ai_attack(old, mid, enemy, dest, t, roll) && forall|v: UnitRef|
                v != enemy && v != t ==> #[trigger] same_unit(old, mid, v);
        assert(mid.alive(t) == new.alive(t));
        assert(ai_attack(old, new, enemy, dest, t, roll));
        assert forall|v: UnitRef| v != enemy && v != t implies #[trigger] same_unit(old, new, v) by {
            assert(same_unit(old, mid, v));
        }
    }
}

/// An enemy's turn: it moves where `enemy_ai_move` says, then attacks, at full
/// strength, the weakest hero within one step, if there is one. No other unit
/// changes.
#[verifier::rlimit(80)]
pub fn enemy_ai(battle: &mut BattleState, enemy: UnitRef)
    requires
        old(battle).wf(),
        old(battle).occupancy_ok(),
        old(battle).alive(enemy),
        enemy is Enemy,
    ensures
        final(battle).wf(),
        final(battle).occupancy_ok(),
        final(battle).phase == old(battle).phase,
        ai_turn(*old(battle), *final(battle), enemy),
{
    let ghost pre = *battle;
    let target_hex = enemy_ai_move(battle, enemy);
    proof {
        match enemy {
            UnitRef::Enemy(id) => {
                let p = crate::battlestate::enemy_pos(battle.enemies@, id).unwrap();
                assert(battle.enemies@[p].id == id);
            },
            UnitRef::Hero(_) => {},
        }
    }
    battle.move_unit(enemy, target_hex, 0);
    let ghost mid = *battle;
    let hex = battle.unit_hex(enemy).unwrap();
    let attack_area = hex.range_to_area(1, battle.field.width, battle.field.height);
    let (_, foes) = battle.units_in_area(enemy, attack_area);
    let mut weakest: Option<UnitRef> = None;
    let mut weakest_hp: i32 = 0;
    let ghost mut wi: int = 0;
    let mut i: usize = 0;
    while i < foes.len()
        invariant
            *battle == mid,
            mid.wf(),
            i <= foes@.len(),
            forall|v: UnitRef| #[trigger] foes@.contains(v) <==> mid.in_area_on_side(v, true, attack_area@),
            weakest.is_none() ==> i == 0,
            weakest.is_some() ==> foes@.contains(weakest.unwrap()) && weakest_hp == mid.unit_stats_spec(weakest.unwrap()).unwrap().hp
                && forall|j: int| 0 <= j < i ==> weakest_hp <= mid.unit_stats_spec(#[trigger] foes@[j]).unwrap().hp,
            weakest.is_some() ==> 0 <= wi < i && foes@[wi] == weakest.unwrap(),
            forall|a: int, b: int| 0 <= a < b < foes@.len() ==> mid.rank(#[trigger] foes@[a]) < mid.rank(#[trigger] foes@[b]),
            weakest.is_some() ==> forall|j: int| 0 <= j < i && mid.unit_stats_spec(#[trigger] foes@[j]).unwrap().hp == weakest_hp
                ==> mid.rank(weakest.unwrap()) <= mid.rank(foes@[j]),
        decreases foes@.len() - i,
    {
        let v = foes[i];
        proof {
            assert(foes@.contains(v));
        }
        let hp = battle.unit_current_health(v);
        if weakest.is_none() || hp < weakest_hp {
            weakest = Some(v);
            weakest_hp = hp;
            proof {
                wi = i as int;
            }
        } else {
            proof {
                assert(mid.rank(foes@[wi]) < mid.rank(foes@[i as int]));
            }
        }
        i += 1;
    }
    proof {
        assert forall|v: UnitRef| #[trigger] mid.in_area_on_side(v, true, attack_area@) <==> hero_in_reach(pre, target_hex, v) by {
            if v != enemy {
                assert(mid.alive(v) == pre.alive(v));
                assert(mid.unit_hex_spec(v) == pre.unit_hex_spec(v));
            }
        }
        assert forall|v: UnitRef| v != enemy implies #[trigger] same_unit(pre, mid, v) by {
            assert(mid.alive(v) == pre.alive(v));
        }
    }
    match weakest {
        Some(t) => {
            proof {
                assert forall|v: UnitRef| #[trigger] hero_in_reach(pre, target_hex, v) implies pre.unit_stats_spec(t).unwrap().hp
                    <= pre.unit_stats_spec(v).unwrap().hp by {
                    assert(foes@.contains(v));
                    let j = choose|j: int| 0 <= j < foes@.len() && foes@[j] == v;
                    assert(same_unit(pre, mid, v));
                    assert(same_unit(pre, mid, t));
                }
                assert(hero_in_reach(pre, target_hex, t));
                assert(same_unit(pre, mid, t));
                assert forall|v: UnitRef| #[trigger] hero_in_reach(pre, target_hex, v) && pre.unit_stats_spec(v).unwrap().hp
                    == pre.unit_stats_spec(t).unwrap().hp implies pre.rank(t) <= pre.rank(v) by {
                    assert(foes@.contains(v));
                    let j = choose|j: int| 0 <= j < foes@.len() && foes@[j] == v;
                    assert(same_unit(pre, mid, v));
                    assert(mid.rank(t) == pre.rank(t));
                    assert(mid.rank(v) == pre.rank(v));
                }
            }
            enemy_ai_attack_hero(battle, enemy, t);
            proof {
                let roll = choose|roll: int|
                    mid.unit_stats_spec(enemy).unwrap().damage.0 <= roll <= mid.unit_stats_spec(enemy).unwrap().damage.1
                        && #[trigger] attack_outcome(mid, *battle, enemy, t, 100, roll);
                assert(t != enemy);
                assert(battle.alive(enemy) == mid.alive(enemy));
                assert(battle.unit_hex_spec(enemy) == mid.unit_hex_spec(enemy));
                assert(ai_attack(pre, *battle, enemy, target_hex, t, roll));
                assert forall|v: UnitRef| v != enemy && v != t implies #[trigger] same_unit(pre, *battle, v) by {
                    assert(same_unit(pre, mid, v));
                    assert(battle.alive(v) == mid.alive(v));
                }
                assert forall|v: UnitRef| v is Enemy implies #[trigger] battle.alive(v) == pre.alive(v) by {
                    if v != enemy {
                        assert(same_unit(pre, *battle, v));
                    }
                }
                assert forall|v: UnitRef| v != enemy && !hero_in_reach(pre, target_hex, v) implies #[trigger] same_unit(pre, *battle, v) by {
                    assert(same_unit(pre, mid, v));
                    assert(battle.alive(v) == mid.alive(v));
                }
            }
        },
        None => {
            proof {
                assert forall|v: UnitRef| !hero_in_reach(pre, target_hex, v) by {
                    if hero_in_reach(pre, target_hex, v) {
                        assert(foes@.contains(v));
                    }
                }
                assert forall|v: UnitRef| v is Enemy implies #[trigger] battle.alive(v) == pre.alive(v) by {
                    if v != enemy {
                        assert(same_unit(pre, mid, v));
                    }
                }
            }
        },
    }
}

} // verus!
