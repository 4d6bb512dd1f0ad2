//! The state of a battle: its units, their lookups, and the changes that moving,
//! attacking and dying make.

use rand::Rng;
use vstd::prelude::*;

use crate::battlefield::{Battlefield, HexInfo};
use crate::character::{Ability, Enemy, Hero, Stats};
use crate::combat::{damage_dealt, damage_spec, hp_after_spec};
use crate::effect::Effect;
use crate::hexgrid::Hex;
use crate::battlemap::same_ground;
use crate::pathfinding::{is_movement_range, movement_range, Reach};

verus! {

#[derive(Clone, Copy, Debug, PartialEq, Eq, Structural)]
pub enum BattleResult {
    Victory,
    Defeat,
}

/// Names a unit: a hero or an enemy, by its id.
#[derive(Clone, Copy, Debug, PartialEq, Eq, Hash, Structural)]
pub enum UnitRef {
    Hero(u32),
    Enemy(u32),
}

/// What a click on the battlefield means.
#[derive(Clone, Copy, Debug, PartialEq, Eq, Structural)]
pub enum InputMode {
    Normal,
    Movement,
    AbilityTarget(usize),
}

/// Each unit's turn goes through these three phases in order.
#[derive(Clone, Copy, Debug, PartialEq, Eq, Structural)]
pub enum TurnPhase {
    Start,
    Action,
    End,
}

/// The player's intents.
#[derive(Clone, Copy, Debug, PartialEq, Eq, Structural)]
pub enum BattleCommand {
    SelectUnit(UnitRef),
    SelectUnitAtHex(Hex),
    MoveSelectedUnit(Hex),
    SelectAbility(usize),
    UseAbility(Hex),
    CancelAction,
    RequestEndTurn,
}

#[derive(Clone, Debug)]
pub struct HeroInstance {
    pub id: u32,
    pub name: String,
    pub hex: Hex,
    pub stats: Stats,
    pub abilities: Vec<Ability>,
    /// Steps left in this turn.
    pub current_movement: i32,
    /// Whether the hero may still use an ability this turn.
    pub action_available: bool,
    pub effects: Vec<Effect>,
}

#[derive(Clone, Debug)]
pub struct EnemyInstance {
    pub id: u32,
    pub name: String,
    pub hex: Hex,
    pub stats: Stats,
    /// Steps left in this turn.
    pub current_movement: i32,
    pub effects: Vec<Effect>,
}

impl HeroInstance {
    /// The hero as it enters a battle on `hex`: full movement, its action
    /// available, no effect on it.
    pub fn from_hero(hero: &Hero, hex: Hex) -> (r: Self)
        ensures
            r.id == hero.id,
            r.name@ == hero.name@,
            r.hex == hex,
            r.stats == hero.stats,
            r.current_movement == hero.stats.movement,
            r.action_available,
            r.effects@.len() == 0,
    {
        HeroInstance {
            id: hero.id,
            name: hero.name.clone(),
            hex,
            stats: hero.stats,
            abilities: hero.abilities.clone(),
            current_movement: hero.stats.movement,
            action_available: true,
            effects: Vec::new(),
        }
    }
}

impl EnemyInstance {
    /// The enemy as it enters a battle on `hex`: full movement, no effect on it.
    pub fn from_enemy(enemy: &Enemy, hex: Hex) -> (r: Self)
        ensures
            r.id == enemy.id,
            r.name@ == enemy.name@,
            r.hex == hex,
            r.stats == enemy.stats,
            r.current_movement == enemy.stats.movement,
            r.effects@.len() == 0,
    {
        EnemyInstance {
            id: enemy.id,
            name: enemy.name.clone(),
            hex,
            stats: enemy.stats,
            current_movement: enemy.stats.movement,
            effects: Vec::new(),
        }
    }
}

/// The whole state of a battle. Heroes and enemies are kept in the order in
/// which they joined, each id once.
pub struct BattleState {
    pub heroes: Vec<HeroInstance>,
    pub enemies: Vec<EnemyInstance>,
    pub turn_order: Vec<UnitRef>,
    pub active_unit_idx: usize,
    pub selected_unit: Option<UnitRef>,
    pub selected_unit_range: Vec<Reach>,
    pub selected_ability: Option<usize>,
    pub selected_ability_range: Vec<Hex>,
    pub field: Battlefield,
    pub phase: TurnPhase,
    pub input_mode: InputMode,
    pub result: Option<BattleResult>,
}

pub open spec fn hero_ids_unique(s: Seq<HeroInstance>) -> bool {
    forall|i: int, j: int| 0 <= i < j < s.len() ==> (#[trigger] s[i]).id != (#[trigger] s[j]).id
}

pub open spec fn enemy_ids_unique(s: Seq<EnemyInstance>) -> bool {
    forall|i: int, j: int| 0 <= i < j < s.len() ==> (#[trigger] s[i]).id != (#[trigger] s[j]).id
}

/// Where the hero with `id` is kept, if it is alive.
pub open spec fn hero_pos(s: Seq<HeroInstance>, id: u32) -> Option<int> {
    if exists|i: int| 0 <= i < s.len() && (#[trigger] s[i]).id == id {
        Some(choose|i: int| 0 <= i < s.len() && (#[trigger] s[i]).id == id)
    } else {
        None
    }
}

/// Where the enemy with `id` is kept, if it is alive.
pub open spec fn enemy_pos(s: Seq<EnemyInstance>, id: u32) -> Option<int> {
    if exists|i: int| 0 <= i < s.len() && (#[trigger] s[i]).id == id {
        Some(choose|i: int| 0 <= i < s.len() && (#[trigger] s[i]).id == id)
    } else {
        None
    }
}

pub proof fn lemma_hero_pos(s: Seq<HeroInstance>, i: int)
    requires
        hero_ids_unique(s),
        0 <= i < s.len(),
    ensures
        hero_pos(s, s[i].id) == Some(i),
{
    let id = s[i].id;
    assert(s[i].id == id);
    let c = choose|c: int| 0 <= c < s.len() && (#[trigger] s[c]).id == id;
    if c < i {
        assert(s[c].id != s[i].id);
    } else if c > i {
        assert(s[i].id != s[c].id);
    }
}

pub proof fn lemma_enemy_pos(s: Seq<EnemyInstance>, i: int)
    requires
        enemy_ids_unique(s),
        0 <= i < s.len(),
    ensures
        enemy_pos(s, s[i].id) == Some(i),
{
    let id = s[i].id;
    assert(s[i].id == id);
    let c = choose|c: int| 0 <= c < s.len() && (#[trigger] s[c]).id == id;
    if c < i {
        assert(s[c].id != s[i].id);
    } else if c > i {
        assert(s[i].id != s[c].id);
    }
}

pub(crate) fn find_hero(s: &Vec<HeroInstance>, id: u32) -> (r: Option<usize>)
    requires
        hero_ids_unique(s@),
    ensures
        r.is_some() == hero_pos(s@, id).is_some(),
        r.is_some() ==> r.unwrap() as int == hero_pos(s@, id).unwrap() && r.unwrap() < s@.len(),
{
    let mut i: usize = 0;
    while i < s.len()
        invariant
            i <= s@.len(),
            hero_ids_unique(s@),
            forall|j: int| 0 <= j < i ==> (#[trigger] s@[j]).id != id,
        decreases s@.len() - i,
    {
        if s[i].id == id {
            proof {
                lemma_hero_pos(s@, i as int);
            }
            return Some(i);
        }
        i += 1;
    }
    None
}

pub(crate) fn find_enemy(s: &Vec<EnemyInstance>, id: u32) -> (r: Option<usize>)
    requires
        enemy_ids_unique(s@),
    ensures
        r.is_some() == enemy_pos(s@, id).is_some(),
        r.is_some() ==> r.unwrap() as int == enemy_pos(s@, id).unwrap() && r.unwrap() < s@.len(),
{
    let mut i: usize = 0;
    while i < s.len()
        invariant
            i <= s@.len(),
            enemy_ids_unique(s@),
            forall|j: int| 0 <= j < i ==> (#[trigger] s@[j]).id != id,
        decreases s@.len() - i,
    {
        if s[i].id == id {
            proof {
                lemma_enemy_pos(s@, i as int);
            }
            return Some(i);
        }
        i += 1;
    }
    None
}

/// The units of both sides, heroes first, each side in the order kept.
pub open spec fn all_units(heroes: Seq<HeroInstance>, enemies: Seq<EnemyInstance>) -> Seq<UnitRef> {
    heroes.map_values(|h: HeroInstance| UnitRef::Hero(h.id)) + enemies.map_values(
        |e: EnemyInstance| UnitRef::Enemy(e.id),
    )
}

impl BattleState {
    pub open spec fn alive(&self, u: UnitRef) -> bool {
        match u {
            UnitRef::Hero(id) => hero_pos(self.heroes@, id).is_some(),
            UnitRef::Enemy(id) => enemy_pos(self.enemies@, id).is_some(),
        }
    }

    pub open spec fn hero_spec(&self, id: u32) -> HeroInstance {
        self.heroes@[hero_pos(self.heroes@, id).unwrap()]
    }

    pub open spec fn enemy_spec(&self, id: u32) -> EnemyInstance {
        self.enemies@[enemy_pos(self.enemies@, id).unwrap()]
    }

    /// Where a living unit stands.
    pub open spec fn unit_hex_spec(&self, u: UnitRef) -> Option<Hex> {
        if !self.alive(u) {
            None
        } else {
            match u {
                UnitRef::Hero(id) => Some(self.hero_spec(id).hex),
                UnitRef::Enemy(id) => Some(self.enemy_spec(id).hex),
            }
        }
    }

    pub open spec fn unit_stats_spec(&self, u: UnitRef) -> Option<Stats> {
        if !self.alive(u) {
            None
        } else {
            match u {
                UnitRef::Hero(id) => Some(self.hero_spec(id).stats),
                UnitRef::Enemy(id) => Some(self.enemy_spec(id).stats),
            }
        }
    }

    /// The effects on a unit.
    pub open spec fn effects_spec(&self, u: UnitRef) -> Seq<Effect> {
        match u {
            UnitRef::Hero(id) => self.hero_spec(id).effects@,
            UnitRef::Enemy(id) => self.enemy_spec(id).effects@,
        }
    }

    pub open spec fn unit_current_movement_spec(&self, u: UnitRef) -> Option<i32> {
        if !self.alive(u) {
            None
        } else {
            match u {
                UnitRef::Hero(id) => Some(self.hero_spec(id).current_movement),
                UnitRef::Enemy(id) => Some(self.enemy_spec(id).current_movement),
            }
        }
    }

    /// The turn order holds every living unit once and nothing else.
    pub open spec fn turn_order_ok(&self) -> bool {
        &&& self.turn_order@.no_duplicates()
        &&& forall|i: int| 0 <= i < self.turn_order@.len() ==> self.alive(#[trigger] self.turn_order@[i])
        &&& forall|u: UnitRef| self.alive(u) ==> #[trigger] self.turn_order@.contains(u)
        &&& self.turn_order@.len() == self.heroes@.len() + self.enemies@.len()
        &&& (self.active_unit_idx < self.turn_order@.len() || (self.turn_order@.len() == 0
            && self.active_unit_idx == 0))
    }

    /// The map is well formed, ids are unique on each side and every unit's
    /// stats are valid.
    pub open spec fn store_ok(&self) -> bool {
        &&& self.field.wf()
        &&& hero_ids_unique(self.heroes@)
        &&& enemy_ids_unique(self.enemies@)
        &&& forall|i: int| 0 <= i < self.heroes@.len() ==> (#[trigger] self.heroes@[i]).stats.wf()
        &&& forall|i: int| 0 <= i < self.enemies@.len() ==> (#[trigger] self.enemies@[i]).stats.wf()
        &&& self.selected_unit.is_some() ==> self.alive(self.selected_unit.unwrap())
    }

    pub open spec fn wf(&self) -> bool {
        &&& self.store_ok()
        &&& self.turn_order_ok()
    }

    pub open spec fn initiative_spec(&self, u: UnitRef) -> int {
        self.unit_stats_spec(u).unwrap().initiative as int
    }

    /// Where a living unit stands among all units: heroes first, then enemies.
    pub open spec fn rank(&self, u: UnitRef) -> int {
        match u {
            UnitRef::Hero(id) => hero_pos(self.heroes@, id).unwrap(),
            UnitRef::Enemy(id) => self.heroes@.len() + enemy_pos(self.enemies@, id).unwrap(),
        }
    }

    /// Higher initiative first; equal initiative in the order in which the units
    /// are kept.
    pub open spec fn sorted_by_initiative(&self, t: Seq<UnitRef>) -> bool {
        forall|a: int, b: int|
            0 <= a < b < t.len() ==> self.initiative_spec(#[trigger] t[a]) > self.initiative_spec(
                #[trigger] t[b],
            ) || (self.initiative_spec(t[a]) == self.initiative_spec(t[b]) && self.rank(t[a])
                < self.rank(t[b]))
    }

    /// Every occupant recorded on the map stands on that hex, and every living
    /// unit on the map is recorded on its hex.
    pub open spec fn occupancy_ok(&self) -> bool {
        &&& forall|h: Hex| #[trigger] self.field.contains_spec(h) ==> match self.field.info_spec(h).occupying_unit {
            Some(u) => self.unit_hex_spec(u) == Some(h),
            None => true,
        }
        &&& forall|u: UnitRef| #[trigger] self.alive(u) && self.field.contains_spec(self.unit_hex_spec(u).unwrap())
            ==> self.field.info_spec(self.unit_hex_spec(u).unwrap()).occupying_unit.is_some()
    }

    /// The active unit: the one at the active index of the turn order.
    pub open spec fn active_unit_spec(&self) -> UnitRef {
        self.turn_order@[self.active_unit_idx as int]
    }
}

// --------------------- Lookups ---------------------
impl BattleState {
    pub fn hero(&self, id: u32) -> (r: Option<&HeroInstance>)
        requires
            self.wf(),
        ensures
            r.is_some() == hero_pos(self.heroes@, id).is_some(),
            r.is_some() ==> *r.unwrap() == self.hero_spec(id),
    {
        match find_hero(&self.heroes, id) {
            Some(i) => Some(&self.heroes[i]),
            None => None,
        }
    }

    pub fn enemy(&self, id: u32) -> (r: Option<&EnemyInstance>)
        requires
            self.wf(),
        ensures
            r.is_some() == enemy_pos(self.enemies@, id).is_some(),
            r.is_some() ==> *r.unwrap() == self.enemy_spec(id),
    {
        match find_enemy(&self.enemies, id) {
            Some(i) => Some(&self.enemies[i]),
            None => None,
        }
    }

    pub fn unit_hex(&self, u: UnitRef) -> (r: Option<Hex>)
        requires
            self.wf(),
        ensures
            r == self.unit_hex_spec(u),
    {
        match u {
            UnitRef::Hero(id) => match find_hero(&self.heroes, id) {
                Some(i) => Some(self.heroes[i].hex),
                None => None,
            },
            UnitRef::Enemy(id) => match find_enemy(&self.enemies, id) {
                Some(i) => Some(self.enemies[i].hex),
                None => None,
            },
        }
    }

    pub fn unit_stats(&self, u: UnitRef) -> (r: Option<Stats>)
        requires
            self.wf(),
        ensures
            r == self.unit_stats_spec(u),
    {
        match u {
            UnitRef::Hero(id) => match find_hero(&self.heroes, id) {
                Some(i) => Some(self.heroes[i].stats),
                None => None,
            },
            UnitRef::Enemy(id) => match find_enemy(&self.enemies, id) {
                Some(i) => Some(self.enemies[i].stats),
                None => None,
            },
        }
    }

    pub fn unit_name(&self, u: UnitRef) -> (r: Option<String>)
        requires
            self.wf(),
        ensures
            r.is_some() == self.alive(u),
            r.is_some() ==> r.unwrap()@ == match u {
                UnitRef::Hero(id) => self.hero_spec(id).name@,
                UnitRef::Enemy(id) => self.enemy_spec(id).name@,
            },
    {
        match u {
            UnitRef::Hero(id) => match find_hero(&self.heroes, id) {
                Some(i) => Some(self.heroes[i].name.clone()),
                None => None,
            },
            UnitRef::Enemy(id) => match find_enemy(&self.enemies, id) {
                Some(i) => Some(self.enemies[i].name.clone()),
                None => None,
            },
        }
    }

    /// The unit's movement stat: how far it may go in a whole turn.
    pub fn unit_movement(&self, u: UnitRef) -> (r: Option<i32>)
        requires
            self.wf(),
        ensures
            r.is_some() == self.alive(u),
            r.is_some() ==> r.unwrap() == self.unit_stats_spec(u).unwrap().movement,
    {
        match self.unit_stats(u) {
            Some(s) => Some(s.movement),
            None => None,
        }
    }

    /// How far the unit may still go in this turn.
    pub fn unit_current_movement(&self, u: UnitRef) -> (r: Option<i32>)
        requires
            self.wf(),
        ensures
            r == self.unit_current_movement_spec(u),
    {
        match u {
            UnitRef::Hero(id) => match find_hero(&self.heroes, id) {
                Some(i) => Some(self.heroes[i].current_movement),
                None => None,
            },
            UnitRef::Enemy(id) => match find_enemy(&self.enemies, id) {
                Some(i) => Some(self.enemies[i].current_movement),
                None => None,
            },
        }
    }

    /// The unit's health; zero for a unit that is gone.
    pub fn unit_current_health(&self, u: UnitRef) -> (r: i32)
        requires
            self.wf(),
        ensures
            r == match self.unit_stats_spec(u) {
                Some(s) => s.hp,
                None => 0,
            },
    {
        match self.unit_stats(u) {
            Some(s) => s.hp,
            None => 0,
        }
    }

    /// Whether a hero may still act this turn; enemies never use that flag.
    pub fn unit_action_available(&self, u: UnitRef) -> (r: Option<bool>)
        requires
            self.wf(),
        ensures
            r == match u {
                UnitRef::Hero(id) => if self.alive(u) {
                    Some(self.hero_spec(id).action_available)
                } else {
                    None
                },
                UnitRef::Enemy(_) => Some(false),
            },
    {
        match u {
            UnitRef::Hero(id) => match find_hero(&self.heroes, id) {
                Some(i) => Some(self.heroes[i].action_available),
                None => None,
            },
            UnitRef::Enemy(_) => Some(false),
        }
    }

    /// A hero's abilities; enemies have none.
    pub fn unit_abilities(&self, u: UnitRef) -> (r: Option<&Vec<Ability>>)
        requires
            self.wf(),
        ensures
            r.is_some() == (u is Hero && self.alive(u)),
            r.is_some() ==> *r.unwrap() == self.hero_spec(u->Hero_0).abilities,
    {
        match u {
            UnitRef::Hero(id) => match find_hero(&self.heroes, id) {
                Some(i) => Some(&self.heroes[i].abilities),
                None => None,
            },
            UnitRef::Enemy(_) => None,
        }
    }

    pub fn selected_unit_hex(&self) -> (r: Option<Hex>)
        requires
            self.wf(),
        ensures
            r == match self.selected_unit {
                Some(u) => self.unit_hex_spec(u),
                None => None,
            },
    {
        match self.selected_unit {
            Some(u) => self.unit_hex(u),
            None => None,
        }
    }

    /// The unit whose turn it is.
    pub fn active_unit(&self) -> (r: UnitRef)
        requires
            self.wf(),
            self.turn_order@.len() > 0,
        ensures
            r == self.active_unit_spec(),
            self.alive(r),
    {
        self.turn_order[self.active_unit_idx]
    }

    pub fn active_unit_hex(&self) -> (r: Option<Hex>)
        requires
            self.wf(),
        ensures
            self.turn_order@.len() == 0 ==> r.is_none(),
            self.turn_order@.len() > 0 ==> r == self.unit_hex_spec(self.active_unit_spec()),
    {
        if self.turn_order.len() == 0 {
            return None;
        }
        let u = self.active_unit();
        self.unit_hex(u)
    }

    /// Whether the active unit is a hero.
    pub fn is_player_turn(&self) -> (r: bool)
        requires
            self.wf(),
        ensures
            r == (self.turn_order@.len() > 0 && self.active_unit_spec() is Hero),
    {
        if self.turn_order.len() == 0 {
            return false;
        }
        match self.active_unit() {
            UnitRef::Hero(_) => true,
            UnitRef::Enemy(_) => false,
        }
    }

    /// Hands the turn to the next unit of the turn order, wrapping round at its end.
    pub fn next_unit(&mut self)
        requires
            old(self).wf(),
        ensures
            final(self).wf(),
            old(self).turn_order@.len() > 0 ==> final(self).active_unit_idx as int == (old(
                self,
            ).active_unit_idx + 1) % (old(self).turn_order@.len() as int),
            old(self).turn_order@.len() == 0 ==> final(self).active_unit_idx == 0,
            final(self).turn_order == old(self).turn_order,
            final(self).heroes == old(self).heroes,
            final(self).enemies == old(self).enemies,
            final(self).field == old(self).field,
            final(self).selected_unit == old(self).selected_unit,
            final(self).selected_unit_range == old(self).selected_unit_range,
            final(self).selected_ability == old(self).selected_ability,
            final(self).selected_ability_range == old(self).selected_ability_range,
            final(self).phase == old(self).phase,
            final(self).input_mode == old(self).input_mode,
            final(self).result == old(self).result,
    {
        let n = self.turn_order.len();
        if n == 0 {
            return;
        }
        self.active_unit_idx = (self.active_unit_idx + 1) % n;
    }

    pub fn is_hex_passable(&self, hex: Hex) -> (r: bool)
        requires
            self.wf(),
        ensures
            r == self.field.passable_spec(hex),
    {
        self.field.is_hex_passable(hex)
    }
}

/// Occupancy depends on the map and on which units stand where, alone.
pub proof fn lemma_occupancy_frame(a: &BattleState, b: &BattleState)
    requires
        a.occupancy_ok(),
        a.field == b.field,
        forall|u: UnitRef| #[trigger] b.alive(u) == a.alive(u) && b.unit_hex_spec(u) == a.unit_hex_spec(u),
    ensures
        b.occupancy_ok(),
{
    assert forall|h: Hex| #[trigger] b.field.contains_spec(h) implies match b.field.info_spec(h).occupying_unit {
        Some(u) => b.unit_hex_spec(u) == Some(h),
        None => true,
    } by {
        assert(a.field.contains_spec(h));
        match b.field.info_spec(h).occupying_unit {
            Some(u) => {
                assert(a.unit_hex_spec(u) == b.unit_hex_spec(u));
            },
            None => {},
        }
    }
    assert forall|u: UnitRef| #[trigger] b.alive(u) && b.field.contains_spec(b.unit_hex_spec(u).unwrap())
        implies b.field.info_spec(b.unit_hex_spec(u).unwrap()).occupying_unit.is_some() by {
        assert(a.alive(u));
        assert(a.unit_hex_spec(u) == b.unit_hex_spec(u));
    }
}

/// Where the active index goes when place `k` of a turn order leaves it and
/// `new_len` places remain. Units after the active one keep it; one before it
/// moves it back one place. When the active unit itself leaves, the index moves
/// back to the unit before it (the last one, from the first place), so that
/// ending the turn hands it to the unit that came after the one removed.
pub open spec fn index_after_removal(idx: int, k: int, new_len: int) -> int {
    if new_len == 0 {
        0
    } else if k < idx {
        idx - 1
    } else if k > idx {
        idx
    } else if idx == 0 {
        new_len - 1
    } else {
        idx - 1
    }
}

pub(crate) proof fn lemma_heroes_update(s: Seq<HeroInstance>, p: int, x: HeroInstance)
    requires
        hero_ids_unique(s),
        0 <= p < s.len(),
        x.id == s[p].id,
    ensures
        hero_ids_unique(s.update(p, x)),
        forall|id: u32| #[trigger] hero_pos(s.update(p, x), id) == hero_pos(s, id),
{
    let t = s.update(p, x);
    assert forall|i: int, j: int| 0 <= i < j < t.len() implies (#[trigger] t[i]).id != (#[trigger] t[j]).id by {
        assert(s[i].id != s[j].id);
    }
    assert forall|id: u32| #[trigger] hero_pos(t, id) == hero_pos(s, id) by {
        if hero_pos(s, id).is_some() {
            let i = hero_pos(s, id).unwrap();
            assert(s[i].id == id);
            lemma_hero_pos(s, i);
            assert(t[i].id == id);
            lemma_hero_pos(t, i);
        } else if hero_pos(t, id).is_some() {
            let i = hero_pos(t, id).unwrap();
            assert(t[i].id == id);
            assert(s[i].id == id);
        }
    }
}

pub(crate) proof fn lemma_enemies_update(s: Seq<EnemyInstance>, p: int, x: EnemyInstance)
    requires
        enemy_ids_unique(s),
        0 <= p < s.len(),
        x.id == s[p].id,
    ensures
        enemy_ids_unique(s.update(p, x)),
        forall|id: u32| #[trigger] enemy_pos(s.update(p, x), id) == enemy_pos(s, id),
{
    let t = s.update(p, x);
    assert forall|i: int, j: int| 0 <= i < j < t.len() implies (#[trigger] t[i]).id != (#[trigger] t[j]).id by {
        assert(s[i].id != s[j].id);
    }
    assert forall|id: u32| #[trigger] enemy_pos(t, id) == enemy_pos(s, id) by {
        if enemy_pos(s, id).is_some() {
            let i = enemy_pos(s, id).unwrap();
            assert(s[i].id == id);
            lemma_enemy_pos(s, i);
            assert(t[i].id == id);
            lemma_enemy_pos(t, i);
        } else if enemy_pos(t, id).is_some() {
            let i = enemy_pos(t, id).unwrap();
            assert(t[i].id == id);
            assert(s[i].id == id);
        }
    }
}

proof fn lemma_heroes_remove(s: Seq<HeroInstance>, p: int)
    requires
        hero_ids_unique(s),
        0 <= p < s.len(),
    ensures
        hero_ids_unique(s.remove(p)),
        hero_pos(s.remove(p), s[p].id).is_none(),
        forall|id: u32| id != s[p].id ==> (#[trigger] hero_pos(s.remove(p), id)).is_some() == hero_pos(s, id).is_some()
            && (hero_pos(s, id).is_some() ==> s.remove(p)[hero_pos(s.remove(p), id).unwrap()] == s[hero_pos(s, id).unwrap()]),
{
    let t = s.remove(p);
    assert forall|i: int, j: int| 0 <= i < j < t.len() implies (#[trigger] t[i]).id != (#[trigger] t[j]).id by {
        if j < p {
            assert(s[i].id != s[j].id);
        } else if i < p {
            assert(s[i].id != s[j + 1].id);
        } else {
            assert(s[i + 1].id != s[j + 1].id);
        }
    }
    if hero_pos(t, s[p].id).is_some() {
        let i = hero_pos(t, s[p].id).unwrap();
        if i < p {
            assert(s[i].id != s[p].id);
        } else {
            assert(s[p].id != s[i + 1].id);
        }
    }
    assert forall|id: u32| id != s[p].id implies (#[trigger] hero_pos(t, id)).is_some() == hero_pos(s, id).is_some()
        && (hero_pos(s, id).is_some() ==> t[hero_pos(t, id).unwrap()] == s[hero_pos(s, id).unwrap()]) by {
        if hero_pos(s, id).is_some() {
            let i = hero_pos(s, id).unwrap();
            assert(s[i].id == id);
            let ni = if i < p { i } else { i - 1 };
            assert(t[ni] == s[i]);
            lemma_hero_pos(t, ni);
        } else if hero_pos(t, id).is_some() {
            let i = hero_pos(t, id).unwrap();
            assert(t[i].id == id);
            if i < p {
                assert(s[i].id == id);
            } else {
                assert(s[i + 1].id == id);
            }
        }
    }
}

proof fn lemma_enemies_remove(s: Seq<EnemyInstance>, p: int)
    requires
        enemy_ids_unique(s),
        0 <= p < s.len(),
    ensures
        enemy_ids_unique(s.remove(p)),
        enemy_pos(s.remove(p), s[p].id).is_none(),
        forall|id: u32| id != s[p].id ==> (#[trigger] enemy_pos(s.remove(p), id)).is_some() == enemy_pos(s, id).is_some()
            && (enemy_pos(s, id).is_some() ==> s.remove(p)[enemy_pos(s.remove(p), id).unwrap()] == s[enemy_pos(s, id).unwrap()]),
{
    let t = s.remove(p);
    assert forall|i: int, j: int| 0 <= i < j < t.len() implies (#[trigger] t[i]).id != (#[trigger] t[j]).id by {
        if j < p {
            assert(s[i].id != s[j].id);
        } else if i < p {
            assert(s[i].id != s[j + 1].id);
        } else {
            assert(s[i + 1].id != s[j + 1].id);
        }
    }
    if enemy_pos(t, s[p].id).is_some() {
        let i = enemy_pos(t, s[p].id).unwrap();
        if i < p {
            assert(s[i].id != s[p].id);
        } else {
            assert(s[p].id != s[i + 1].id);
        }
    }
    assert forall|id: u32| id != s[p].id implies (#[trigger] enemy_pos(t, id)).is_some() == enemy_pos(s, id).is_some()
        && (enemy_pos(s, id).is_some() ==> t[enemy_pos(t, id).unwrap()] == s[enemy_pos(s, id).unwrap()]) by {
        if enemy_pos(s, id).is_some() {
            let i = enemy_pos(s, id).unwrap();
            assert(s[i].id == id);
            let ni = if i < p { i } else { i - 1 };
            assert(t[ni] == s[i]);
            lemma_enemy_pos(t, ni);
        } else if enemy_pos(t, id).is_some() {
            let i = enemy_pos(t, id).unwrap();
            assert(t[i].id == id);
            if i < p {
                assert(s[i].id == id);
            } else {
                assert(s[i + 1].id == id);
            }
        }
    }
}

/// The record kept at the place of unit `u` in `pre`, when `post` replaces it by
/// `x` and changes nothing else of the store.
pub open spec fn record_replaced(pre: BattleState, post: BattleState, u: UnitRef) -> bool {
    match u {
        UnitRef::Hero(x) => {
            let p = hero_pos(pre.heroes@, x).unwrap();
            &&& post.heroes@ == pre.heroes@.update(p, post.heroes@[p])
            &&& post.heroes@[p].id == x
            &&& post.heroes@[p].stats.wf()
            &&& post.enemies == pre.enemies
        },
        UnitRef::Enemy(x) => {
            let p = enemy_pos(pre.enemies@, x).unwrap();
            &&& post.enemies@ == pre.enemies@.update(p, post.enemies@[p])
            &&& post.enemies@[p].id == x
            &&& post.enemies@[p].stats.wf()
            &&& post.heroes == pre.heroes
        },
    }
}

/// Replacing the record of one living unit by one with the same id keeps the
/// battle well formed: the same units are alive, at the same ranks, and the
/// others keep where they stand, their stats and their movement left.
pub proof fn lemma_record_replaced(pre: BattleState, post: BattleState, u: UnitRef)
    requires
        pre.wf(),
        pre.alive(u),
        record_replaced(pre, post, u),
        post.turn_order == pre.turn_order,
        post.active_unit_idx == pre.active_unit_idx,
        post.field == pre.field,
        post.selected_unit == pre.selected_unit,
    ensures
        post.wf(),
        forall|v: UnitRef| #[trigger] post.alive(v) == pre.alive(v) && post.rank(v) == pre.rank(v),
        post.others_unchanged(&pre, u),
        pre.occupancy_ok() && post.unit_hex_spec(u) == pre.unit_hex_spec(u) ==> post.occupancy_ok(),
        match u {
            UnitRef::Hero(x) => post.hero_spec(x) == post.heroes@[hero_pos(pre.heroes@, x).unwrap()],
            UnitRef::Enemy(x) => post.enemy_spec(x) == post.enemies@[enemy_pos(pre.enemies@, x).unwrap()],
        },
{
    match u {
        UnitRef::Hero(x) => {
            let p = hero_pos(pre.heroes@, x).unwrap();
            assert(pre.heroes@[p].id == x);
            lemma_heroes_update(pre.heroes@, p, post.heroes@[p]);
            assert forall|i: int| 0 <= i < post.heroes@.len() implies (#[trigger] post.heroes@[i]).stats.wf() by {
                if i != p {
                    assert(pre.heroes@[i].stats.wf());
                }
            }
        },
        UnitRef::Enemy(x) => {
            let p = enemy_pos(pre.enemies@, x).unwrap();
            assert(pre.enemies@[p].id == x);
            lemma_enemies_update(pre.enemies@, p, post.enemies@[p]);
            assert forall|i: int| 0 <= i < post.enemies@.len() implies (#[trigger] post.enemies@[i]).stats.wf() by {
                if i != p {
                    assert(pre.enemies@[i].stats.wf());
                }
            }
        },
    }
    assert forall|v: UnitRef| #[trigger] post.alive(v) == pre.alive(v) && post.rank(v) == pre.rank(v) by {}
    assert(post.turn_order_ok());
    if pre.occupancy_ok() && post.unit_hex_spec(u) == pre.unit_hex_spec(u) {
        lemma_occupancy_frame(&pre, &post);
    }
}

/// `new` keeps the units of `old` but `u`, in the same order.
pub open spec fn removed_from_store(old: BattleState, new: BattleState, u: UnitRef) -> bool {
    match u {
        UnitRef::Hero(id) => new.heroes@ == old.heroes@.remove(hero_pos(old.heroes@, id).unwrap())
            && new.enemies == old.enemies,
        UnitRef::Enemy(id) => new.enemies@ == old.enemies@.remove(enemy_pos(old.enemies@, id).unwrap())
            && new.heroes == old.heroes,
    }
}

/// When `u` leaves the store, the units kept after it move one place forward
/// and nothing else changes for the others.
proof fn lemma_rank_shift(old: BattleState, new: BattleState, u: UnitRef, v: UnitRef)
    requires
        old.store_ok(),
        old.alive(u),
        old.alive(v),
        v != u,
        removed_from_store(old, new, u),
    ensures
        new.alive(v),
        new.initiative_spec(v) == old.initiative_spec(v),
        new.rank(v) == old.rank(v) - if old.rank(v) > old.rank(u) { 1int } else { 0int },
{
    match u {
        UnitRef::Hero(x) => {
            let p = hero_pos(old.heroes@, x).unwrap();
            assert(old.heroes@[p].id == x);
            lemma_heroes_remove(old.heroes@, p);
            match v {
                UnitRef::Hero(y) => {
                    let oi = hero_pos(old.heroes@, y).unwrap();
                    assert(old.heroes@[oi].id == y);
                    let ni = hero_pos(new.heroes@, y).unwrap();
                    assert(new.heroes@[ni] == old.heroes@[oi]);
                    let j = if ni < p { ni } else { ni + 1 };
                    assert(new.heroes@[ni] == old.heroes@[j]);
                    lemma_hero_pos(old.heroes@, j);
                },
                UnitRef::Enemy(y) => {
                    let e = enemy_pos(old.enemies@, y).unwrap();
                    assert(old.enemies@[e].id == y);
                },
            }
        },
        UnitRef::Enemy(x) => {
            let p = enemy_pos(old.enemies@, x).unwrap();
            assert(old.enemies@[p].id == x);
            lemma_enemies_remove(old.enemies@, p);
            match v {
                UnitRef::Enemy(y) => {
                    let oi = enemy_pos(old.enemies@, y).unwrap();
                    assert(old.enemies@[oi].id == y);
                    let ni = enemy_pos(new.enemies@, y).unwrap();
                    assert(new.enemies@[ni] == old.enemies@[oi]);
                    let j = if ni < p { ni } else { ni + 1 };
                    assert(new.enemies@[ni] == old.enemies@[j]);
                    lemma_enemy_pos(old.enemies@, j);
                },
                UnitRef::Hero(y) => {
                    let h = hero_pos(old.heroes@, y).unwrap();
                    assert(old.heroes@[h].id == y);
                },
            }
        },
    }
}

/// Taking a unit out of a turn order sorted by initiative leaves it sorted.
pub proof fn lemma_removal_keeps_order(old: BattleState, new: BattleState, u: UnitRef)
    requires
        old.wf(),
        old.alive(u),
        old.sorted_by_initiative(old.turn_order@),
        removed_from_store(old, new, u),
        new.left_turn_order(&old, u),
    ensures
        new.sorted_by_initiative(new.turn_order@),
{
    let k = choose|k: int|
        0 <= k < old.turn_order@.len() && #[trigger] old.turn_order@[k] == u && new.turn_order@
            == old.turn_order@.remove(k) && new.active_unit_idx as int == index_after_removal(
            old.active_unit_idx as int,
            k,
            new.turn_order@.len() as int,
        );
    let t = new.turn_order@;
    let ot = old.turn_order@;
    assert forall|a: int, b: int| 0 <= a < b < t.len() implies new.initiative_spec(#[trigger] t[a]) > new.initiative_spec(
        #[trigger] t[b],
    ) || (new.initiative_spec(t[a]) == new.initiative_spec(t[b]) && new.rank(t[a]) < new.rank(t[b])) by {
        let oa = if a < k { a } else { a + 1 };
        let ob = if b < k { b } else { b + 1 };
        assert(t[a] == ot[oa]);
        assert(t[b] == ot[ob]);
        assert(ot[oa] != ot[k]);
        assert(ot[ob] != ot[k]);
        assert(old.alive(ot[oa]));
        assert(old.alive(ot[ob]));
        lemma_rank_shift(old, new, u, t[a]);
        lemma_rank_shift(old, new, u, t[b]);
    }
}

fn find_unit(order: &Vec<UnitRef>, u: UnitRef) -> (r: usize)
    requires
        order@.contains(u),
    ensures
        r < order@.len(),
        order@[r as int] == u,
{
    let mut i: usize = 0;
    while i < order.len()
        invariant
            i <= order@.len(),
            order@.contains(u),
            forall|j: int| 0 <= j < i ==> order@[j] != u,
        decreases order@.len() - i,
    {
        if order[i] == u {
            return i;
        }
        i += 1;
    }
    proof {
        let j = choose|j: int| 0 <= j < order@.len() && order@[j] == u;
    }
    0
}

impl BattleState {
    /// Units other than `u` are as they were in `old`: alive or not, where
    /// they stand, their stats and their movement left.
    pub open spec fn others_unchanged(&self, old: &Self, u: UnitRef) -> bool {
        forall|v: UnitRef|
            v != u ==> (#[trigger] self.alive(v) == old.alive(v)) && self.unit_hex_spec(v) == old.unit_hex_spec(v)
                && self.unit_stats_spec(v) == old.unit_stats_spec(v) && self.unit_current_movement_spec(v)
                == old.unit_current_movement_spec(v)
    }

    /// `u` has left the turn order of `old`, and the active index followed the
    /// rule of `index_after_removal`.
    pub open spec fn left_turn_order(&self, old: &Self, u: UnitRef) -> bool {
        exists|k: int|
            0 <= k < old.turn_order@.len() && #[trigger] old.turn_order@[k] == u && self.turn_order@
                == old.turn_order@.remove(k) && self.active_unit_idx as int == index_after_removal(
                old.active_unit_idx as int,
                k,
                self.turn_order@.len() as int,
            )
    }

    /// Removes a unit from the battle: from the store, from the turn order, from
    /// the selection, and from the map.
    #[verifier::rlimit(60)]
    fn kill_unit(&mut self, unit: UnitRef)
        requires
            old(self).wf(),
            old(self).alive(unit),
        ensures
            final(self).wf(),
            final(self).occupancy_ok(),
            !final(self).alive(unit),
            final(self).others_unchanged(old(self), unit),
            final(self).left_turn_order(old(self), unit),
            final(self).heroes@.len() + final(self).enemies@.len() == old(self).heroes@.len() + old(
                self,
            ).enemies@.len() - 1,
            removed_from_store(*old(self), *final(self), unit),
            final(self).selection_ok(),
            old(self).sorted_by_initiative(old(self).turn_order@) ==> final(self).sorted_by_initiative(
                final(self).turn_order@,
            ),
            same_ground(old(self).field, final(self).field),
            final(self).selected_unit == if old(self).selected_unit == Some(unit) {
                None
            } else {
                old(self).selected_unit
            },
            final(self).selected_ability == old(self).selected_ability,
            final(self).selected_ability_range == old(self).selected_ability_range,
            final(self).phase == old(self).phase,
            final(self).input_mode == old(self).input_mode,
            final(self).result == old(self).result,
    {
        let ghost pre = *self;
        let k = find_unit(&self.turn_order, unit);
        let n = self.turn_order.len();
        let idx = self.active_unit_idx;
        let new_idx: usize = if n - 1 == 0 {
            0
        } else if k < idx {
            idx - 1
        } else if k > idx {
            idx
        } else if idx == 0 {
            n - 2
        } else {
            idx - 1
        };
        match unit {
            UnitRef::Hero(id) => {
                let p = find_hero(&self.heroes, id).unwrap();
                proof {
                    lemma_heroes_remove(self.heroes@, p as int);
                }
                self.heroes.remove(p);
            },
            UnitRef::Enemy(id) => {
                let p = find_enemy(&self.enemies, id).unwrap();
                proof {
                    lemma_enemies_remove(self.enemies@, p as int);
                }
                self.enemies.remove(p);
            },
        }
        self.turn_order.remove(k);
        self.active_unit_idx = new_idx;
        if self.selected_unit == Some(unit) {
            self.selected_unit = None;
            self.selected_unit_range = Vec::new();
        }
        proof {
            assert forall|v: UnitRef| v != unit implies (#[trigger] self.alive(v) == pre.alive(v)) && self.unit_hex_spec(v)
                == pre.unit_hex_spec(v) && self.unit_stats_spec(v) == pre.unit_stats_spec(v)
                && self.unit_current_movement_spec(v) == pre.unit_current_movement_spec(v) by {
                match (unit, v) {
                    (UnitRef::Hero(a), UnitRef::Hero(b)) => {
                        let p = hero_pos(pre.heroes@, a).unwrap();
                        assert(pre.heroes@[p].id == a);
                    },
                    (UnitRef::Enemy(a), UnitRef::Enemy(b)) => {
                        let p = enemy_pos(pre.enemies@, a).unwrap();
                        assert(pre.enemies@[p].id == a);
                    },
                    _ => {},
                }
            }
            match unit {
                UnitRef::Hero(a) => {
                    let p = hero_pos(pre.heroes@, a).unwrap();
                    assert(pre.heroes@[p].id == a);
                },
                UnitRef::Enemy(a) => {
                    let p = enemy_pos(pre.enemies@, a).unwrap();
                    assert(pre.enemies@[p].id == a);
                },
            }
            assert(!self.alive(unit));
            let t = self.turn_order@;
            let ot = pre.turn_order@;
            assert(t == ot.remove(k as int));
            assert forall|a: int, b: int| 0 <= a < t.len() && 0 <= b < t.len() && a != b implies t[a] != t[b] by {
                let oa = if a < k { a } else { a + 1 };
                let ob = if b < k { b } else { b + 1 };
                assert(t[a] == ot[oa]);
                assert(t[b] == ot[ob]);
            }
            assert(t.no_duplicates());
            assert forall|j: int| 0 <= j < t.len() implies self.alive(#[trigger] t[j]) by {
                let oj = if j < k { j } else { j + 1 };
                assert(t[j] == ot[oj]);
                assert(ot[oj] != ot[k as int]);
                assert(pre.alive(ot[oj]));
            }
            assert forall|v: UnitRef| self.alive(v) implies #[trigger] t.contains(v) by {
                assert(v != unit);
                assert(pre.alive(v));
                assert(ot.contains(v));
                let j = choose|j: int| 0 <= j < ot.len() && ot[j] == v;
                assert(j != k);
                if j < k {
                    assert(t[j] == v);
                } else {
                    assert(t[j - 1] == v);
                }
            }
            assert(self.left_turn_order(&pre, unit)) by {
                assert(pre.turn_order@[k as int] == unit);
            }
            if self.selected_unit.is_some() {
                let v = self.selected_unit.unwrap();
                assert(v != unit);
                assert(self.alive(v) == pre.alive(v));
            }
        }
        self.update_occupied_hexes();
        proof {
            assert(self.others_unchanged(&pre, unit));
        }
        self.update_selected_unit_range();
        proof {
            match unit {
                UnitRef::Hero(a) => {
                    assert(self.heroes@ == pre.heroes@.remove(hero_pos(pre.heroes@, a).unwrap()));
                },
                UnitRef::Enemy(a) => {
                    assert(self.enemies@ == pre.enemies@.remove(enemy_pos(pre.enemies@, a).unwrap()));
                },
            }
            if pre.sorted_by_initiative(pre.turn_order@) {
                lemma_removal_keeps_order(pre, *self, unit);
            }
        }
    }

    /// Recomputes the movement preview of the selected unit from where it stands
    /// and the movement that it has left. A selection of a unit that is gone is
    /// dropped.
    pub(crate) fn update_selected_unit_range(&mut self)
        requires
            old(self).wf(),
        ensures
            final(self).heroes == old(self).heroes,
            final(self).enemies == old(self).enemies,
            final(self).turn_order == old(self).turn_order,
            final(self).active_unit_idx == old(self).active_unit_idx,
            final(self).field == old(self).field,
            final(self).selected_ability == old(self).selected_ability,
            final(self).selected_ability_range == old(self).selected_ability_range,
            final(self).phase == old(self).phase,
            final(self).input_mode == old(self).input_mode,
            final(self).result == old(self).result,
            final(self).selection_ok(),
            final(self).wf(),
            old(self).occupancy_ok() ==> final(self).occupancy_ok(),
            final(self).selected_unit == match old(self).selected_unit {
                Some(u) => if old(self).alive(u) { Some(u) } else { None },
                None => None,
            },
    {
        let ghost pre = *self;
        match self.selected_unit {
            Some(u) => match (self.unit_hex(u), self.unit_current_movement(u)) {
                (Some(hex), Some(movement)) => {
                    self.selected_unit_range = movement_range(hex, movement, &self.field);
                },
                _ => {
                    self.selected_unit = None;
                    self.selected_unit_range = Vec::new();
                },
            },
            None => {
                self.selected_unit_range = Vec::new();
            },
        }
        proof {
            if pre.occupancy_ok() {
                lemma_occupancy_frame(&pre, self);
            }
        }
    }

    /// The movement preview is that of the selected unit, and there is none
    /// without a selection.
    pub open spec fn selection_ok(&self) -> bool {
        match self.selected_unit {
            Some(u) => self.alive(u) && is_movement_range(
                self.selected_unit_range@,
                self.unit_hex_spec(u).unwrap(),
                self.unit_current_movement_spec(u).unwrap() as int,
                self.field,
            ),
            None => self.selected_unit_range@.len() == 0,
        }
    }
}

/// Relies on rand's `thread_rng().gen_range(lo..=hi)`: a value drawn from the
/// inclusive range `[lo, hi]`. It panics on an empty range, which `requires`
/// rules out.
#[verifier::external_body]
fn roll_in_range(lo: i32, hi: i32) -> (r: i32)
    requires
        lo <= hi,
    ensures
        lo <= r <= hi,
{
    rand::thread_rng().gen_range(lo..=hi)
}

/// What an attack of `attacker` on `target` with the damage roll `roll` and a
/// multiplier of `multiplier_pct` percent turns `old` into: the target loses
/// the damage of the roll, never going below zero health, and is removed from
/// the battle when it reaches zero. Nothing else changes. When either unit is
/// gone nothing happens at all.
pub open spec fn attack_outcome(
    old: BattleState,
    new: BattleState,
    attacker: UnitRef,
    target: UnitRef,
    multiplier_pct: int,
    roll: int,
) -> bool {
    &&& new.phase == old.phase
    &&& new.input_mode == old.input_mode
    &&& new.result == old.result
    &&& new.selected_ability == old.selected_ability
    &&& new.selected_ability_range == old.selected_ability_range
    &&& old.sorted_by_initiative(old.turn_order@) ==> new.sorted_by_initiative(new.turn_order@)
    &&& if old.alive(attacker) && old.alive(target) {
        let a = old.unit_stats_spec(attacker).unwrap();
        let t = old.unit_stats_spec(target).unwrap();
        let left = hp_after_spec(t.hp as int, damage_spec(roll, a.attack as int, t.defense as int, multiplier_pct));
        &&& new.others_unchanged(&old, target)
        &&& same_ground(old.field, new.field)
        &&& if left > 0 {
            &&& new.alive(target)
            &&& new.unit_stats_spec(target) == Some(Stats { hp: left as i32, ..t })
            &&& new.effects_spec(target) == old.effects_spec(target)
            &&& new.unit_hex_spec(target) == old.unit_hex_spec(target)
            &&& new.unit_current_movement_spec(target) == old.unit_current_movement_spec(target)
            &&& new.turn_order == old.turn_order
            &&& new.active_unit_idx == old.active_unit_idx
            &&& new.selected_unit == old.selected_unit
            &&& new.selected_unit_range == old.selected_unit_range
        } else {
            &&& !new.alive(target)
            &&& new.left_turn_order(&old, target)
            &&& new.selection_ok()
            &&& new.selected_unit == if old.selected_unit == Some(target) {
                None
            } else {
                old.selected_unit
            }
        }
    } else {
        &&& new.heroes == old.heroes
        &&& new.enemies == old.enemies
        &&& new.turn_order == old.turn_order
        &&& new.active_unit_idx == old.active_unit_idx
        &&& new.field == old.field
        &&& new.selected_unit == old.selected_unit
        &&& new.selected_unit_range == old.selected_unit_range
    }
}

impl BattleState {
    /// Resolves an attack whose damage roll is `roll`; see `attack_outcome`.
    #[verifier::rlimit(60)]
    pub fn resolve_attack(&mut self, attacker: UnitRef, target: UnitRef, multiplier_pct: u32, roll: i32)
        requires
            old(self).wf(),
            old(self).occupancy_ok(),
        ensures
            final(self).wf(),
            final(self).occupancy_ok(),
            attack_outcome(*old(self), *final(self), attacker, target, multiplier_pct as int, roll as int),
    {
        let ghost pre = *self;
        let a = match self.unit_stats(attacker) {
            Some(s) => s,
            None => return,
        };
        let t = match self.unit_stats(target) {
            Some(s) => s,
            None => return,
        };
        let damage = damage_dealt(roll, a.attack, t.defense, multiplier_pct);
        let left64: i64 = t.hp as i64 - damage;
        let left: i32 = if left64 < 0 { 0 } else { left64 as i32 };
        match target {
            UnitRef::Hero(id) => {
                let p = find_hero(&self.heroes, id).unwrap();
                let mut h = self.heroes.remove(p);
                h.stats.hp = left;
                self.heroes.insert(p, h);
                proof {
                    assert(self.heroes@ =~= pre.heroes@.update(p as int, h));
                }
            },
            UnitRef::Enemy(id) => {
                let p = find_enemy(&self.enemies, id).unwrap();
                let mut e = self.enemies.remove(p);
                e.stats.hp = left;
                self.enemies.insert(p, e);
                proof {
                    assert(self.enemies@ =~= pre.enemies@.update(p as int, e));
                }
            },
        }
        proof {
            lemma_record_replaced(pre, *self, target);
            assert forall|v: UnitRef| pre.alive(v) implies #[trigger] self.rank(v) == pre.rank(v)
                && self.initiative_spec(v) == pre.initiative_spec(v) by {
                if v != target {
                    assert(self.unit_stats_spec(v) == pre.unit_stats_spec(v));
                }
            }
            if pre.sorted_by_initiative(pre.turn_order@) {
                let t = self.turn_order@;
                assert forall|a: int, b: int| 0 <= a < b < t.len() implies self.initiative_spec(#[trigger] t[a])
                    > self.initiative_spec(#[trigger] t[b]) || (self.initiative_spec(t[a]) == self.initiative_spec(t[b])
                    && self.rank(t[a]) < self.rank(t[b])) by {
                    assert(pre.alive(t[a]) && pre.alive(t[b]));
                    assert(self.rank(t[a]) == pre.rank(t[a]));
                    assert(self.rank(t[b]) == pre.rank(t[b]));
                }
            }
        }
        if left == 0 {
            let ghost mid = *self;
            self.kill_unit(target);
            proof {
                assert forall|v: UnitRef| v != target implies (#[trigger] self.alive(v) == pre.alive(v)) && self.unit_hex_spec(v)
                    == pre.unit_hex_spec(v) && self.unit_stats_spec(v) == pre.unit_stats_spec(v)
                    && self.unit_current_movement_spec(v) == pre.unit_current_movement_spec(v) by {
                    assert(mid.alive(v) == pre.alive(v));
                    assert(self.alive(v) == mid.alive(v));
                }
                let k = choose|k: int| 0 <= k < mid.turn_order@.len() && #[trigger] mid.turn_order@[k] == target
                    && self.turn_order@ == mid.turn_order@.remove(k) && self.active_unit_idx as int
                    == index_after_removal(mid.active_unit_idx as int, k, self.turn_order@.len() as int);
                assert(pre.turn_order@[k] == target);
            }
        }
    }

    /// An attack of `attacker` on `target` with a damage multiplier of
    /// `multiplier_pct` percent, its damage roll drawn uniformly from the
    /// attacker's damage range.
    pub fn attack_unit(&mut self, attacker: UnitRef, target: UnitRef, multiplier_pct: u32)
        requires
            old(self).wf(),
            old(self).occupancy_ok(),
        ensures
            final(self).wf(),
            final(self).occupancy_ok(),
            !old(self).alive(attacker) ==> attack_outcome(*old(self), *final(self), attacker, target, multiplier_pct as int, 0),
            old(self).alive(attacker) ==> exists|roll: int|
                old(self).unit_stats_spec(attacker).unwrap().damage.0 <= roll <= old(self).unit_stats_spec(
                    attacker,
                ).unwrap().damage.1 && #[trigger] attack_outcome(*old(self), *final(self), attacker, target, multiplier_pct as int, roll),
    {
        match self.unit_stats(attacker) {
            Some(a) => {
                proof {
                    match attacker {
                        UnitRef::Hero(id) => {
                            assert(self.heroes@[hero_pos(self.heroes@, id).unwrap()].stats.wf());
                        },
                        UnitRef::Enemy(id) => {
                            assert(self.enemies@[enemy_pos(self.enemies@, id).unwrap()].stats.wf());
                        },
                    }
                }
                let roll = roll_in_range(a.damage.0, a.damage.1);
                self.resolve_attack(attacker, target, multiplier_pct, roll);
            },
            None => {
                self.resolve_attack(attacker, target, multiplier_pct, 0);
            },
        }
    }
}

impl BattleState {
    /// Puts `unit` on `target` and takes `cost` off its movement left, then
    /// rebuilds the map's occupants and the movement preview.
    #[verifier::rlimit(60)]
    pub fn move_unit(&mut self, unit: UnitRef, target: Hex, cost: i32)
        requires
            old(self).wf(),
            old(self).alive(unit) ==> i32::MIN <= old(self).unit_current_movement_spec(unit).unwrap() - cost
                <= i32::MAX,
        ensures
            final(self).wf(),
            !old(self).alive(unit) ==> *final(self) == *old(self),
            old(self).alive(unit) ==> {
                &&& final(self).occupancy_ok()
                &&& final(self).selection_ok()
                &&& final(self).alive(unit)
                &&& final(self).unit_hex_spec(unit) == Some(target)
                &&& final(self).unit_current_movement_spec(unit) == Some(
                    (old(self).unit_current_movement_spec(unit).unwrap() - cost) as i32,
                )
                &&& final(self).unit_stats_spec(unit) == old(self).unit_stats_spec(unit)
                &&& final(self).others_unchanged(old(self), unit)
                &&& forall|v: UnitRef| #[trigger] final(self).rank(v) == old(self).rank(v)
                &&& final(self).turn_order == old(self).turn_order
                &&& final(self).active_unit_idx == old(self).active_unit_idx
                &&& same_ground(old(self).field, final(self).field)
                &&& final(self).selected_unit == old(self).selected_unit
                &&& final(self).selected_ability == old(self).selected_ability
                &&& final(self).selected_ability_range == old(self).selected_ability_range
                &&& final(self).phase == old(self).phase
                &&& final(self).input_mode == old(self).input_mode
                &&& final(self).result == old(self).result
            },
    {
        if self.unit_hex(unit).is_none() {
            return;
        }
        let ghost pre = *self;
        match unit {
            UnitRef::Hero(id) => {
                let p = find_hero(&self.heroes, id).unwrap();
                let mut h = self.heroes.remove(p);
                h.current_movement = h.current_movement - cost;
                h.hex = target;
                self.heroes.insert(p, h);
                proof {
                    assert(self.heroes@ =~= pre.heroes@.update(p as int, h));
                }
            },
            UnitRef::Enemy(id) => {
                let p = find_enemy(&self.enemies, id).unwrap();
                let mut e = self.enemies.remove(p);
                e.current_movement = e.current_movement - cost;
                e.hex = target;
                self.enemies.insert(p, e);
                proof {
                    assert(self.enemies@ =~= pre.enemies@.update(p as int, e));
                }
            },
        }
        proof {
            lemma_record_replaced(pre, *self, unit);
        }
        let ghost mid = *self;
        self.update_occupied_hexes();
        self.update_selected_unit_range();
        proof {
            assert(self.others_unchanged(&mid, unit));
            assert forall|v: UnitRef| #[trigger] self.rank(v) == pre.rank(v) by {
                assert(mid.alive(v) == pre.alive(v) && mid.rank(v) == pre.rank(v));
            }
        }
    }
}

impl BattleState {
    /// `v` is a living unit on the side given by `heroes` whose hex is in `area`.
    pub open spec fn in_area_on_side(&self, v: UnitRef, heroes: bool, area: Seq<Hex>) -> bool {
        &&& (v is Hero) == heroes
        &&& self.alive(v)
        &&& area.contains(self.unit_hex_spec(v).unwrap())
    }

    /// The living units standing in `area`: first those of `unit`'s side, then
    /// those of the other side, each in the order in which they are kept.
    pub fn units_in_area(&self, unit: UnitRef, area: Vec<Hex>) -> (r: (Vec<UnitRef>, Vec<UnitRef>))
        requires
            self.wf(),
        ensures
            forall|v: UnitRef| #[trigger] r.0@.contains(v) <==> self.in_area_on_side(v, unit is Hero, area@),
            forall|v: UnitRef| #[trigger] r.1@.contains(v) <==> self.in_area_on_side(v, !(unit is Hero), area@),
            forall|a: int, b: int| 0 <= a < b < r.0@.len() ==> self.rank(#[trigger] r.0@[a]) < self.rank(#[trigger] r.0@[b]),
            forall|a: int, b: int| 0 <= a < b < r.1@.len() ==> self.rank(#[trigger] r.1@[a]) < self.rank(#[trigger] r.1@[b]),
    {
        let mut heroes: Vec<UnitRef> = Vec::new();
        let mut i: usize = 0;
        while i < self.heroes.len()
            invariant
                i <= self.heroes@.len(),
                self.wf(),
                forall|v: UnitRef| #[trigger] heroes@.contains(v) <==> exists|t: int|
                    0 <= t < i && v == UnitRef::Hero(#[trigger] self.heroes@[t].id) && area@.contains(self.heroes@[t].hex),
                forall|m: int| 0 <= m < heroes@.len() ==> (#[trigger] heroes@[m]) is Hero && self.alive(heroes@[m])
                    && self.rank(heroes@[m]) < i,
                forall|a: int, b: int| 0 <= a < b < heroes@.len() ==> self.rank(#[trigger] heroes@[a]) < self.rank(#[trigger] heroes@[b]),
            decreases self.heroes@.len() - i,
        {
            let h = self.heroes[i].hex;
            if contains_hex(&area, h) {
                let ghost before = heroes@;
                heroes.push(UnitRef::Hero(self.heroes[i].id));
                proof {
                    lemma_hero_pos(self.heroes@, i as int);
                    assert(heroes@[before.len() as int] == UnitRef::Hero(self.heroes@[i as int].id));
                    assert forall|v: UnitRef| #[trigger] heroes@.contains(v) <==> exists|t: int|
                        0 <= t < i + 1 && v == UnitRef::Hero(#[trigger] self.heroes@[t].id) && area@.contains(self.heroes@[t].hex) by {
                        if heroes@.contains(v) && !before.contains(v) {
                            let m = choose|m: int| 0 <= m < heroes@.len() && heroes@[m] == v;
                            if m < before.len() {
                                assert(before[m] == v);
                            }
                        }
                        if before.contains(v) {
                            let m = choose|m: int| 0 <= m < before.len() && before[m] == v;
                            assert(heroes@[m] == v);
                        }
                        if v == UnitRef::Hero(self.heroes@[i as int].id) {
                            assert(heroes@[before.len() as int] == v);
                        }
                    }
                }
            }
            i += 1;
        }
        let mut enemies: Vec<UnitRef> = Vec::new();
        let mut i: usize = 0;
        while i < self.enemies.len()
            invariant
                i <= self.enemies@.len(),
                self.wf(),
                forall|v: UnitRef| #[trigger] enemies@.contains(v) <==> exists|t: int|
                    0 <= t < i && v == UnitRef::Enemy(#[trigger] self.enemies@[t].id) && area@.contains(self.enemies@[t].hex),
                forall|m: int| 0 <= m < enemies@.len() ==> (#[trigger] enemies@[m]) is Enemy && self.alive(enemies@[m])
                    && self.rank(enemies@[m]) < self.heroes@.len() + i,
                forall|a: int, b: int| 0 <= a < b < enemies@.len() ==> self.rank(#[trigger] enemies@[a]) < self.rank(#[trigger] enemies@[b]),
                forall|a: int, b: int| 0 <= a < b < heroes@.len() ==> self.rank(#[trigger] heroes@[a]) < self.rank(#[trigger] heroes@[b]),
            decreases self.enemies@.len() - i,
        {
            let h = self.enemies[i].hex;
            if contains_hex(&area, h) {
                let ghost before = enemies@;
                enemies.push(UnitRef::Enemy(self.enemies[i].id));
                proof {
                    lemma_enemy_pos(self.enemies@, i as int);
                    assert(enemies@[before.len() as int] == UnitRef::Enemy(self.enemies@[i as int].id));
                    assert forall|v: UnitRef| #[trigger] enemies@.contains(v) <==> exists|t: int|
                        0 <= t < i + 1 && v == UnitRef::Enemy(#[trigger] self.enemies@[t].id) && area@.contains(self.enemies@[t].hex) by {
                        if enemies@.contains(v) && !before.contains(v) {
                            let m = choose|m: int| 0 <= m < enemies@.len() && enemies@[m] == v;
                            if m < before.len() {
                                assert(before[m] == v);
                            }
                        }
                        if before.contains(v) {
                            let m = choose|m: int| 0 <= m < before.len() && before[m] == v;
                            assert(enemies@[m] == v);
                        }
                        if v == UnitRef::Enemy(self.enemies@[i as int].id) {
                            assert(enemies@[before.len() as int] == v);
                        }
                    }
                }
            }
            i += 1;
        }
        proof {
            assert forall|v: UnitRef| #[trigger] heroes@.contains(v) <==> self.in_area_on_side(v, true, area@) by {
                if let UnitRef::Hero(id) = v {
                    if self.alive(v) {
                        let t = hero_pos(self.heroes@, id).unwrap();
                        assert(self.heroes@[t].id == id);
                    }
                    if heroes@.contains(v) {
                        let t = choose|t: int| 0 <= t < self.heroes@.len() && v == UnitRef::Hero(#[trigger] self.heroes@[t].id)
                            && area@.contains(self.heroes@[t].hex);
                        lemma_hero_pos(self.heroes@, t);
                    }
                }
            }
            assert forall|v: UnitRef| #[trigger] enemies@.contains(v) <==> self.in_area_on_side(v, false, area@) by {
                if let UnitRef::Enemy(id) = v {
                    if self.alive(v) {
                        let t = enemy_pos(self.enemies@, id).unwrap();
                        assert(self.enemies@[t].id == id);
                    }
                    if enemies@.contains(v) {
                        let t = choose|t: int| 0 <= t < self.enemies@.len() && v == UnitRef::Enemy(#[trigger] self.enemies@[t].id)
                            && area@.contains(self.enemies@[t].hex);
                        lemma_enemy_pos(self.enemies@, t);
                    }
                }
            }
        }
        match unit {
            UnitRef::Hero(_) => (heroes, enemies),
            UnitRef::Enemy(_) => (enemies, heroes),
        }
    }

    /// Whether a living unit stands in `area`.
    pub fn is_unit_in_area(&self, unit: UnitRef, area: &Vec<Hex>) -> (r: bool)
        requires
            self.wf(),
            self.alive(unit),
        ensures
            r == area@.contains(self.unit_hex_spec(unit).unwrap()),
    {
        let h = self.unit_hex(unit).unwrap();
        contains_hex(area, h)
    }
}

pub fn contains_hex(area: &Vec<Hex>, h: Hex) -> (r: bool)
    ensures
        r == area@.contains(h),
{
    let mut i: usize = 0;
    while i < area.len()
        invariant
            i <= area@.len(),
            forall|j: int| 0 <= j < i ==> area@[j] != h,
        decreases area@.len() - i,
    {
        if area[i] == h {
            assert(area@[i as int] == h);
            return true;
        }
        i += 1;
    }
    false
}

} // verus!
