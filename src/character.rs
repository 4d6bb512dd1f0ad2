//! Units as they exist outside a battle.

use vstd::prelude::*;

use crate::effect::Effect;
use crate::hexgrid::Hex;
use crate::inventory::Inventory;

verus! {

#[derive(Clone, Copy, Debug)]
pub struct Stats {
    pub max_hp: i32,
    pub hp: i32,
    /// The inclusive range of a damage roll.
    pub damage: (i32, i32),
    pub attack: i32,
    pub defense: i32,
    pub initiative: i32,
    pub movement: i32,
}

impl Stats {
    /// Health lies in `[0, max_hp]` and the damage range is not empty.
    pub open spec fn wf(&self) -> bool {
        &&& 0 <= self.hp <= self.max_hp
        &&& self.damage.0 <= self.damage.1
    }
}

#[derive(Clone, Debug)]
pub struct Ability {
    pub id: u32,
    pub name: String,
    pub description: String,
    /// The factor applied to rolled damage, in percent.
    pub damage_modifier: u32,
    pub effect: Option<Effect>,
    /// How far away, in steps, a target may stand.
    pub range: i32,
}

#[derive(Clone, Debug)]
pub struct Hero {
    pub id: u32,
    pub name: String,
    pub hex: Hex,
    pub stats: Stats,
    pub xp: u64,
    pub abilities: Vec<Ability>,
    pub inventory: Inventory,
    pub effects: Vec<Effect>,
}

impl Hero {
    /// Takes `amount` off the hero's health, stopping at zero.
    pub fn take_damage(&mut self, amount: i32)
        requires
            amount >= 0,
            old(self).stats.hp >= 0,
        ensures
            final(self).stats.hp == if old(self).stats.hp - amount < 0 { 0 } else { old(self).stats.hp
                - amount },
            final(self).stats.max_hp == old(self).stats.max_hp,
            final(self).stats.damage == old(self).stats.damage,
            final(self).stats.attack == old(self).stats.attack,
            final(self).stats.defense == old(self).stats.defense,
            final(self).stats.initiative == old(self).stats.initiative,
            final(self).stats.movement == old(self).stats.movement,
            final(self).id == old(self).id,
            final(self).hex == old(self).hex,
    {
        let left = self.stats.hp - amount;
        self.stats.hp = if left < 0 { 0 } else { left };
    }
}

#[derive(Clone, Debug)]
pub struct Enemy {
    pub id: u32,
    pub name: String,
    pub hex: Hex,
    pub stats: Stats,
    pub effects: Vec<Effect>,
}

/// A unit before a battle, of either side.
#[derive(Clone, Debug)]
pub enum Unit {
    Hero(Hero),
    Enemy(Enemy),
}

} // verus!
