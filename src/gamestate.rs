//! The game around the battles.

use vstd::prelude::*;

use crate::battlestate::BattleState;
use crate::character::{Enemy, Hero, Stats};
use crate::hexgrid::Hex;
use crate::inventory::Storage;

verus! {

#[derive(Clone, Copy, Debug, PartialEq, Eq, Structural)]
pub enum Screen {
    Menu,
    Battle,
    Victory,
    Defeat,
}

/// Everything outside a single battle: the party, its storage, the screen shown
/// and the battle under way, if any.
pub struct GameState {
    pub battle: Option<BattleState>,
    pub player_party: Vec<Hero>,
    pub storage: Storage,
    pub current_screen: Screen,
}

/// The two enemies of the first encounter.
pub fn first_encounter() -> (r: Vec<Enemy>)
    ensures
        r@.len() == 2,
        r@[0].id == 0 && r@[0].stats.max_hp == 30 && r@[0].stats.hp == 30 && r@[0].stats.damage == (5i32, 10i32)
            && r@[0].stats.attack == 12 && r@[0].stats.defense == 7 && r@[0].stats.initiative == 15
            && r@[0].stats.movement == 3,
        r@[1].id == 1 && r@[1].stats.max_hp == 60 && r@[1].stats.hp == 45 && r@[1].stats.damage == (15i32, 20i32)
            && r@[1].stats.attack == 15 && r@[1].stats.defense == 2 && r@[1].stats.initiative == 5
            && r@[1].stats.movement == 2,
        forall|i: int| 0 <= i < r@.len() ==> (#[trigger] r@[i]).stats.wf(),
{
    let goblin_stats = Stats {
        max_hp: 30,
        hp: 30,
        damage: (5, 10),
        attack: 12,
        defense: 7,
        initiative: 15,
        movement: 3,
    };
    let orc_stats = Stats {
        max_hp: 60,
        hp: 45,
        damage: (15, 20),
        attack: 15,
        defense: 2,
        initiative: 5,
        movement: 2,
    };
    let mut enemies: Vec<Enemy> = Vec::new();
    enemies.push(
        Enemy {
            id: 0,
            name: "Goblin".to_owned(),
            hex: Hex { q: 7, r: 5 },
            stats: goblin_stats,
            effects: Vec::new(),
        },
    );
    enemies.push(
        Enemy {
            id: 1,
            name: "Orc".to_owned(),
            hex: Hex { q: 1, r: 6 },
            stats: orc_stats,
            effects: Vec::new(),
        },
    );
    enemies
}

impl GameState {
    /// A game at the menu, with no party and nothing stored.
    pub fn new() -> (r: Self)
        ensures
            r.battle.is_none(),
            r.player_party@.len() == 0,
            r.storage.items@.len() == 0,
            r.current_screen == Screen::Menu,
    {
        GameState {
            battle: None,
            player_party: Vec::new(),
            storage: Storage { items: Vec::new() },
            current_screen: Screen::Menu,
        }
    }

    /// Starts a battle of the party against the first encounter.
    pub fn start_battle(&mut self)
        requires
            old(self).player_party@.len() <= i32::MAX - 2,
            forall|i: int| 0 <= i < old(self).player_party@.len() ==> (#[trigger] old(self).player_party@[i]).stats.wf(),
        ensures
            final(self).battle.is_some(),
            final(self).battle.unwrap().wf(),
            final(self).battle.unwrap().occupancy_ok(),
            final(self).battle.unwrap().heroes@.len() == old(self).player_party@.len(),
            final(self).battle.unwrap().enemies@.len() == 2,
            final(self).player_party@ == old(self).player_party@,
            final(self).current_screen == old(self).current_screen,
    {
        let enemies = first_encounter();
        let battle = BattleState::new(&self.player_party, &enemies);
        self.battle = Some(battle);
    }
}

} // verus!
