use hexbattle::ai::{enemy_ai, enemy_ai_move, hex_distance};
use hexbattle::battlefield::{Battlefield, Terrain};
use hexbattle::battlestate::{
    BattleCommand, BattleResult, BattleState, EnemyInstance, HeroInstance, InputMode, TurnPhase, UnitRef,
};
use hexbattle::character::{Ability, Enemy, Hero, Stats};
use hexbattle::effect::Effect;
use hexbattle::gamestate::{GameState, Screen};
use hexbattle::hexgrid::Hex;
use hexbattle::inventory::Inventory;

fn hex(q: i32, r: i32) -> Hex {
    Hex { q, r }
}

fn stats(hp: i32, damage: (i32, i32), attack: i32, defense: i32, initiative: i32, movement: i32) -> Stats {
    Stats { max_hp: hp, hp, damage, attack, defense, initiative, movement }
}

fn fighter_stats() -> Stats {
    Stats { max_hp: 100, hp: 75, damage: (10, 16), attack: 16, defense: 11, initiative: 12, movement: 4 }
}

fn abilities() -> Vec<Ability> {
    vec![
        Ability {
            id: 0,
            name: "Slash".to_string(),
            description: "A quick melee attack.".to_string(),
            damage_modifier: 150,
            effect: None,
            range: 1,
        },
        Ability {
            id: 1,
            name: "Bola Throw".to_string(),
            description: "Throw a bola to entangle the target, reducing their movement.".to_string(),
            damage_modifier: 60,
            effect: Some(Effect::ReduceMovement(1, 2)),
            range: 3,
        },
    ]
}

fn hero_instance(id: u32, at: Hex, s: Stats) -> HeroInstance {
    HeroInstance {
        id,
        name: format!("hero{}", id),
        hex: at,
        stats: s,
        abilities: abilities(),
        current_movement: s.movement,
        action_available: true,
        effects: vec![],
    }
}

fn enemy_instance(id: u32, at: Hex, s: Stats) -> EnemyInstance {
    EnemyInstance { id, name: format!("enemy{}", id), hex: at, stats: s, current_movement: s.movement, effects: vec![] }
}

/// A battle on an open ten by ten map with the given units.
fn battle(heroes: Vec<HeroInstance>, enemies: Vec<EnemyInstance>) -> BattleState {
    let mut b = BattleState {
        heroes,
        enemies,
        turn_order: vec![],
        active_unit_idx: 0,
        selected_unit: None,
        selected_unit_range: vec![],
        selected_ability: None,
        selected_ability_range: vec![],
        field: Battlefield::new(10, 10),
        phase: TurnPhase::Start,
        input_mode: InputMode::Normal,
        result: None,
    };
    b.generate_turn_order();
    b.update_occupied_hexes();
    b
}

fn party() -> Vec<Hero> {
    vec![Hero {
        id: 0,
        name: "Fighter".to_string(),
        hex: hex(2, 3),
        stats: fighter_stats(),
        xp: 0,
        abilities: abilities(),
        inventory: Inventory::new(),
        effects: vec![],
    }]
}

fn goblins(n: u32) -> Vec<Enemy> {
    (0..n)
        .map(|i| Enemy {
            id: i,
            name: "Goblin".to_string(),
            hex: hex(0, 0),
            stats: stats(30, (5, 10), 12, 7, 15, 3),
            effects: vec![],
        })
        .collect()
}

#[test]
fn new_battle_places_units_and_orders_turns() {
    let mut enemies = goblins(1);
    enemies.push(Enemy {
        id: 7,
        name: "Orc".to_string(),
        hex: hex(0, 0),
        stats: Stats { max_hp: 60, hp: 45, damage: (15, 20), attack: 15, defense: 2, initiative: 5, movement: 2 },
        effects: vec![],
    });
    let b = BattleState::new(&party(), &enemies);
    assert_eq!(b.heroes[0].hex, hex(2, 3));
    assert_eq!(b.enemies[0].hex, hex(7, 5));
    assert_eq!(b.enemies[1].hex, hex(8, 5));
    assert_eq!(b.enemies[1].id, 1);
    assert_eq!(b.turn_order, vec![UnitRef::Enemy(0), UnitRef::Hero(0), UnitRef::Enemy(1)]);
    assert_eq!(b.active_unit_idx, 0);
    assert_eq!(b.phase, TurnPhase::Start);
    assert_eq!(b.active_unit(), UnitRef::Enemy(0));
    assert!(!b.is_player_turn());
    // the standard map
    let info = |q: i32, r: i32| b.field.hexes[b.field.index(hex(q, r)).unwrap()].clone();
    assert_eq!(info(3, 4).terrain, Terrain::Mountain);
    assert!(!info(3, 4).passable);
    assert_eq!(info(2, 3).terrain, Terrain::Forest);
    assert_eq!(info(1, 1).terrain, Terrain::Plain);
    assert_eq!(info(2, 3).occupying_unit, Some(UnitRef::Hero(0)));
    assert_eq!(info(7, 5).occupying_unit, Some(UnitRef::Enemy(0)));
    assert_eq!(info(1, 2).occupying_unit, None);
}

#[test]
fn turn_order_is_by_initiative_and_stable() {
    let b = battle(
        vec![
            hero_instance(3, hex(0, 0), stats(10, (1, 1), 1, 1, 5, 2)),
            hero_instance(1, hex(1, 0), stats(10, (1, 1), 1, 1, 9, 2)),
            hero_instance(2, hex(2, 0), stats(10, (1, 1), 1, 1, 5, 2)),
        ],
        vec![
            enemy_instance(0, hex(5, 5), stats(10, (1, 1), 1, 1, 5, 2)),
            enemy_instance(4, hex(6, 5), stats(10, (1, 1), 1, 1, 12, 2)),
        ],
    );
    assert_eq!(
        b.turn_order,
        vec![UnitRef::Enemy(4), UnitRef::Hero(1), UnitRef::Hero(3), UnitRef::Hero(2), UnitRef::Enemy(0)]
    );
    assert_eq!(b.turn_order.len(), b.heroes.len() + b.enemies.len());
}

#[test]
fn next_unit_wraps_round() {
    let mut b = battle(
        vec![hero_instance(0, hex(0, 0), stats(10, (1, 1), 1, 1, 5, 2))],
        vec![
            enemy_instance(0, hex(5, 5), stats(10, (1, 1), 1, 1, 4, 2)),
            enemy_instance(1, hex(6, 5), stats(10, (1, 1), 1, 1, 3, 2)),
        ],
    );
    b.next_unit();
    assert_eq!(b.active_unit_idx, 1);
    b.next_unit();
    assert_eq!(b.active_unit_idx, 2);
    b.next_unit();
    assert_eq!(b.active_unit_idx, 0);
}

#[test]
fn end_phase_advances_and_start_phase_prepares_the_hero() {
    let mut b = battle(
        vec![hero_instance(0, hex(2, 2), stats(10, (1, 1), 1, 1, 5, 4))],
        vec![enemy_instance(0, hex(8, 8), stats(10, (1, 1), 1, 1, 9, 2))],
    );
    b.phase = TurnPhase::End;
    b.tick();
    assert_eq!(b.phase, TurnPhase::Start);
    assert_eq!(b.active_unit_idx, 1);
    assert_eq!(b.result, None);
    b.heroes[0].current_movement = 0;
    b.heroes[0].action_available = false;
    b.tick();
    assert_eq!(b.phase, TurnPhase::Action);
    assert_eq!(b.heroes[0].current_movement, 4);
    assert!(b.heroes[0].action_available);
    assert_eq!(b.selected_unit, Some(UnitRef::Hero(0)));
    assert_eq!(b.input_mode, InputMode::Movement);
    assert!(!b.selected_unit_range.is_empty());
    // the hero's action phase waits for the player
    b.tick();
    assert_eq!(b.phase, TurnPhase::Action);
    b.handle_command(BattleCommand::RequestEndTurn);
    assert_eq!(b.phase, TurnPhase::End);
    b.tick();
    assert_eq!(b.active_unit_idx, 0);
    assert_eq!(b.selected_unit, None);
    assert!(b.selected_unit_range.is_empty());
}

#[test]
fn end_turn_is_refused_on_an_enemy_turn() {
    let mut b = battle(
        vec![hero_instance(0, hex(2, 2), stats(10, (1, 1), 1, 1, 5, 4))],
        vec![enemy_instance(0, hex(8, 8), stats(10, (1, 1), 1, 1, 9, 2))],
    );
    b.phase = TurnPhase::Action;
    b.request_end_turn();
    assert_eq!(b.phase, TurnPhase::Action);
}

#[test]
fn enemy_turn_runs_through_its_phases() {
    let mut b = battle(
        vec![hero_instance(0, hex(2, 2), stats(10, (1, 1), 1, 1, 5, 4))],
        vec![enemy_instance(0, hex(8, 8), stats(10, (1, 1), 1, 1, 9, 2))],
    );
    assert_eq!(b.active_unit(), UnitRef::Enemy(0));
    b.tick();
    assert_eq!(b.phase, TurnPhase::Action);
    assert_eq!(b.selected_unit, None);
    b.tick();
    assert_eq!(b.phase, TurnPhase::End);
    // it walked two steps towards the hero
    let moved = b.enemies[0].hex;
    assert!(hex(8, 8).range_to_area(2, 10, 10).contains(&moved));
    assert!(!hex(8, 8).range_to_area(1, 10, 10).contains(&moved));
    assert!(hex_distance(moved, hex(2, 2)) < hex_distance(hex(8, 8), hex(2, 2)));
    b.tick();
    assert_eq!(b.active_unit(), UnitRef::Hero(0));
}

#[test]
fn victory_when_no_enemy_is_left() {
    let mut b = battle(vec![hero_instance(0, hex(2, 2), stats(10, (1, 1), 1, 1, 5, 4))], vec![]);
    b.phase = TurnPhase::End;
    b.tick();
    assert!(matches!(b.result, Some(BattleResult::Victory)));
    // a decided battle does not move on
    let idx = b.active_unit_idx;
    b.tick();
    assert_eq!(b.phase, TurnPhase::Start);
    assert_eq!(b.active_unit_idx, idx);
}

#[test]
fn defeat_when_no_hero_is_left() {
    let mut b = battle(vec![], vec![enemy_instance(0, hex(8, 8), stats(10, (1, 1), 1, 1, 9, 2))]);
    b.phase = TurnPhase::End;
    b.tick();
    assert!(matches!(b.result, Some(BattleResult::Defeat)));
}

#[test]
fn empty_battle_does_not_tick() {
    let mut b = battle(vec![], vec![]);
    b.tick();
    assert_eq!(b.phase, TurnPhase::Start);
    assert_eq!(b.active_unit_hex(), None);
}

fn hero_turn() -> BattleState {
    let mut b = battle(
        vec![hero_instance(0, hex(2, 3), Stats { damage: (10, 10), ..fighter_stats() })],
        vec![
            enemy_instance(0, hex(2, 5), stats(30, (5, 10), 12, 11, 1, 3)),
            enemy_instance(1, hex(8, 8), stats(13, (5, 10), 12, 11, 0, 3)),
        ],
    );
    b.tick();
    b
}

#[test]
fn selected_active_unit_moves_within_reach() {
    let mut b = hero_turn();
    assert_eq!(b.active_unit(), UnitRef::Hero(0));
    b.handle_command(BattleCommand::MoveSelectedUnit(hex(4, 3)));
    assert_eq!(b.heroes[0].hex, hex(4, 3));
    assert_eq!(b.heroes[0].current_movement, 2);
    assert_eq!(b.selected_unit_hex(), Some(hex(4, 3)));
    let at = b.field.index(hex(4, 3)).unwrap();
    assert_eq!(b.field.hexes[at].occupying_unit, Some(UnitRef::Hero(0)));
    let was = b.field.index(hex(2, 3)).unwrap();
    assert_eq!(b.field.hexes[was].occupying_unit, None);
    assert!(b.selected_unit_range.iter().all(|e| e.cost <= 2));
}

#[test]
fn moves_out_of_reach_or_onto_units_are_refused() {
    let mut b = hero_turn();
    b.handle_command(BattleCommand::MoveSelectedUnit(hex(9, 3)));
    assert_eq!(b.heroes[0].hex, hex(2, 3));
    b.handle_command(BattleCommand::MoveSelectedUnit(hex(2, 5)));
    assert_eq!(b.heroes[0].hex, hex(2, 3));
    assert_eq!(b.heroes[0].current_movement, 4);
}

#[test]
fn only_the_active_unit_moves() {
    let mut b = hero_turn();
    b.handle_command(BattleCommand::SelectUnitAtHex(hex(2, 5)));
    assert_eq!(b.selected_unit, Some(UnitRef::Enemy(0)));
    b.handle_command(BattleCommand::MoveSelectedUnit(hex(3, 6)));
    assert_eq!(b.enemies[0].hex, hex(2, 5));
    b.handle_command(BattleCommand::SelectUnit(UnitRef::Enemy(9)));
    assert_eq!(b.selected_unit, Some(UnitRef::Enemy(0)));
    b.handle_command(BattleCommand::SelectUnit(UnitRef::Hero(0)));
    assert_eq!(b.selected_unit, Some(UnitRef::Hero(0)));
}

#[test]
fn ability_hits_an_enemy_in_range() {
    let mut b = hero_turn();
    b.handle_command(BattleCommand::SelectAbility(1));
    assert_eq!(b.input_mode, InputMode::AbilityTarget(1));
    assert_eq!(b.selected_ability, Some(1));
    assert!(b.selected_ability_range.contains(&hex(2, 5)));
    assert!(!b.selected_ability_range.contains(&hex(8, 8)));
    b.handle_command(BattleCommand::UseAbility(hex(2, 5)));
    // 10 * 1.25 (16 against 11) * 0.6 = 7.5: 8
    assert_eq!(b.enemies[0].stats.hp, 22);
    assert_eq!(b.enemies[0].effects, vec![Effect::ReduceMovement(1, 2)]);
    assert!(!b.heroes[0].action_available);
    assert_eq!(b.selected_ability, None);
    assert!(b.selected_ability_range.is_empty());
    assert_eq!(b.input_mode, InputMode::Movement);
    // the action is spent
    b.handle_command(BattleCommand::SelectAbility(1));
    b.handle_command(BattleCommand::UseAbility(hex(2, 5)));
    assert_eq!(b.enemies[0].stats.hp, 22);
}

#[test]
fn abilities_out_of_range_or_on_allies_are_refused() {
    let mut b = hero_turn();
    b.handle_command(BattleCommand::SelectAbility(0));
    b.handle_command(BattleCommand::UseAbility(hex(2, 5)));
    assert_eq!(b.enemies[0].stats.hp, 30);
    assert!(b.heroes[0].action_available);
    b.handle_command(BattleCommand::UseAbility(hex(2, 3)));
    assert!(b.heroes[0].action_available);
    b.handle_command(BattleCommand::SelectAbility(5));
    assert_eq!(b.selected_ability, Some(0));
    b.handle_command(BattleCommand::CancelAction);
    assert_eq!(b.selected_ability, None);
    assert_eq!(b.input_mode, InputMode::Movement);
}

#[test]
fn thirteen_damage_kills_a_thirteen_hp_unit() {
    let mut b = battle(
        vec![hero_instance(0, hex(2, 3), Stats { damage: (10, 10), ..fighter_stats() })],
        vec![
            enemy_instance(0, hex(2, 4), stats(13, (5, 10), 12, 11, 1, 3)),
            enemy_instance(1, hex(8, 8), stats(20, (5, 10), 12, 11, 0, 3)),
        ],
    );
    b.selected_unit = Some(UnitRef::Enemy(0));
    b.resolve_attack(UnitRef::Hero(0), UnitRef::Enemy(0), 100, 10);
    assert_eq!(b.enemies.len(), 1);
    assert_eq!(b.enemies[0].id, 1);
    assert_eq!(b.turn_order, vec![UnitRef::Hero(0), UnitRef::Enemy(1)]);
    assert_eq!(b.active_unit(), UnitRef::Hero(0));
    assert_eq!(b.selected_unit, None);
    assert_eq!(b.unit_current_health(UnitRef::Enemy(0)), 0);
    let at = b.field.index(hex(2, 4)).unwrap();
    assert_eq!(b.field.hexes[at].occupying_unit, None);
}

#[test]
fn wounded_unit_stays() {
    let mut b = battle(
        vec![hero_instance(0, hex(2, 3), fighter_stats())],
        vec![enemy_instance(0, hex(2, 4), stats(14, (5, 10), 12, 11, 1, 3))],
    );
    b.resolve_attack(UnitRef::Hero(0), UnitRef::Enemy(0), 100, 10);
    assert_eq!(b.enemies[0].stats.hp, 1);
    assert_eq!(b.turn_order.len(), 2);
}

#[test]
fn attack_by_or_on_a_missing_unit_does_nothing() {
    let mut b = battle(
        vec![hero_instance(0, hex(2, 3), fighter_stats())],
        vec![enemy_instance(0, hex(2, 4), stats(14, (5, 10), 12, 11, 1, 3))],
    );
    b.resolve_attack(UnitRef::Hero(5), UnitRef::Enemy(0), 100, 10);
    b.resolve_attack(UnitRef::Hero(0), UnitRef::Enemy(5), 100, 10);
    assert_eq!(b.enemies[0].stats.hp, 14);
}

#[test]
fn random_attack_uses_the_attackers_damage_range() {
    let mut b = battle(
        vec![hero_instance(0, hex(2, 3), Stats { damage: (10, 10), ..fighter_stats() })],
        vec![enemy_instance(0, hex(2, 4), stats(30, (5, 10), 12, 11, 1, 3))],
    );
    b.attack_unit(UnitRef::Hero(0), UnitRef::Enemy(0), 100);
    assert_eq!(b.enemies[0].stats.hp, 17);
    let mut b = battle(
        vec![hero_instance(0, hex(2, 3), Stats { damage: (4, 6), ..fighter_stats() })],
        vec![enemy_instance(0, hex(2, 4), stats(30, (5, 10), 12, 11, 1, 3))],
    );
    b.attack_unit(UnitRef::Hero(0), UnitRef::Enemy(0), 100);
    // 4, 5 or 6 times 1.25: 5, 6 or 8
    assert!([25, 24, 22].contains(&b.enemies[0].stats.hp));
}

#[test]
fn damage_rolls_vary_over_the_range() {
    let tough = Stats { max_hp: 2_000_000_000, hp: 2_000_000_000, damage: (1, 1), attack: 0, defense: 10, initiative: 0, movement: 1 };
    let mut b = battle(
        vec![hero_instance(0, hex(2, 3), Stats { damage: (0, 1_000_000), attack: 10, ..fighter_stats() })],
        vec![enemy_instance(0, hex(2, 4), tough)],
    );
    let mut last = b.enemies[0].stats.hp;
    let mut dealt = vec![];
    for _ in 0..10 {
        b.attack_unit(UnitRef::Hero(0), UnitRef::Enemy(0), 100);
        let now = b.enemies[0].stats.hp;
        dealt.push(last - now);
        last = now;
    }
    assert!(dealt.iter().all(|&d| (0..=1_000_000).contains(&d)));
    assert!(dealt.iter().any(|&d| d > 0));
    assert!(dealt.iter().any(|&d| d != dealt[0]));
}

#[test]
fn killing_the_active_unit_hands_the_turn_to_the_next_one() {
    let mut b = battle(
        vec![
            hero_instance(0, hex(2, 3), Stats { damage: (10, 10), ..fighter_stats() }),
            hero_instance(1, hex(5, 5), stats(20, (1, 1), 1, 1, 1, 2)),
        ],
        vec![enemy_instance(0, hex(2, 4), stats(13, (5, 10), 12, 11, 8, 3))],
    );
    assert_eq!(b.turn_order, vec![UnitRef::Hero(0), UnitRef::Enemy(0), UnitRef::Hero(1)]);
    b.active_unit_idx = 1;
    b.resolve_attack(UnitRef::Hero(0), UnitRef::Enemy(0), 100, 10);
    assert_eq!(b.turn_order, vec![UnitRef::Hero(0), UnitRef::Hero(1)]);
    assert!(b.active_unit_idx < b.turn_order.len());
    b.phase = TurnPhase::End;
    b.tick();
    assert_eq!(b.active_unit(), UnitRef::Hero(1));
}

#[test]
fn killing_the_first_active_unit_wraps_to_the_last() {
    let mut b = battle(
        vec![hero_instance(0, hex(2, 3), Stats { damage: (10, 10), ..fighter_stats() })],
        vec![
            enemy_instance(0, hex(2, 4), stats(13, (5, 10), 12, 11, 20, 3)),
            enemy_instance(1, hex(8, 8), stats(13, (5, 10), 12, 11, 0, 3)),
        ],
    );
    assert_eq!(b.active_unit(), UnitRef::Enemy(0));
    b.resolve_attack(UnitRef::Hero(0), UnitRef::Enemy(0), 100, 10);
    assert_eq!(b.active_unit_idx, 1);
    b.phase = TurnPhase::End;
    b.tick();
    assert_eq!(b.active_unit(), UnitRef::Hero(0));
}

#[test]
fn killing_a_unit_before_the_active_one_keeps_the_turn() {
    let mut b = battle(
        vec![hero_instance(0, hex(2, 3), Stats { damage: (10, 10), ..fighter_stats() })],
        vec![enemy_instance(0, hex(2, 4), stats(13, (5, 10), 12, 11, 20, 3))],
    );
    b.active_unit_idx = 1;
    b.resolve_attack(UnitRef::Hero(0), UnitRef::Enemy(0), 100, 10);
    assert_eq!(b.active_unit(), UnitRef::Hero(0));
}

#[test]
fn enemy_closes_three_hexes_towards_a_distant_hero() {
    let mut b = battle(
        vec![hero_instance(0, hex(4, 5), stats(20, (1, 1), 1, 1, 1, 3))],
        vec![enemy_instance(0, hex(4, 0), stats(20, (5, 5), 10, 10, 9, 3))],
    );
    assert_eq!(hex_distance(hex(4, 0), hex(4, 5)), 5);
    assert_eq!(enemy_ai_move(&b, UnitRef::Enemy(0)), hex(4, 3));
    enemy_ai(&mut b, UnitRef::Enemy(0));
    assert_eq!(b.enemies[0].hex, hex(4, 3));
    assert_eq!(hex_distance(b.enemies[0].hex, hex(4, 5)), 2);
    assert_eq!(b.heroes[0].stats.hp, 20);
}

#[test]
fn enemy_next_to_a_hero_stays_and_attacks() {
    let mut b = battle(
        vec![hero_instance(0, hex(4, 1), stats(20, (1, 1), 1, 10, 1, 3))],
        vec![enemy_instance(0, hex(4, 0), stats(20, (5, 5), 10, 10, 9, 3))],
    );
    assert_eq!(enemy_ai_move(&b, UnitRef::Enemy(0)), hex(4, 0));
    enemy_ai(&mut b, UnitRef::Enemy(0));
    assert_eq!(b.enemies[0].hex, hex(4, 0));
    assert_eq!(b.heroes[0].stats.hp, 15);
}

#[test]
fn enemy_attacks_the_weakest_hero_in_reach() {
    let mut b = battle(
        vec![
            hero_instance(0, hex(4, 1), stats(20, (1, 1), 1, 10, 1, 3)),
            hero_instance(1, hex(5, 0), stats(9, (1, 1), 1, 10, 1, 3)),
            hero_instance(2, hex(9, 9), stats(3, (1, 1), 1, 10, 1, 3)),
        ],
        vec![enemy_instance(0, hex(4, 0), stats(20, (5, 5), 10, 10, 9, 3))],
    );
    enemy_ai(&mut b, UnitRef::Enemy(0));
    assert_eq!(b.heroes[0].stats.hp, 20);
    assert_eq!(b.heroes[1].stats.hp, 4);
    assert_eq!(b.heroes[2].stats.hp, 3);
}

#[test]
fn enemy_without_heroes_or_movement_stays() {
    let b = battle(vec![], vec![enemy_instance(0, hex(4, 0), stats(20, (5, 5), 10, 10, 9, 3))]);
    assert_eq!(enemy_ai_move(&b, UnitRef::Enemy(0)), hex(4, 0));
    let b = battle(
        vec![hero_instance(0, hex(4, 5), stats(20, (1, 1), 1, 1, 1, 3))],
        vec![enemy_instance(0, hex(4, 0), stats(20, (5, 5), 10, 10, 9, 0))],
    );
    assert_eq!(enemy_ai_move(&b, UnitRef::Enemy(0)), hex(4, 0));
}

#[test]
fn enemy_stops_before_a_blocker() {
    let b = battle(
        vec![
            hero_instance(0, hex(4, 5), stats(20, (1, 1), 1, 1, 1, 3)),
            hero_instance(1, hex(4, 2), stats(20, (1, 1), 1, 1, 1, 3)),
        ],
        vec![enemy_instance(0, hex(4, 0), stats(20, (5, 5), 10, 10, 9, 3))],
    );
    // the nearest hero is in the way: the enemy walks up to it
    assert_eq!(enemy_ai_move(&b, UnitRef::Enemy(0)), hex(4, 1));
}

#[test]
fn unit_lookups() {
    let b = hero_turn();
    assert_eq!(b.unit_hex(UnitRef::Hero(0)), Some(hex(2, 3)));
    assert_eq!(b.unit_hex(UnitRef::Hero(1)), None);
    assert_eq!(b.unit_name(UnitRef::Enemy(1)), Some("enemy1".to_string()));
    assert_eq!(b.unit_movement(UnitRef::Enemy(0)), Some(3));
    assert_eq!(b.unit_current_movement(UnitRef::Hero(0)), Some(4));
    assert_eq!(b.unit_current_health(UnitRef::Hero(0)), 75);
    assert_eq!(b.unit_current_health(UnitRef::Hero(3)), 0);
    assert_eq!(b.unit_action_available(UnitRef::Hero(0)), Some(true));
    assert_eq!(b.unit_action_available(UnitRef::Enemy(0)), Some(false));
    assert_eq!(b.unit_abilities(UnitRef::Hero(0)).unwrap().len(), 2);
    assert!(b.unit_abilities(UnitRef::Enemy(0)).is_none());
    assert_eq!(b.hero(0).unwrap().name, "hero0");
    assert!(b.enemy(2).is_none());
    assert_eq!(b.active_unit_hex(), Some(hex(2, 3)));
    assert!(b.is_hex_passable(hex(5, 5)));
    assert!(!b.is_hex_passable(hex(2, 5)));
    assert!(!b.is_hex_passable(hex(-1, 5)));
}

#[test]
fn units_in_an_area_by_side() {
    let b = hero_turn();
    let area = hex(2, 4).range_to_area(1, 10, 10);
    let (mine, theirs) = b.units_in_area(UnitRef::Hero(0), area.clone());
    assert_eq!(mine, vec![UnitRef::Hero(0)]);
    assert_eq!(theirs, vec![UnitRef::Enemy(0)]);
    let (mine, theirs) = b.units_in_area(UnitRef::Enemy(1), area.clone());
    assert_eq!(mine, vec![UnitRef::Enemy(0)]);
    assert_eq!(theirs, vec![UnitRef::Hero(0)]);
    assert!(b.is_unit_in_area(UnitRef::Enemy(0), &area));
    assert!(!b.is_unit_in_area(UnitRef::Enemy(1), &area));
}

#[test]
fn hero_takes_damage_down_to_zero() {
    let mut h = party().remove(0);
    h.take_damage(30);
    assert_eq!(h.stats.hp, 45);
    h.take_damage(100);
    assert_eq!(h.stats.hp, 0);
}

#[test]
fn game_starts_a_battle_against_the_first_encounter() {
    let mut g = GameState::new();
    assert!(g.current_screen == Screen::Menu);
    assert!(g.battle.is_none());
    g.player_party = party();
    g.start_battle();
    let b = g.battle.as_ref().unwrap();
    assert_eq!(b.heroes.len(), 1);
    assert_eq!(b.enemies.len(), 2);
    assert_eq!(b.enemies[0].name, "Goblin");
    assert_eq!(b.enemies[1].name, "Orc");
    assert_eq!(b.turn_order, vec![UnitRef::Enemy(0), UnitRef::Hero(0), UnitRef::Enemy(1)]);
}

#[test]
fn moving_a_missing_unit_does_nothing() {
    let mut b = hero_turn();
    b.move_unit(UnitRef::Enemy(9), hex(5, 5), 1);
    assert_eq!(b.enemies.len(), 2);
    assert_eq!(b.heroes[0].hex, hex(2, 3));
    assert_eq!(b.heroes[0].current_movement, 4);
}

#[test]
fn moved_unit_is_recorded_on_its_new_hex() {
    let mut b = hero_turn();
    b.move_unit(UnitRef::Enemy(1), hex(5, 5), 1);
    assert_eq!(b.enemies[1].hex, hex(5, 5));
    assert_eq!(b.enemies[1].current_movement, 2);
    let at = b.field.index(hex(5, 5)).unwrap();
    assert_eq!(b.field.hexes[at].occupying_unit, Some(UnitRef::Enemy(1)));
}

#[test]
fn units_in_an_area_come_in_store_order() {
    let b = battle(
        vec![
            hero_instance(5, hex(4, 4), stats(10, (1, 1), 1, 1, 1, 2)),
            hero_instance(2, hex(4, 5), stats(10, (1, 1), 1, 1, 9, 2)),
        ],
        vec![enemy_instance(0, hex(4, 3), stats(10, (1, 1), 1, 1, 5, 2))],
    );
    let area = hex(4, 4).range_to_area(1, 10, 10);
    let (heroes, enemies) = b.units_in_area(UnitRef::Hero(5), area);
    assert_eq!(heroes, vec![UnitRef::Hero(5), UnitRef::Hero(2)]);
    assert_eq!(enemies, vec![UnitRef::Enemy(0)]);
}

#[test]
fn equally_weak_heroes_the_first_kept_is_attacked() {
    let mut b = battle(
        vec![
            hero_instance(0, hex(4, 1), stats(9, (1, 1), 1, 10, 1, 3)),
            hero_instance(1, hex(5, 0), stats(9, (1, 1), 1, 10, 1, 3)),
        ],
        vec![enemy_instance(0, hex(4, 0), stats(20, (5, 5), 10, 10, 9, 3))],
    );
    enemy_ai(&mut b, UnitRef::Enemy(0));
    assert_eq!(b.heroes[0].stats.hp, 4);
    assert_eq!(b.heroes[1].stats.hp, 9);
    assert_eq!(b.enemies[0].stats.hp, 20);
}

#[test]
fn new_battle_gives_heroes_their_action_and_no_effects() {
    let b = BattleState::new(&party(), &goblins(1));
    assert_eq!(b.heroes[0].name, "Fighter");
    assert!(b.heroes[0].action_available);
    assert!(b.heroes[0].effects.is_empty());
    assert!(b.enemies[0].effects.is_empty());
    let mountain = b.field.index(hex(8, 2)).unwrap();
    assert!(!b.field.hexes[mountain].passable);
    let forest = b.field.index(hex(1, 4)).unwrap();
    assert_eq!(b.field.hexes[forest].terrain, Terrain::Forest);
    assert!(b.field.hexes[forest].passable);
}
