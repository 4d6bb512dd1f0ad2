use hexbattle::battlefield::{Battlefield, Terrain};
use hexbattle::battlestate::UnitRef;
use hexbattle::hexgrid::Hex;
use hexbattle::pathfinding::{bfs_path, hex_neighbors, movement_range};

fn hex(q: i32, r: i32) -> Hex {
    Hex { q, r }
}

#[test]
fn hex_neighbors_use_an_inclusive_boundary() {
    assert_eq!(hex_neighbors(hex(9, 9), hex(9, 9)), vec![hex(9, 8), hex(8, 9)]);
    assert_eq!(hex_neighbors(hex(8, 8), hex(9, 9)).len(), 6);
    assert_eq!(hex_neighbors(hex(0, 0), hex(9, 9)), vec![hex(1, 0), hex(0, 1)]);
}

#[test]
fn no_movement_reaches_only_the_start() {
    let field = Battlefield::new(10, 10);
    for m in [0, -3] {
        let r = movement_range(hex(4, 4), m, &field);
        assert_eq!(r.len(), 1);
        assert_eq!(r[0].hex, hex(4, 4));
        assert_eq!(r[0].cost, 0);
        assert_eq!(r[0].path, vec![hex(4, 4)]);
    }
}

#[test]
fn one_step_reaches_the_six_neighbours() {
    let field = Battlefield::new(10, 10);
    let r = movement_range(hex(4, 4), 1, &field);
    assert_eq!(r.len(), 7);
    assert_eq!(r[0].hex, hex(4, 4));
    assert_eq!(r[0].cost, 0);
    for e in &r[1..] {
        assert_eq!(e.cost, 1);
        assert!(hex(4, 4).is_adjacent(e.hex, 10, 10));
    }
}

#[test]
fn movement_range_costs_and_paths_agree() {
    let mut field = Battlefield::new(10, 10);
    field.set_terrain(hex(5, 4), Terrain::Mountain);
    field.set_terrain(hex(5, 5), Terrain::Water);
    let m = 3;
    let r = movement_range(hex(4, 4), m, &field);
    assert_eq!(r[0].hex, hex(4, 4));
    assert_eq!(r[0].cost, 0);
    for e in &r {
        assert!(e.cost <= m as u64);
        assert_eq!(e.path.len() as u64, e.cost + 1);
        assert_eq!(*e.path.last().unwrap(), e.hex);
        assert_eq!(e.path[0], hex(4, 4));
        assert_ne!(e.hex, hex(5, 4));
        assert_ne!(e.hex, hex(5, 5));
    }
}

#[test]
fn blocked_hexes_cost_a_detour() {
    let mut field = Battlefield::new(10, 10);
    // the straight way down the column is blocked
    field.set_terrain(hex(4, 5), Terrain::Mountain);
    let r = movement_range(hex(4, 4), 4, &field);
    let below = r.iter().find(|e| e.hex == hex(4, 6)).unwrap();
    assert_eq!(below.cost, 3);
}

#[test]
fn occupied_hexes_are_not_entered() {
    let mut field = Battlefield::new(10, 10);
    let i = field.index(hex(4, 5)).unwrap();
    field.set_occupant_at(i, Some(UnitRef::Enemy(0)));
    let r = movement_range(hex(4, 4), 2, &field);
    assert!(r.iter().all(|e| e.hex != hex(4, 5)));
}

#[test]
fn path_to_itself_is_the_hex_alone() {
    let field = Battlefield::new(10, 10);
    assert_eq!(bfs_path(hex(3, 3), hex(3, 3), &field), vec![hex(3, 3)]);
}

#[test]
fn path_runs_from_start_to_goal() {
    let field = Battlefield::new(10, 10);
    let p = bfs_path(hex(0, 0), hex(0, 3), &field);
    assert_eq!(p, vec![hex(0, 0), hex(0, 1), hex(0, 2), hex(0, 3)]);
    let p = bfs_path(hex(1, 1), hex(6, 7), &field);
    assert_eq!(p[0], hex(1, 1));
    assert_eq!(*p.last().unwrap(), hex(6, 7));
    for w in p.windows(2) {
        assert!(w[0].is_adjacent(w[1], 10, 10));
    }
}

#[test]
fn path_may_end_on_an_occupied_goal() {
    let mut field = Battlefield::new(10, 10);
    let i = field.index(hex(0, 3)).unwrap();
    field.set_occupant_at(i, Some(UnitRef::Hero(0)));
    let p = bfs_path(hex(0, 0), hex(0, 3), &field);
    assert_eq!(p.len(), 4);
    assert_eq!(*p.last().unwrap(), hex(0, 3));
}

#[test]
fn unreachable_goal_gives_an_empty_path() {
    let mut field = Battlefield::new(10, 10);
    field.set_terrain(hex(1, 0), Terrain::Mountain);
    field.set_terrain(hex(0, 1), Terrain::Water);
    assert!(bfs_path(hex(5, 5), hex(0, 0), &field).is_empty());
    // off the map
    assert!(bfs_path(hex(5, 5), hex(12, 0), &field).is_empty());
}
