use hexbattle::ai::hex_distance;
use hexbattle::hexgrid::Hex;

fn hex(q: i32, r: i32) -> Hex {
    Hex { q, r }
}

#[test]
fn neighbors_of_even_column() {
    assert_eq!(
        hex(2, 2).neighbors(10, 10),
        vec![hex(2, 1), hex(3, 1), hex(3, 2), hex(2, 3), hex(1, 2), hex(1, 1)]
    );
}

#[test]
fn neighbors_of_odd_column() {
    assert_eq!(
        hex(3, 2).neighbors(10, 10),
        vec![hex(3, 1), hex(4, 2), hex(4, 3), hex(3, 3), hex(2, 3), hex(2, 2)]
    );
}

#[test]
fn neighbors_stay_inside_the_grid() {
    assert_eq!(hex(0, 0).neighbors(10, 10), vec![hex(1, 0), hex(0, 1)]);
    // the grid is [0, width) x [0, height): column 9 is the last of ten
    assert_eq!(hex(9, 9).neighbors(10, 10), vec![hex(9, 8), hex(8, 9)]);
}

#[test]
fn adjacency_follows_the_neighbour_list() {
    assert!(hex(2, 2).is_adjacent(hex(3, 1), 10, 10));
    assert!(!hex(2, 2).is_adjacent(hex(3, 3), 10, 10));
    assert!(!hex(2, 2).is_adjacent(hex(2, 2), 10, 10));
}

#[test]
fn area_of_range_zero_is_the_centre() {
    assert_eq!(hex(4, 4).range_to_area(0, 10, 10), vec![hex(4, 4)]);
}

#[test]
fn area_of_negative_range_is_empty() {
    assert!(hex(4, 4).range_to_area(-1, 10, 10).is_empty());
}

#[test]
fn area_of_range_one_in_a_corner() {
    assert_eq!(hex(0, 0).range_to_area(1, 10, 10), vec![hex(0, 0), hex(1, 0), hex(0, 1)]);
}

#[test]
fn area_lists_nearer_hexes_first() {
    let area = hex(4, 4).range_to_area(2, 10, 10);
    let ring_one = hex(4, 4).range_to_area(1, 10, 10);
    assert_eq!(&area[..7], &ring_one[..]);
    assert_eq!(area[1..7].len(), 6);
    assert!(area[7..].iter().all(|h| !ring_one.contains(h)));
}

#[test]
fn area_of_range_two_has_no_repeats() {
    let area = hex(4, 4).range_to_area(2, 10, 10);
    assert_eq!(area.len(), 19);
    for (i, a) in area.iter().enumerate() {
        for b in area.iter().skip(i + 1) {
            assert_ne!(a, b);
        }
    }
    assert_eq!(area[0], hex(4, 4));
}

#[test]
fn distance_values() {
    assert_eq!(hex_distance(hex(0, 0), hex(0, 0)), 0);
    assert_eq!(hex_distance(hex(0, 0), hex(3, 4)), 7);
    assert_eq!(hex_distance(hex(4, 0), hex(4, 5)), 5);
    assert_eq!(hex_distance(hex(2, 3), hex(3, 2)), 1);
}

#[test]
fn distance_is_symmetric_and_obeys_the_triangle_inequality() {
    let hexes = [hex(0, 0), hex(3, 4), hex(-2, 5), hex(7, -3), hex(1, 1)];
    for &a in &hexes {
        for &b in &hexes {
            assert_eq!(hex_distance(a, b), hex_distance(b, a));
            for &c in &hexes {
                assert!(hex_distance(a, c) <= hex_distance(a, b) + hex_distance(b, c));
            }
        }
    }
}
