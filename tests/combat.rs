use hexbattle::combat::{attack_modifier, damage_dealt};

#[test]
fn modifier_grows_five_points_per_point_of_attack() {
    assert_eq!(attack_modifier(16, 11), 125);
    assert_eq!(attack_modifier(10, 10), 100);
    assert_eq!(attack_modifier(5, 10), 75);
}

#[test]
fn modifier_is_capped_at_three_hundred_percent() {
    assert_eq!(attack_modifier(50, 10), 300);
    assert_eq!(attack_modifier(100, 0), 300);
    assert_eq!(attack_modifier(i32::MAX, i32::MIN), 300);
}

#[test]
fn modifier_is_floored_at_thirty_percent() {
    assert_eq!(attack_modifier(0, 14), 30);
    assert_eq!(attack_modifier(0, 100), 30);
    assert_eq!(attack_modifier(i32::MIN, i32::MAX), 30);
    assert_eq!(attack_modifier(0, 13), 35);
}

#[test]
fn attack_sixteen_against_defence_eleven_rolls_ten() {
    // 10 * 1.25 * 1.0 = 12.5, and halves round up
    assert_eq!(damage_dealt(10, 16, 11, 100), 13);
}

#[test]
fn halves_round_away_from_zero_not_to_even() {
    // 2 * 1.25 = 2.5: 3, where rounding to even would give 2
    assert_eq!(damage_dealt(2, 16, 11, 100), 3);
    // 10 * 1.25 * 1.1 = 13.75: 14
    assert_eq!(damage_dealt(10, 16, 11, 110), 14);
    // 9 * 1.5 = 13.5: 14 either way
    assert_eq!(damage_dealt(9, 20, 10, 100), 14);
}

#[test]
fn damage_below_a_half_rounds_down() {
    // 3 * 0.3 * 0.6 = 0.54: 1; 1 * 0.3 * 0.6 = 0.18: 0
    assert_eq!(damage_dealt(3, 0, 100, 60), 1);
    assert_eq!(damage_dealt(1, 0, 100, 60), 0);
}

#[test]
fn damage_is_never_negative() {
    assert_eq!(damage_dealt(-5, 16, 11, 100), 0);
    assert_eq!(damage_dealt(10, 16, 11, 0), 0);
}

#[test]
fn ability_multipliers_scale_damage() {
    // 10 * 1.25 * 1.5 = 18.75
    assert_eq!(damage_dealt(10, 16, 11, 150), 19);
    // 10 * 1.25 * 0.6 = 7.5
    assert_eq!(damage_dealt(10, 16, 11, 60), 8);
}

#[test]
fn huge_inputs_do_not_overflow() {
    assert_eq!(damage_dealt(i32::MAX, 100, 0, u32::MAX), ((i32::MAX as i128 * 300 * u32::MAX as i128 + 5000) / 10000) as i64);
}
