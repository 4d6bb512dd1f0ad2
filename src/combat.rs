//! The damage formula, in whole percent.

use vstd::prelude::*;

verus! {

/// How much an attack is worth against a defence, in percent: five points per
/// point of difference, from 30% up to 300%.
pub open spec fn modifier_pct_spec(attack: int, defense: int) -> int {
    let delta = attack - defense;
    if delta >= 0 {
        if 100 + 5 * delta > 300 { 300 } else { 100 + 5 * delta }
    } else {
        if 100 + 5 * delta < 30 { 30 } else { 100 + 5 * delta }
    }
}

/// The damage of a roll: `roll * modifier * multiplier`, both factors in percent,
/// rounded to the nearest integer with halves rounded up (away from zero), and
/// never below zero.
pub open spec fn damage_spec(roll: int, attack: int, defense: int, multiplier_pct: int) -> int {
    let x = roll * modifier_pct_spec(attack, defense) * multiplier_pct;
    if x <= 0 { 0 } else { (x + 5000) / 10000 }
}

/// The attack modifier in percent.
pub fn attack_modifier(attack: i32, defense: i32) -> (r: i64)
    ensures
        r == modifier_pct_spec(attack as int, defense as int),
        30 <= r <= 300,
{
    let delta: i64 = attack as i64 - defense as i64;
    if delta >= 0 {
        if delta > 40 { 300 } else { 100 + 5 * delta }
    } else {
        if delta < -14 { 30 } else { 100 + 5 * delta }
    }
}

/// The damage that a roll of `roll` deals, the attacker's `attack` against the
/// target's `defense`, scaled by `multiplier_pct` percent.
pub fn damage_dealt(roll: i32, attack: i32, defense: i32, multiplier_pct: u32) -> (r: i64)
    ensures
        r == damage_spec(roll as int, attack as int, defense as int, multiplier_pct as int),
        r >= 0,
{
    let m = attack_modifier(attack, defense);
    let a: i128 = roll as i128;
    let b: i128 = m as i128;
    let c: i128 = multiplier_pct as i128;
    proof {
        assert(-0x8000_0000 <= a <= 0x7fff_ffff);
        assert(30 <= b <= 300);
        assert(0 <= c <= 0xffff_ffff);
        assert(-0x8000_0000 * 300 <= a * b <= 0x7fff_ffff * 300) by (nonlinear_arith)
            requires -0x8000_0000 <= a <= 0x7fff_ffff, 30 <= b <= 300;
        assert(-0x8000_0000 * 300 * 0xffff_ffff <= (a * b) * c <= 0x7fff_ffff * 300 * 0xffff_ffff)
            by (nonlinear_arith)
            requires -0x8000_0000 * 300 <= a * b <= 0x7fff_ffff * 300, 0 <= c <= 0xffff_ffff;
    }
    let x: i128 = a * b * c;
    if x <= 0 {
        0
    } else {
        ((x + 5000) / 10000) as i64
    }
}

/// What is left of `hp` after `damage`: never below zero.
pub open spec fn hp_after_spec(hp: int, damage: int) -> int {
    if hp - damage < 0 { 0 } else { hp - damage }
}

/// Health never goes below zero, and damage never heals.
pub proof fn lemma_hp_after_bounds(hp: int, roll: int, attack: int, defense: int, multiplier_pct: int)
    requires
        hp >= 0,
        multiplier_pct >= 0,
    ensures
        damage_spec(roll, attack, defense, multiplier_pct) >= 0,
        0 <= hp_after_spec(hp, damage_spec(roll, attack, defense, multiplier_pct)) <= hp,
{
}

} // verus!
