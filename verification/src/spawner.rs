//! The rules by which the world grows on its own: when a station or a
//! passenger appears, where, and of which kind.

use crate::geometry::COORD_LIMIT;
use crate::randoms::UNIT;
use crate::station::StationType;
use vstd::prelude::*;

verus! {

/// Ticks after a spawn during which nothing spawns.
pub const MIN_TICKS_BETWEEN_SPAWNS: u64 = 30;

/// Chance of a spawn on the first tick on which one is possible, in millionths.
pub const BASE_SPAWN_CHANCE: u64 = 50;

/// What the chance of a spawn gains with each further tick, in millionths.
pub const SPAWN_CHANCE_PER_TICK: u64 = 5;

/// No spawn clock runs beyond this: from here on a spawn is certain.
pub const SPAWN_CLOCK_LIMIT: u64 = 200_021;

/// The chance of a spawn, in millionths, `ticks` ticks after the last one.
pub open spec fn spawn_chance(ticks: u64) -> int {
    BASE_SPAWN_CHANCE + SPAWN_CHANCE_PER_TICK * (ticks - MIN_TICKS_BETWEEN_SPAWNS)
}

/// Whether a spawn takes place `ticks` ticks after the last one when the
/// sample `roll` has been drawn for it.
pub open spec fn spawn_due(ticks: u64, roll: u32) -> bool {
    ticks > MIN_TICKS_BETWEEN_SPAWNS && roll < spawn_chance(ticks)
}

/// Whether a sample has to be drawn at all: only after the quiet time.
pub fn spawn_possible(ticks: u64) -> (r: bool)
    ensures
        r == (ticks > MIN_TICKS_BETWEEN_SPAWNS),
{
    ticks > MIN_TICKS_BETWEEN_SPAWNS
}

/// Decides [`spawn_due`]. Once the clock has reached its limit, every
/// sample that a source of randomness may yield makes the spawn due.
pub fn is_spawn_due(ticks: u64, roll: u32) -> (r: bool)
    ensures
        r == spawn_due(ticks, roll),
        ticks >= SPAWN_CLOCK_LIMIT && roll <= UNIT ==> r,
{
    if ticks <= MIN_TICKS_BETWEEN_SPAWNS {
        return false;
    }
    let waited: u64 = ticks - MIN_TICKS_BETWEEN_SPAWNS;
    if waited > 1_000_000_000 {
        return true;
    }
    let chance: u64 = BASE_SPAWN_CHANCE + SPAWN_CHANCE_PER_TICK * waited;
    (roll as u64) < chance
}

/// The spawn clock after a tick: it starts anew after a spawn.
pub open spec fn clock_after(ticks: u64, spawned: bool) -> u64 {
    if spawned {
        1
    } else {
        (ticks + 1) as u64
    }
}

/// The coordinate between `lo` and `hi` that the sample `roll` stands for.
pub open spec fn scaled(roll: u32, lo: i32, hi: i32) -> int {
    lo + (roll * (hi - lo)) / (UNIT as int)
}

/// Computes [`scaled`].
pub fn world_coordinate(roll: u32, lo: i32, hi: i32) -> (c: i32)
    requires
        roll <= UNIT,
        -COORD_LIMIT <= lo <= hi <= COORD_LIMIT,
    ensures
        c == scaled(roll, lo, hi),
        lo <= c <= hi,
{
    let width: i64 = hi as i64 - lo as i64;
    assert(0 <= roll * width <= UNIT * width) by (nonlinear_arith)
        requires
            0 <= roll <= UNIT,
            0 <= width,
    ;
    let offset: i64 = (roll as i64 * width) / (UNIT as i64);
    (lo as i64 + offset) as i32
}

/// The kind that the sample `roll` stands for: four tenths of all samples
/// give a circle, three tenths a square, three tenths a triangle.
pub open spec fn kind_for(roll: u32) -> StationType {
    if roll < 400_000 {
        StationType::Circle
    } else if roll < 700_000 {
        StationType::Square
    } else {
        StationType::Triangle
    }
}

/// Computes [`kind_for`].
pub fn station_type_for(roll: u32) -> (k: StationType)
    ensures
        k == kind_for(roll),
{
    if roll < 400_000 {
        StationType::Circle
    } else if roll < 700_000 {
        StationType::Square
    } else {
        StationType::Triangle
    }
}

} // verus!
