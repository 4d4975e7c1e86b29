//! The inclusive maximum of each field of a unit record.

use vstd::prelude::*;

verus! {

pub const CLASS: usize = 300000;

pub const EXPERIENCE: usize = 8100000;

pub const ENERGY_REGENERATION: usize = 320000;

pub const MAXIMUM_ENERGY: usize = 330000;

pub const SPEED: usize = 340000;

pub const SKILL_1_LEVEL: usize = 350000;

pub const SKILL_2_LEVEL: usize = 360000;

pub const RUNLING_LEVEL: usize = 370000;

pub const REMAINING_POINTS: usize = 380000;

} // verus!
