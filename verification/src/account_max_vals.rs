//! The inclusive maximum of each field of an account record.

use vstd::prelude::*;

verus! {

pub const NORMAL_GAMES: usize = 190000;

pub const NORMAL_WINS: usize = 100000;

pub const HARD_GAMES: usize = 110000;

pub const HARD_WINS: usize = 120000;

pub const TOTAL_SAVES: usize = 90300000;

pub const TOTAL_SCORE: usize = 94000000;

pub const TOTAL_DEATHS: usize = 96000000;

pub const BOT_2000_KILLS: usize = 150000;

pub const ODIN_KILLS: usize = 160000;

pub const DIABLO_KILLS: usize = 170000;

pub const INSANE_GAMES: usize = 180000;

pub const INSANE_WINS: usize = 190000;

pub const BLANK_3_PLACEHOLDER: usize = 200000;

pub const TIME_GAMES: usize = 210000;

pub const TIME_WINS: usize = 220000;

pub const MINIGAME_HIGH_SCORE: usize = 230000;

pub const TIME_HIGH_SCORE: usize = 240000;

pub const CAMERA_DISTANCE: usize = 1000;

pub const CAMERA_ROTATION: usize = 1001;

pub const CAMERA_ANGLE: usize = 1002;

pub const CAMERA_FOLLOW: usize = 1003;

pub const HIDE_TIPS: usize = 1004;

pub const HIDE_HUD: usize = 1005;

pub const HIDE_MINIMAP: usize = 1006;

pub const HIDE_ENERGY_BAR: usize = 1007;

pub const HIDE_EXPERIENCE_BAR: usize = 1008;

pub const HIDE_MENU: usize = 1009;

pub const WASD_MOVEMENT: usize = 1010;

pub const INCREASE_DISTANCE_SKILL: usize = 10;

pub const DECREASE_DISTANCE_SKILL: usize = 11;

pub const ROTATE_RIGHT_SKILL: usize = 12;

pub const ROTATE_LEFT_SKILL: usize = 13;

pub const FOLLOW_RUNLING_SKILL: usize = 14;

} // verus!
