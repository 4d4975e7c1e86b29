//! The two kinds of record, each with the table of its maxima, and the
//! classes of unit.

use vstd::prelude::*;
use crate::account_max_vals;
use crate::error::CodecError;
use crate::record::{
    blob_number, canonical_blob, decode_fields, encode_fields, lemma_decode_encode,
    lemma_encode_decode, lemma_pack_unpack, spec_decode_fields, spec_encode_fields, spec_unpack,
    within_maxima,
};
use crate::runling_max_vals;

verus! {

/// The inclusive maximum of each field of an account record, in the order in
/// which the fields are stored.
pub const ACCOUNT_MAXIMA: [usize; 33] = [
    account_max_vals::NORMAL_GAMES,
    account_max_vals::NORMAL_WINS,
    account_max_vals::HARD_GAMES,
    account_max_vals::HARD_WINS,
    account_max_vals::TOTAL_SAVES,
    account_max_vals::TOTAL_SCORE,
    account_max_vals::TOTAL_DEATHS,
    account_max_vals::BOT_2000_KILLS,
    account_max_vals::ODIN_KILLS,
    account_max_vals::DIABLO_KILLS,
    account_max_vals::INSANE_GAMES,
    account_max_vals::INSANE_WINS,
    account_max_vals::BLANK_3_PLACEHOLDER,
    account_max_vals::TIME_GAMES,
    account_max_vals::TIME_WINS,
    account_max_vals::MINIGAME_HIGH_SCORE,
    account_max_vals::TIME_HIGH_SCORE,
    account_max_vals::CAMERA_DISTANCE,
    account_max_vals::CAMERA_ROTATION,
    account_max_vals::CAMERA_ANGLE,
    account_max_vals::CAMERA_FOLLOW,
    account_max_vals::HIDE_TIPS,
    account_max_vals::HIDE_HUD,
    account_max_vals::HIDE_MINIMAP,
    account_max_vals::HIDE_ENERGY_BAR,
    account_max_vals::HIDE_EXPERIENCE_BAR,
    account_max_vals::HIDE_MENU,
    account_max_vals::WASD_MOVEMENT,
    account_max_vals::INCREASE_DISTANCE_SKILL,
    account_max_vals::DECREASE_DISTANCE_SKILL,
    account_max_vals::ROTATE_RIGHT_SKILL,
    account_max_vals::ROTATE_LEFT_SKILL,
    account_max_vals::FOLLOW_RUNLING_SKILL,
];

/// The aggregate statistics of one player: play counts, high scores, camera
/// and interface preferences, and the flags of the unlocked camera skills.
#[derive(Debug, Clone, Copy, PartialEq, Eq, Structural)]
pub struct Account {
    pub normal_games: usize,
    pub normal_wins: usize,
    pub hard_games: usize,
    pub hard_wins: usize,
    pub total_saves: usize,
    pub total_score: usize,
    pub total_deaths: usize,
    pub bot_2000_kills: usize,
    pub odin_kills: usize,
    pub diablo_kills: usize,
    pub insane_games: usize,
    pub insane_wins: usize,
    pub blank_3_placeholder: usize,
    pub time_games: usize,
    pub time_wins: usize,
    pub minigame_high_score: usize,
    pub time_high_score: usize,
    pub camera_distance: usize,
    pub camera_rotation: usize,
    pub camera_angle: usize,
    pub camera_follow: usize,
    pub hide_tips: usize,
    pub hide_hud: usize,
    pub hide_minimap: usize,
    pub hide_energy_bar: usize,
    pub hide_experience_bar: usize,
    pub hide_menu: usize,
    pub wasd_movement: usize,
    pub increase_distance_skill: usize,
    pub decrease_distance_skill: usize,
    pub rotate_right_skill: usize,
    pub rotate_left_skill: usize,
    pub follow_runling_skill: usize,
}

impl Account {
    /// The field values in the order in which they are stored: the first is
    /// stored first and lies lowest, the last is taken off first.
    pub open spec fn fields(self) -> Seq<usize> {
        seq![
            self.normal_games,
            self.normal_wins,
            self.hard_games,
            self.hard_wins,
            self.total_saves,
            self.total_score,
            self.total_deaths,
            self.bot_2000_kills,
            self.odin_kills,
            self.diablo_kills,
            self.insane_games,
            self.insane_wins,
            self.blank_3_placeholder,
            self.time_games,
            self.time_wins,
            self.minigame_high_score,
            self.time_high_score,
            self.camera_distance,
            self.camera_rotation,
            self.camera_angle,
            self.camera_follow,
            self.hide_tips,
            self.hide_hud,
            self.hide_minimap,
            self.hide_energy_bar,
            self.hide_experience_bar,
            self.hide_menu,
            self.wasd_movement,
            self.increase_distance_skill,
            self.decrease_distance_skill,
            self.rotate_right_skill,
            self.rotate_left_skill,
            self.follow_runling_skill,
        ]
    }

    /// The record whose fields are the given values, in the order of `fields`.
    pub open spec fn spec_from_fields(values: Seq<usize>) -> Account {
        Account {
            normal_games: values[0],
            normal_wins: values[1],
            hard_games: values[2],
            hard_wins: values[3],
            total_saves: values[4],
            total_score: values[5],
            total_deaths: values[6],
            bot_2000_kills: values[7],
            odin_kills: values[8],
            diablo_kills: values[9],
            insane_games: values[10],
            insane_wins: values[11],
            blank_3_placeholder: values[12],
            time_games: values[13],
            time_wins: values[14],
            minigame_high_score: values[15],
            time_high_score: values[16],
            camera_distance: values[17],
            camera_rotation: values[18],
            camera_angle: values[19],
            camera_follow: values[20],
            hide_tips: values[21],
            hide_hud: values[22],
            hide_minimap: values[23],
            hide_energy_bar: values[24],
            hide_experience_bar: values[25],
            hide_menu: values[26],
            wasd_movement: values[27],
            increase_distance_skill: values[28],
            decrease_distance_skill: values[29],
            rotate_right_skill: values[30],
            rotate_left_skill: values[31],
            follow_runling_skill: values[32],
        }
    }

    /// No field is above its maximum.
    pub open spec fn within_limits(self) -> bool {
        within_maxima(self.fields(), ACCOUNT_MAXIMA@)
    }

    /// The outcome of decoding a blob as an account record.
    pub open spec fn spec_from_data(blob: Seq<char>) -> Result<Account, CodecError> {
        match spec_decode_fields(blob, ACCOUNT_MAXIMA@) {
            Ok(values) => Ok(Account::spec_from_fields(values)),
            Err(e) => Err(e),
        }
    }

    /// The outcome of encoding the record as a blob.
    pub open spec fn spec_to_data(self) -> Result<Seq<char>, CodecError> {
        spec_encode_fields(self.fields(), ACCOUNT_MAXIMA@)
    }

    /// The sum of the fields that the checksum covers: the play counts, the
    /// totals and the high scores, without the insane-mode counts, the
    /// placeholder, and the camera and interface fields.
    pub open spec fn spec_checksum(self) -> int {
        self.normal_games
            + self.normal_wins
            + self.hard_games
            + self.hard_wins
            + self.total_saves
            + self.total_score
            + self.total_deaths
            + self.bot_2000_kills
            + self.odin_kills
            + self.diablo_kills
            + self.time_games
            + self.time_wins
            + self.minigame_high_score
            + self.time_high_score
    }

    /// The field values in the order of the table.
    fn to_fields(&self) -> (r: [usize; 33])
        ensures
            r@ == self.fields(),
    {
        let r = [
            self.normal_games,
            self.normal_wins,
            self.hard_games,
            self.hard_wins,
            self.total_saves,
            self.total_score,
            self.total_deaths,
            self.bot_2000_kills,
            self.odin_kills,
            self.diablo_kills,
            self.insane_games,
            self.insane_wins,
            self.blank_3_placeholder,
            self.time_games,
            self.time_wins,
            self.minigame_high_score,
            self.time_high_score,
            self.camera_distance,
            self.camera_rotation,
            self.camera_angle,
            self.camera_follow,
            self.hide_tips,
            self.hide_hud,
            self.hide_minimap,
            self.hide_energy_bar,
            self.hide_experience_bar,
            self.hide_menu,
            self.wasd_movement,
            self.increase_distance_skill,
            self.decrease_distance_skill,
            self.rotate_right_skill,
            self.rotate_left_skill,
            self.follow_runling_skill,
        ];
        assert(r@ =~= self.fields());
        r
    }

    /// The record made of the field values.
    fn from_fields(values: &Vec<usize>) -> (r: Account)
        requires
            values@.len() == 33,
        ensures
            r == Account::spec_from_fields(values@),
    {
        Account {
            normal_games: values[0],
            normal_wins: values[1],
            hard_games: values[2],
            hard_wins: values[3],
            total_saves: values[4],
            total_score: values[5],
            total_deaths: values[6],
            bot_2000_kills: values[7],
            odin_kills: values[8],
            diablo_kills: values[9],
            insane_games: values[10],
            insane_wins: values[11],
            blank_3_placeholder: values[12],
            time_games: values[13],
            time_wins: values[14],
            minigame_high_score: values[15],
            time_high_score: values[16],
            camera_distance: values[17],
            camera_rotation: values[18],
            camera_angle: values[19],
            camera_follow: values[20],
            hide_tips: values[21],
            hide_hud: values[22],
            hide_minimap: values[23],
            hide_energy_bar: values[24],
            hide_experience_bar: values[25],
            hide_menu: values[26],
            wasd_movement: values[27],
            increase_distance_skill: values[28],
            decrease_distance_skill: values[29],
            rotate_right_skill: values[30],
            rotate_left_skill: values[31],
            follow_runling_skill: values[32],
        }
    }

    /// Decodes a blob as an account record. A character outside the alphabet is
    /// refused, and so is a blob whose number the fields do not use up.
    pub fn from_data(data: String) -> (r: Result<Account, CodecError>)
        ensures
            r == Account::spec_from_data(data@),
            r matches Ok(record) ==> record.within_limits(),
    {
        match decode_fields(data, &ACCOUNT_MAXIMA) {
            Ok(values) => {
                proof {
                    lemma_pack_unpack(blob_number(data@), ACCOUNT_MAXIMA@);
                    lemma_account_from_fields(values@);
                }
                Ok(Account::from_fields(&values))
            },
            Err(e) => Err(e),
        }
    }

    /// Encodes the record as a blob. A record with a field above its maximum
    /// is refused.
    pub fn to_data(&self) -> (r: Result<String, CodecError>)
        ensures
            match r {
                Ok(blob) => self.within_limits() && self.spec_to_data() == Ok::<
                    Seq<char>,
                    CodecError,
                >(blob@),
                Err(e) => !self.within_limits() && e == CodecError::ValueOutOfRange
                    && self.spec_to_data() == Err::<Seq<char>, CodecError>(e),
            },
    {
        let values = self.to_fields();
        encode_fields(&values, &ACCOUNT_MAXIMA)
    }

    /// The checksum of the record. The sum must fit in a `usize`, as that of
    /// every record within its limits does.
    pub fn checksum(&self) -> (r: usize)
        requires
            self.spec_checksum() <= usize::MAX,
        ensures
            r == self.spec_checksum(),
    {
        self.normal_games
            + self.normal_wins
            + self.hard_games
            + self.hard_wins
            + self.total_saves
            + self.total_score
            + self.total_deaths
            + self.bot_2000_kills
            + self.odin_kills
            + self.diablo_kills
            + self.time_games
            + self.time_wins
            + self.minigame_high_score
            + self.time_high_score
    }

    /// The checksum as a wide integer, which holds it for every record.
    pub fn wide_checksum(&self) -> (r: u128)
        ensures
            r == self.spec_checksum(),
    {
        self.normal_games as u128
            + self.normal_wins as u128
            + self.hard_games as u128
            + self.hard_wins as u128
            + self.total_saves as u128
            + self.total_score as u128
            + self.total_deaths as u128
            + self.bot_2000_kills as u128
            + self.odin_kills as u128
            + self.diablo_kills as u128
            + self.time_games as u128
            + self.time_wins as u128
            + self.minigame_high_score as u128
            + self.time_high_score as u128
    }
}

/// The fields of the record made of 33 values are those values.
pub proof fn lemma_account_from_fields(values: Seq<usize>)
    requires
        values.len() == 33,
    ensures
        Account::spec_from_fields(values).fields() == values,
{
    assert(Account::spec_from_fields(values).fields() =~= values);
}

/// A record is made of its field values, and nothing else.
pub proof fn lemma_account_fields(record: Account)
    ensures
        record.fields().len() == 33,
        Account::spec_from_fields(record.fields()) == record,
{
}

/// Decoding what a record within its limits encodes to gives the record back.
pub proof fn lemma_account_round_trip(record: Account)
    requires
        record.within_limits(),
    ensures
        record.spec_to_data() is Ok,
        canonical_blob(record.spec_to_data()->Ok_0),
        Account::spec_from_data(record.spec_to_data()->Ok_0) == Ok::<Account, CodecError>(record),
{
    lemma_decode_encode(record.fields(), ACCOUNT_MAXIMA@);
    lemma_account_fields(record);
}

/// Encoding what a canonical blob decodes to gives the blob back.
pub proof fn lemma_account_blob_round_trip(blob: Seq<char>)
    requires
        canonical_blob(blob),
        Account::spec_from_data(blob) is Ok,
    ensures
        Account::spec_from_data(blob)->Ok_0.spec_to_data() == Ok::<Seq<char>, CodecError>(blob),
{
    lemma_encode_decode(blob, ACCOUNT_MAXIMA@);
    lemma_account_from_fields(spec_unpack(blob_number(blob), ACCOUNT_MAXIMA@));
}

/// The checksum of a record within its limits is at most 282200000.
pub proof fn lemma_account_checksum_bound(record: Account)
    requires
        record.within_limits(),
    ensures
        0 <= record.spec_checksum() <= 282200000,
{
    assert(record.fields()[0] <= ACCOUNT_MAXIMA@[0]);
    assert(record.fields()[1] <= ACCOUNT_MAXIMA@[1]);
    assert(record.fields()[2] <= ACCOUNT_MAXIMA@[2]);
    assert(record.fields()[3] <= ACCOUNT_MAXIMA@[3]);
    assert(record.fields()[4] <= ACCOUNT_MAXIMA@[4]);
    assert(record.fields()[5] <= ACCOUNT_MAXIMA@[5]);
    assert(record.fields()[6] <= ACCOUNT_MAXIMA@[6]);
    assert(record.fields()[7] <= ACCOUNT_MAXIMA@[7]);
    assert(record.fields()[8] <= ACCOUNT_MAXIMA@[8]);
    assert(record.fields()[9] <= ACCOUNT_MAXIMA@[9]);
    assert(record.fields()[13] <= ACCOUNT_MAXIMA@[13]);
    assert(record.fields()[14] <= ACCOUNT_MAXIMA@[14]);
    assert(record.fields()[15] <= ACCOUNT_MAXIMA@[15]);
    assert(record.fields()[16] <= ACCOUNT_MAXIMA@[16]);
}

/// The inclusive maximum of each field of a unit record, in the order in
/// which the fields are stored.
pub const RUNLING_MAXIMA: [usize; 9] = [
    runling_max_vals::CLASS,
    runling_max_vals::EXPERIENCE,
    runling_max_vals::ENERGY_REGENERATION,
    runling_max_vals::MAXIMUM_ENERGY,
    runling_max_vals::SPEED,
    runling_max_vals::SKILL_1_LEVEL,
    runling_max_vals::SKILL_2_LEVEL,
    runling_max_vals::RUNLING_LEVEL,
    runling_max_vals::REMAINING_POINTS,
];

/// One unit of a player: its class, its progress and its attributes.
#[derive(Debug, Clone, Copy, PartialEq, Eq, Structural)]
pub struct Runling {
    pub class: usize,
    pub experience: usize,
    pub energy_regeneration: usize,
    pub maximum_energy: usize,
    pub speed: usize,
    pub skill_1_level: usize,
    pub skill_2_level: usize,
    pub runling_level: usize,
    pub remaining_points: usize,
}

impl Runling {
    /// The field values in the order in which they are stored: the first is
    /// stored first and lies lowest, the last is taken off first.
    pub open spec fn fields(self) -> Seq<usize> {
        seq![
            self.class,
            self.experience,
            self.energy_regeneration,
            self.maximum_energy,
            self.speed,
            self.skill_1_level,
            self.skill_2_level,
            self.runling_level,
            self.remaining_points,
        ]
    }

    /// The record whose fields are the given values, in the order of `fields`.
    pub open spec fn spec_from_fields(values: Seq<usize>) -> Runling {
        Runling {
            class: values[0],
            experience: values[1],
            energy_regeneration: values[2],
            maximum_energy: values[3],
            speed: values[4],
            skill_1_level: values[5],
            skill_2_level: values[6],
            runling_level: values[7],
            remaining_points: values[8],
        }
    }

    /// No field is above its maximum.
    pub open spec fn within_limits(self) -> bool {
        within_maxima(self.fields(), RUNLING_MAXIMA@)
    }

    /// The outcome of decoding a blob as a unit record.
    pub open spec fn spec_from_data(blob: Seq<char>) -> Result<Runling, CodecError> {
        match spec_decode_fields(blob, RUNLING_MAXIMA@) {
            Ok(values) => Ok(Runling::spec_from_fields(values)),
            Err(e) => Err(e),
        }
    }

    /// The outcome of encoding the record as a blob.
    pub open spec fn spec_to_data(self) -> Result<Seq<char>, CodecError> {
        spec_encode_fields(self.fields(), RUNLING_MAXIMA@)
    }

    /// The sum of the fields that the checksum covers: every field but the
    /// class and the level.
    pub open spec fn spec_checksum(self) -> int {
        self.remaining_points
            + self.energy_regeneration
            + self.speed
            + self.maximum_energy
            + self.skill_1_level
            + self.skill_2_level
            + self.experience
    }

    /// The field values in the order of the table.
    fn to_fields(&self) -> (r: [usize; 9])
        ensures
            r@ == self.fields(),
    {
        let r = [
            self.class,
            self.experience,
            self.energy_regeneration,
            self.maximum_energy,
            self.speed,
            self.skill_1_level,
            self.skill_2_level,
            self.runling_level,
            self.remaining_points,
        ];
        assert(r@ =~= self.fields());
        r
    }

    /// The record made of the field values.
    fn from_fields(values: &Vec<usize>) -> (r: Runling)
        requires
            values@.len() == 9,
        ensures
            r == Runling::spec_from_fields(values@),
    {
        Runling {
            class: values[0],
            experience: values[1],
            energy_regeneration: values[2],
            maximum_energy: values[3],
            speed: values[4],
            skill_1_level: values[5],
            skill_2_level: values[6],
            runling_level: values[7],
            remaining_points: values[8],
        }
    }

    /// Decodes a blob as a unit record. A character outside the alphabet is
    /// refused, and so is a blob whose number the fields do not use up.
    pub fn from_data(data: String) -> (r: Result<Runling, CodecError>)
        ensures
            r == Runling::spec_from_data(data@),
            r matches Ok(record) ==> record.within_limits(),
    {
        match decode_fields(data, &RUNLING_MAXIMA) {
            Ok(values) => {
                proof {
                    lemma_pack_unpack(blob_number(data@), RUNLING_MAXIMA@);
                    lemma_runling_from_fields(values@);
                }
                Ok(Runling::from_fields(&values))
            },
            Err(e) => Err(e),
        }
    }

    /// Encodes the record as a blob. A record with a field above its maximum
    /// is refused.
    pub fn to_data(&self) -> (r: Result<String, CodecError>)
        ensures
            match r {
                Ok(blob) => self.within_limits() && self.spec_to_data() == Ok::<
                    Seq<char>,
                    CodecError,
                >(blob@),
                Err(e) => !self.within_limits() && e == CodecError::ValueOutOfRange
                    && self.spec_to_data() == Err::<Seq<char>, CodecError>(e),
            },
    {
        let values = self.to_fields();
        encode_fields(&values, &RUNLING_MAXIMA)
    }

    /// The checksum of the record. The sum must fit in a `usize`, as that of
    /// every record within its limits does.
    pub fn checksum(&self) -> (r: usize)
        requires
            self.spec_checksum() <= usize::MAX,
        ensures
            r == self.spec_checksum(),
    {
        self.remaining_points
            + self.energy_regeneration
            + self.speed
            + self.maximum_energy
            + self.skill_1_level
            + self.skill_2_level
            + self.experience
    }

    /// The checksum as a wide integer, which holds it for every record.
    pub fn wide_checksum(&self) -> (r: u128)
        ensures
            r == self.spec_checksum(),
    {
        self.remaining_points as u128
            + self.energy_regeneration as u128
            + self.speed as u128
            + self.maximum_energy as u128
            + self.skill_1_level as u128
            + self.skill_2_level as u128
            + self.experience as u128
    }
}

/// The fields of the record made of 9 values are those values.
pub proof fn lemma_runling_from_fields(values: Seq<usize>)
    requires
        values.len() == 9,
    ensures
        Runling::spec_from_fields(values).fields() == values,
{
    assert(Runling::spec_from_fields(values).fields() =~= values);
}

/// A record is made of its field values, and nothing else.
pub proof fn lemma_runling_fields(record: Runling)
    ensures
        record.fields().len() == 9,
        Runling::spec_from_fields(record.fields()) == record,
{
}

/// Decoding what a record within its limits encodes to gives the record back.
pub proof fn lemma_runling_round_trip(record: Runling)
    requires
        record.within_limits(),
    ensures
        record.spec_to_data() is Ok,
        canonical_blob(record.spec_to_data()->Ok_0),
        Runling::spec_from_data(record.spec_to_data()->Ok_0) == Ok::<Runling, CodecError>(record),
{
    lemma_decode_encode(record.fields(), RUNLING_MAXIMA@);
    lemma_runling_fields(record);
}

/// Encoding what a canonical blob decodes to gives the blob back.
pub proof fn lemma_runling_blob_round_trip(blob: Seq<char>)
    requires
        canonical_blob(blob),
        Runling::spec_from_data(blob) is Ok,
    ensures
        Runling::spec_from_data(blob)->Ok_0.spec_to_data() == Ok::<Seq<char>, CodecError>(blob),
{
    lemma_encode_decode(blob, RUNLING_MAXIMA@);
    lemma_runling_from_fields(spec_unpack(blob_number(blob), RUNLING_MAXIMA@));
}

/// The checksum of a record within its limits is at most 10180000.
pub proof fn lemma_runling_checksum_bound(record: Runling)
    requires
        record.within_limits(),
    ensures
        0 <= record.spec_checksum() <= 10180000,
{
    assert(record.fields()[1] <= RUNLING_MAXIMA@[1]);
    assert(record.fields()[2] <= RUNLING_MAXIMA@[2]);
    assert(record.fields()[3] <= RUNLING_MAXIMA@[3]);
    assert(record.fields()[4] <= RUNLING_MAXIMA@[4]);
    assert(record.fields()[5] <= RUNLING_MAXIMA@[5]);
    assert(record.fields()[6] <= RUNLING_MAXIMA@[6]);
    assert(record.fields()[8] <= RUNLING_MAXIMA@[8]);
}

/// The classes of unit that a player can choose.
#[derive(Debug, Clone, Copy, PartialEq, Eq, Structural)]
pub enum RunlingType {
    Zergling,
    Baneling,
    Hydralisk,
    Ultralisk,
    Roach,
}

impl RunlingType {
    /// The number of each class: the classes are counted from one.
    pub open spec fn spec_bank_data(self) -> usize {
        match self {
            RunlingType::Zergling => 1,
            RunlingType::Baneling => 2,
            RunlingType::Hydralisk => 3,
            RunlingType::Ultralisk => 4,
            RunlingType::Roach => 5,
        }
    }

    /// The number that stands for the class in a unit record.
    pub fn to_bank_data(&self) -> (r: usize)
        ensures
            r == self.spec_bank_data(),
            r <= runling_max_vals::CLASS,
    {
        match self {
            RunlingType::Zergling => 1,
            RunlingType::Baneling => 2,
            RunlingType::Hydralisk => 3,
            RunlingType::Ultralisk => 4,
            RunlingType::Roach => 5,
        }
    }
}

} // verus!
