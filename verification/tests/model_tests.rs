use num::BigUint;
use runling_bank::error::CodecError;
use runling_bank::model::{Account, Runling, RunlingType, ACCOUNT_MAXIMA, RUNLING_MAXIMA};
use runling_bank::natural::Natural;
use runling_bank::record::{decode_fields, encode_fields, pack_fields, unpack_fields};
use runling_bank::starcode::{compress, encrypt, store_int};

const RUNLING_BLOB: &str = "/Uni.I^uVUgUsr::M3I~IeI0";
const ACCOUNT_BLOB: &str = "Yp%55toeLRL4qIf)IMZI|QV5(s5$B?s@U2K)*BE{~m6mDXG3%EXE6;p8!)A}FO}.+!j[";

fn natural(n: u64) -> Natural {
    Natural { digits: BigUint::from(n).to_bytes_le() }
}

fn value(n: &Natural) -> BigUint {
    BigUint::from_bytes_le(&n.digits)
}

fn sample_runling() -> Runling {
    Runling {
        class: 1,
        experience: 663,
        energy_regeneration: 11,
        maximum_energy: 16,
        speed: 17,
        skill_1_level: 4,
        skill_2_level: 0,
        runling_level: 15,
        remaining_points: 0,
    }
}

fn sample_account() -> Account {
    Account {
        normal_games: 3,
        normal_wins: 0,
        hard_games: 0,
        hard_wins: 0,
        total_saves: 37,
        total_score: 818,
        total_deaths: 81,
        bot_2000_kills: 2,
        odin_kills: 0,
        diablo_kills: 0,
        insane_games: 0,
        insane_wins: 0,
        blank_3_placeholder: 0,
        time_games: 0,
        time_wins: 0,
        minigame_high_score: 0,
        time_high_score: 0,
        camera_distance: 72,
        camera_rotation: 90,
        camera_angle: 73,
        camera_follow: 0,
        hide_tips: 0,
        hide_hud: 0,
        hide_minimap: 0,
        hide_energy_bar: 0,
        hide_experience_bar: 0,
        hide_menu: 0,
        wasd_movement: 0,
        increase_distance_skill: 0,
        decrease_distance_skill: 0,
        rotate_right_skill: 0,
        rotate_left_skill: 0,
        follow_runling_skill: 1,
    }
}

fn largest_runling() -> Runling {
    Runling {
        class: 300000,
        experience: 8100000,
        energy_regeneration: 320000,
        maximum_energy: 330000,
        speed: 340000,
        skill_1_level: 350000,
        skill_2_level: 360000,
        runling_level: 370000,
        remaining_points: 380000,
    }
}

#[test]
fn runling_test() {
    let encoded_runling = RUNLING_BLOB.to_string();
    let decoded_runling = Runling::from_data(encoded_runling.clone()).unwrap();
    let runling = Runling {
        class: 1,
        experience: 663,
        energy_regeneration: 11,
        maximum_energy: 16,
        speed: 17,
        skill_1_level: 4,
        skill_2_level: 0,
        runling_level: 15,
        remaining_points: 0,
    };

    assert_eq!(decoded_runling, runling);
    assert_eq!(runling.to_data().unwrap(), encoded_runling);
}

#[test]
fn account_test() {
    let encoded_account = ACCOUNT_BLOB.to_string();
    let decoded_account = Account::from_data(encoded_account.clone()).unwrap();
    let account = Account {
        normal_games: 3,
        normal_wins: 0,
        hard_games: 0,
        hard_wins: 0,
        total_saves: 37,
        total_score: 818,
        total_deaths: 81,
        bot_2000_kills: 2,
        odin_kills: 0,
        diablo_kills: 0,
        insane_games: 0,
        insane_wins: 0,
        blank_3_placeholder: 0,
        time_games: 0,
        time_wins: 0,
        minigame_high_score: 0,
        time_high_score: 0,
        camera_distance: 72,
        camera_rotation: 90,
        camera_angle: 73,
        camera_follow: 0,
        hide_tips: 0,
        hide_hud: 0,
        hide_minimap: 0,
        hide_energy_bar: 0,
        hide_experience_bar: 0,
        hide_menu: 0,
        wasd_movement: 0,
        increase_distance_skill: 0,
        decrease_distance_skill: 0,
        rotate_right_skill: 0,
        rotate_left_skill: 0,
        follow_runling_skill: 1,
    };

    assert_eq!(decoded_account, account);
    assert_eq!(account.to_data().unwrap(), encoded_account);
}

#[test]
fn tables_hold_the_maxima_in_field_order() {
    assert_eq!(RUNLING_MAXIMA.len(), 9);
    assert_eq!(RUNLING_MAXIMA[0], 300000);
    assert_eq!(RUNLING_MAXIMA[1], 8100000);
    assert_eq!(RUNLING_MAXIMA[8], 380000);
    assert_eq!(ACCOUNT_MAXIMA.len(), 33);
    assert_eq!(ACCOUNT_MAXIMA[0], 190000);
    assert_eq!(ACCOUNT_MAXIMA[4], 90300000);
    assert_eq!(ACCOUNT_MAXIMA[17], 1000);
    assert_eq!(ACCOUNT_MAXIMA[27], 1010);
    assert_eq!(ACCOUNT_MAXIMA[28], 10);
    assert_eq!(ACCOUNT_MAXIMA[32], 14);
}

#[test]
fn every_field_keeps_its_own_place() {
    let runling = Runling {
        class: 1,
        experience: 2,
        energy_regeneration: 3,
        maximum_energy: 4,
        speed: 5,
        skill_1_level: 6,
        skill_2_level: 7,
        runling_level: 8,
        remaining_points: 9,
    };
    let blob = runling.to_data().unwrap();
    assert_eq!(decode_fields(blob.clone(), &RUNLING_MAXIMA), Ok(vec![1, 2, 3, 4, 5, 6, 7, 8, 9]));
    assert_eq!(Runling::from_data(blob), Ok(runling));

    let values: Vec<usize> = (0..33).map(|i| (i % 10) as usize).collect();
    let blob = encode_fields(&values, &ACCOUNT_MAXIMA).unwrap();
    let account = Account::from_data(blob.clone()).unwrap();
    assert_eq!(account.normal_games, 0);
    assert_eq!(account.normal_wins, 1);
    assert_eq!(account.total_saves, 4);
    assert_eq!(account.time_high_score, 6);
    assert_eq!(account.camera_distance, 7);
    assert_eq!(account.wasd_movement, 7);
    assert_eq!(account.increase_distance_skill, 8);
    assert_eq!(account.rotate_left_skill, 1);
    assert_eq!(account.follow_runling_skill, 2);
    assert_eq!(account.to_data(), Ok(blob));
}

#[test]
fn record_at_its_maxima_is_encoded_and_comes_back() {
    let runling = largest_runling();
    let blob = runling.to_data().unwrap();
    assert_eq!(Runling::from_data(blob), Ok(runling));

    let blob = encode_fields(&ACCOUNT_MAXIMA, &ACCOUNT_MAXIMA).unwrap();
    let account = Account::from_data(blob.clone()).unwrap();
    assert_eq!(account.normal_games, 190000);
    assert_eq!(account.total_deaths, 96000000);
    assert_eq!(account.follow_runling_skill, 14);
    assert_eq!(account.to_data(), Ok(blob));
}

#[test]
fn field_above_its_maximum_is_refused() {
    let mut runling = largest_runling();
    runling.experience = 8100001;
    assert_eq!(runling.to_data(), Err(CodecError::ValueOutOfRange));
    let mut runling = largest_runling();
    runling.class = 300001;
    assert_eq!(runling.to_data(), Err(CodecError::ValueOutOfRange));
    let mut runling = largest_runling();
    runling.remaining_points = 380001;
    assert_eq!(runling.to_data(), Err(CodecError::ValueOutOfRange));

    let mut account = sample_account();
    account.follow_runling_skill = 14;
    assert!(account.to_data().is_ok());
    account.follow_runling_skill = 15;
    assert_eq!(account.to_data(), Err(CodecError::ValueOutOfRange));
    let mut account = sample_account();
    account.camera_distance = 1000;
    assert!(account.to_data().is_ok());
    account.camera_distance = 1001;
    assert_eq!(account.to_data(), Err(CodecError::ValueOutOfRange));
    let mut account = sample_account();
    account.normal_games = usize::MAX;
    assert_eq!(account.to_data(), Err(CodecError::ValueOutOfRange));
}

#[test]
fn blob_with_a_character_outside_the_alphabet_is_refused() {
    assert_eq!(
        Runling::from_data("/Uni.I^uVUgUsr::M3I~IeI\n".to_string()),
        Err(CodecError::InvalidCharacter)
    );
    assert_eq!(Account::from_data("\"".to_string()), Err(CodecError::InvalidCharacter));
}

#[test]
fn blob_that_the_fields_do_not_use_up_is_refused() {
    assert_eq!(
        Runling::from_data("Zr{q:ayA%@NANOLXunKhsu(;^#k".to_string()),
        Err(CodecError::SchemaMismatch)
    );
    let mut number = natural(1);
    for (field, max) in [1usize, 663, 11, 16, 17, 4, 0, 15, 0].iter().zip(RUNLING_MAXIMA.iter()) {
        store_int(&mut number, *field, *max).unwrap();
    }
    let blob = encrypt(compress(number)).unwrap();
    assert_eq!(blob, "Zr{q:ayA%@NANOLXunKhsu(;^#k");
    assert_eq!(Runling::from_data(ACCOUNT_BLOB.to_string()), Err(CodecError::SchemaMismatch));
}

#[test]
fn empty_blob_is_the_record_of_zeros() {
    let runling = Runling::from_data(String::new()).unwrap();
    assert_eq!(
        runling,
        Runling {
            class: 0,
            experience: 0,
            energy_regeneration: 0,
            maximum_energy: 0,
            speed: 0,
            skill_1_level: 0,
            skill_2_level: 0,
            runling_level: 0,
            remaining_points: 0,
        }
    );
    assert_eq!(runling.to_data(), Ok(String::new()));
}

#[test]
fn checksum_adds_the_covered_fields() {
    assert_eq!(sample_runling().checksum(), 711);
    assert_eq!(sample_runling().wide_checksum(), 711);
    assert_eq!(largest_runling().checksum(), 10180000);
    assert_eq!(sample_account().checksum(), 941);
    assert_eq!(sample_account().wide_checksum(), 941);
    let mut account = sample_account();
    account.insane_games = 5;
    account.insane_wins = 6;
    account.blank_3_placeholder = 7;
    account.camera_follow = 8;
    account.hide_menu = 9;
    assert_eq!(account.checksum(), 941);
    account.time_high_score = 10;
    account.odin_kills = 20;
    assert_eq!(account.checksum(), 971);
    let mut runling = sample_runling();
    runling.class = 5;
    runling.runling_level = 99;
    assert_eq!(runling.checksum(), 711);
    runling.wide_checksum();
    runling.experience = usize::MAX;
    assert_eq!(runling.wide_checksum(), usize::MAX as u128 + 48);
}

#[test]
fn runling_type_has_its_number() {
    assert_eq!(RunlingType::Zergling.to_bank_data(), 1);
    assert_eq!(RunlingType::Baneling.to_bank_data(), 2);
    assert_eq!(RunlingType::Hydralisk.to_bank_data(), 3);
    assert_eq!(RunlingType::Ultralisk.to_bank_data(), 4);
    assert_eq!(RunlingType::Roach.to_bank_data(), 5);
}

#[test]
fn pack_stores_the_first_field_first() {
    assert_eq!(value(&pack_fields(&[5, 3], &[9, 7]).unwrap()), BigUint::from(43u32));
    assert_eq!(value(&pack_fields(&[], &[]).unwrap()), BigUint::from(0u32));
    assert_eq!(unpack_fields(natural(43), &[9, 7]), Ok(vec![5, 3]));
    assert_eq!(unpack_fields(natural(0), &[]), Ok(vec![]));
    assert_eq!(unpack_fields(Natural { digits: Vec::new() }, &[9, 7]), Ok(vec![0, 0]));
    assert_eq!(encode_fields(&[5, 3], &[9, 7]), Ok("c".to_string()));
    assert_eq!(decode_fields("c".to_string(), &[9, 7]), Ok(vec![5, 3]));
}

#[test]
fn pack_and_unpack_refuse_what_does_not_fit() {
    assert_eq!(pack_fields(&[5, 8], &[9, 7]).err(), Some(CodecError::ValueOutOfRange));
    assert_eq!(pack_fields(&[5], &[9, 7]).err(), Some(CodecError::SchemaMismatch));
    assert_eq!(encode_fields(&[10, 3], &[9, 7]), Err(CodecError::ValueOutOfRange));
    assert_eq!(encode_fields(&[1, 2, 3], &[9, 7]), Err(CodecError::SchemaMismatch));
    assert_eq!(unpack_fields(natural(80), &[9, 7]), Err(CodecError::SchemaMismatch));
    assert_eq!(unpack_fields(natural(79), &[9, 7]), Ok(vec![9, 7]));
    assert_eq!(unpack_fields(natural(1), &[]), Err(CodecError::SchemaMismatch));
    assert_eq!(decode_fields("\n".to_string(), &[9, 7]), Err(CodecError::InvalidCharacter));
}
