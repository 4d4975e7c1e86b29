use runling_bank::bank::{Bank, Key, Section, Signature, Value, XmlBank, UNIT_SLOT_MAXIMA};
use runling_bank::checksum::{derive_player_handle, CAMERA_MAXIMA};
use runling_bank::error::CodecError;
use runling_bank::model::{Account, Runling};
use runling_bank::record::{decode_fields, encode_fields};

fn first_runling() -> Runling {
    Runling {
        class: 1,
        experience: 663,
        energy_regeneration: 11,
        maximum_energy: 16,
        speed: 17,
        skill_1_level: 4,
        skill_2_level: 0,
        runling_level: 15,
        remaining_points: 0,
    }
}

fn second_runling() -> Runling {
    Runling {
        class: 3,
        experience: 1200,
        energy_regeneration: 2,
        maximum_energy: 5,
        speed: 9,
        skill_1_level: 1,
        skill_2_level: 1,
        runling_level: 20,
        remaining_points: 7,
    }
}

fn empty_account() -> Account {
    Account {
        normal_games: 0,
        normal_wins: 0,
        hard_games: 0,
        hard_wins: 0,
        total_saves: 0,
        total_score: 0,
        total_deaths: 0,
        bot_2000_kills: 0,
        odin_kills: 0,
        diablo_kills: 0,
        insane_games: 0,
        insane_wins: 0,
        blank_3_placeholder: 0,
        time_games: 0,
        time_wins: 0,
        minigame_high_score: 0,
        time_high_score: 0,
        camera_distance: 0,
        camera_rotation: 0,
        camera_angle: 0,
        camera_follow: 0,
        hide_tips: 0,
        hide_hud: 0,
        hide_minimap: 0,
        hide_energy_bar: 0,
        hide_experience_bar: 0,
        hide_menu: 0,
        wasd_movement: 0,
        increase_distance_skill: 0,
        decrease_distance_skill: 0,
        rotate_right_skill: 0,
        rotate_left_skill: 0,
        follow_runling_skill: 0,
    }
}

fn sample_account() -> Account {
    let mut account = empty_account();
    account.normal_games = 3;
    account.total_saves = 37;
    account.total_score = 818;
    account.total_deaths = 81;
    account.bot_2000_kills = 2;
    account.camera_distance = 72;
    account.camera_rotation = 90;
    account.camera_angle = 73;
    account.follow_runling_skill = 1;
    account
}

fn sample_bank() -> Bank {
    Bank {
        units: [Some(first_runling()), None, Some(second_runling()), None, None, None, None, None],
        account: sample_account(),
        player_handle: 1234567,
    }
}

fn key(name: &str, text: &str) -> Key {
    Key { name: name.to_string(), value: Value { string: text.to_string() } }
}

fn names_and_texts(section: &Section) -> Vec<(String, String)> {
    section.keys.iter().map(|k| (k.name.clone(), k.value.string.clone())).collect()
}

const FIRST_BLOB: &str = "/Uni.I^uVUgUsr::M3I~IeI0";
const SECOND_BLOB: &str = " Xox{Vlj4a_qwtCD,-novP3p";
const ACCOUNT_BLOB: &str = "Yp%55toeLRL4qIf)IMZI|QV5(s5$B?s@U2K)*BE{~m6mDXG3%EXE6;p8!)A}FO}.+!j[";
const CAMERA_BLOB: &str = ":T5db7";
const SLOTS_BLOB: &str = "/#Y=hp-AJb";
const STAMP: &str = "198E0CA2737582AAC70B1994F5DC8506D8A7767B";

#[test]
fn camera_checksum_holds_both_sums() {
    let bank = sample_bank();
    assert_eq!(bank.generate_camera_checksum(), Ok(CAMERA_BLOB.to_string()));
    assert_eq!(
        decode_fields(CAMERA_BLOB.to_string(), &CAMERA_MAXIMA),
        Ok(vec![941, 711 + 1225 + 2 * 1234567])
    );
}

#[test]
fn camera_checksum_of_one_unit_adds_the_handle_once() {
    let mut bank = sample_bank();
    bank.units[2] = None;
    assert_eq!(bank.generate_camera_checksum(), Ok(":T4za?".to_string()));
    assert_eq!(
        decode_fields(":T4za?".to_string(), &CAMERA_MAXIMA),
        Ok(vec![941, 711 + 1234567])
    );
}

#[test]
fn camera_checksum_of_no_unit_holds_no_handle() {
    let mut bank = sample_bank();
    bank.units = [None; 8];
    let blob = bank.generate_camera_checksum().unwrap();
    assert_eq!(decode_fields(blob, &CAMERA_MAXIMA), Ok(vec![941, 0]));
}

#[test]
fn camera_checksum_refuses_a_sum_above_its_maximum() {
    let mut bank = sample_bank();
    bank.player_handle = 49_000_000;
    assert_eq!(bank.generate_camera_checksum(), Err(CodecError::ValueOutOfRange));
    bank.player_handle = (98_000_000 - 711 - 1225) / 2;
    assert!(bank.generate_camera_checksum().is_ok());
    bank.player_handle += 1;
    assert_eq!(bank.generate_camera_checksum(), Err(CodecError::ValueOutOfRange));

    let mut bank = sample_bank();
    bank.account.total_deaths = 96_000_000;
    bank.account.total_score = 3_000_000 - 941 + 818 + 81;
    assert!(bank.generate_camera_checksum().is_ok());
    bank.account.total_score += 1;
    assert_eq!(bank.generate_camera_checksum(), Err(CodecError::ValueOutOfRange));
    bank.account.total_score = usize::MAX;
    bank.account.total_saves = usize::MAX;
    assert_eq!(bank.generate_camera_checksum(), Err(CodecError::ValueOutOfRange));
}

#[test]
fn handle_comes_back_from_the_checksum_blob() {
    let bank = sample_bank();
    let blob = bank.generate_camera_checksum().unwrap();
    assert_eq!(derive_player_handle(blob, &bank.units), Ok(1234567));
    assert_eq!(derive_player_handle(CAMERA_BLOB.to_string(), &bank.units), Ok(1234567));
}

#[test]
fn handle_comes_back_for_one_to_eight_units() {
    for count in 1..=8usize {
        for handle in [0usize, 1, 5, 417073, 9_000_000] {
            let mut units: [Option<Runling>; 8] = [None; 8];
            for slot in 0..count {
                let mut unit = first_runling();
                unit.experience = 100 * slot;
                units[7 - slot] = Some(unit);
            }
            let bank = Bank { units, account: sample_account(), player_handle: handle };
            let blob = bank.generate_camera_checksum().unwrap();
            assert_eq!(derive_player_handle(blob, &bank.units), Ok(handle));
        }
    }
}

#[test]
fn handle_of_eight_equal_units() {
    let units = [Some(first_runling()); 8];
    let bank = Bank { units, account: empty_account(), player_handle: 5 };
    assert_eq!(bank.generate_camera_checksum(), Ok("xG".to_string()));
    assert_eq!(derive_player_handle("xG".to_string(), &units), Ok(5));
}

#[test]
fn handle_that_does_not_divide_is_refused() {
    let units =
        [Some(first_runling()), Some(second_runling()), None, None, None, None, None, None];
    let blob = encode_fields(&[0, 711 + 1225 + 1], &CAMERA_MAXIMA).unwrap();
    assert_eq!(blob, "*+");
    assert_eq!(derive_player_handle(blob, &units), Err(CodecError::InconsistentChecksum));
    let blob = encode_fields(&[0, 711 + 1225 + 2], &CAMERA_MAXIMA).unwrap();
    assert_eq!(derive_player_handle(blob, &units), Ok(1));
}

#[test]
fn handle_below_zero_is_refused() {
    let units = [Some(first_runling()), None, None, None, None, None, None, None];
    assert_eq!(
        derive_player_handle("$".to_string(), &units),
        Err(CodecError::InconsistentChecksum)
    );
    let blob = encode_fields(&[0, 710], &CAMERA_MAXIMA).unwrap();
    assert_eq!(derive_player_handle(blob, &units), Err(CodecError::InconsistentChecksum));
    let blob = encode_fields(&[0, 711], &CAMERA_MAXIMA).unwrap();
    assert_eq!(derive_player_handle(blob, &units), Ok(0));
}

#[test]
fn handle_without_units_is_refused() {
    let units: [Option<Runling>; 8] = [None; 8];
    assert_eq!(
        derive_player_handle(CAMERA_BLOB.to_string(), &units),
        Err(CodecError::InconsistentChecksum)
    );
    assert_eq!(
        derive_player_handle(String::new(), &units),
        Err(CodecError::InconsistentChecksum)
    );
}

#[test]
fn handle_from_a_blob_outside_the_alphabet_is_refused() {
    let units = [Some(first_runling()), None, None, None, None, None, None, None];
    assert_eq!(
        derive_player_handle(":T5d\nb7".to_string(), &units),
        Err(CodecError::InvalidCharacter)
    );
}

#[test]
fn unit_slots_data_flags_the_occupied_slots() {
    let bank = sample_bank();
    assert_eq!(bank.generate_unit_slots_data(), SLOTS_BLOB);
    assert_eq!(
        decode_fields(SLOTS_BLOB.to_string(), &UNIT_SLOT_MAXIMA),
        Ok(vec![1, 0, 1, 0, 0, 0, 0, 0])
    );
    let mut bank = sample_bank();
    bank.units = [None; 8];
    assert_eq!(bank.generate_unit_slots_data(), "");
    bank.units = [Some(first_runling()); 8];
    assert_eq!(
        decode_fields(bank.generate_unit_slots_data(), &UNIT_SLOT_MAXIMA),
        Ok(vec![1; 8])
    );
}

#[test]
fn container_of_a_bank_holds_its_blobs_and_its_stamp() {
    let xml = XmlBank::from_bank(&sample_bank()).unwrap();
    assert_eq!(xml.version, 1);
    assert_eq!(xml.section.0.name, "unit");
    assert_eq!(
        names_and_texts(&xml.section.0),
        vec![
            ("01".to_string(), FIRST_BLOB.to_string()),
            ("03".to_string(), SECOND_BLOB.to_string()),
            ("info".to_string(), SLOTS_BLOB.to_string()),
        ]
    );
    assert_eq!(xml.section.1.name, "account");
    assert_eq!(
        names_and_texts(&xml.section.1),
        vec![
            ("camera".to_string(), CAMERA_BLOB.to_string()),
            ("info".to_string(), ACCOUNT_BLOB.to_string()),
        ]
    );
    assert_eq!(xml.signature.value, STAMP);
}

#[test]
fn container_of_a_bank_out_of_range_is_refused() {
    let mut bank = sample_bank();
    bank.account.camera_angle = 1003;
    assert_eq!(XmlBank::from_bank(&bank).err(), Some(CodecError::ValueOutOfRange));
    let mut bank = sample_bank();
    bank.units[7] = Some(Runling { speed: 340001, ..first_runling() });
    assert_eq!(XmlBank::from_bank(&bank).err(), Some(CodecError::ValueOutOfRange));
    let mut bank = sample_bank();
    bank.player_handle = 98_000_000;
    assert_eq!(XmlBank::from_bank(&bank).err(), Some(CodecError::ValueOutOfRange));
}

#[test]
fn bank_comes_back_from_its_container() {
    let xml = XmlBank::from_bank(&sample_bank()).unwrap();
    let bank = Bank::from_xml(&xml).unwrap();
    assert_eq!(bank.units, sample_bank().units);
    assert_eq!(bank.account, sample_account());
    assert_eq!(bank.player_handle, 1234567);
}

#[test]
fn bank_comes_back_whichever_slots_are_occupied() {
    for pattern in 1..256usize {
        let mut units: [Option<Runling>; 8] = [None; 8];
        for slot in 0..8 {
            if pattern & (1 << slot) != 0 {
                units[slot] = Some(Runling { runling_level: slot, ..second_runling() });
            }
        }
        let bank = Bank { units, account: sample_account(), player_handle: 417 + pattern };
        let read = Bank::from_xml(&XmlBank::from_bank(&bank).unwrap()).unwrap();
        assert_eq!(read.units, bank.units);
        assert_eq!(read.account, bank.account);
        assert_eq!(read.player_handle, bank.player_handle);
    }
}

#[test]
fn bank_is_read_whatever_the_order_of_sections_and_entries() {
    let xml = XmlBank {
        version: 1,
        section: (
            Section {
                name: "account".to_string(),
                keys: vec![key("info", ACCOUNT_BLOB), key("other", "x"), key("camera", CAMERA_BLOB)],
            },
            Section {
                name: "unit".to_string(),
                keys: vec![
                    key("info", SLOTS_BLOB),
                    key("03", SECOND_BLOB),
                    key("09", "\n"),
                    key("01", FIRST_BLOB),
                ],
            },
        ),
        signature: Signature { value: String::new() },
    };
    let bank = Bank::from_xml(&xml).unwrap();
    assert_eq!(bank.units, sample_bank().units);
    assert_eq!(bank.account, sample_account());
    assert_eq!(bank.player_handle, 1234567);
}

#[test]
fn bank_takes_the_first_of_two_entries_with_one_name() {
    let xml = XmlBank {
        version: 1,
        section: (
            Section {
                name: "unit".to_string(),
                keys: vec![key("01", FIRST_BLOB), key("01", "\n"), key("03", SECOND_BLOB)],
            },
            Section {
                name: "account".to_string(),
                keys: vec![
                    key("camera", CAMERA_BLOB),
                    key("info", ACCOUNT_BLOB),
                    key("camera", "0"),
                    key("info", "\n"),
                ],
            },
        ),
        signature: Signature { value: String::new() },
    };
    let bank = Bank::from_xml(&xml).unwrap();
    assert_eq!(bank.units, sample_bank().units);
    assert_eq!(bank.player_handle, 1234567);
}

fn container(unit_name: &str, account_name: &str, unit: Vec<Key>, account: Vec<Key>) -> XmlBank {
    XmlBank {
        version: 1,
        section: (
            Section { name: unit_name.to_string(), keys: unit },
            Section { name: account_name.to_string(), keys: account },
        ),
        signature: Signature { value: String::new() },
    }
}

#[test]
fn bank_without_a_section_or_an_entry_is_refused() {
    let unit = vec![key("01", FIRST_BLOB), key("03", SECOND_BLOB)];
    let account = vec![key("camera", CAMERA_BLOB), key("info", ACCOUNT_BLOB)];
    assert!(Bank::from_xml(&container("unit", "account", unit.clone(), account.clone())).is_ok());
    assert_eq!(
        Bank::from_xml(&container("units", "account", unit.clone(), account.clone())).err(),
        Some(CodecError::MissingEntry)
    );
    assert_eq!(
        Bank::from_xml(&container("unit", "Account", unit.clone(), account.clone())).err(),
        Some(CodecError::MissingEntry)
    );
    assert_eq!(
        Bank::from_xml(&container("unit", "unit", unit.clone(), account.clone())).err(),
        Some(CodecError::MissingEntry)
    );
    assert_eq!(
        Bank::from_xml(&container("account", "account", unit.clone(), account.clone())).err(),
        Some(CodecError::MissingEntry)
    );
    assert_eq!(
        Bank::from_xml(&container("unit", "account", unit.clone(), vec![key("info", ACCOUNT_BLOB)]))
            .err(),
        Some(CodecError::MissingEntry)
    );
    assert_eq!(
        Bank::from_xml(&container("unit", "account", unit.clone(), vec![key("camera", CAMERA_BLOB)]))
            .err(),
        Some(CodecError::MissingEntry)
    );
}

#[test]
fn bank_with_a_blob_that_does_not_decode_is_refused() {
    let unit = vec![key("01", FIRST_BLOB), key("03", SECOND_BLOB)];
    let account = vec![key("camera", CAMERA_BLOB), key("info", ACCOUNT_BLOB)];
    assert_eq!(
        Bank::from_xml(&container(
            "unit",
            "account",
            unit.clone(),
            vec![key("camera", CAMERA_BLOB), key("info", "\n")]
        ))
        .err(),
        Some(CodecError::InvalidCharacter)
    );
    assert_eq!(
        Bank::from_xml(&container(
            "unit",
            "account",
            vec![key("01", FIRST_BLOB), key("03", ACCOUNT_BLOB)],
            account.clone()
        ))
        .err(),
        Some(CodecError::SchemaMismatch)
    );
    assert_eq!(
        Bank::from_xml(&container(
            "unit",
            "account",
            unit.clone(),
            vec![key("camera", "*+"), key("info", ACCOUNT_BLOB)]
        ))
        .err(),
        Some(CodecError::InconsistentChecksum)
    );
    assert_eq!(
        Bank::from_xml(&container("unit", "account", vec![], account.clone())).err(),
        Some(CodecError::InconsistentChecksum)
    );
    assert_eq!(
        Bank::from_xml(&container(
            "unit",
            "account",
            unit.clone(),
            vec![key("camera", "\t"), key("info", ACCOUNT_BLOB)]
        ))
        .err(),
        Some(CodecError::InvalidCharacter)
    );
}

#[test]
fn bank_file_text_has_the_declaration_and_ends_its_last_line() {
    assert_eq!(
        XmlBank::to_correctly_formatted_bank("<Bank version=\"1\"/>"),
        "<?xml version=\"1.0\" encoding=\"utf-8\"?>\n<Bank version=\"1\"/>\n"
    );
    assert_eq!(
        XmlBank::to_correctly_formatted_bank(""),
        "<?xml version=\"1.0\" encoding=\"utf-8\"?>\n\n"
    );
}
