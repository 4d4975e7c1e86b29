//! What holds of a bank and its container: reading the container into which
//! a bank was written gives the bank back.

use vstd::prelude::*;
use crate::bank::{
    entries, find_entry, spec_decode_units, spec_from_xml, spec_unit_entries, Bank, Key, XmlBank,
    ACCOUNT_SECTION, CAMERA_ENTRY, INFO_ENTRY, UNIT_SECTION, UNIT_SLOT_NAMES,
};
use crate::checksum::{
    lemma_derive_handle, spec_camera_checksum, spec_derive_handle, unit_count,
};
use crate::error::CodecError;
use crate::model::{lemma_account_round_trip, lemma_runling_round_trip, Account, Runling};

verus! {

/// The text of the first pair with the given name.
spec fn find_pair(pairs: Seq<(Seq<char>, Seq<char>)>, name: Seq<char>) -> Option<
    Seq<char>,
>
    decreases pairs.len(),
{
    if pairs.len() == 0 {
        None
    } else if pairs.first().0 == name {
        Some(pairs.first().1)
    } else {
        find_pair(pairs.drop_first(), name)
    }
}

/// Looking an entry up goes by the names and texts of the entries alone.
proof fn lemma_find_entry(keys: Seq<Key>, name: Seq<char>)
    ensures
        find_entry(keys, name) == find_pair(entries(keys), name),
    decreases keys.len(),
{
    if keys.len() > 0 {
        assert(entries(keys).first() == (keys.first().name@, keys.first().value.string@));
        assert(entries(keys).drop_first() =~= entries(keys.drop_first()));
        lemma_find_entry(keys.drop_first(), name);
    }
}

/// A pair at the end is found where no pair before it has the name.
proof fn lemma_find_pair_push(
    pairs: Seq<(Seq<char>, Seq<char>)>,
    last: (Seq<char>, Seq<char>),
    name: Seq<char>,
)
    ensures
        find_pair(pairs.push(last), name) == match find_pair(pairs, name) {
            Some(text) => Some(text),
            None => if last.0 == name {
                Some(last.1)
            } else {
                None
            },
        },
    decreases pairs.len(),
{
    let longer = pairs.push(last);
    if pairs.len() > 0 {
        assert(longer.first() == pairs.first());
        assert(longer.drop_first() =~= pairs.drop_first().push(last));
        lemma_find_pair_push(pairs.drop_first(), last, name);
    } else {
        assert(longer.first() == last);
        assert(longer.drop_first().len() == 0);
        assert(find_pair(longer.drop_first(), name) is None);
    }
}

/// The names of the slots differ from one another and from the name of
/// the entry that holds the record of a section.
proof fn lemma_slot_names()
    ensures
        UNIT_SLOT_NAMES@.len() == 8,
        forall|i: int, j: int|
            0 <= i < j < 8 ==> (#[trigger] UNIT_SLOT_NAMES@[i])@ != (
            #[trigger] UNIT_SLOT_NAMES@[j])@,
        forall|i: int| 0 <= i < 8 ==> (#[trigger] UNIT_SLOT_NAMES@[i])@ != INFO_ENTRY@,
{
    reveal_strlit("01");
    reveal_strlit("02");
    reveal_strlit("03");
    reveal_strlit("04");
    reveal_strlit("05");
    reveal_strlit("06");
    reveal_strlit("07");
    reveal_strlit("08");
    reveal_strlit("info");
    assert(UNIT_SLOT_NAMES@[0]@[1] == '1' && UNIT_SLOT_NAMES@[0]@.len() == 2);
    assert(UNIT_SLOT_NAMES@[1]@[1] == '2' && UNIT_SLOT_NAMES@[1]@.len() == 2);
    assert(UNIT_SLOT_NAMES@[2]@[1] == '3' && UNIT_SLOT_NAMES@[2]@.len() == 2);
    assert(UNIT_SLOT_NAMES@[3]@[1] == '4' && UNIT_SLOT_NAMES@[3]@.len() == 2);
    assert(UNIT_SLOT_NAMES@[4]@[1] == '5' && UNIT_SLOT_NAMES@[4]@.len() == 2);
    assert(UNIT_SLOT_NAMES@[5]@[1] == '6' && UNIT_SLOT_NAMES@[5]@.len() == 2);
    assert(UNIT_SLOT_NAMES@[6]@[1] == '7' && UNIT_SLOT_NAMES@[6]@.len() == 2);
    assert(UNIT_SLOT_NAMES@[7]@[1] == '8' && UNIT_SLOT_NAMES@[7]@.len() == 2);
    assert(INFO_ENTRY@.len() == 4);
}

/// The text that the entries of the unit section hold for a slot: the blob
/// of its unit, or nothing where the slot is empty.
spec fn slot_text(units: Seq<Option<Runling>>, j: int) -> Option<Seq<char>> {
    match units[j] {
        Some(unit) => Some(unit.spec_to_data()->Ok_0),
        None => None,
    }
}

/// The entries of the first `k` slots hold the text of each of these slots
/// under its name, and nothing under the name of a later slot.
proof fn lemma_unit_entries(units: Seq<Option<Runling>>, k: nat, j: int)
    requires
        units.len() == 8,
        k <= 8,
        0 <= j < 8,
    ensures
        find_pair(spec_unit_entries(units, k), UNIT_SLOT_NAMES@[j]@) == if j < k {
            slot_text(units, j)
        } else {
            None
        },
    decreases k,
{
    if k > 0 {
        let before = spec_unit_entries(units, (k - 1) as nat);
        lemma_unit_entries(units, (k - 1) as nat, j);
        lemma_slot_names();
        match units[k - 1] {
            Some(unit) => {
                let last = (UNIT_SLOT_NAMES@[k - 1]@, unit.spec_to_data()->Ok_0);
                lemma_find_pair_push(before, last, UNIT_SLOT_NAMES@[j]@);
                if j < k - 1 {
                    assert(UNIT_SLOT_NAMES@[j]@ != UNIT_SLOT_NAMES@[k - 1]@);
                } else if j > k - 1 {
                    assert(UNIT_SLOT_NAMES@[k - 1]@ != UNIT_SLOT_NAMES@[j]@);
                }
            },
            None => {},
        }
    }
}

/// The units come back from the entries of the unit section.
proof fn lemma_decode_unit_entries(units: Seq<Option<Runling>>, keys: Seq<Key>, k: nat)
    requires
        units.len() == 8,
        k <= 8,
        forall|i: int|
            0 <= i < 8 ==> (#[trigger] units[i] matches Some(unit) ==> unit.within_limits()),
        forall|j: int|
            0 <= j < 8 ==> find_entry(keys, #[trigger] UNIT_SLOT_NAMES@[j]@) == slot_text(
                units,
                j,
            ),
    ensures
        spec_decode_units(keys, k) == Ok::<Seq<Option<Runling>>, CodecError>(units.take(k as int)),
    decreases k,
{
    if k > 0 {
        lemma_decode_unit_entries(units, keys, (k - 1) as nat);
        assert(find_entry(keys, UNIT_SLOT_NAMES@[k - 1]@) == slot_text(units, k - 1));
        match units[k - 1] {
            Some(unit) => {
                lemma_runling_round_trip(unit);
            },
            None => {},
        }
        assert(units.take(k as int) =~= units.take(k - 1).push(units[k - 1]));
    } else {
        assert(units.take(0) =~= Seq::<Option<Runling>>::empty());
    }
}

/// The checksum blob of a bank that can be written.
spec fn camera_of(bank: Bank) -> Seq<char> {
    spec_camera_checksum(
        bank.account.spec_checksum(),
        bank.units@,
        bank.player_handle as int,
    )->Ok_0
}

/// The checksum blob and the account record are found in the entries of
/// the account section.
proof fn lemma_account_entries(bank: Bank, keys: Seq<Key>)
    requires
        entries(keys) == bank.spec_account_section(),
    ensures
        find_entry(keys, CAMERA_ENTRY@) == Some(camera_of(bank)),
        find_entry(keys, INFO_ENTRY@) == Some(bank.account.spec_to_data()->Ok_0),
{
    let pairs = bank.spec_account_section();
    reveal_strlit("camera");
    reveal_strlit("info");
    assert(CAMERA_ENTRY@ != INFO_ENTRY@) by {
        assert(CAMERA_ENTRY@.len() == 6);
        assert(INFO_ENTRY@.len() == 4);
    }
    lemma_find_entry(keys, CAMERA_ENTRY@);
    lemma_find_entry(keys, INFO_ENTRY@);
    assert(pairs.first() == pairs[0]);
    assert(pairs.drop_first().first() == pairs[1]);
    assert(find_pair(pairs.drop_first(), INFO_ENTRY@) == Some(pairs[1].1));
}

/// The text of each slot is found in the entries of the unit section.
proof fn lemma_unit_section_entries(bank: Bank, keys: Seq<Key>, j: int)
    requires
        entries(keys) == bank.spec_unit_section(),
        0 <= j < 8,
    ensures
        find_entry(keys, UNIT_SLOT_NAMES@[j]@) == slot_text(bank.units@, j),
{
    lemma_slot_names();
    lemma_find_entry(keys, UNIT_SLOT_NAMES@[j]@);
    lemma_unit_entries(bank.units@, 8, j);
    lemma_find_pair_push(
        spec_unit_entries(bank.units@, 8),
        bank.spec_unit_section().last(),
        UNIT_SLOT_NAMES@[j]@,
    );
}

/// The units come back from the unit section of the container.
proof fn lemma_units_come_back(bank: Bank, keys: Seq<Key>)
    requires
        bank.encodable(),
        entries(keys) == bank.spec_unit_section(),
    ensures
        spec_decode_units(keys, 8) == Ok::<Seq<Option<Runling>>, CodecError>(bank.units@),
{
    let units = bank.units@;
    assert forall|j: int| 0 <= j < 8 implies find_entry(keys, #[trigger] UNIT_SLOT_NAMES@[j]@)
        == slot_text(units, j) by {
        lemma_unit_section_entries(bank, keys, j);
    }
    lemma_decode_unit_entries(units, keys, 8);
    assert(units.take(8) =~= units);
}

/// What reading a container comes to once its parts are known.
proof fn lemma_from_xml_parts(
    xml: XmlBank,
    camera: Seq<char>,
    info: Seq<char>,
    units: Seq<Option<Runling>>,
    account: Account,
    handle: usize,
)
    requires
        xml.section.0.name@ == UNIT_SECTION@,
        xml.section.1.name@ == ACCOUNT_SECTION@,
        find_entry(xml.section.1.keys@, CAMERA_ENTRY@) == Some(camera),
        find_entry(xml.section.1.keys@, INFO_ENTRY@) == Some(info),
        Account::spec_from_data(info) == Ok::<Account, CodecError>(account),
        spec_decode_units(xml.section.0.keys@, 8) == Ok::<Seq<Option<Runling>>, CodecError>(
            units,
        ),
        spec_derive_handle(camera, units) == Ok::<usize, CodecError>(handle),
    ensures
        spec_from_xml(xml) == Ok::<(Seq<Option<Runling>>, Account, usize), CodecError>(
            (units, account, handle),
        ),
{
}

/// The two entries of the account section are found, and the account
/// comes back from its record.
proof fn lemma_account_comes_back(bank: Bank, xml: XmlBank)
    requires
        bank.encodable(),
        xml.holds(bank),
    ensures
        find_entry(xml.section.1.keys@, CAMERA_ENTRY@) == Some(camera_of(bank)),
        find_entry(xml.section.1.keys@, INFO_ENTRY@) == Some(bank.account.spec_to_data()->Ok_0),
        Account::spec_from_data(bank.account.spec_to_data()->Ok_0) == Ok::<Account, CodecError>(
            bank.account,
        ),
{
    lemma_account_entries(bank, xml.section.1.keys@);
    assert(bank.account.within_limits());
    lemma_account_round_trip(bank.account);
}

/// The handle comes back from the checksum blob.
proof fn lemma_handle_comes_back(bank: Bank)
    requires
        bank.encodable(),
        unit_count(bank.units@) >= 1,
    ensures
        spec_derive_handle(camera_of(bank), bank.units@) == Ok::<usize, CodecError>(
            bank.player_handle,
        ),
{
    lemma_derive_handle(bank.account.spec_checksum() as nat, bank.units@, bank.player_handle);
}

/// Reading the container into which a bank was written gives the bank
/// back, where at least one slot is occupied.
pub proof fn lemma_from_xml_from_bank(bank: Bank, xml: XmlBank)
    requires
        bank.encodable(),
        unit_count(bank.units@) >= 1,
        xml.holds(bank),
    ensures
        spec_from_xml(xml) == Ok::<(Seq<Option<Runling>>, Account, usize), CodecError>(
            (bank.units@, bank.account, bank.player_handle),
        ),
{
    lemma_account_comes_back(bank, xml);
    lemma_units_come_back(bank, xml.section.0.keys@);
    lemma_handle_comes_back(bank);
    lemma_from_xml_parts(
        xml,
        camera_of(bank),
        bank.account.spec_to_data()->Ok_0,
        bank.units@,
        bank.account,
        bank.player_handle,
    );
}

} // verus!
