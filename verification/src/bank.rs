//! A bank in its two forms: as it is edited, with its units, its account
//! and the handle of its player, and as its container holds it, in two
//! sections of named text entries under a stamp.

use vstd::prelude::*;
use vstd::string::StringExecFns;
use crate::checksum::{derive_player_handle, spec_camera_checksum, spec_derive_handle};
use crate::error::CodecError;
use crate::model::{Account, Runling};
use crate::record::{encode_fields, spec_encode};
use crate::signature::{compute_signature, spec_signature};

verus! {

/// The text of one entry.
#[derive(Debug, Clone)]
pub struct Value {
    pub string: String,
}

/// One named entry of a section.
#[derive(Debug, Clone)]
pub struct Key {
    pub name: String,
    pub value: Value,
}

/// A named list of entries.
#[derive(Debug, Clone)]
pub struct Section {
    pub name: String,
    pub keys: Vec<Key>,
}

/// The authenticity stamp of a bank.
#[derive(Debug)]
pub struct Signature {
    pub value: String,
}

/// A bank as its container holds it: two sections of text entries and the
/// stamp over them.
#[derive(Debug)]
pub struct XmlBank {
    pub version: usize,
    pub section: (Section, Section),
    pub signature: Signature,
}

/// A bank as it is edited: the eight unit slots, the account, and the
/// handle of the player.
#[derive(Debug)]
pub struct Bank {
    pub units: [Option<Runling>; 8],
    pub account: Account,
    pub player_handle: usize,
}

/// The maxima of the eight occupancy flags, in the order of the slots.
pub const UNIT_SLOT_MAXIMA: [usize; 8] = [425, 426, 427, 428, 429, 430, 431, 432];

/// The occupancy flag of each slot: one for an occupied slot, zero for an
/// empty one.
pub open spec fn slot_flags(units: Seq<Option<Runling>>) -> Seq<usize> {
    Seq::new(
        units.len(),
        |i: int|
            if units[i] is Some {
                1usize
            } else {
                0usize
            },
    )
}

/// The names of the entries of the eight slots, in the order of the slots.
pub const UNIT_SLOT_NAMES: [&'static str; 8] = ["01", "02", "03", "04", "05", "06", "07", "08"];

/// The name of the section of the units.
pub const UNIT_SECTION: &'static str = "unit";

/// The name of the section of the account.
pub const ACCOUNT_SECTION: &'static str = "account";

/// The name of the entry that holds the checksum blob.
pub const CAMERA_ENTRY: &'static str = "camera";

/// The name of the entry that holds the record of a section.
pub const INFO_ENTRY: &'static str = "info";

/// The entries as pairs of a name and a text.
pub open spec fn entries(keys: Seq<Key>) -> Seq<(Seq<char>, Seq<char>)> {
    Seq::new(keys.len(), |i: int| (keys[i].name@, keys[i].value.string@))
}

/// The text of the first entry with the given name.
pub open spec fn find_entry(keys: Seq<Key>, name: Seq<char>) -> Option<Seq<char>>
    decreases keys.len(),
{
    if keys.len() == 0 {
        None
    } else if keys.first().name@ == name {
        Some(keys.first().value.string@)
    } else {
        find_entry(keys.drop_first(), name)
    }
}

/// The first entry with the given name.
fn find_key<'a>(keys: &'a Vec<Key>, name: &str) -> (r: Option<&'a Key>)
    ensures
        match r {
            Some(key) => find_entry(keys@, name@) == Some(key.value.string@),
            None => find_entry(keys@, name@) is None,
        },
{
    let wanted = String::from_str(name);
    let mut i: usize = 0;
    assert(keys@.skip(0) =~= keys@);
    while i < keys.len()
        invariant
            i <= keys@.len(),
            wanted@ == name@,
            find_entry(keys@, name@) == find_entry(keys@.skip(i as int), name@),
        decreases keys@.len() - i,
    {
        if keys[i].name == wanted {
            return Some(&keys[i]);
        }
        assert(keys@.skip(i as int).drop_first() =~= keys@.skip(i + 1));
        i += 1;
    }
    None
}

/// The outcome of decoding the units of the first `k` slots from the
/// entries of the unit section. A slot without an entry is empty.
pub open spec fn spec_decode_units(keys: Seq<Key>, k: nat) -> Result<
    Seq<Option<Runling>>,
    CodecError,
>
    decreases k,
{
    if k == 0 {
        Ok(Seq::empty())
    } else {
        match spec_decode_units(keys, (k - 1) as nat) {
            Err(e) => Err(e),
            Ok(before) => match find_entry(keys, UNIT_SLOT_NAMES@[k - 1]@) {
                None => Ok(before.push(None)),
                Some(blob) => match Runling::spec_from_data(blob) {
                    Ok(unit) => Ok(before.push(Some(unit))),
                    Err(e) => Err(e),
                },
            },
        }
    }
}

/// The outcome of reading a bank from its container, as the units, the
/// account and the handle. The two sections may stand in either order. A
/// section or an entry that is not there is refused, then what the
/// account record, the unit records and the checksum blob refuse, in this
/// order.
pub open spec fn spec_from_xml(xml: XmlBank) -> Result<
    (Seq<Option<Runling>>, Account, usize),
    CodecError,
> {
    let swapped = xml.section.0.name@ != UNIT_SECTION@;
    let unit_section = if swapped {
        xml.section.1
    } else {
        xml.section.0
    };
    let account_section = if swapped {
        xml.section.0
    } else {
        xml.section.1
    };
    if unit_section.name@ != UNIT_SECTION@ || account_section.name@ != ACCOUNT_SECTION@ {
        Err(CodecError::MissingEntry)
    } else {
        match (
            find_entry(account_section.keys@, CAMERA_ENTRY@),
            find_entry(account_section.keys@, INFO_ENTRY@),
        ) {
            (Some(camera), Some(info)) => match Account::spec_from_data(info) {
                Err(e) => Err(e),
                Ok(account) => match spec_decode_units(unit_section.keys@, 8) {
                    Err(e) => Err(e),
                    Ok(units) => match spec_derive_handle(camera, units) {
                        Err(e) => Err(e),
                        Ok(handle) => Ok((units, account, handle)),
                    },
                },
            },
            _ => Err(CodecError::MissingEntry),
        }
    }
}

/// The entries of the occupied ones among the first `k` slots: the name of
/// the slot and the blob of its unit.
pub open spec fn spec_unit_entries(units: Seq<Option<Runling>>, k: nat) -> Seq<
    (Seq<char>, Seq<char>),
>
    decreases k,
{
    if k == 0 {
        Seq::empty()
    } else {
        let before = spec_unit_entries(units, (k - 1) as nat);
        match units[k - 1] {
            Some(unit) => before.push((UNIT_SLOT_NAMES@[k - 1]@, unit.spec_to_data()->Ok_0)),
            None => before,
        }
    }
}

/// Decodes the unit of each slot that has an entry in the unit section.
fn decode_units(keys: &Vec<Key>) -> (r: Result<[Option<Runling>; 8], CodecError>)
    ensures
        match r {
            Ok(units) => spec_decode_units(keys@, 8) == Ok::<Seq<Option<Runling>>, CodecError>(
                units@,
            ),
            Err(e) => spec_decode_units(keys@, 8) == Err::<Seq<Option<Runling>>, CodecError>(e),
        },
{
    let mut units: [Option<Runling>; 8] = [None, None, None, None, None, None, None, None];
    let mut runling_index: usize = 0;
    assert(units@.take(0) =~= Seq::<Option<Runling>>::empty());
    while runling_index < 8
        invariant
            runling_index <= 8,
            spec_decode_units(keys@, runling_index as nat) == Ok::<
                Seq<Option<Runling>>,
                CodecError,
            >(units@.take(runling_index as int)),
        decreases 8 - runling_index,
    {
        let ghost before = units@;
        match find_key(keys, UNIT_SLOT_NAMES[runling_index]) {
            Some(runling_info) => {
                match Runling::from_data(runling_info.value.string.clone()) {
                    Ok(unit) => {
                        units[runling_index] = Some(unit);
                    },
                    Err(e) => {
                        proof {
                            lemma_decode_units_fails(keys@, (runling_index + 1) as nat, 8);
                        }
                        return Err(e);
                    },
                }
            },
            None => {
                units[runling_index] = None;
            },
        }
        assert(units@.take(runling_index + 1) =~= before.take(runling_index as int).push(
            units@[runling_index as int],
        ));
        runling_index += 1;
    }
    assert(units@.take(8) =~= units@);
    Ok(units)
}

/// Once the decoding of the units has failed at a slot, it fails in the
/// same way for every later slot.
proof fn lemma_decode_units_fails(keys: Seq<Key>, k: nat, n: nat)
    requires
        k <= n,
        spec_decode_units(keys, k) is Err,
    ensures
        spec_decode_units(keys, n) == spec_decode_units(keys, k),
    decreases n,
{
    if k < n {
        lemma_decode_units_fails(keys, k, (n - 1) as nat);
    }
}

impl Bank {
    /// The blob that says which slots are occupied.
    pub fn generate_unit_slots_data(&self) -> (r: String)
        ensures
            r@ == spec_encode(slot_flags(self.units@), UNIT_SLOT_MAXIMA@),
    {
        let mut values: [usize; 8] = [0, 0, 0, 0, 0, 0, 0, 0];
        let mut unit_index: usize = 0;
        while unit_index < 8
            invariant
                unit_index <= 8,
                self.units@.len() == 8,
                forall|k: int| 0 <= k < unit_index ==> values@[k] == slot_flags(self.units@)[k],
            decreases 8 - unit_index,
        {
            let val: usize = if self.units[unit_index].is_some() {
                1
            } else {
                0
            };
            values[unit_index] = val;
            unit_index += 1;
        }
        assert(values@ =~= slot_flags(self.units@));
        match encode_fields(&values, &UNIT_SLOT_MAXIMA) {
            Ok(blob) => blob,
            Err(_) => vstd::pervasive::unreached(),
        }
    }

    /// Every record of the bank is within its limits, and so are the two
    /// sums of the checksum blob.
    pub open spec fn encodable(self) -> bool {
        &&& self.account.within_limits()
        &&& forall|i: int|
            0 <= i < self.units@.len() ==> (#[trigger] self.units@[i] matches Some(unit)
                ==> unit.within_limits())
        &&& spec_camera_checksum(
            self.account.spec_checksum(),
            self.units@,
            self.player_handle as int,
        ) is Ok
    }

    /// The entries of the unit section: one for each occupied slot, then
    /// the occupancy blob.
    pub open spec fn spec_unit_section(self) -> Seq<(Seq<char>, Seq<char>)> {
        spec_unit_entries(self.units@, 8).push(
            (INFO_ENTRY@, spec_encode(slot_flags(self.units@), UNIT_SLOT_MAXIMA@)),
        )
    }

    /// The entries of the account section: the checksum blob, then the
    /// account record.
    pub open spec fn spec_account_section(self) -> Seq<(Seq<char>, Seq<char>)> {
        seq![
            (
                CAMERA_ENTRY@,
                spec_camera_checksum(
                    self.account.spec_checksum(),
                    self.units@,
                    self.player_handle as int,
                )->Ok_0,
            ),
            (INFO_ENTRY@, self.account.spec_to_data()->Ok_0),
        ]
    }

    /// Reads a bank from its container and solves its checksum blob for
    /// the handle.
    pub fn from_xml(value: &XmlBank) -> (r: Result<Bank, CodecError>)
        ensures
            match r {
                Ok(bank) => spec_from_xml(*value) == Ok::<
                    (Seq<Option<Runling>>, Account, usize),
                    CodecError,
                >((bank.units@, bank.account, bank.player_handle)),
                Err(e) => spec_from_xml(*value) == Err::<
                    (Seq<Option<Runling>>, Account, usize),
                    CodecError,
                >(e),
            },
    {
        let unit_name = String::from_str(UNIT_SECTION);
        let account_name = String::from_str(ACCOUNT_SECTION);
        let (unit_section, account_section) = if value.section.0.name == unit_name {
            (&value.section.0, &value.section.1)
        } else {
            (&value.section.1, &value.section.0)
        };
        if unit_section.name != unit_name || account_section.name != account_name {
            return Err(CodecError::MissingEntry);
        }
        let checksum = match find_key(&account_section.keys, CAMERA_ENTRY) {
            Some(key) => key.value.string.clone(),
            None => {
                return Err(CodecError::MissingEntry);
            },
        };
        let account_info = match find_key(&account_section.keys, INFO_ENTRY) {
            Some(key) => key.value.string.clone(),
            None => {
                return Err(CodecError::MissingEntry);
            },
        };
        let account = match Account::from_data(account_info) {
            Ok(account) => account,
            Err(e) => {
                return Err(e);
            },
        };
        let units = match decode_units(&unit_section.keys) {
            Ok(units) => units,
            Err(e) => {
                return Err(e);
            },
        };
        let player_handle = match derive_player_handle(checksum, &units) {
            Ok(handle) => handle,
            Err(e) => {
                return Err(e);
            },
        };
        Ok(Bank { units, account, player_handle })
    }
}

/// The line that stands at the head of a bank file.
pub const XML_DECLARATION: &'static str = "<?xml version=\"1.0\" encoding=\"utf-8\"?>";

/// The end of a line.
pub const LINE_END: &'static str = "\n";

impl XmlBank {
    /// The container holds the bank: the unit section and the account
    /// section stand in this order, each with its name and its entries.
    pub open spec fn holds(self, bank: Bank) -> bool {
        &&& self.section.0.name@ == UNIT_SECTION@
        &&& entries(self.section.0.keys@) == bank.spec_unit_section()
        &&& self.section.1.name@ == ACCOUNT_SECTION@
        &&& entries(self.section.1.keys@) == bank.spec_account_section()
    }

    /// The text of a bank file for the container as it was serialised: the
    /// declaration on a line of its own, then the container and the end of
    /// its last line.
    pub fn to_correctly_formatted_bank(serialized: &str) -> (r: String)
        ensures
            r@ == XML_DECLARATION@ + LINE_END@ + serialized@ + LINE_END@,
    {
        let mut text = String::from_str(XML_DECLARATION);
        text.append(LINE_END);
        text.append(serialized);
        text.append(LINE_END);
        text
    }

    /// Writes a bank into its container: the unit section, the account
    /// section, and the stamp over the two. A bank with a record or a sum
    /// above its maximum is refused.
    pub fn from_bank(value: &Bank) -> (r: Result<XmlBank, CodecError>)
        ensures
            match r {
                Ok(xml) => {
                    &&& value.encodable()
                    &&& xml.version == 1
                    &&& xml.holds(*value)
                    &&& xml.signature.value@ == spec_signature(
                        value.player_handle,
                        seq![xml.section.0, xml.section.1],
                    )
                },
                Err(e) => e == CodecError::ValueOutOfRange && !value.encodable(),
            },
    {
        let mut unit_keys: Vec<Key> = Vec::new();
        let mut unit_index: usize = 0;
        while unit_index < 8
            invariant
                unit_index <= 8,
                value.units@.len() == 8,
                entries(unit_keys@) == spec_unit_entries(value.units@, unit_index as nat),
                forall|i: int|
                    0 <= i < unit_index ==> (#[trigger] value.units@[i] matches Some(unit)
                        ==> unit.within_limits()),
            decreases 8 - unit_index,
        {
            let ghost before = unit_keys@;
            match &value.units[unit_index] {
                Some(unit) => {
                    let unit_string = match unit.to_data() {
                        Ok(blob) => blob,
                        Err(e) => {
                            return Err(e);
                        },
                    };
                    unit_keys.push(
                        Key {
                            name: String::from_str(UNIT_SLOT_NAMES[unit_index]),
                            value: Value { string: unit_string },
                        },
                    );
                    assert(entries(unit_keys@) =~= entries(before).push(
                        (UNIT_SLOT_NAMES@[unit_index as int]@, unit.spec_to_data()->Ok_0),
                    ));
                },
                None => {},
            }
            unit_index += 1;
        }
        let ghost before = unit_keys@;
        unit_keys.push(
            Key {
                name: String::from_str(INFO_ENTRY),
                value: Value { string: value.generate_unit_slots_data() },
            },
        );
        assert(entries(unit_keys@) =~= entries(before).push(
            (INFO_ENTRY@, spec_encode(slot_flags(value.units@), UNIT_SLOT_MAXIMA@)),
        ));
        let unit_section = Section { name: String::from_str(UNIT_SECTION), keys: unit_keys };

        let account_info = match value.account.to_data() {
            Ok(blob) => blob,
            Err(e) => {
                return Err(e);
            },
        };
        let account_camera = match value.generate_camera_checksum() {
            Ok(blob) => blob,
            Err(e) => {
                return Err(e);
            },
        };
        let mut account_keys: Vec<Key> = Vec::new();
        account_keys.push(
            Key { name: String::from_str(CAMERA_ENTRY), value: Value { string: account_camera } },
        );
        account_keys.push(
            Key { name: String::from_str(INFO_ENTRY), value: Value { string: account_info } },
        );
        assert(entries(account_keys@) =~= value.spec_account_section());
        let account_section = Section {
            name: String::from_str(ACCOUNT_SECTION),
            keys: account_keys,
        };

        let mut sections: Vec<Section> = Vec::new();
        sections.push(unit_section);
        sections.push(account_section);
        let signature = Signature {
            value: compute_signature(value.player_handle, sections.as_slice()),
        };
        assert(sections@ =~= seq![sections@[0], sections@[1]]);
        let account_section = match sections.pop() {
            Some(section) => section,
            None => vstd::pervasive::unreached(),
        };
        let unit_section = match sections.pop() {
            Some(section) => section,
            None => vstd::pervasive::unreached(),
        };
        Ok(XmlBank { version: 1, section: (unit_section, account_section), signature })
    }
}

} // verus!
