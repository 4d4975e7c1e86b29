//! The checksums that tie a bank together: the checksum blob holds the
//! checksum of the account and the sum of the checksums of the units, into
//! which the handle of the player goes once for each unit. The handle is
//! stored nowhere else: it is found again by solving the blob for it.

use vstd::prelude::*;
use vstd::arithmetic::div_mod::lemma_fundamental_div_mod_converse;
use crate::bank::Bank;
use crate::error::CodecError;
use crate::model::Runling;
use crate::record::{
    blob_number, encode_fields, lemma_decode_encode, lemma_unpack_pack, spec_encode, spec_fill,
    spec_pack, within_maxima,
};
use crate::starcode::{
    decrypt, get_int, lemma_cipher_involution, lemma_store_then_get, lemma_uncompress_compress,
    over_alphabet, spec_compress, spec_store, spec_top, uncompress,
};

verus! {

/// The inclusive maximum of the account checksum in the checksum blob.
pub const ACCOUNT_CHECKSUM_MAX: usize = 99000000;

/// The inclusive maximum of the sum of the unit checksums in the checksum
/// blob.
pub const UNITS_CHECKSUM_MAX: usize = 98000000;

/// The maxima of the two fields of the checksum blob, in the order in which
/// they are stored.
pub const CAMERA_MAXIMA: [usize; 2] = [ACCOUNT_CHECKSUM_MAX, UNITS_CHECKSUM_MAX];

/// The number of occupied slots.
pub open spec fn unit_count(units: Seq<Option<Runling>>) -> nat
    decreases units.len(),
{
    if units.len() == 0 {
        0
    } else {
        unit_count(units.drop_last()) + if units.last() is Some {
            1nat
        } else {
            0nat
        }
    }
}

/// The sum of the checksums of the units in the occupied slots, where the
/// checksum of each unit has the handle added to it once.
pub open spec fn units_checksum(units: Seq<Option<Runling>>, handle: int) -> int
    decreases units.len(),
{
    if units.len() == 0 {
        0
    } else {
        units_checksum(units.drop_last(), handle) + match units.last() {
            Some(unit) => unit.spec_checksum() + handle,
            None => 0,
        }
    }
}

/// The outcome of making the checksum blob: the account checksum and the
/// sum of the unit checksums, each within its maximum, encoded as two
/// fields.
pub open spec fn spec_camera_checksum(
    account_checksum: int,
    units: Seq<Option<Runling>>,
    handle: int,
) -> Result<Seq<char>, CodecError> {
    if account_checksum > ACCOUNT_CHECKSUM_MAX || units_checksum(units, handle)
        > UNITS_CHECKSUM_MAX {
        Err(CodecError::ValueOutOfRange)
    } else {
        Ok(
            spec_encode(
                seq![account_checksum as usize, units_checksum(units, handle) as usize],
                CAMERA_MAXIMA@,
            ),
        )
    }
}

/// The outcome of solving the checksum blob for the handle: the sum of the
/// unit checksums that the blob holds, less the sum of the checksums of the
/// units without a handle, must be the handle once for each unit.
pub open spec fn spec_derive_handle(blob: Seq<char>, units: Seq<Option<Runling>>) -> Result<
    usize,
    CodecError,
> {
    let stored = spec_top(blob_number(blob), UNITS_CHECKSUM_MAX as int);
    let plain = units_checksum(units, 0);
    let count = unit_count(units) as int;
    if !over_alphabet(blob) {
        Err(CodecError::InvalidCharacter)
    } else if count == 0 || stored < plain || (stored - plain) % count != 0 {
        Err(CodecError::InconsistentChecksum)
    } else {
        Ok(((stored - plain) / count) as usize)
    }
}

/// The handle adds to the sum once for each occupied slot.
pub proof fn lemma_units_checksum_handle(units: Seq<Option<Runling>>, handle: int)
    ensures
        units_checksum(units, handle) == units_checksum(units, 0) + unit_count(units) * handle,
        unit_count(units) <= units.len(),
    decreases units.len(),
{
    if units.len() > 0 {
        let before = unit_count(units.drop_last()) as int;
        lemma_units_checksum_handle(units.drop_last(), handle);
        assert((before + 1) * handle == before * handle + handle) by (nonlinear_arith);
    } else {
        assert(0 * handle == 0) by (nonlinear_arith);
    }
}

/// The sum of the unit checksums with the handle, and the number of
/// occupied slots.
fn units_sum(units: &[Option<Runling>; 8], handle: usize) -> (r: (u128, usize))
    ensures
        r.0 == units_checksum(units@, handle as int),
        r.1 == unit_count(units@),
        r.1 <= 8,
{
    let mut sum: u128 = 0;
    let mut count: usize = 0;
    let mut i: usize = 0;
    assert(units@.take(0) =~= Seq::<Option<Runling>>::empty());
    while i < 8
        invariant
            i <= 8,
            units@.len() == 8,
            sum == units_checksum(units@.take(i as int), handle as int),
            count == unit_count(units@.take(i as int)),
            count <= i,
            sum <= i * 8 * 0x1_0000_0000_0000_0000,
        decreases 8 - i,
    {
        proof {
            let next = units@.take(i + 1);
            assert(next.drop_last() =~= units@.take(i as int));
            assert(next.last() == units@[i as int]);
        }
        match &units[i] {
            Some(unit) => {
                sum = sum + unit.wide_checksum() + handle as u128;
                count = count + 1;
            },
            None => {},
        }
        i += 1;
    }
    assert(units@.take(8) =~= units@);
    (sum, count)
}

/// Solves the checksum blob for the handle of the player, given the units
/// that the blob was made for.
pub fn derive_player_handle(checksum: String, runlings: &[Option<Runling>; 8]) -> (r: Result<
    usize,
    CodecError,
>)
    ensures
        r == spec_derive_handle(checksum@, runlings@),
{
    let text = match decrypt(checksum) {
        Ok(text) => text,
        Err(e) => {
            return Err(e);
        },
    };
    proof {
        lemma_cipher_involution(checksum@);
    }
    let mut data = match uncompress(text) {
        Ok(number) => number,
        Err(_) => vstd::pervasive::unreached(),
    };
    let stored = get_int(&mut data, UNITS_CHECKSUM_MAX) as u128;
    let (plain, count) = units_sum(runlings, 0);
    if count == 0 || stored < plain {
        return Err(CodecError::InconsistentChecksum);
    }
    let difference = stored - plain;
    if difference % (count as u128) != 0 {
        return Err(CodecError::InconsistentChecksum);
    }
    Ok((difference / (count as u128)) as usize)
}

impl Bank {
    /// The checksum blob: the account checksum and the sum of the unit
    /// checksums, into which the handle goes once for each unit. A sum
    /// above its maximum is refused.
    pub fn generate_camera_checksum(&self) -> (r: Result<String, CodecError>)
        ensures
            match r {
                Ok(blob) => spec_camera_checksum(
                    self.account.spec_checksum(),
                    self.units@,
                    self.player_handle as int,
                ) == Ok::<Seq<char>, CodecError>(blob@),
                Err(e) => spec_camera_checksum(
                    self.account.spec_checksum(),
                    self.units@,
                    self.player_handle as int,
                ) == Err::<Seq<char>, CodecError>(e),
            },
    {
        let account_checksum = self.account.wide_checksum();
        let (units_checksum, _) = units_sum(&self.units, self.player_handle);
        if account_checksum > ACCOUNT_CHECKSUM_MAX as u128 || units_checksum
            > UNITS_CHECKSUM_MAX as u128 {
            return Err(CodecError::ValueOutOfRange);
        }
        let values = [account_checksum as usize, units_checksum as usize];
        assert(values@ =~= seq![account_checksum as usize, units_checksum as usize]);
        match encode_fields(&values, &CAMERA_MAXIMA) {
            Ok(blob) => Ok(blob),
            Err(_) => vstd::pervasive::unreached(),
        }
    }
}

/// Solving the checksum blob that was made for the units and a handle
/// gives that handle, where at least one slot is occupied.
pub proof fn lemma_derive_handle(
    account_checksum: nat,
    units: Seq<Option<Runling>>,
    handle: usize,
)
    requires
        unit_count(units) >= 1,
        spec_camera_checksum(account_checksum as int, units, handle as int) is Ok,
    ensures
        spec_derive_handle(
            spec_camera_checksum(account_checksum as int, units, handle as int)->Ok_0,
            units,
        ) == Ok::<usize, CodecError>(handle),
{
    let total = units_checksum(units, handle as int);
    let plain = units_checksum(units, 0);
    let count = unit_count(units) as int;
    let values = seq![account_checksum as usize, total as usize];
    let blob = spec_encode(values, CAMERA_MAXIMA@);
    lemma_units_checksum_bounds(units);
    lemma_units_checksum_handle(units, handle as int);
    assert(count * handle >= 0) by (nonlinear_arith)
        requires
            count >= 1,
            handle >= 0,
    ;
    assert(within_maxima(values, CAMERA_MAXIMA@));
    lemma_decode_encode(values, CAMERA_MAXIMA@);
    assert(blob_number(blob) == spec_pack(values, CAMERA_MAXIMA@)) by {
        lemma_unpack_pack(values, CAMERA_MAXIMA@);
        lemma_uncompress_compress(spec_pack(values, CAMERA_MAXIMA@) as nat);
        lemma_cipher_involution(
            spec_compress(spec_pack(values, CAMERA_MAXIMA@) as nat),
        );
    }
    assert(spec_pack(values, CAMERA_MAXIMA@) == spec_store(
        spec_fill(0, values, CAMERA_MAXIMA@, 1),
        total,
        UNITS_CHECKSUM_MAX as int,
    ));
    lemma_store_then_get(
        spec_fill(0, values, CAMERA_MAXIMA@, 1),
        total,
        UNITS_CHECKSUM_MAX as int,
    );
    lemma_fundamental_div_mod_converse(count * handle, count, handle as int, 0);
    assert(handle * count == count * handle) by (nonlinear_arith);
}

/// The sum of the unit checksums without a handle is not negative.
pub proof fn lemma_units_checksum_bounds(units: Seq<Option<Runling>>)
    ensures
        units_checksum(units, 0) >= 0,
    decreases units.len(),
{
    if units.len() > 0 {
        lemma_units_checksum_bounds(units.drop_last());
    }
}

} // verus!
