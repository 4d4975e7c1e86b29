//! Records as lists of fields: every field has an inclusive maximum, the
//! fields of a record are packed into one number in the order of their
//! table, and the number is written as an encrypted numeral, the blob.

use vstd::prelude::*;
use vstd::arithmetic::div_mod::lemma_mod_bound;
use crate::error::CodecError;
use crate::natural::{natural_from_usize, natural_is_zero, Natural};
use crate::starcode::{
    alphabet, compress, decrypt, digit_of, encrypt, get_int, lemma_cipher_involution,
    lemma_compress_uncompress, lemma_digit_of_position, lemma_get_then_store,
    lemma_store_then_get, lemma_uncompress_compress, over_alphabet, spec_below, spec_compress,
    spec_decrypt, spec_encrypt, spec_store, spec_top, spec_uncompress, store_int, uncompress,
    BASE,
};

verus! {

/// There is one value for each maximum, and no value is above its maximum.
pub open spec fn within_maxima(values: Seq<usize>, maxima: Seq<usize>) -> bool {
    &&& values.len() == maxima.len()
    &&& forall|i: int| 0 <= i < values.len() ==> values[i] <= maxima[i]
}

/// The accumulator after the first `k` fields have been stored on `acc`,
/// the first field first.
pub open spec fn spec_fill(acc: int, values: Seq<usize>, maxima: Seq<usize>, k: nat) -> int
    decreases k,
{
    if k == 0 {
        acc
    } else {
        spec_store(
            spec_fill(acc, values, maxima, (k - 1) as nat),
            values[k - 1] as int,
            maxima[k - 1] as int,
        )
    }
}

/// The number that holds all the fields: they are stored on zero, the
/// first field first, so that the last field lies on top.
pub open spec fn spec_pack(values: Seq<usize>, maxima: Seq<usize>) -> int {
    spec_fill(0, values, maxima, values.len())
}

/// The accumulator after the last `k` fields have been taken off `acc`,
/// the last field first.
pub open spec fn spec_drain(acc: int, maxima: Seq<usize>, k: nat) -> int
    decreases k,
{
    if k == 0 {
        acc
    } else {
        spec_below(spec_drain(acc, maxima, (k - 1) as nat), maxima[maxima.len() - k] as int)
    }
}

/// The field values that `acc` holds under the maxima, in the order of the
/// maxima: each is what lies on top once the fields after it are gone.
pub open spec fn spec_unpack(acc: int, maxima: Seq<usize>) -> Seq<usize> {
    Seq::new(
        maxima.len(),
        |i: int|
            spec_top(spec_drain(acc, maxima, (maxima.len() - 1 - i) as nat), maxima[i] as int)
                as usize,
    )
}

/// What is left of `acc` when every field has been taken off.
pub open spec fn spec_leftover(acc: int, maxima: Seq<usize>) -> int {
    spec_drain(acc, maxima, maxima.len())
}

/// Filling an accumulator that is not negative leaves it not negative.
proof fn lemma_fill_bounds(acc: int, values: Seq<usize>, maxima: Seq<usize>, k: nat)
    requires
        acc >= 0,
        k <= values.len(),
        k <= maxima.len(),
    ensures
        spec_fill(acc, values, maxima, k) >= 0,
    decreases k,
{
    if k > 0 {
        lemma_fill_bounds(acc, values, maxima, (k - 1) as nat);
        let below = spec_fill(acc, values, maxima, (k - 1) as nat);
        assert(below * (maxima[k - 1] + 1) >= 0) by (nonlinear_arith)
            requires
                below >= 0,
                maxima[k - 1] + 1 > 0,
        ;
    }
}

/// Taking the last `k` fields off a filled accumulator leaves the
/// accumulator as it was when only the fields before them had been stored.
proof fn lemma_drain_fill(acc: int, values: Seq<usize>, maxima: Seq<usize>, k: nat)
    requires
        within_maxima(values, maxima),
        k <= values.len(),
    ensures
        spec_drain(spec_fill(acc, values, maxima, values.len()), maxima, k) == spec_fill(
            acc,
            values,
            maxima,
            (values.len() - k) as nat,
        ),
    decreases k,
{
    if k > 0 {
        lemma_drain_fill(acc, values, maxima, (k - 1) as nat);
        let j = values.len() - k;
        lemma_store_then_get(
            spec_fill(acc, values, maxima, j as nat),
            values[j] as int,
            maxima[j] as int,
        );
    }
}

/// Storing the first `k` unpacked fields on what is left of `acc` gives
/// `acc` with the fields after them taken off.
proof fn lemma_fill_drain(acc: int, maxima: Seq<usize>, k: nat)
    requires
        k <= maxima.len(),
    ensures
        spec_fill(spec_leftover(acc, maxima), spec_unpack(acc, maxima), maxima, k) == spec_drain(
            acc,
            maxima,
            (maxima.len() - k) as nat,
        ),
    decreases k,
{
    if k > 0 {
        lemma_fill_drain(acc, maxima, (k - 1) as nat);
        let above = spec_drain(acc, maxima, (maxima.len() - k) as nat);
        lemma_get_then_store(above, maxima[k - 1] as int);
        assert(spec_drain(acc, maxima, (maxima.len() - k + 1) as nat) == spec_below(
            above,
            maxima[k - 1] as int,
        ));
    }
}

/// Packing and then unpacking under the same maxima gives every field
/// value back and leaves nothing over.
pub proof fn lemma_unpack_pack(values: Seq<usize>, maxima: Seq<usize>)
    requires
        within_maxima(values, maxima),
    ensures
        spec_pack(values, maxima) >= 0,
        spec_unpack(spec_pack(values, maxima), maxima) == values,
        spec_leftover(spec_pack(values, maxima), maxima) == 0,
{
    let packed = spec_pack(values, maxima);
    lemma_fill_bounds(0, values, maxima, values.len());
    lemma_drain_fill(0, values, maxima, values.len());
    assert forall|i: int| 0 <= i < values.len() implies spec_unpack(packed, maxima)[i]
        == values[i] by {
        lemma_drain_fill(0, values, maxima, (values.len() - 1 - i) as nat);
        lemma_store_then_get(
            spec_fill(0, values, maxima, i as nat),
            values[i] as int,
            maxima[i] as int,
        );
    }
    assert(spec_unpack(packed, maxima) =~= values);
}

/// The unpacked fields keep to their maxima, and where unpacking leaves
/// nothing over, packing them again gives the number back.
pub proof fn lemma_pack_unpack(acc: int, maxima: Seq<usize>)
    ensures
        within_maxima(spec_unpack(acc, maxima), maxima),
        spec_leftover(acc, maxima) == 0 ==> spec_pack(spec_unpack(acc, maxima), maxima) == acc,
{
    assert forall|i: int| 0 <= i < maxima.len() implies spec_unpack(acc, maxima)[i]
        <= maxima[i] by {
        lemma_mod_bound(
            spec_drain(acc, maxima, (maxima.len() - 1 - i) as nat),
            maxima[i] + 1,
        );
    }
    lemma_fill_drain(acc, maxima, maxima.len());
}

/// Packs the field values under their maxima into one number. A value
/// above its maximum is refused, and so is a list of values that is not as
/// long as the list of maxima.
pub fn pack_fields(values: &[usize], maxima: &[usize]) -> (r: Result<Natural, CodecError>)
    ensures
        match r {
            Ok(number) => within_maxima(values@, maxima@) && number@ == spec_pack(
                values@,
                maxima@,
            ),
            Err(e) => if values@.len() != maxima@.len() {
                e == CodecError::SchemaMismatch
            } else {
                e == CodecError::ValueOutOfRange && !within_maxima(values@, maxima@)
            },
        },
{
    if values.len() != maxima.len() {
        return Err(CodecError::SchemaMismatch);
    }
    let mut data = natural_from_usize(0);
    let mut i: usize = 0;
    while i < values.len()
        invariant
            i <= values@.len(),
            values@.len() == maxima@.len(),
            forall|k: int| 0 <= k < i ==> values@[k] <= maxima@[k],
            data@ == spec_fill(0, values@, maxima@, i as nat),
        decreases values@.len() - i,
    {
        match store_int(&mut data, values[i], maxima[i]) {
            Ok(_) => {},
            Err(e) => {
                return Err(e);
            },
        }
        i += 1;
    }
    Ok(data)
}

/// Unpacks the field values that a number holds under the maxima. A number
/// that is not used up by the fields is refused.
pub fn unpack_fields(number: Natural, maxima: &[usize]) -> (r: Result<Vec<usize>, CodecError>)
    ensures
        match r {
            Ok(values) => spec_leftover(number@ as int, maxima@) == 0 && values@ == spec_unpack(
                number@ as int,
                maxima@,
            ),
            Err(e) => e == CodecError::SchemaMismatch && spec_leftover(number@ as int, maxima@)
                != 0,
        },
{
    let ghost start = number@ as int;
    let mut data = number;
    let mut values: Vec<usize> = Vec::new();
    let mut i: usize = maxima.len();
    while i > 0
        invariant
            i <= maxima@.len(),
            data@ == spec_drain(start, maxima@, (maxima@.len() - i) as nat),
            values@.len() == maxima@.len() - i,
            forall|k: int|
                0 <= k < values@.len() ==> values@[k] == spec_unpack(start, maxima@)[i + k],
        decreases i,
    {
        i -= 1;
        let val = get_int(&mut data, maxima[i]);
        values.insert(0, val);
    }
    if !natural_is_zero(&data) {
        return Err(CodecError::SchemaMismatch);
    }
    assert(values@ =~= spec_unpack(start, maxima@));
    Ok(values)
}

/// The blob for the field values: the packed number, written as a numeral
/// and encrypted.
pub open spec fn spec_encode(values: Seq<usize>, maxima: Seq<usize>) -> Seq<char> {
    spec_encrypt(spec_compress(spec_pack(values, maxima) as nat))
}

/// The number that a blob stands for: the blob decrypted and read as a
/// numeral.
pub open spec fn blob_number(blob: Seq<char>) -> int {
    spec_uncompress(spec_decrypt(blob)) as int
}

/// The outcome of encoding the field values under the maxima.
pub open spec fn spec_encode_fields(values: Seq<usize>, maxima: Seq<usize>) -> Result<
    Seq<char>,
    CodecError,
> {
    if values.len() != maxima.len() {
        Err(CodecError::SchemaMismatch)
    } else if !within_maxima(values, maxima) {
        Err(CodecError::ValueOutOfRange)
    } else {
        Ok(spec_encode(values, maxima))
    }
}

/// The outcome of decoding a blob under the maxima.
pub open spec fn spec_decode_fields(blob: Seq<char>, maxima: Seq<usize>) -> Result<
    Seq<usize>,
    CodecError,
> {
    if !over_alphabet(blob) {
        Err(CodecError::InvalidCharacter)
    } else if spec_leftover(blob_number(blob), maxima) != 0 {
        Err(CodecError::SchemaMismatch)
    } else {
        Ok(spec_unpack(blob_number(blob), maxima))
    }
}

/// A blob as encoding writes it: over the alphabet, and not starting with
/// the digit zero once decrypted.
pub open spec fn canonical_blob(blob: Seq<char>) -> bool {
    &&& over_alphabet(blob)
    &&& blob.len() > 0 ==> digit_of(spec_decrypt(blob)[0]) != 0
}

/// Encodes the field values under their maxima as a blob.
pub fn encode_fields(values: &[usize], maxima: &[usize]) -> (r: Result<String, CodecError>)
    ensures
        match r {
            Ok(blob) => spec_encode_fields(values@, maxima@) == Ok::<Seq<char>, CodecError>(blob@),
            Err(e) => spec_encode_fields(values@, maxima@) == Err::<Seq<char>, CodecError>(e),
        },
{
    let number = match pack_fields(values, maxima) {
        Ok(number) => number,
        Err(e) => {
            return Err(e);
        },
    };
    proof {
        lemma_unpack_pack(values@, maxima@);
        lemma_uncompress_compress(number@);
    }
    match encrypt(compress(number)) {
        Ok(blob) => Ok(blob),
        Err(_) => vstd::pervasive::unreached(),
    }
}

/// Decodes a blob under the maxima into its field values.
pub fn decode_fields(data: String, maxima: &[usize]) -> (r: Result<Vec<usize>, CodecError>)
    ensures
        match r {
            Ok(values) => spec_decode_fields(data@, maxima@) == Ok::<Seq<usize>, CodecError>(
                values@,
            ),
            Err(e) => spec_decode_fields(data@, maxima@) == Err::<Seq<usize>, CodecError>(e),
        },
{
    let text = match decrypt(data) {
        Ok(text) => text,
        Err(e) => {
            return Err(e);
        },
    };
    proof {
        lemma_cipher_involution(data@);
    }
    let number = match uncompress(text) {
        Ok(number) => number,
        Err(_) => vstd::pervasive::unreached(),
    };
    unpack_fields(number, maxima)
}

/// Decoding what was encoded gives the field values back.
pub proof fn lemma_decode_encode(values: Seq<usize>, maxima: Seq<usize>)
    requires
        within_maxima(values, maxima),
    ensures
        canonical_blob(spec_encode(values, maxima)),
        spec_decode_fields(spec_encode(values, maxima), maxima) == Ok::<Seq<usize>, CodecError>(
            values,
        ),
{
    let number = spec_pack(values, maxima);
    let numeral = spec_compress(number as nat);
    lemma_unpack_pack(values, maxima);
    lemma_uncompress_compress(number as nat);
    lemma_cipher_involution(numeral);
    if numeral.len() > 0 {
        lemma_first_digit(number as nat);
    }
}

/// The numeral of a positive number does not start with the digit zero.
proof fn lemma_first_digit(n: nat)
    requires
        n > 0,
    ensures
        spec_compress(n).len() > 0,
        digit_of(spec_compress(n)[0]) != 0,
    decreases n,
{
    let head = n / (BASE as nat);
    let digit = (n % (BASE as nat)) as int;
    lemma_digit_of_position(digit);
    if head > 0 {
        lemma_first_digit(head);
        assert(spec_compress(n)[0] == spec_compress(head)[0]);
    } else {
        assert(spec_compress(head) =~= Seq::<char>::empty());
        assert(spec_compress(n)[0] == alphabet()[digit]);
    }
}

/// Encoding what a canonical blob decodes to gives the blob back.
pub proof fn lemma_encode_decode(blob: Seq<char>, maxima: Seq<usize>)
    requires
        canonical_blob(blob),
        spec_leftover(blob_number(blob), maxima) == 0,
    ensures
        spec_encode_fields(spec_unpack(blob_number(blob), maxima), maxima) == Ok::<
            Seq<char>,
            CodecError,
        >(blob),
{
    lemma_pack_unpack(blob_number(blob), maxima);
    lemma_cipher_involution(blob);
    lemma_compress_uncompress(spec_decrypt(blob));
}

/// A field at its maximum is encoded, and a field one above its maximum is
/// refused, whatever the other fields hold within their maxima.
pub proof fn lemma_maximum_is_the_boundary(values: Seq<usize>, maxima: Seq<usize>, i: int)
    requires
        within_maxima(values, maxima),
        0 <= i < values.len(),
    ensures
        spec_encode_fields(values.update(i, maxima[i]), maxima) is Ok,
        maxima[i] < usize::MAX ==> spec_encode_fields(
            values.update(i, (maxima[i] + 1) as usize),
            maxima,
        ) == Err::<Seq<char>, CodecError>(CodecError::ValueOutOfRange),
{
    let at_maximum = values.update(i, maxima[i]);
    assert(within_maxima(at_maximum, maxima));
    if maxima[i] < usize::MAX {
        let above = values.update(i, (maxima[i] + 1) as usize);
        assert(above[i] > maxima[i]);
    }
}

} // verus!
