//! The three layers of the code: a cipher that shifts each character by a
//! repeating key, numerals in the base of the alphabet, and fields packed
//! into one number by their maxima.

use vstd::prelude::*;
use vstd::arithmetic::div_mod::{
    lemma_fundamental_div_mod, lemma_fundamental_div_mod_converse, lemma_mod_bound,
};
use vstd::string::StrSliceExecFns;
use vstd::utf8::is_ascii_chars;
use crate::error::CodecError;
use crate::natural::{
    natural_add, natural_div, natural_from_usize, natural_is_zero, natural_mul, natural_rem,
    natural_to_usize, Natural,
};

verus! {

/// The characters of the code, in digit order: a character's position is
/// its digit value.
pub const ALPHABET: &'static str =
    "0123456789abcdefghijklmnopqrstuvwxyzABCDEFGHIJKLMNOPQRSTUVWXYZ!$%/()=?,.-;:_^#+* @{[]}|~`";

/// The number of characters in the alphabet, which is also the numeral base.
pub const BASE: usize = 89;

/// The cipher key, used cyclically by position.
pub const ENCRYPTION_KEY: &'static str = "WalkerKey";

/// The number of characters in the cipher key.
pub const KEY_LENGTH: usize = 9;

/// The alphabet as a sequence of characters.
pub open spec fn alphabet() -> Seq<char> {
    ALPHABET@
}

/// The cipher key as a sequence of characters.
pub open spec fn encryption_key() -> Seq<char> {
    ENCRYPTION_KEY@
}

/// The character belongs to the alphabet.
pub open spec fn in_alphabet(c: char) -> bool {
    alphabet().contains(c)
}

/// Every character of `s` belongs to the alphabet.
pub open spec fn over_alphabet(s: Seq<char>) -> bool {
    forall|i: int| 0 <= i < s.len() ==> in_alphabet(#[trigger] s[i])
}

/// The digit value of a character: its position in the alphabet, and zero
/// for a character outside it.
pub open spec fn digit_of(c: char) -> nat {
    if in_alphabet(c) {
        choose|d: nat| d < alphabet().len() && alphabet()[d as int] == c
    } else {
        0
    }
}

/// The alphabet has `BASE` characters, all of them ASCII and no two alike.
pub proof fn lemma_alphabet()
    ensures
        alphabet().len() == BASE,
        is_ascii_chars(alphabet()),
        alphabet().no_duplicates(),
{
    reveal_strlit(
        "0123456789abcdefghijklmnopqrstuvwxyzABCDEFGHIJKLMNOPQRSTUVWXYZ!$%/()=?,.-;:_^#+* @{[]}|~`",
    );
}

/// A character of the alphabet stands at the position that is its digit
/// value.
pub proof fn lemma_digit_of(c: char)
    requires
        in_alphabet(c),
    ensures
        digit_of(c) < BASE,
        alphabet()[digit_of(c) as int] == c,
{
    lemma_alphabet();
    let i = choose|i: int| 0 <= i < alphabet().len() && alphabet()[i] == c;
    let d = i as nat;
    assert(d < alphabet().len() && alphabet()[d as int] == c);
}

/// The digit value of the character at position `i` is `i`.
pub proof fn lemma_digit_of_position(i: int)
    requires
        0 <= i < BASE,
    ensures
        in_alphabet(alphabet()[i]),
        digit_of(alphabet()[i]) == i,
{
    lemma_alphabet();
    assert(alphabet().contains(alphabet()[i]));
    lemma_digit_of(alphabet()[i]);
}

/// The key has `KEY_LENGTH` characters, all of them in the alphabet.
pub proof fn lemma_encryption_key()
    ensures
        encryption_key().len() == KEY_LENGTH,
        is_ascii_chars(encryption_key()),
        over_alphabet(encryption_key()),
{
    reveal_strlit("WalkerKey");
    reveal_strlit(
        "0123456789abcdefghijklmnopqrstuvwxyzABCDEFGHIJKLMNOPQRSTUVWXYZ!$%/()=?,.-;:_^#+* @{[]}|~`",
    );
    assert(encryption_key()[0] == alphabet()[58]);
    assert(encryption_key()[1] == alphabet()[10]);
    assert(encryption_key()[2] == alphabet()[21]);
    assert(encryption_key()[3] == alphabet()[20]);
    assert(encryption_key()[4] == alphabet()[14]);
    assert(encryption_key()[5] == alphabet()[27]);
    assert(encryption_key()[6] == alphabet()[46]);
    assert(encryption_key()[7] == alphabet()[14]);
    assert(encryption_key()[8] == alphabet()[34]);
}

/// The digit value of `c`, or `None` where `c` is not in the alphabet.
pub fn alphabet_index(c: char) -> (r: Option<usize>)
    ensures
        match r {
            Some(i) => in_alphabet(c) && i == digit_of(c) && i < BASE,
            None => !in_alphabet(c),
        },
{
    proof {
        lemma_alphabet();
        vstd::string::is_ascii_spec_bytes(ALPHABET);
    }
    let bytes = ALPHABET.as_bytes();
    let mut i: usize = 0;
    while i < BASE
        invariant
            i <= BASE,
            bytes@.len() == BASE,
            alphabet().len() == BASE,
            is_ascii_chars(alphabet()),
            alphabet().no_duplicates(),
            forall|k: int| 0 <= k < BASE ==> bytes@[k] == alphabet()[k] as u8,
            forall|k: int| 0 <= k < i ==> alphabet()[k] != c,
        decreases BASE - i,
    {
        if bytes[i] as u32 == c as u32 {
            proof {
                assert(alphabet()[i as int] == c);
                lemma_digit_of(c);
            }
            return Some(i);
        }
        i += 1;
    }
    None
}

/// The character whose digit value is `i`.
pub fn alphabet_char(i: usize) -> (c: char)
    requires
        i < BASE,
    ensures
        c == alphabet()[i as int],
        in_alphabet(c),
        digit_of(c) == i,
{
    proof {
        lemma_alphabet();
        lemma_digit_of_position(i as int);
    }
    ALPHABET.get_char(i)
}

/// The key character that belongs to position `i` of a text.
pub open spec fn key_char(i: int) -> char {
    encryption_key()[i % (KEY_LENGTH as int)]
}

/// `c` moved up the alphabet by the digit value of `d`, wrapping round.
pub open spec fn spec_shift_forward(c: char, d: char) -> char {
    alphabet()[((digit_of(c) + digit_of(d)) % (BASE as nat)) as int]
}

/// `c` moved down the alphabet by the digit value of `d`, wrapping round.
pub open spec fn spec_shift_backward(c: char, d: char) -> char {
    alphabet()[((digit_of(c) + BASE - digit_of(d)) % (BASE as int)) as int]
}

/// Each character shifted forward by the key character of its position.
pub open spec fn spec_encrypt(s: Seq<char>) -> Seq<char> {
    Seq::new(s.len(), |i: int| spec_shift_forward(s[i], key_char(i)))
}

/// Each character shifted backward by the key character of its position.
pub open spec fn spec_decrypt(s: Seq<char>) -> Seq<char> {
    Seq::new(s.len(), |i: int| spec_shift_backward(s[i], key_char(i)))
}

/// Moves `c` down the alphabet by the digit value of `d`: fails where one
/// of the two is not in the alphabet.
pub fn shift_backward(c: char, d: char) -> (r: Result<char, CodecError>)
    ensures
        match r {
            Ok(x) => in_alphabet(c) && in_alphabet(d) && x == spec_shift_backward(c, d),
            Err(e) => e == CodecError::InvalidCharacter && !(in_alphabet(c) && in_alphabet(d)),
        },
{
    let c_index = match alphabet_index(c) {
        Some(i) => i,
        None => {
            return Err(CodecError::InvalidCharacter);
        },
    };
    let d_index = match alphabet_index(d) {
        Some(i) => i,
        None => {
            return Err(CodecError::InvalidCharacter);
        },
    };
    let result_index = ((c_index + BASE) - d_index) % BASE;
    Ok(alphabet_char(result_index))
}

/// Moves `c` up the alphabet by the digit value of `d`: fails where one of
/// the two is not in the alphabet.
pub fn shift_forward(c: char, d: char) -> (r: Result<char, CodecError>)
    ensures
        match r {
            Ok(x) => in_alphabet(c) && in_alphabet(d) && x == spec_shift_forward(c, d),
            Err(e) => e == CodecError::InvalidCharacter && !(in_alphabet(c) && in_alphabet(d)),
        },
{
    let c_index = match alphabet_index(c) {
        Some(i) => i,
        None => {
            return Err(CodecError::InvalidCharacter);
        },
    };
    let d_index = match alphabet_index(d) {
        Some(i) => i,
        None => {
            return Err(CodecError::InvalidCharacter);
        },
    };
    let result_index = ((c_index + BASE) + d_index) % BASE;
    Ok(alphabet_char(result_index))
}

/// A text with a character that is not ASCII is not over the alphabet.
proof fn lemma_not_ascii_not_over_alphabet(s: Seq<char>)
    requires
        !is_ascii_chars(s),
    ensures
        !over_alphabet(s),
{
    lemma_alphabet();
    let i = choose|i: int| 0 <= i < s.len() && !('\0' <= #[trigger] s[i] <= '\u{7f}');
    if in_alphabet(s[i]) {
        lemma_digit_of(s[i]);
    }
}

/// The text that the cipher gives in one of its two directions.
spec fn spec_cipher(s: Seq<char>, forward: bool) -> Seq<char> {
    if forward {
        spec_encrypt(s)
    } else {
        spec_decrypt(s)
    }
}

/// Shifts each character by the key character of its position, forward or
/// backward.
fn cipher(s: &str, forward: bool) -> (r: Result<String, CodecError>)
    ensures
        match r {
            Ok(t) => over_alphabet(s@) && t@ == spec_cipher(s@, forward),
            Err(e) => e == CodecError::InvalidCharacter && !over_alphabet(s@),
        },
{
    if !s.is_ascii() {
        proof {
            lemma_not_ascii_not_over_alphabet(s@);
        }
        return Err(CodecError::InvalidCharacter);
    }
    proof {
        lemma_encryption_key();
        vstd::string::is_ascii_spec_bytes(s);
        vstd::string::is_ascii_spec_bytes(ENCRYPTION_KEY);
    }
    let bytes = s.as_bytes();
    let key = ENCRYPTION_KEY.as_bytes();
    let mut result: String = String::new();
    let mut i: usize = 0;
    while i < bytes.len()
        invariant
            i <= bytes@.len(),
            bytes@.len() == s@.len(),
            key@.len() == KEY_LENGTH,
            is_ascii_chars(s@),
            is_ascii_chars(encryption_key()),
            over_alphabet(encryption_key()),
            encryption_key().len() == KEY_LENGTH,
            forall|k: int| 0 <= k < s@.len() ==> bytes@[k] == s@[k] as u8,
            forall|k: int| 0 <= k < KEY_LENGTH ==> key@[k] == encryption_key()[k] as u8,
            result@.len() == i,
            forall|k: int| 0 <= k < i ==> in_alphabet(#[trigger] s@[k]),
            forall|k: int| 0 <= k < i ==> result@[k] == spec_cipher(s@, forward)[k],
        decreases bytes@.len() - i,
    {
        let key_index = i % KEY_LENGTH;
        let c = bytes[i] as char;
        let d = key[key_index] as char;
        assert(c == s@[i as int]);
        assert(d == key_char(i as int));
        let shifted = if forward {
            shift_forward(c, d)
        } else {
            shift_backward(c, d)
        };
        match shifted {
            Ok(x) => {
                result.push(x);
            },
            Err(e) => {
                return Err(e);
            },
        }
        i += 1;
    }
    assert(result@ =~= spec_cipher(s@, forward));
    Ok(result)
}

/// Undoes `encrypt`: fails where a character of `s` is not in the alphabet.
pub fn decrypt(s: String) -> (r: Result<String, CodecError>)
    ensures
        match r {
            Ok(t) => over_alphabet(s@) && t@ == spec_decrypt(s@),
            Err(e) => e == CodecError::InvalidCharacter && !over_alphabet(s@),
        },
{
    cipher(s.as_str(), false)
}

/// Shifts each character forward by the key character of its position:
/// fails where a character of `s` is not in the alphabet.
pub fn encrypt(s: String) -> (r: Result<String, CodecError>)
    ensures
        match r {
            Ok(t) => over_alphabet(s@) && t@ == spec_encrypt(s@),
            Err(e) => e == CodecError::InvalidCharacter && !over_alphabet(s@),
        },
{
    cipher(s.as_str(), true)
}

/// The remainder of a number below twice the base.
proof fn lemma_wrap(x: int)
    requires
        0 <= x < 2 * BASE,
    ensures
        x % (BASE as int) == if x < BASE {
            x
        } else {
            x - BASE
        },
{
    if x < BASE {
        lemma_fundamental_div_mod_converse(x, BASE as int, 0, x);
    } else {
        lemma_fundamental_div_mod_converse(x, BASE as int, 1, x - BASE);
    }
}

/// Going up by `b` and then down by `b` round a ring of `BASE` places comes
/// back to the start, and so does going down and then up.
proof fn lemma_round_the_ring(a: int, b: int)
    requires
        0 <= a < BASE,
        0 <= b < BASE,
    ensures
        0 <= (a + b) % (BASE as int) < BASE,
        0 <= (a + BASE - b) % (BASE as int) < BASE,
        ((a + b) % (BASE as int) + BASE - b) % (BASE as int) == a,
        ((a + BASE - b) % (BASE as int) + b) % (BASE as int) == a,
{
    lemma_wrap(a + b);
    lemma_wrap(a + BASE - b);
    lemma_wrap((a + b) % (BASE as int) + BASE - b);
    lemma_wrap((a + BASE - b) % (BASE as int) + b);
}

/// Shifting backward undoes shifting forward by the same character, and the
/// other way round.
pub proof fn lemma_shift_inverse(c: char, d: char)
    requires
        in_alphabet(c),
        in_alphabet(d),
    ensures
        in_alphabet(spec_shift_forward(c, d)),
        in_alphabet(spec_shift_backward(c, d)),
        spec_shift_backward(spec_shift_forward(c, d), d) == c,
        spec_shift_forward(spec_shift_backward(c, d), d) == c,
{
    lemma_digit_of(c);
    lemma_digit_of(d);
    let a = digit_of(c) as int;
    let b = digit_of(d) as int;
    let up = (a + b) % (BASE as int);
    let down = (a + BASE - b) % (BASE as int);
    lemma_round_the_ring(a, b);
    lemma_digit_of_position(up);
    lemma_digit_of_position(down);
    assert(spec_shift_forward(c, d) == alphabet()[up]);
    assert(spec_shift_backward(c, d) == alphabet()[down]);
}

/// The cipher never leaves the alphabet, and decrypting undoes encrypting,
/// as encrypting undoes decrypting, for every text over the alphabet.
pub proof fn lemma_cipher_involution(s: Seq<char>)
    requires
        over_alphabet(s),
    ensures
        over_alphabet(spec_encrypt(s)),
        over_alphabet(spec_decrypt(s)),
        spec_decrypt(spec_encrypt(s)) == s,
        spec_encrypt(spec_decrypt(s)) == s,
{
    lemma_encryption_key();
    assert forall|i: int| 0 <= i < s.len() implies {
        &&& in_alphabet(#[trigger] spec_encrypt(s)[i])
        &&& in_alphabet(spec_decrypt(s)[i])
        &&& spec_decrypt(spec_encrypt(s))[i] == s[i]
        &&& spec_encrypt(spec_decrypt(s))[i] == s[i]
    } by {
        assert(in_alphabet(s[i]));
        assert(in_alphabet(key_char(i)));
        lemma_shift_inverse(s[i], key_char(i));
    }
    assert(spec_decrypt(spec_encrypt(s)) =~= s);
    assert(spec_encrypt(spec_decrypt(s)) =~= s);
}

/// The numeral of `n` in base `BASE`, most significant digit first, each
/// digit written as the character of that value. Zero is the empty text.
pub open spec fn spec_compress(n: nat) -> Seq<char>
    decreases n,
{
    if n == 0 {
        Seq::empty()
    } else {
        spec_compress(n / (BASE as nat)).push(alphabet()[(n % (BASE as nat)) as int])
    }
}

/// The number that the numeral `s` stands for in base `BASE`. The empty
/// text stands for zero.
pub open spec fn spec_uncompress(s: Seq<char>) -> nat
    decreases s.len(),
{
    if s.len() == 0 {
        0
    } else {
        spec_uncompress(s.drop_last()) * (BASE as nat) + digit_of(s.last())
    }
}

/// The characters for a list of digit values that starts with the least
/// significant one.
spec fn spec_numeral(digits: Seq<usize>) -> Seq<char> {
    Seq::new(digits.len(), |i: int| alphabet()[digits[digits.len() - 1 - i] as int])
}

/// Writes a number as a numeral over the alphabet.
pub fn compress(s: Natural) -> (r: String)
    ensures
        r@ == spec_compress(s@),
{
    let base = natural_from_usize(BASE);
    let mut digits: Vec<usize> = Vec::new();
    let mut rest = s;
    assert(spec_numeral(digits@) =~= Seq::<char>::empty());
    while !natural_is_zero(&rest)
        invariant
            base@ == BASE,
            forall|k: int| 0 <= k < digits@.len() ==> digits@[k] < BASE,
            spec_compress(s@) == spec_compress(rest@) + spec_numeral(digits@),
        decreases rest@,
    {
        let remainder = natural_rem(&rest, &base);
        let digit = match natural_to_usize(&remainder) {
            Some(d) => d,
            None => vstd::pervasive::unreached(),
        };
        let ghost before = digits@;
        let ghost n = rest@;
        digits.push(digit);
        rest = natural_div(&rest, &base);
        assert(spec_compress(n) + spec_numeral(before) =~= spec_compress(n / (BASE as nat))
            + spec_numeral(digits@));
    }
    let mut result: String = String::new();
    let mut i: usize = digits.len();
    while i > 0
        invariant
            i <= digits@.len(),
            forall|k: int| 0 <= k < digits@.len() ==> digits@[k] < BASE,
            result@ == spec_numeral(digits@).take(digits@.len() - i),
        decreases i,
    {
        i -= 1;
        result.push(alphabet_char(digits[i]));
        assert(result@ =~= spec_numeral(digits@).take(digits@.len() - i));
    }
    assert(spec_numeral(digits@).take(digits@.len() as int) =~= spec_numeral(digits@));
    result
}

/// Reads a numeral over the alphabet: fails where a character of `s` is
/// not in the alphabet.
pub fn uncompress(s: String) -> (r: Result<Natural, CodecError>)
    ensures
        match r {
            Ok(n) => over_alphabet(s@) && n@ == spec_uncompress(s@),
            Err(e) => e == CodecError::InvalidCharacter && !over_alphabet(s@),
        },
{
    let text = s.as_str();
    if !text.is_ascii() {
        proof {
            lemma_not_ascii_not_over_alphabet(s@);
        }
        return Err(CodecError::InvalidCharacter);
    }
    proof {
        vstd::string::is_ascii_spec_bytes(text);
    }
    let bytes = text.as_bytes();
    let base = natural_from_usize(BASE);
    let mut result = natural_from_usize(0);
    let mut i: usize = 0;
    assert(s@.take(0) =~= Seq::<char>::empty());
    while i < bytes.len()
        invariant
            i <= bytes@.len(),
            bytes@.len() == s@.len(),
            is_ascii_chars(s@),
            forall|k: int| 0 <= k < s@.len() ==> bytes@[k] == s@[k] as u8,
            base@ == BASE,
            forall|k: int| 0 <= k < i ==> in_alphabet(#[trigger] s@[k]),
            result@ == spec_uncompress(s@.take(i as int)),
        decreases bytes@.len() - i,
    {
        let c = bytes[i] as char;
        assert(c == s@[i as int]);
        let index = match alphabet_index(c) {
            Some(d) => d,
            None => {
                return Err(CodecError::InvalidCharacter);
            },
        };
        let shifted = natural_mul(&result, &base);
        result = natural_add(&shifted, &natural_from_usize(index));
        proof {
            let next = s@.take(i + 1);
            assert(next.drop_last() =~= s@.take(i as int));
            assert(next.last() == s@[i as int]);
        }
        i += 1;
    }
    assert(s@.take(i as int) =~= s@);
    Ok(result)
}

/// A numeral holds only characters of the alphabet, and reading it gives
/// the number back. Only the numeral of zero is empty.
pub proof fn lemma_uncompress_compress(n: nat)
    ensures
        over_alphabet(spec_compress(n)),
        spec_uncompress(spec_compress(n)) == n,
        (spec_compress(n).len() == 0) == (n == 0),
    decreases n,
{
    if n != 0 {
        let head = spec_compress(n / (BASE as nat));
        let digit = (n % (BASE as nat)) as int;
        lemma_uncompress_compress(n / (BASE as nat));
        lemma_digit_of_position(digit);
        assert(spec_compress(n).drop_last() =~= head);
        assert(spec_compress(n).last() == alphabet()[digit]);
    }
}

/// Writing the number that a numeral stands for gives the numeral back,
/// where the numeral does not start with the digit zero.
pub proof fn lemma_compress_uncompress(s: Seq<char>)
    requires
        over_alphabet(s),
        s.len() > 0 ==> digit_of(s[0]) != 0,
    ensures
        spec_compress(spec_uncompress(s)) == s,
    decreases s.len(),
{
    if s.len() > 0 {
        let head = s.drop_last();
        let n = spec_uncompress(s);
        lemma_digit_of(s.last());
        assert(n == spec_uncompress(head) * (BASE as nat) + digit_of(s.last()));
        if head.len() > 0 {
            assert(head[0] == s[0]);
            lemma_compress_uncompress(head);
            lemma_uncompress_compress(spec_uncompress(head));
            assert(spec_uncompress(head) != 0);
        } else {
            assert(s.last() == s[0]);
            assert(spec_compress(spec_uncompress(head)) =~= head);
        }
        assert(n != 0) by (nonlinear_arith)
            requires
                n == spec_uncompress(head) * (BASE as nat) + digit_of(s.last()),
                spec_uncompress(head) != 0 || digit_of(s.last()) != 0,
        ;
        lemma_fundamental_div_mod_converse(
            n as int,
            BASE as int,
            spec_uncompress(head) as int,
            digit_of(s.last()) as int,
        );
        assert(n / (BASE as nat) == spec_uncompress(head));
        assert(alphabet()[(n % (BASE as nat)) as int] == s.last());
        assert(spec_compress(n) =~= head.push(s.last()));
        assert(head.push(s.last()) =~= s);
    }
}

/// The accumulator after `val` has been stored on top of `acc` as a field
/// with the inclusive maximum `max`.
pub open spec fn spec_store(acc: int, val: int, max: int) -> int {
    acc * (max + 1) + val
}

/// The value of the field with the inclusive maximum `max` that lies on
/// top of `acc`.
pub open spec fn spec_top(acc: int, max: int) -> int {
    acc % (max + 1)
}

/// The accumulator that is left when the field with the inclusive maximum
/// `max` has been taken off `acc`.
pub open spec fn spec_below(acc: int, max: int) -> int {
    acc / (max + 1)
}

/// Takes the field that was stored last off the accumulator and returns its
/// value.
pub fn get_int(s: &mut Natural, max_val: usize) -> (val: usize)
    ensures
        val == spec_top(old(s)@ as int, max_val as int),
        val <= max_val,
        final(s)@ == spec_below(old(s)@ as int, max_val as int),
{
    let modulus = natural_add(&natural_from_usize(max_val), &natural_from_usize(1));
    proof {
        lemma_mod_bound(s@ as int, max_val + 1);
    }
    let remainder = natural_rem(s, &modulus);
    let quotient = natural_div(s, &modulus);
    *s = quotient;
    match natural_to_usize(&remainder) {
        Some(val) => val,
        None => vstd::pervasive::unreached(),
    }
}

/// Stores `val` on top of the accumulator as a field with the inclusive
/// maximum `max_val`. A value above the maximum is refused, and the
/// accumulator is then left as it was.
pub fn store_int(s: &mut Natural, val: usize, max_val: usize) -> (r: Result<(), CodecError>)
    ensures
        match r {
            Ok(_) => val <= max_val && final(s)@ == spec_store(
                old(s)@ as int,
                val as int,
                max_val as int,
            ),
            Err(e) => e == CodecError::ValueOutOfRange && val > max_val && *final(s) == *old(s),
        },
{
    if val > max_val {
        return Err(CodecError::ValueOutOfRange);
    }
    let modulus = natural_add(&natural_from_usize(max_val), &natural_from_usize(1));
    let shifted = natural_mul(s, &modulus);
    *s = natural_add(&shifted, &natural_from_usize(val));
    Ok(())
}

/// Taking a field off right after it was stored gives its value back and
/// leaves the accumulator as it was before.
pub proof fn lemma_store_then_get(acc: int, val: int, max: int)
    requires
        0 <= val <= max,
    ensures
        spec_top(spec_store(acc, val, max), max) == val,
        spec_below(spec_store(acc, val, max), max) == acc,
{
    lemma_fundamental_div_mod_converse(spec_store(acc, val, max), max + 1, acc, val);
}

/// Storing a field back right after it was taken off restores the
/// accumulator.
pub proof fn lemma_get_then_store(acc: int, max: int)
    requires
        0 <= max,
    ensures
        0 <= spec_top(acc, max) <= max,
        spec_store(spec_below(acc, max), spec_top(acc, max), max) == acc,
{
    lemma_mod_bound(acc, max + 1);
    lemma_fundamental_div_mod(acc, max + 1);
    assert((max + 1) * (acc / (max + 1)) == (acc / (max + 1)) * (max + 1)) by (nonlinear_arith);
}

} // verus!
