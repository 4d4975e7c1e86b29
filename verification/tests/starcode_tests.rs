use num::BigUint;
use runling_bank::error::CodecError;
use runling_bank::natural::Natural;
use runling_bank::starcode::{
    alphabet_char, alphabet_index, compress, decrypt, encrypt, get_int, shift_backward,
    shift_forward, store_int, uncompress, ALPHABET, BASE, ENCRYPTION_KEY, KEY_LENGTH,
};

fn natural(n: u64) -> Natural {
    Natural { digits: BigUint::from(n).to_bytes_le() }
}

fn value(n: &Natural) -> BigUint {
    BigUint::from_bytes_le(&n.digits)
}

#[test]
fn test() {
    let encrypted_runling = "/Uni.I^uVUgUsr::M3I~IeI0".to_string();

    let decrypted_runling = decrypt(encrypted_runling.clone()).unwrap();

    assert_eq!(encrypt(decrypted_runling.clone()).unwrap(), encrypted_runling);

    let decompressed_runling = uncompress(decrypted_runling.clone()).unwrap();

    assert_eq!(compress(decompressed_runling.clone()), decrypted_runling);
}

#[test]
fn alphabet_and_key_have_their_lengths() {
    assert_eq!(ALPHABET.chars().count(), BASE);
    assert_eq!(BASE, 89);
    assert_eq!(ENCRYPTION_KEY.chars().count(), KEY_LENGTH);
}

#[test]
fn alphabet_index_gives_the_position() {
    assert_eq!(alphabet_index('0'), Some(0));
    assert_eq!(alphabet_index('a'), Some(10));
    assert_eq!(alphabet_index('W'), Some(58));
    assert_eq!(alphabet_index(' '), Some(80));
    assert_eq!(alphabet_index('`'), Some(88));
    assert_eq!(alphabet_index('\n'), None);
    assert_eq!(alphabet_index('"'), None);
    assert_eq!(alphabet_index('\u{e9}'), None);
}

#[test]
fn alphabet_char_inverts_alphabet_index() {
    for i in 0..BASE {
        assert_eq!(alphabet_index(alphabet_char(i)), Some(i));
    }
}

#[test]
fn shift_wraps_round_the_alphabet() {
    assert_eq!(shift_forward('0', 'W'), Ok('W'));
    assert_eq!(shift_forward('`', '1'), Ok('0'));
    assert_eq!(shift_forward('`', '`'), Ok('~'));
    assert_eq!(shift_backward('0', '1'), Ok('`'));
    assert_eq!(shift_backward('W', 'W'), Ok('0'));
    assert_eq!(shift_backward('a', '0'), Ok('a'));
}

#[test]
fn shift_refuses_a_character_outside_the_alphabet() {
    assert_eq!(shift_forward('\t', 'W'), Err(CodecError::InvalidCharacter));
    assert_eq!(shift_forward('a', '\t'), Err(CodecError::InvalidCharacter));
    assert_eq!(shift_backward('\u{20ac}', 'W'), Err(CodecError::InvalidCharacter));
    assert_eq!(shift_backward('a', '"'), Err(CodecError::InvalidCharacter));
}

#[test]
fn encrypting_zero_digits_shows_the_key() {
    assert_eq!(encrypt("000000000000".to_string()), Ok("WalkerKeyWal".to_string()));
    assert_eq!(decrypt("WalkerKeyWal".to_string()), Ok("000000000000".to_string()));
}

#[test]
fn cipher_of_the_empty_text_is_empty() {
    assert_eq!(encrypt(String::new()), Ok(String::new()));
    assert_eq!(decrypt(String::new()), Ok(String::new()));
}

#[test]
fn decrypt_undoes_encrypt_and_encrypt_undoes_decrypt() {
    let mut text = String::new();
    for _ in 0..3 {
        text.push_str(ALPHABET);
    }
    let encrypted = encrypt(text.clone()).unwrap();
    assert_ne!(encrypted, text);
    assert_eq!(decrypt(encrypted).unwrap(), text);
    let decrypted = decrypt(text.clone()).unwrap();
    assert_ne!(decrypted, text);
    assert_eq!(encrypt(decrypted).unwrap(), text);
}

#[test]
fn cipher_refuses_a_character_outside_the_alphabet() {
    assert_eq!(encrypt("ab\ncd".to_string()), Err(CodecError::InvalidCharacter));
    assert_eq!(decrypt("ab\"cd".to_string()), Err(CodecError::InvalidCharacter));
    assert_eq!(encrypt("caf\u{e9}".to_string()), Err(CodecError::InvalidCharacter));
    assert_eq!(decrypt("\u{1f600}".to_string()), Err(CodecError::InvalidCharacter));
}

#[test]
fn compress_zero_is_empty() {
    assert_eq!(compress(natural(0)), "");
    assert_eq!(compress(Natural { digits: Vec::new() }), "");
    assert_eq!(compress(Natural { digits: vec![0, 0, 0] }), "");
    assert_eq!(value(&uncompress(String::new()).unwrap()), BigUint::from(0u32));
}

#[test]
fn compress_writes_base_89_numerals() {
    assert_eq!(compress(natural(1)), "1");
    assert_eq!(compress(natural(88)), "`");
    assert_eq!(compress(natural(89)), "10");
    assert_eq!(compress(natural(89 * 89 + 10)), "10a");
    assert_eq!(compress(Natural { digits: vec![89, 0] }), "10");
    assert_eq!(compress(Natural { digits: vec![0, 1] }), "2+");
    assert_eq!(value(&uncompress("10".to_string()).unwrap()), BigUint::from(89u32));
    assert_eq!(value(&uncompress("10a".to_string()).unwrap()), BigUint::from(89u32 * 89 + 10));
    assert_eq!(value(&uncompress("``".to_string()).unwrap()), BigUint::from(89u32 * 89 - 1));
    assert_eq!(uncompress("2+".to_string()).unwrap().digits, vec![0, 1]);
}

#[test]
fn uncompress_ignores_leading_zero_digits() {
    assert_eq!(value(&uncompress("0".to_string()).unwrap()), BigUint::from(0u32));
    assert_eq!(value(&uncompress("001".to_string()).unwrap()), BigUint::from(1u32));
}

#[test]
fn uncompress_undoes_compress_on_a_large_number() {
    let n = BigUint::from(1u32) << 200usize;
    let text = compress(Natural { digits: n.to_bytes_le() });
    assert_eq!(text, "R0mqp!Iqa(HJ(~6k}ps6,2x=NJru;S4");
    assert_eq!(value(&uncompress(text).unwrap()), n);
}

#[test]
fn uncompress_refuses_a_character_outside_the_alphabet() {
    assert_eq!(uncompress("12\t".to_string()).err(), Some(CodecError::InvalidCharacter));
    assert_eq!(uncompress("\u{e9}".to_string()).err(), Some(CodecError::InvalidCharacter));
}

#[test]
fn store_multiplies_by_the_modulus_and_adds() {
    let mut acc = natural(0);
    assert_eq!(store_int(&mut acc, 5, 9), Ok(()));
    assert_eq!(value(&acc), BigUint::from(5u32));
    assert_eq!(store_int(&mut acc, 3, 7), Ok(()));
    assert_eq!(value(&acc), BigUint::from(43u32));
    assert_eq!(encrypt(compress(acc)), Ok("c".to_string()));
}

#[test]
fn get_takes_the_field_that_was_stored_last() {
    let fields: [(usize, usize); 5] = [(5, 9), (0, 0), (7, 7), (123456, 8100000), (1, 1010)];
    let mut acc = natural(0);
    for (field, max) in fields.iter() {
        store_int(&mut acc, *field, *max).unwrap();
    }
    for (field, max) in fields.iter().rev() {
        assert_eq!(get_int(&mut acc, *max), *field);
    }
    assert_eq!(value(&acc), BigUint::from(0u32));
}

#[test]
fn get_leaves_the_accumulator_that_store_found() {
    let mut acc = natural(987654321);
    store_int(&mut acc, 17, 340000).unwrap();
    assert_eq!(get_int(&mut acc, 340000), 17);
    assert_eq!(value(&acc), BigUint::from(987654321u32));
}

#[test]
fn get_divides_by_the_modulus() {
    let mut acc = natural(43);
    assert_eq!(get_int(&mut acc, 7), 3);
    assert_eq!(value(&acc), BigUint::from(5u32));
    assert_eq!(get_int(&mut acc, usize::MAX), 5);
    assert_eq!(value(&acc), BigUint::from(0u32));
    let mut acc = Natural { digits: vec![44, 1, 0] };
    assert_eq!(get_int(&mut acc, 99), 0);
    assert_eq!(value(&acc), BigUint::from(3u32));
}

#[test]
fn store_takes_the_maximum_and_refuses_the_next_value() {
    let mut acc = natural(4);
    assert_eq!(store_int(&mut acc, 9, 9), Ok(()));
    assert_eq!(value(&acc), BigUint::from(49u32));
    assert_eq!(store_int(&mut acc, 10, 9), Err(CodecError::ValueOutOfRange));
    assert_eq!(value(&acc), BigUint::from(49u32));
    assert_eq!(store_int(&mut acc, 1, 0), Err(CodecError::ValueOutOfRange));
    assert_eq!(store_int(&mut acc, usize::MAX, usize::MAX), Ok(()));
    assert_eq!(get_int(&mut acc, usize::MAX), usize::MAX);
    assert_eq!(value(&acc), BigUint::from(49u32));
}
