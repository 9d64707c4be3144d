use libx::ciphers::morse_code::{char_to_morse, decrypt, encrypt, is_space, morse_to_char};

#[test]
fn test_morse() {
    let text = "01234567890";
    let encrypted = encrypt(text);
    let decrypted = decrypt(&encrypted);
    assert_eq!(text, decrypted);

    let text = "abcdefghijklmnopqrstuvwxyz";
    let encrypted = encrypt(text);
    let decrypted = decrypt(&encrypted);
    assert_eq!(text, decrypted);
}

#[test]
fn morse_codes_of_characters() {
    assert_eq!(char_to_morse('a'), ".-");
    assert_eq!(char_to_morse('e'), ".");
    assert_eq!(char_to_morse('s'), "...");
    assert_eq!(char_to_morse('o'), "---");
    assert_eq!(char_to_morse('z'), "--..");
    assert_eq!(char_to_morse('0'), "-----");
    assert_eq!(char_to_morse('5'), ".....");
    assert_eq!(char_to_morse('9'), "----.");
    assert_eq!(morse_to_char(".-"), 'a');
    assert_eq!(morse_to_char("--.."), 'z');
    assert_eq!(morse_to_char("-----"), '0');
    assert_eq!(morse_to_char(".----"), '1');
}

#[test]
fn morse_codes_round_trip_for_every_character() {
    for c in ('a'..='z').chain('0'..='9') {
        assert_eq!(morse_to_char(char_to_morse(c)), c);
    }
}

#[test]
fn encrypt_writes_a_space_behind_each_code() {
    assert_eq!(encrypt(""), "");
    assert_eq!(encrypt("e"), ". ");
    assert_eq!(encrypt("sos"), "... --- ... ");
    assert_eq!(encrypt("a1"), ".- .---- ");
}

#[test]
fn decrypt_splits_at_any_white_space() {
    assert_eq!(decrypt(""), "");
    assert_eq!(decrypt("   "), "");
    assert_eq!(decrypt("... --- ..."), "sos");
    assert_eq!(decrypt("  ...\t---\n\n... "), "sos");
    assert_eq!(decrypt(".-\u{2003}-..."), "ab");
    assert_eq!(decrypt("."), "e");
}

#[test]
fn white_space_is_what_the_standard_library_calls_so() {
    for code in 0..=0x10_ffffu32 {
        if let Some(c) = char::from_u32(code) {
            assert_eq!(is_space(c), c.is_whitespace());
        }
    }
}
