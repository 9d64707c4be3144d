//! Morse code for the lower-case letters and the digits.

use vstd::pervasive::unreached;
use vstd::prelude::*;
use vstd::string::{StrSliceExecFns, StringExecFns};
use crate::utils::push_char;

verus! {

/// The characters that have a code here: `a` to `z` and `0` to `9`.
pub open spec fn is_morse_char(c: char) -> bool {
    ('a' <= c && c <= 'z') || ('0' <= c && c <= '9')
}

/// The code of a character, in dots and dashes; empty for a character without one.
pub open spec fn morse_of(c: char) -> Seq<char> {
    if c == 'a' {
        ".-"@
    } else if c == 'b' {
        "-..."@
    } else if c == 'c' {
        "-.-."@
    } else if c == 'd' {
        "-.."@
    } else if c == 'e' {
        "."@
    } else if c == 'f' {
        "..-."@
    } else if c == 'g' {
        "--."@
    } else if c == 'h' {
        "...."@
    } else if c == 'i' {
        ".."@
    } else if c == 'j' {
        ".---"@
    } else if c == 'k' {
        "-.-"@
    } else if c == 'l' {
        ".-.."@
    } else if c == 'm' {
        "--"@
    } else if c == 'n' {
        "-."@
    } else if c == 'o' {
        "---"@
    } else if c == 'p' {
        ".--."@
    } else if c == 'q' {
        "--.-"@
    } else if c == 'r' {
        ".-."@
    } else if c == 's' {
        "..."@
    } else if c == 't' {
        "-"@
    } else if c == 'u' {
        "..-"@
    } else if c == 'v' {
        "...-"@
    } else if c == 'w' {
        ".--"@
    } else if c == 'x' {
        "-..-"@
    } else if c == 'y' {
        "-.--"@
    } else if c == 'z' {
        "--.."@
    } else if c == '1' {
        ".----"@
    } else if c == '2' {
        "..---"@
    } else if c == '3' {
        "...--"@
    } else if c == '4' {
        "....-"@
    } else if c == '5' {
        "....."@
    } else if c == '6' {
        "-...."@
    } else if c == '7' {
        "--..."@
    } else if c == '8' {
        "---.."@
    } else if c == '9' {
        "----."@
    } else if c == '0' {
        "-----"@
    } else {
        Seq::empty()
    }
}

/// Whether `code` is the code of some character.
pub open spec fn is_morse_code(code: Seq<char>) -> bool {
    ||| code == ".-"@
    ||| code == "-..."@
    ||| code == "-.-."@
    ||| code == "-.."@
    ||| code == "."@
    ||| code == "..-."@
    ||| code == "--."@
    ||| code == "...."@
    ||| code == ".."@
    ||| code == ".---"@
    ||| code == "-.-"@
    ||| code == ".-.."@
    ||| code == "--"@
    ||| code == "-."@
    ||| code == "---"@
    ||| code == ".--."@
    ||| code == "--.-"@
    ||| code == ".-."@
    ||| code == "..."@
    ||| code == "-"@
    ||| code == "..-"@
    ||| code == "...-"@
    ||| code == ".--"@
    ||| code == "-..-"@
    ||| code == "-.--"@
    ||| code == "--.."@
    ||| code == ".----"@
    ||| code == "..---"@
    ||| code == "...--"@
    ||| code == "....-"@
    ||| code == "....."@
    ||| code == "-...."@
    ||| code == "--..."@
    ||| code == "---.."@
    ||| code == "----."@
    ||| code == "-----"@
}

/// The character with the given code.
pub open spec fn letter_of(code: Seq<char>) -> char {
    if code == ".-"@ {
        'a'
    } else if code == "-..."@ {
        'b'
    } else if code == "-.-."@ {
        'c'
    } else if code == "-.."@ {
        'd'
    } else if code == "."@ {
        'e'
    } else if code == "..-."@ {
        'f'
    } else if code == "--."@ {
        'g'
    } else if code == "...."@ {
        'h'
    } else if code == ".."@ {
        'i'
    } else if code == ".---"@ {
        'j'
    } else if code == "-.-"@ {
        'k'
    } else if code == ".-.."@ {
        'l'
    } else if code == "--"@ {
        'm'
    } else if code == "-."@ {
        'n'
    } else if code == "---"@ {
        'o'
    } else if code == ".--."@ {
        'p'
    } else if code == "--.-"@ {
        'q'
    } else if code == ".-."@ {
        'r'
    } else if code == "..."@ {
        's'
    } else if code == "-"@ {
        't'
    } else if code == "..-"@ {
        'u'
    } else if code == "...-"@ {
        'v'
    } else if code == ".--"@ {
        'w'
    } else if code == "-..-"@ {
        'x'
    } else if code == "-.--"@ {
        'y'
    } else if code == "--.."@ {
        'z'
    } else if code == ".----"@ {
        '1'
    } else if code == "..---"@ {
        '2'
    } else if code == "...--"@ {
        '3'
    } else if code == "....-"@ {
        '4'
    } else if code == "....."@ {
        '5'
    } else if code == "-...."@ {
        '6'
    } else if code == "--..."@ {
        '7'
    } else if code == "---.."@ {
        '8'
    } else if code == "----."@ {
        '9'
    } else if code == "-----"@ {
        '0'
    } else {
        '\0'
    }
}

/// What separates two codes in a text: the characters that Unicode lists as white
/// space.
pub open spec fn is_whitespace(c: char) -> bool {
    let u = c as u32;
    (0x09 <= u && u <= 0x0d) || u == 0x20 || u == 0x85 || u == 0xa0 || u == 0x1680 || (0x2000 <= u
        && u <= 0x200a) || u == 0x2028 || u == 0x2029 || u == 0x202f || u == 0x205f || u == 0x3000
}

/// `text` in Morse code: the code of each character, each followed by a space.
pub open spec fn encoded(text: Seq<char>) -> Seq<char>
    decreases text.len(),
{
    if text.len() == 0 {
        Seq::empty()
    } else {
        encoded(text.drop_last()) + morse_of(text.last()) + " "@
    }
}

/// The character of `word` if there is a word, as a text of one or no character.
pub open spec fn letter_of_word(word: Seq<char>) -> Seq<char> {
    if word.len() == 0 {
        Seq::empty()
    } else {
        seq![letter_of(word)]
    }
}

/// The characters of the codes in `text`, where `word` holds the part of a code
/// that was read before `text`: the codes are the runs of characters between
/// white space.
pub open spec fn decoded_after(word: Seq<char>, text: Seq<char>) -> Seq<char>
    decreases text.len(),
{
    if text.len() == 0 {
        letter_of_word(word)
    } else if is_whitespace(text[0]) {
        letter_of_word(word) + decoded_after(Seq::empty(), text.drop_first())
    } else {
        decoded_after(word.push(text[0]), text.drop_first())
    }
}

/// The characters of the codes in `text`.
pub open spec fn decoded(text: Seq<char>) -> Seq<char> {
    decoded_after(Seq::empty(), text)
}

/// Whether every run of characters between white space in `text`, the first one
/// taken together with `word`, is a code.
pub open spec fn holds_codes_after(word: Seq<char>, text: Seq<char>) -> bool
    decreases text.len(),
{
    if text.len() == 0 {
        word.len() == 0 || is_morse_code(word)
    } else if is_whitespace(text[0]) {
        (word.len() == 0 || is_morse_code(word)) && holds_codes_after(
            Seq::empty(),
            text.drop_first(),
        )
    } else {
        holds_codes_after(word.push(text[0]), text.drop_first())
    }
}

/// Whether `text` holds nothing but codes and white space.
pub open spec fn holds_codes(text: Seq<char>) -> bool {
    holds_codes_after(Seq::empty(), text)
}

/// The code of `c`, which is a lower-case letter or a digit.
pub fn char_to_morse(c: char) -> (code: &'static str)
    requires
        is_morse_char(c),
    ensures
        code@ == morse_of(c),
{
    match c {
        'a' => ".-",
        'b' => "-...",
        'c' => "-.-.",
        'd' => "-..",
        'e' => ".",
        'f' => "..-.",
        'g' => "--.",
        'h' => "....",
        'i' => "..",
        'j' => ".---",
        'k' => "-.-",
        'l' => ".-..",
        'm' => "--",
        'n' => "-.",
        'o' => "---",
        'p' => ".--.",
        'q' => "--.-",
        'r' => ".-.",
        's' => "...",
        't' => "-",
        'u' => "..-",
        'v' => "...-",
        'w' => ".--",
        'x' => "-..-",
        'y' => "-.--",
        'z' => "--..",
        '1' => ".----",
        '2' => "..---",
        '3' => "...--",
        '4' => "....-",
        '5' => ".....",
        '6' => "-....",
        '7' => "--...",
        '8' => "---..",
        '9' => "----.",
        '0' => "-----",
        _ => unreached(),
    }
}

/// Whether two texts hold the same characters.
fn same_text(a: &str, b: &str) -> (same: bool)
    ensures
        same == (a@ == b@),
{
    let len = a.unicode_len();
    if len != b.unicode_len() {
        return false;
    }
    let mut i: usize = 0;
    while i < len
        invariant
            i <= len,
            len == a@.len(),
            len == b@.len(),
            forall|j: int| 0 <= j < i ==> a@[j] == b@[j],
        decreases len - i,
    {
        if a.get_char(i) != b.get_char(i) {
            return false;
        }
        i = i + 1;
    }
    assert(a@ =~= b@);
    true
}

/// The character whose code is `s`.
pub fn morse_to_char(s: &str) -> (c: char)
    requires
        is_morse_code(s@),
    ensures
        c == letter_of(s@),
        is_morse_char(c),
        morse_of(c) == s@,
{
    if same_text(s, ".-") {
        'a'
    } else if same_text(s, "-...") {
        'b'
    } else if same_text(s, "-.-.") {
        'c'
    } else if same_text(s, "-..") {
        'd'
    } else if same_text(s, ".") {
        'e'
    } else if same_text(s, "..-.") {
        'f'
    } else if same_text(s, "--.") {
        'g'
    } else if same_text(s, "....") {
        'h'
    } else if same_text(s, "..") {
        'i'
    } else if same_text(s, ".---") {
        'j'
    } else if same_text(s, "-.-") {
        'k'
    } else if same_text(s, ".-..") {
        'l'
    } else if same_text(s, "--") {
        'm'
    } else if same_text(s, "-.") {
        'n'
    } else if same_text(s, "---") {
        'o'
    } else if same_text(s, ".--.") {
        'p'
    } else if same_text(s, "--.-") {
        'q'
    } else if same_text(s, ".-.") {
        'r'
    } else if same_text(s, "...") {
        's'
    } else if same_text(s, "-") {
        't'
    } else if same_text(s, "..-") {
        'u'
    } else if same_text(s, "...-") {
        'v'
    } else if same_text(s, ".--") {
        'w'
    } else if same_text(s, "-..-") {
        'x'
    } else if same_text(s, "-.--") {
        'y'
    } else if same_text(s, "--..") {
        'z'
    } else if same_text(s, ".----") {
        '1'
    } else if same_text(s, "..---") {
        '2'
    } else if same_text(s, "...--") {
        '3'
    } else if same_text(s, "....-") {
        '4'
    } else if same_text(s, ".....") {
        '5'
    } else if same_text(s, "-....") {
        '6'
    } else if same_text(s, "--...") {
        '7'
    } else if same_text(s, "---..") {
        '8'
    } else if same_text(s, "----.") {
        '9'
    } else if same_text(s, "-----") {
        '0'
    } else {
        unreached()
    }
}

/// Whether `c` is white space.
pub fn is_space(c: char) -> (b: bool)
    ensures
        b == is_whitespace(c),
{
    let u = c as u32;
    (0x09 <= u && u <= 0x0d) || u == 0x20 || u == 0x85 || u == 0xa0 || u == 0x1680 || (0x2000 <= u
        && u <= 0x200a) || u == 0x2028 || u == 0x2029 || u == 0x202f || u == 0x205f || u == 0x3000
}

/// Writes `text`, which holds lower-case letters and digits only, in Morse code.
pub fn encrypt(text: &str) -> (code: String)
    requires
        forall|i: int| 0 <= i < text@.len() ==> is_morse_char(#[trigger] text@[i]),
    ensures
        code@ == encoded(text@),
{
    let mut encrypted_text = String::new();
    let len = text.unicode_len();
    let mut i: usize = 0;
    while i < len
        invariant
            i <= len,
            len == text@.len(),
            forall|j: int| 0 <= j < text@.len() ==> is_morse_char(#[trigger] text@[j]),
            encrypted_text@ == encoded(text@.subrange(0, i as int)),
        decreases len - i,
    {
        let c = text.get_char(i);
        encrypted_text.append(char_to_morse(c));
        encrypted_text.append(" ");
        proof {
            let done = text@.subrange(0, i + 1);
            assert(done.drop_last() =~= text@.subrange(0, i as int));
            assert(done.last() == c);
        }
        i = i + 1;
    }
    assert(text@.subrange(0, len as int) =~= text@);
    encrypted_text
}

/// Reads a text in Morse code: codes with white space between them.
pub fn decrypt(text: &str) -> (plain: String)
    requires
        holds_codes(text@),
    ensures
        plain@ == decoded(text@),
{
    let mut decrypted_text = String::new();
    let len = text.unicode_len();
    let mut start: usize = 0;
    let mut i: usize = 0;
    proof {
        assert(text@.subrange(0, 0) =~= Seq::<char>::empty());
        assert(text@.skip(0) =~= text@);
    }
    while i < len
        invariant
            start <= i <= len,
            len == text@.len(),
            holds_codes_after(text@.subrange(start as int, i as int), text@.skip(i as int)),
            decrypted_text@ + decoded_after(
                text@.subrange(start as int, i as int),
                text@.skip(i as int),
            ) == decoded(text@),
        decreases len - i,
    {
        let c = text.get_char(i);
        let ghost word = text@.subrange(start as int, i as int);
        let ghost rest = text@.skip(i as int);
        proof {
            assert(rest[0] == c);
            assert(rest.drop_first() =~= text@.skip(i + 1));
        }
        if is_space(c) {
            if start < i {
                let s = text.substring_char(start, i);
                push_char(&mut decrypted_text, morse_to_char(s));
            }
            proof {
                assert(text@.subrange(i + 1, i + 1) =~= Seq::<char>::empty());
            }
            start = i + 1;
        } else {
            proof {
                assert(text@.subrange(start as int, i + 1) =~= word.push(c));
            }
        }
        i = i + 1;
    }
    proof {
        assert(text@.skip(len as int) =~= Seq::<char>::empty());
    }
    if start < len {
        let s = text.substring_char(start, len);
        push_char(&mut decrypted_text, morse_to_char(s));
    }
    decrypted_text
}

} // verus!
