//! Choosing a cipher by name and applying it in either direction.
use vstd::prelude::*;
use crate::alphabet::same_text;
use crate::gematria::{alpha2num, letters_of, num2alpha, ordinals};
use crate::morse::{morse_code_cipher, morse_code_decipher, morse_decoded, morse_encoded,
    uppercase_of};
use crate::substitution::{atbash_cipher, atbash_decipher, caesar_cipher, caesar_decipher,
    inverse_shift, mirrored, reverse_cipher, rot13, rot13_text, shifted};
use crate::vigenere::{is_key, vigenere_cipher, vigenere_decipher, vigenere_text};

verus! {

/// The shift used when none is given.
pub const DEFAULT_SHIFT: u8 = 3;

/// The key given, or the empty key.
pub open spec fn key_or_empty(key: Option<String>) -> Seq<char> {
    match key {
        Some(k) => k@,
        None => Seq::empty(),
    }
}

/// The shift given, or the default shift.
pub open spec fn shift_or_default(shift: Option<u8>) -> int {
    match shift {
        Some(s) => s as int,
        None => DEFAULT_SHIFT as int,
    }
}

/// A Vigenère key, when one is needed, is made of ASCII letters.
pub open spec fn key_fits(cipher: Seq<char>, key: Option<String>) -> bool {
    cipher == "vigenere"@ ==> is_key(key_or_empty(key))
}

/// What encoding `message` with the cipher named `cipher` gives.
pub open spec fn encoded_message(
    cipher: Seq<char>,
    message: Seq<char>,
    shift: Option<u8>,
    key: Option<String>,
) -> Seq<char> {
    if cipher == "rot13"@ {
        rot13_text(message)
    } else if cipher == "caesar"@ {
        shifted(message, shift_or_default(shift))
    } else if cipher == "reverse"@ {
        message.reverse()
    } else if cipher == "gematria"@ {
        ordinals(message)
    } else if cipher == "vigenere"@ {
        vigenere_text(message, key_or_empty(key), true)
    } else if cipher == "morse"@ {
        morse_encoded(uppercase_of(message))
    } else if cipher == "atbash"@ {
        mirrored(message)
    } else {
        "Unsupported cipher"@
    }
}

/// What decoding `message` with the cipher named `cipher` gives.
pub open spec fn decoded_message(
    cipher: Seq<char>,
    message: Seq<char>,
    shift: Option<u8>,
    key: Option<String>,
) -> Seq<char> {
    if cipher == "rot13"@ {
        rot13_text(message)
    } else if cipher == "caesar"@ {
        shifted(message, inverse_shift(shift_or_default(shift)))
    } else if cipher == "reverse"@ {
        message.reverse()
    } else if cipher == "gematria"@ {
        letters_of(message)
    } else if cipher == "vigenere"@ {
        vigenere_text(message, key_or_empty(key), false)
    } else if cipher == "morse"@ {
        morse_decoded(message)
    } else if cipher == "atbash"@ {
        mirrored(message)
    } else {
        "Unsupported cipher"@
    }
}

fn unsupported() -> (r: String)
    ensures
        r@ == "Unsupported cipher"@,
{
    let mut r = String::new();
    r.append("Unsupported cipher");
    r
}

fn key_text(key: Option<String>) -> (r: String)
    ensures
        r@ == key_or_empty(key),
{
    match key {
        Some(k) => k,
        None => String::new(),
    }
}

/// Encodes `message` with the cipher named `cipher`; an unknown name gives
/// the text "Unsupported cipher".
pub fn encode_message(cipher: String, message: String, shift: Option<u8>, key: Option<String>) -> (r:
    String)
    requires
        key_fits(cipher@, key),
    ensures
        r@ == encoded_message(cipher@, message@, shift, key),
{
    let name = cipher.as_str();
    if same_text(name, "rot13") {
        rot13(message)
    } else if same_text(name, "caesar") {
        let s = match shift {
            Some(s) => s,
            None => DEFAULT_SHIFT,
        };
        caesar_cipher(message, s)
    } else if same_text(name, "reverse") {
        reverse_cipher(message.as_str())
    } else if same_text(name, "gematria") {
        alpha2num(message.as_str())
    } else if same_text(name, "vigenere") {
        let k = key_text(key);
        vigenere_cipher(message.as_str(), k.as_str())
    } else if same_text(name, "morse") {
        morse_code_cipher(message.as_str())
    } else if same_text(name, "atbash") {
        atbash_cipher(message.as_str())
    } else {
        unsupported()
    }
}

/// Decodes `message` with the cipher named `cipher`; an unknown name gives
/// the text "Unsupported cipher".
pub fn decode_message(cipher: String, message: String, shift: Option<u8>, key: Option<String>) -> (r:
    String)
    requires
        key_fits(cipher@, key),
    ensures
        r@ == decoded_message(cipher@, message@, shift, key),
{
    let name = cipher.as_str();
    if same_text(name, "rot13") {
        rot13(message)
    } else if same_text(name, "caesar") {
        let s = match shift {
            Some(s) => s,
            None => DEFAULT_SHIFT,
        };
        caesar_decipher(message.as_str(), s)
    } else if same_text(name, "reverse") {
        reverse_cipher(message.as_str())
    } else if same_text(name, "gematria") {
        num2alpha(message.as_str())
    } else if same_text(name, "vigenere") {
        let k = key_text(key);
        vigenere_decipher(message.as_str(), k.as_str())
    } else if same_text(name, "morse") {
        morse_code_decipher(message.as_str())
    } else if same_text(name, "atbash") {
        atbash_decipher(message.as_str())
    } else {
        unsupported()
    }
}

} // verus!
