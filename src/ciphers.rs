//! Each cipher as a small value with encipher and decipher methods. The
//! methods share their code with the free functions of the other modules.
use vstd::prelude::*;
use crate::gematria::{alpha2num, letters_of, num2alpha, ordinals};
use crate::morse::{create_morse_code_map, create_reverse_morse_code_map, decode_with,
    encode_with, morse_decoded, morse_encoded, morse_table, reverse_table, to_uppercase,
    uppercase_of};
use crate::substitution::{atbash_cipher, caesar_decipher, inverse_shift, mirrored, rot13_text,
    shift_text, shifted};
use crate::vigenere::{is_key, to_ascii_lowercase, vigenere_cipher, vigenere_decipher,
    vigenere_text};
use crate::alphabet::lowered;

verus! {

/// ROT13, which is its own inverse.
pub struct Rot13Cipher;

impl Rot13Cipher {
    pub fn new() -> Self {
        Rot13Cipher
    }

    pub fn encipher(&self, message: &str) -> (r: String)
        ensures
            r@ == rot13_text(message@),
    {
        shift_text(message, 13)
    }

    pub fn decipher(&self, message: &str) -> (r: String)
        ensures
            r@ == rot13_text(message@),
    {
        self.encipher(message)
    }
}

/// The Caesar cipher with a fixed shift.
pub struct CaesarCipher {
    shift: u8,
}

impl View for CaesarCipher {
    type V = u8;

    closed spec fn view(&self) -> u8 {
        self.shift
    }
}

impl CaesarCipher {
    pub fn new(shift: u8) -> (r: Self)
        ensures
            r@ == shift,
    {
        CaesarCipher { shift }
    }

    pub fn encipher(&self, message: &str) -> (r: String)
        ensures
            r@ == shifted(message@, self@ as int),
    {
        shift_text(message, self.shift)
    }

    /// A forward shift by `26 - shift mod 26`.
    pub fn decipher(&self, message: &str) -> (r: String)
        ensures
            r@ == shifted(message@, inverse_shift(self@ as int)),
    {
        caesar_decipher(message, self.shift)
    }
}

/// The Vigenère cipher with a fixed key, held in lowercase.
pub struct VigenereCipher {
    key: String,
}

impl View for VigenereCipher {
    type V = Seq<char>;

    closed spec fn view(&self) -> Seq<char> {
        self.key@
    }
}

impl VigenereCipher {
    /// The key is made of ASCII letters.
    pub open spec fn well_formed(&self) -> bool {
        is_key(self@)
    }

    pub fn new(key: &str) -> (r: Self)
        requires
            is_key(key@),
        ensures
            r@ == key@.map_values(|c: char| lowered(c)),
            r.well_formed(),
    {
        let lower = to_ascii_lowercase(key);
        VigenereCipher { key: lower }
    }

    pub fn encipher(&self, plaintext: &str) -> (r: String)
        requires
            self.well_formed(),
        ensures
            r@ == vigenere_text(plaintext@, self@, true),
    {
        vigenere_cipher(plaintext, self.key.as_str())
    }

    pub fn decipher(&self, ciphertext: &str) -> (r: String)
        requires
            self.well_formed(),
        ensures
            r@ == vigenere_text(ciphertext@, self@, false),
    {
        vigenere_decipher(ciphertext, self.key.as_str())
    }
}

/// Morse code, with its table in both directions.
pub struct MorseCode {
    morse_code_map: Vec<(char, Vec<char>)>,
    reverse_morse_code_map: Vec<(Vec<char>, char)>,
}

impl MorseCode {
    /// Both tables are the Morse table.
    pub closed spec fn well_formed(&self) -> bool {
        &&& self.morse_code_map.deep_view() == morse_table()
        &&& self.reverse_morse_code_map.deep_view() == reverse_table()
    }

    pub fn new() -> (r: Self)
        ensures
            r.well_formed(),
    {
        MorseCode {
            morse_code_map: create_morse_code_map(),
            reverse_morse_code_map: create_reverse_morse_code_map(),
        }
    }

    pub fn encode(&self, text: &str) -> (r: String)
        requires
            self.well_formed(),
        ensures
            r@ == morse_encoded(uppercase_of(text@)),
    {
        let upper = to_uppercase(text);
        encode_with(&self.morse_code_map, upper.as_str())
    }

    pub fn decode(&self, code: &str) -> (r: String)
        requires
            self.well_formed(),
        ensures
            r@ == morse_decoded(code@),
    {
        decode_with(&self.reverse_morse_code_map, code)
    }
}

/// Atbash, which is its own inverse.
pub struct AtbashCipher;

impl AtbashCipher {
    pub fn new() -> Self {
        AtbashCipher
    }

    pub fn transform(&self, text: &str) -> (r: String)
        ensures
            r@ == mirrored(text@),
    {
        atbash_cipher(text)
    }

    pub fn encipher(&self, plaintext: &str) -> (r: String)
        ensures
            r@ == mirrored(plaintext@),
    {
        self.transform(plaintext)
    }

    pub fn decipher(&self, ciphertext: &str) -> (r: String)
        ensures
            r@ == mirrored(ciphertext@),
    {
        self.transform(ciphertext)
    }
}

/// Letters to alphabet positions and back.
pub struct AlphaNumConverter;

impl AlphaNumConverter {
    pub fn new() -> Self {
        AlphaNumConverter
    }

    pub fn alpha_to_num(&self, text: &str) -> (r: String)
        ensures
            r@ == ordinals(text@),
    {
        alpha2num(text)
    }

    pub fn num_to_alpha(&self, cipher_text: &str) -> (r: String)
        ensures
            r@ == letters_of(cipher_text@),
    {
        num2alpha(cipher_text)
    }
}

} // verus!
