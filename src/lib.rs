//! Classical text ciphers — ROT13, Caesar, Vigenère, Atbash, Morse code, the
//! letter/number converter, the rail fence and reversal — each stated over a
//! mathematical model of the text and verified against it, with the round-trip
//! laws that hold between enciphering and deciphering.
pub mod alphabet;
pub mod tokens;
pub mod substitution;
pub mod vigenere;
pub mod rail_fence;
pub mod gematria;
pub mod morse;
pub mod ciphers;
pub mod dispatch;

pub use ciphers::{AlphaNumConverter, AtbashCipher, CaesarCipher, MorseCode, Rot13Cipher,
    VigenereCipher};
pub use dispatch::{decode_message, encode_message};
pub use gematria::{alpha2num, num2alpha};
pub use morse::{create_morse_code_map, create_reverse_morse_code_map, morse_code_cipher,
    morse_code_decipher, morse_encode_uppercased};
pub use rail_fence::{rail_fence_cipher, rail_fence_decipher};
pub use substitution::{atbash_cipher, atbash_decipher, caesar_cipher, caesar_decipher,
    reverse_cipher, rot13};
pub use vigenere::{vigenere_cipher, vigenere_decipher};
