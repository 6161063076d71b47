use cipha::{AlphaNumConverter, AtbashCipher, CaesarCipher, MorseCode, Rot13Cipher, VigenereCipher};

#[test]
fn ciphers_test_rot13_encipher() {
    let rot13 = Rot13Cipher::new();
    let input = "Hello, World!";
    let expected = "Uryyb, Jbeyq!";
    assert_eq!(rot13.encipher(input), expected);
}

#[test]
fn ciphers_test_rot13_decipher() {
    let rot13 = Rot13Cipher::new();
    let input = "Uryyb, Jbeyq!";
    let expected = "Hello, World!";
    assert_eq!(rot13.decipher(input), expected);
}

#[test]
fn ciphers_test_caesar_encipher() {
    let caesar = CaesarCipher::new(3);
    let input = "Hello, World!";
    let expected = "Khoor, Zruog!";
    assert_eq!(caesar.encipher(input), expected);
}

#[test]
fn ciphers_test_caesar_decipher() {
    let caesar = CaesarCipher::new(3);
    let input = "Khoor, Zruog!";
    let expected = "Hello, World!";
    assert_eq!(caesar.decipher(input), expected);
}

#[test]
fn ciphers_test_vigenere_encipher() {
    let vigenere = VigenereCipher::new("LEMON");
    let input = "ATTACKATDAWN";
    let expected = "LXFOPVEFRNHR";
    assert_eq!(vigenere.encipher(input), expected);
}

#[test]
fn ciphers_test_morse_code_encode() {
    let morse_code = MorseCode::new();
    let input = "HELLO";
    let expected = ".... . .-.. .-.. ---";
    assert_eq!(morse_code.encode(input), expected);
}

#[test]
fn ciphers_test_morse_code_decode() {
    let morse_code = MorseCode::new();
    let input = ".... . .-.. .-.. ---";
    let expected = "HELLO";
    assert_eq!(morse_code.decode(input), expected);
}

#[test]
fn ciphers_test_atbash_encipher() {
    let atbash = AtbashCipher::new();
    let input = "ATTACKATDAWN";
    let expected = "ZGGZXPZGWZDM";
    assert_eq!(atbash.encipher(input), expected);
}

#[test]
fn ciphers_test_atbash_decipher() {
    let atbash = AtbashCipher::new();
    let input = "ZGGZXPZGWZDM";
    let expected = "ATTACKATDAWN";
    assert_eq!(atbash.decipher(input), expected);
}

#[test]
fn ciphers_test_alpha_to_num() {
    let converter = AlphaNumConverter::new();
    let input = "Hello, World!";
    let expected = "8 5 12 12 15 ,   23 15 18 12 4 !";
    assert_eq!(converter.alpha_to_num(input), expected);
}

#[test]
fn ciphers_test_num_to_alpha() {
    let converter = AlphaNumConverter::new();
    let input = "8 5 12 12 15 , 23 15 18 12 4 !";
    let expected = "helloworld";
    assert_eq!(converter.num_to_alpha(input), expected);
}
