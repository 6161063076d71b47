use cipha::{atbash_cipher, atbash_decipher, caesar_cipher, morse_code_cipher, morse_code_decipher,
    rail_fence_cipher, rail_fence_decipher, rot13, vigenere_cipher};

#[test]
fn test_rot13() {
    let input = "Hello, World!".to_string();
    let expected = "Uryyb, Jbeyq!".to_string();
    assert_eq!(rot13(input), expected);
}

#[test]
fn test_caesar_cipher() {
    let input = "Hello, World!".to_string();
    let shift = 3;
    let expected = "Khoor, Zruog!".to_string();
    assert_eq!(caesar_cipher(input, shift), expected);
}

#[test]
fn test_vigenere_cipher() {
    let plaintext = "ATTACKATDAWN".to_string();
    let key = "LEMON".to_string();
    let expected = "LXFOPVEFRNHR".to_string();
    assert_eq!(vigenere_cipher(&plaintext, &key), expected);
}

#[test]
fn test_morse_code_cipher() {
    let input = "HELLO".to_string();
    let expected = ".... . .-.. .-.. ---".to_string();
    assert_eq!(morse_code_cipher(&input), expected);
}

#[test]
fn test_morse_code_decipher() {
    let input = ".... . .-.. .-.. ---".to_string();
    let expected = "HELLO".to_string();
    assert_eq!(morse_code_decipher(&input), expected);
}

#[test]
fn test_atbash_cipher() {
    let plaintext = "ATTACKATDAWN";
    let ciphertext = atbash_cipher(plaintext);
    assert_eq!(ciphertext, "ZGGZXPZGWZDM");

    let decrypted_text = atbash_decipher(&ciphertext);
    assert_eq!(decrypted_text, plaintext);
}

#[test]
fn test_rail_fence_cipher() {
    let plaintext = "WEAREDISCOVEREDSAVEYOURSELF";
    let rails = 3;
    let ciphertext = rail_fence_cipher(plaintext, rails);
    assert_eq!(ciphertext, "WECRAOEERDSOEESVYUSLAIVDERF");

    let decrypted_text = rail_fence_decipher(&ciphertext, rails);
    assert_eq!(decrypted_text, plaintext);
}
