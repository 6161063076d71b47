use cipha::{decode_message, encode_message};

fn printed(result: String) -> String {
    format!("{}\n", result)
}

#[test]
fn test_cli_encode_rot13() {
    let out = encode_message("rot13".to_string(), "Hello, World!".to_string(), None, None);
    assert_eq!(printed(out), "Uryyb, Jbeyq!\n");
}

#[test]
fn test_cli_encode_caesar() {
    let out = encode_message("caesar".to_string(), "Hello, World!".to_string(), Some(3), None);
    assert_eq!(printed(out), "Khoor, Zruog!\n");
}

#[test]
fn test_cli_decode_rot13() {
    let out = decode_message("rot13".to_string(), "Uryyb, Jbeyq!".to_string(), None, None);
    assert_eq!(printed(out), "Hello, World!\n");
}

#[test]
fn test_cli_decode_caesar() {
    let out = decode_message("caesar".to_string(), "Khoor, Zruog!".to_string(), Some(3), None);
    assert_eq!(printed(out), "Hello, World!\n");
}

#[test]
fn dispatch_unknown_cipher_gives_sentinel() {
    let out = encode_message("enigma".to_string(), "abc".to_string(), None, None);
    assert_eq!(out, "Unsupported cipher");
    let out = decode_message("ROT13".to_string(), "abc".to_string(), None, None);
    assert_eq!(out, "Unsupported cipher");
}

#[test]
fn dispatch_caesar_default_shift_is_three() {
    let out = encode_message("caesar".to_string(), "abc".to_string(), None, None);
    assert_eq!(out, "def");
    let back = decode_message("caesar".to_string(), out, None, None);
    assert_eq!(back, "abc");
}

#[test]
fn dispatch_vigenere_without_key_is_identity() {
    let out = encode_message("vigenere".to_string(), "Attack at dawn".to_string(), None, None);
    assert_eq!(out, "Attack at dawn");
}

#[test]
fn dispatch_each_cipher_round_trips() {
    let names = ["rot13", "caesar", "reverse", "vigenere", "atbash"];
    for name in names.iter() {
        let msg = "Meet me at Noon, 12 sharp!".to_string();
        let enc = encode_message(name.to_string(), msg.clone(), Some(7), Some("Key".to_string()));
        let dec = decode_message(name.to_string(), enc, Some(7), Some("Key".to_string()));
        assert_eq!(dec, msg, "cipher {}", name);
    }
}

#[test]
fn dispatch_gematria_and_morse() {
    let enc = encode_message("gematria".to_string(), "Ab".to_string(), None, None);
    assert_eq!(enc, "1 2");
    let dec = decode_message("gematria".to_string(), enc, None, None);
    assert_eq!(dec, "ab");
    let enc = encode_message("morse".to_string(), "sos".to_string(), None, None);
    assert_eq!(enc, "... --- ...");
    let dec = decode_message("morse".to_string(), enc, None, None);
    assert_eq!(dec, "SOS");
}
