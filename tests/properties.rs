use cipha::{alpha2num, atbash_cipher, caesar_cipher, caesar_decipher, create_morse_code_map,
    create_reverse_morse_code_map, morse_code_cipher, morse_code_decipher,
    morse_encode_uppercased, num2alpha, rail_fence_cipher, rail_fence_decipher, reverse_cipher,
    rot13, vigenere_cipher, vigenere_decipher, AlphaNumConverter, VigenereCipher};

const SAMPLES: [&str; 6] = [
    "",
    "Hello, World!",
    "The quick brown fox jumps over the lazy dog 0123456789",
    "zZaA",
    "naïve café — ünïcödé",
    "WEAREDISCOVEREDSAVEYOURSELF",
];

#[test]
fn rot13_twice_is_identity() {
    for m in SAMPLES.iter() {
        assert_eq!(rot13(rot13(m.to_string())), *m);
    }
    assert_eq!(rot13("abcnopxyz".to_string()), "nopabcklm");
}

#[test]
fn caesar_round_trip_every_shift() {
    for m in SAMPLES.iter() {
        for s in 0..=255u8 {
            let e = caesar_cipher(m.to_string(), s);
            assert_eq!(caesar_decipher(&e, s), *m, "shift {}", s);
        }
    }
}

#[test]
fn caesar_shift_is_taken_modulo_26() {
    assert_eq!(caesar_cipher("Hello".to_string(), 0), "Hello");
    assert_eq!(caesar_cipher("Hello".to_string(), 26), "Hello");
    assert_eq!(caesar_cipher("xyz".to_string(), 29), "abc");
    assert_eq!(caesar_cipher("z".to_string(), 255), "u");
    assert_eq!(caesar_decipher("abc", 3), "xyz");
}

#[test]
fn vigenere_round_trip_and_empty_key() {
    for m in SAMPLES.iter() {
        for k in ["LEMON", "a", "Key", "zzz", "AbCdEfGhIjKlMnOpQrStUvWxYz"].iter() {
            let e = vigenere_cipher(m, k);
            assert_eq!(vigenere_decipher(&e, k), *m);
        }
        assert_eq!(vigenere_cipher(m, ""), *m);
        assert_eq!(vigenere_decipher(m, ""), *m);
    }
}

#[test]
fn vigenere_skips_non_letters_and_ignores_key_case() {
    assert_eq!(vigenere_cipher("ATTACK AT DAWN", "LEMON"), "LXFOPV EF RNHR");
    assert_eq!(vigenere_cipher("attackatdawn", "lemon"), "lxfopvefrnhr");
    assert_eq!(vigenere_cipher("ATTACKATDAWN", "lEmOn"), "LXFOPVEFRNHR");
    assert_eq!(vigenere_decipher("LXFOPVEFRNHR", "LEMON"), "ATTACKATDAWN");
    let v = VigenereCipher::new("LeMoN");
    assert_eq!(v.decipher("LXFOPVEFRNHR"), "ATTACKATDAWN");
}

#[test]
fn atbash_twice_is_identity() {
    for m in SAMPLES.iter() {
        assert_eq!(atbash_cipher(&atbash_cipher(m)), *m);
    }
    assert_eq!(atbash_cipher("abcxyz ABCXYZ 9"), "zyxcba ZYXCBA 9");
}

#[test]
fn reverse_reverses_characters() {
    assert_eq!(reverse_cipher("Hello, World!"), "!dlroW ,olleH");
    assert_eq!(reverse_cipher("añb"), "bña");
    assert_eq!(reverse_cipher(""), "");
    for m in SAMPLES.iter() {
        assert_eq!(reverse_cipher(&reverse_cipher(m)), *m);
    }
}

#[test]
fn morse_round_trip_on_table_symbols() {
    let m = "SOS HELP XYZ 0123456789 .,?;:-/'\"=_+()";
    assert_eq!(morse_code_decipher(&morse_code_cipher(m)), m);
    assert_eq!(morse_code_decipher(&morse_code_cipher("sos help")), "SOS HELP");
}

#[test]
fn morse_space_is_slash_and_unknown_is_skipped() {
    assert_eq!(morse_code_cipher("A B"), ".- / -...");
    assert_eq!(morse_code_cipher("H~I"), ".... ..");
    assert_eq!(morse_code_cipher("~~"), "");
    assert_eq!(morse_code_cipher(""), "");
    assert_eq!(morse_code_decipher(".- / -..."), "A B");
    assert_eq!(morse_code_decipher(".- ...---... -..."), "AB");
    assert_eq!(morse_code_decipher(".-  -..."), "AB");
    assert_eq!(morse_code_decipher(""), "");
}

#[test]
fn morse_codes_are_unique() {
    assert_eq!(morse_code_cipher("X"), "-..-");
    assert_eq!(morse_code_decipher("-..-"), "X");
    assert_eq!(morse_code_decipher(&morse_code_cipher("x")), "X");
    assert_eq!(morse_code_cipher("*"), "");
    let map = create_morse_code_map();
    let rev = create_reverse_morse_code_map();
    for (symbol, code) in map.iter() {
        let found: Vec<char> = rev.iter().filter(|(c, _)| c == code).map(|(_, s)| *s).collect();
        assert_eq!(found, vec![*symbol]);
    }
}

#[test]
fn morse_uppercases_first() {
    assert_eq!(morse_code_cipher("hello"), ".... . .-.. .-.. ---");
    assert_eq!(morse_encode_uppercased("hello"), "");
    assert_eq!(morse_encode_uppercased("HELLO"), ".... . .-.. .-.. ---");
}

#[test]
fn morse_tables_hold_every_entry() {
    let map = create_morse_code_map();
    assert_eq!(map.len(), 51);
    assert_eq!(map[0], ('A', vec!['.', '-']));
    assert_eq!(map[36], (' ', vec!['/']));
    let rev = create_reverse_morse_code_map();
    assert_eq!(rev.len(), 51);
    assert_eq!(rev[50], (vec!['-', '.', '-', '-', '.', '-'], ')'));
}

#[test]
fn ordinals_round_trip_on_letters() {
    for m in ["HelloWorld", "abcxyz", "ABCXYZ", "a", ""].iter() {
        assert_eq!(num2alpha(&alpha2num(m)), m.to_ascii_lowercase());
    }
}

#[test]
fn ordinals_read_back_spaces_digits_and_punctuation() {
    assert_eq!(num2alpha(&alpha2num("Hello World")), "helloworld");
    assert_eq!(num2alpha(&alpha2num("Agent 007 x9")), "agentgxi");
    assert_eq!(num2alpha(&alpha2num("Hi, there!")), "hithere");
    assert_eq!(num2alpha(&alpha2num("  ")), "");
    assert_eq!(num2alpha(&alpha2num("0")), "");
}

#[test]
fn ordinals_lose_spaces_and_digits() {
    assert_eq!(alpha2num("a b"), "1   2");
    assert_eq!(num2alpha(&alpha2num("a b")), "ab");
    assert_eq!(alpha2num("a1"), "1 1");
    assert_eq!(num2alpha(&alpha2num("a1")), "aa");
}

#[test]
fn alpha_to_num_tokens() {
    assert_eq!(alpha2num(""), "");
    assert_eq!(alpha2num("Zz"), "26 26");
    assert_eq!(alpha2num(" a"), "  1");
    assert_eq!(alpha2num("é!"), "é !");
}

#[test]
fn num_to_alpha_ranges() {
    assert_eq!(num2alpha("1 26 27 52"), "azAZ");
    assert_eq!(num2alpha("0 53 100"), "");
    assert_eq!(num2alpha("99 1"), "a");
    assert_eq!(num2alpha("99999999999999999999999 2"), "b");
    assert_eq!(num2alpha("1,2"), "l");
    assert_eq!(num2alpha("8\t5\n12\u{3000}12"), "hell");
    assert_eq!(num2alpha("05"), "e");
    assert_eq!(num2alpha("   "), "");
    let c = AlphaNumConverter::new();
    assert_eq!(c.num_to_alpha("28"), "B");
}

#[test]
fn rail_fence_round_trip() {
    for m in SAMPLES.iter() {
        for r in 1..12usize {
            let e = rail_fence_cipher(m, r);
            assert_eq!(rail_fence_decipher(&e, r), *m, "rails {}", r);
        }
    }
}

#[test]
fn rail_fence_small_cases() {
    assert_eq!(rail_fence_cipher("abcdef", 2), "acebdf");
    assert_eq!(rail_fence_cipher("abcdefg", 4), "agbfced");
    assert_eq!(rail_fence_decipher("agbfced", 4), "abcdefg");
    assert_eq!(rail_fence_cipher("abc", 1), "abc");
    assert_eq!(rail_fence_cipher("abc", 3), "abc");
    assert_eq!(rail_fence_cipher("abc", 9), "abc");
    assert_eq!(rail_fence_decipher("abc", 3), "abc");
    assert_eq!(rail_fence_cipher("", 2), "");
}
