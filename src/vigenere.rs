//! The Vigenère running-key cipher.
use vstd::prelude::*;
use crate::alphabet::{chars_of, is_letter, lemma_shift_inverse, lemma_shift_keeps_class, lowered,
    shift_char, shift_letter};

verus! {

/// A usable key: every character is an ASCII letter. The empty key is usable
/// too; it leaves text unchanged.
pub open spec fn is_key(key: Seq<char>) -> bool {
    forall|i: int| 0 <= i < key.len() ==> is_letter(#[trigger] key[i])
}

/// How many ASCII letters stand in `s[0..i]`: the key-stream cursor at `i`.
pub open spec fn letters_before(s: Seq<char>, i: int) -> nat
    decreases i,
{
    if i <= 0 {
        0
    } else {
        letters_before(s, i - 1) + if is_letter(s[i - 1]) {
            1nat
        } else {
            0nat
        }
    }
}

/// The shift that the key gives at cursor `j`: the 0-based alphabet position
/// of the key's character at `j mod len`, taken in lowercase.
pub open spec fn key_shift(key: Seq<char>, j: int) -> int {
    lowered(key[j % key.len() as int]) as int - 'a' as int
}

/// Vigenère encipherment (`forward`) or decipherment of `s` with `key`.
pub open spec fn vigenere_text(s: Seq<char>, key: Seq<char>, forward: bool) -> Seq<char> {
    if key.len() == 0 {
        s
    } else {
        Seq::new(
            s.len(),
            |i: int|
                {
                    let k = key_shift(key, letters_before(s, i) as int);
                    if forward {
                        shift_letter(s[i], k)
                    } else {
                        shift_letter(s[i], 26 - k)
                    }
                },
        )
    }
}

/// The text with each ASCII uppercase letter made lowercase.
pub fn to_ascii_lowercase(s: &str) -> (r: String)
    ensures
        r@ == s@.map_values(|c: char| lowered(c)),
{
    let cs = chars_of(s);
    let mut out = String::new();
    let mut i: usize = 0;
    while i < cs.len()
        invariant
            cs@ == s@,
            i <= cs.len(),
            out@.len() == i,
            forall|j: int| 0 <= j < i ==> out@[j] == lowered(s@[j]),
        decreases cs.len() - i,
    {
        let c = cs[i];
        if 'A' <= c && c <= 'Z' {
            out.push((c as u8 + 32) as char);
        } else {
            out.push(c);
        }
        i = i + 1;
    }
    assert(out@ =~= s@.map_values(|c: char| lowered(c)));
    out
}

fn key_shifts(key: &Vec<char>) -> (r: Vec<u8>)
    requires
        is_key(key@),
    ensures
        r@.len() == key@.len(),
        forall|j: int| 0 <= j < key@.len() ==> #[trigger] r@[j] as int == lowered(key@[j]) as int
            - 'a' as int,
        forall|j: int| 0 <= j < key@.len() ==> #[trigger] r@[j] < 26,
{
    let mut r: Vec<u8> = Vec::new();
    let mut i: usize = 0;
    while i < key.len()
        invariant
            is_key(key@),
            i <= key.len(),
            r@.len() == i,
            forall|j: int| 0 <= j < i ==> #[trigger] r@[j] as int == lowered(key@[j]) as int
                - 'a' as int,
            forall|j: int| 0 <= j < i ==> #[trigger] r@[j] < 26,
        decreases key.len() - i,
    {
        let c = key[i];
        assert(is_letter(key@[i as int]));
        if c <= 'Z' {
            r.push((c as u32 - 'A' as u32) as u8);
        } else {
            r.push((c as u32 - 'a' as u32) as u8);
        }
        i = i + 1;
    }
    r
}

fn vigenere_apply(text: &str, key: &str, forward: bool) -> (r: String)
    requires
        is_key(key@),
    ensures
        r@ == vigenere_text(text@, key@, forward),
{
    let kc = chars_of(key);
    if kc.len() == 0 {
        let mut same = String::new();
        same.append(text);
        return same;
    }
    let shifts = key_shifts(&kc);
    let klen = shifts.len();
    let cs = chars_of(text);
    let ghost s = text@;
    let mut out = String::new();
    let mut index: usize = 0;
    let mut i: usize = 0;
    while i < cs.len()
        invariant
            cs@ == s,
            kc@ == key@,
            klen == key@.len(),
            klen > 0,
            shifts@.len() == klen,
            forall|j: int| 0 <= j < klen ==> #[trigger] shifts@[j] as int == lowered(key@[j]) as int
                - 'a' as int,
            forall|j: int| 0 <= j < klen ==> #[trigger] shifts@[j] < 26,
            i <= cs.len(),
            index == letters_before(s, i as int),
            index <= i,
            out@.len() == i,
            forall|j: int| 0 <= j < i ==> out@[j] == vigenere_text(s, key@, forward)[j],
        decreases cs.len() - i,
    {
        let c = cs[i];
        let k = shifts[index % klen];
        if ('a' <= c && c <= 'z') || ('A' <= c && c <= 'Z') {
            if forward {
                out.push(shift_char(c, k));
            } else {
                out.push(shift_char(c, 26 - k));
            }
            index = index + 1;
        } else {
            out.push(c);
        }
        i = i + 1;
    }
    assert(out@ =~= vigenere_text(s, key@, forward));
    out
}

/// Vigenère encipherment: the i-th ASCII letter of the text moves forward by the
/// alphabet position of the key's character at `i mod key length`. Other
/// characters are copied and do not advance the key. An empty key changes
/// nothing.
pub fn vigenere_cipher(plaintext: &str, key: &str) -> (r: String)
    requires
        is_key(key@),
    ensures
        r@ == vigenere_text(plaintext@, key@, true),
{
    vigenere_apply(plaintext, key, true)
}

/// Vigenère decipherment: the same key stream, each letter moved backward.
pub fn vigenere_decipher(ciphertext: &str, key: &str) -> (r: String)
    requires
        is_key(key@),
    ensures
        r@ == vigenere_text(ciphertext@, key@, false),
{
    vigenere_apply(ciphertext, key, false)
}

proof fn lemma_letters_before_same(a: Seq<char>, b: Seq<char>, i: int)
    requires
        a.len() == b.len(),
        0 <= i <= a.len(),
        forall|j: int| 0 <= j < a.len() ==> is_letter(#[trigger] a[j]) == is_letter(b[j]),
    ensures
        letters_before(a, i) == letters_before(b, i),
    decreases i,
{
    if i > 0 {
        lemma_letters_before_same(a, b, i - 1);
    }
}

proof fn lemma_key_shift_range(key: Seq<char>, j: int)
    requires
        is_key(key),
        key.len() > 0,
        j >= 0,
    ensures
        0 <= key_shift(key, j) < 26,
{
    let len = key.len() as int;
    assert(0 <= j % len < len) by (nonlinear_arith)
        requires
            len > 0,
    ;
    assert(is_letter(key[j % len]));
}

/// Deciphering with the same key undoes enciphering; the empty key changes
/// nothing.
pub proof fn vigenere_round_trip(m: Seq<char>, key: Seq<char>)
    requires
        is_key(key),
    ensures
        vigenere_text(vigenere_text(m, key, true), key, false) == m,
        vigenere_text(m, Seq::empty(), true) == m,
{
    if key.len() > 0 {
        let e = vigenere_text(m, key, true);
        assert forall|j: int| 0 <= j < m.len() implies is_letter(#[trigger] e[j]) == is_letter(
            m[j],
        ) by {
            lemma_shift_keeps_class(m[j], key_shift(key, letters_before(m, j) as int));
            lemma_key_shift_range(key, letters_before(m, j) as int);
        }
        assert forall|i: int| 0 <= i < m.len() implies #[trigger] vigenere_text(e, key, false)[i]
            == m[i] by {
            lemma_letters_before_same(e, m, i);
            let k = key_shift(key, letters_before(m, i) as int);
            lemma_key_shift_range(key, letters_before(m, i) as int);
            lemma_shift_inverse(m[i], k);
            assert(k % 26 == k);
        }
        assert(vigenere_text(e, key, false) =~= m);
    }
}

} // verus!
