//! Letter-by-letter substitutions: ROT13, Caesar, Atbash, and reversal.
use vstd::prelude::*;
use crate::alphabet::{chars_of, mirror_char, mirror_letter, shift_char, shift_letter,
    lemma_shift_inverse};

verus! {

/// Every ASCII letter of `s` shifted forward by `k` places within its case.
pub open spec fn shifted(s: Seq<char>, k: int) -> Seq<char> {
    s.map_values(|c: char| shift_letter(c, k))
}

pub open spec fn rot13_text(s: Seq<char>) -> Seq<char> {
    shifted(s, 13)
}

/// The forward shift that undoes a shift by `k`.
pub open spec fn inverse_shift(k: int) -> int {
    26 - k % 26
}

/// Every ASCII letter of `s` mirrored within its case.
pub open spec fn mirrored(s: Seq<char>) -> Seq<char> {
    s.map_values(|c: char| mirror_letter(c))
}

pub(crate) fn shift_text(s: &str, k: u8) -> (r: String)
    ensures
        r@ == shifted(s@, k as int),
{
    let cs = chars_of(s);
    let mut out = String::new();
    let mut i: usize = 0;
    while i < cs.len()
        invariant
            cs@ == s@,
            i <= cs.len(),
            out@.len() == i,
            forall|j: int| 0 <= j < i ==> out@[j] == shift_letter(s@[j], k as int),
        decreases cs.len() - i,
    {
        out.push(shift_char(cs[i], k));
        i += 1;
    }
    assert(out@ =~= shifted(s@, k as int));
    out
}

/// ROT13: each ASCII letter moves 13 places along its case's ring.
pub fn rot13(message: String) -> (r: String)
    ensures
        r@ == rot13_text(message@),
{
    shift_text(message.as_str(), 13)
}

/// Caesar encipherment: each ASCII letter moves `shift` places forward.
pub fn caesar_cipher(message: String, shift: u8) -> (r: String)
    ensures
        r@ == shifted(message@, shift as int),
{
    shift_text(message.as_str(), shift)
}

/// Caesar decipherment: a forward shift by `26 - shift mod 26`.
pub fn caesar_decipher(message: &str, shift: u8) -> (r: String)
    ensures
        r@ == shifted(message@, inverse_shift(shift as int)),
{
    shift_text(message, 26 - shift % 26)
}

/// The characters of `message` in reverse order.
pub fn reverse_cipher(message: &str) -> (r: String)
    ensures
        r@ == message@.reverse(),
{
    let cs = chars_of(message);
    let mut out = String::new();
    let mut i: usize = cs.len();
    while i > 0
        invariant
            cs@ == message@,
            i <= cs.len(),
            out@.len() == cs.len() - i,
            forall|j: int| 0 <= j < cs.len() - i ==> out@[j] == message@[cs.len() - 1 - j],
        decreases i,
    {
        i -= 1;
        out.push(cs[i]);
    }
    assert(out@ =~= message@.reverse());
    out
}

/// Atbash: each ASCII letter is replaced by its mirror in the same case.
pub fn atbash_cipher(plaintext: &str) -> (r: String)
    ensures
        r@ == mirrored(plaintext@),
{
    let cs = chars_of(plaintext);
    let mut out = String::new();
    let mut i: usize = 0;
    while i < cs.len()
        invariant
            cs@ == plaintext@,
            i <= cs.len(),
            out@.len() == i,
            forall|j: int| 0 <= j < i ==> out@[j] == mirror_letter(plaintext@[j]),
        decreases cs.len() - i,
    {
        out.push(mirror_char(cs[i]));
        i += 1;
    }
    assert(out@ =~= mirrored(plaintext@));
    out
}

/// Atbash is its own inverse, so deciphering is the same mapping.
pub fn atbash_decipher(ciphertext: &str) -> (r: String)
    ensures
        r@ == mirrored(ciphertext@),
{
    atbash_cipher(ciphertext)
}

/// Applying ROT13 twice gives back the same text.
pub proof fn rot13_is_involution(m: Seq<char>)
    ensures
        rot13_text(rot13_text(m)) == m,
{
    assert forall|i: int| 0 <= i < m.len() implies #[trigger] rot13_text(rot13_text(m))[i]
        == m[i] by {
        lemma_shift_inverse(m[i], 13);
    }
    assert(rot13_text(rot13_text(m)) =~= m);
}

/// Caesar decipherment with the same shift undoes Caesar encipherment.
pub proof fn caesar_round_trip(m: Seq<char>, shift: int)
    requires
        shift >= 0,
    ensures
        shifted(shifted(m, shift), inverse_shift(shift)) == m,
{
    assert forall|i: int| 0 <= i < m.len() implies #[trigger] shifted(
        shifted(m, shift),
        inverse_shift(shift),
    )[i] == m[i] by {
        lemma_shift_inverse(m[i], shift);
    }
    assert(shifted(shifted(m, shift), inverse_shift(shift)) =~= m);
}

/// Applying Atbash twice gives back the same text.
pub proof fn atbash_is_involution(m: Seq<char>)
    ensures
        mirrored(mirrored(m)) == m,
{
    assert(mirrored(mirrored(m)) =~= m);
}

/// Reversing twice gives back the same text.
pub proof fn reverse_is_involution(m: Seq<char>)
    ensures
        m.reverse().reverse() == m,
{
    assert(m.reverse().reverse() =~= m);
}

} // verus!
