//! Letter classes, shifts within the 26-letter rings, and text buffers.
use vstd::prelude::*;

verus! {

/// Relies on `String::push`: appends one character to the string.
pub assume_specification[ String::push ](s: &mut String, ch: char)
    ensures
        final(s)@ == old(s)@.push(ch),
;

pub open spec fn is_lower(c: char) -> bool {
    'a' <= c && c <= 'z'
}

pub open spec fn is_upper(c: char) -> bool {
    'A' <= c && c <= 'Z'
}

pub open spec fn is_letter(c: char) -> bool {
    is_lower(c) || is_upper(c)
}

/// Position of an ASCII letter in its case's alphabet, from 1 to 26.
pub open spec fn letter_pos(c: char) -> int {
    if is_lower(c) {
        c as int - 'a' as int + 1
    } else if is_upper(c) {
        c as int - 'A' as int + 1
    } else {
        0
    }
}

/// An ASCII letter in lowercase.
pub open spec fn lowered(c: char) -> char {
    if is_upper(c) {
        (c as int + 32) as char
    } else {
        c
    }
}

/// Shifts an ASCII letter forward by `k` places within its own case; any other
/// character is returned unchanged.
pub open spec fn shift_letter(c: char, k: int) -> char {
    if is_lower(c) {
        (((c as int - 'a' as int + k) % 26) + 'a' as int) as char
    } else if is_upper(c) {
        (((c as int - 'A' as int + k) % 26) + 'A' as int) as char
    } else {
        c
    }
}

/// Mirrors an ASCII letter to the opposite end of its case's alphabet; any
/// other character is returned unchanged.
pub open spec fn mirror_letter(c: char) -> char {
    if is_lower(c) {
        ('a' as int + 25 - (c as int - 'a' as int)) as char
    } else if is_upper(c) {
        ('A' as int + 25 - (c as int - 'A' as int)) as char
    } else {
        c
    }
}

pub fn shift_char(c: char, k: u8) -> (r: char)
    ensures
        r == shift_letter(c, k as int),
{
    if 'a' <= c && c <= 'z' {
        let off: u32 = ((c as u32 - 'a' as u32) + k as u32) % 26;
        (97u8 + off as u8) as char
    } else if 'A' <= c && c <= 'Z' {
        let off: u32 = ((c as u32 - 'A' as u32) + k as u32) % 26;
        (65u8 + off as u8) as char
    } else {
        c
    }
}

pub fn mirror_char(c: char) -> (r: char)
    ensures
        r == mirror_letter(c),
{
    if 'a' <= c && c <= 'z' {
        (97u8 + (25 - (c as u32 - 'a' as u32)) as u8) as char
    } else if 'A' <= c && c <= 'Z' {
        (65u8 + (25 - (c as u32 - 'A' as u32)) as u8) as char
    } else {
        c
    }
}

pub proof fn lemma_shift_keeps_class(c: char, k: int)
    requires
        k >= 0,
    ensures
        is_lower(shift_letter(c, k)) == is_lower(c),
        is_upper(shift_letter(c, k)) == is_upper(c),
        is_letter(shift_letter(c, k)) == is_letter(c),
{
}

/// Shifting forward by `k` and then by `26 - k mod 26` gives the letter back.
pub proof fn lemma_shift_inverse(c: char, k: int)
    requires
        k >= 0,
    ensures
        shift_letter(shift_letter(c, k), 26 - k % 26) == c,
{
    if is_lower(c) {
        let x = c as int - 'a' as int;
        assert(((x + k) % 26 + 26 - k % 26) % 26 == x) by (nonlinear_arith)
            requires
                0 <= x < 26,
                k >= 0,
        ;
    } else if is_upper(c) {
        let x = c as int - 'A' as int;
        assert(((x + k) % 26 + 26 - k % 26) % 26 == x) by (nonlinear_arith)
            requires
                0 <= x < 26,
                k >= 0,
        ;
    }
}

/// The characters of `s`, in order.
pub fn chars_of(s: &str) -> (r: Vec<char>)
    ensures
        r@ == s@,
{
    let mut r: Vec<char> = Vec::new();
    for c in it: s.chars()
        invariant
            r@ == it.seq().subrange(0, it.index() as int),
    {
        r.push(c);
    }
    r
}

/// Whether two character sequences are equal.
pub fn same_chars(a: &Vec<char>, b: &Vec<char>) -> (r: bool)
    ensures
        r == (a@ == b@),
{
    if a.len() != b.len() {
        return false;
    }
    let mut i: usize = 0;
    while i < a.len()
        invariant
            a@.len() == b@.len(),
            i <= a.len(),
            forall|j: int| 0 <= j < i ==> a@[j] == b@[j],
        decreases a.len() - i,
    {
        if a[i] != b[i] {
            return false;
        }
        i = i + 1;
    }
    assert(a@ =~= b@);
    true
}

/// Whether two texts hold the same characters.
pub fn same_text(a: &str, b: &str) -> (r: bool)
    ensures
        r == (a@ == b@),
{
    same_chars(&chars_of(a), &chars_of(b))
}

} // verus!
