//! The ordinal converter: letters to their 1-based alphabet positions and back.
use vstd::prelude::*;
use crate::alphabet::{chars_of, is_letter, letter_pos, lowered};
use crate::tokens::{join_spaced, lemma_split_extend, lemma_split_len, none_where, split_where};

verus! {

pub open spec fn digit_char(d: int) -> char {
    (d + '0' as int) as char
}

pub open spec fn is_digit(c: char) -> bool {
    '0' <= c && c <= '9'
}

/// Decimal notation of `n`, without leading zeros.
pub open spec fn decimal(n: nat) -> Seq<char>
    decreases n,
{
    if n < 10 {
        seq![digit_char(n as int)]
    } else {
        decimal(n / 10).push(digit_char((n % 10) as int))
    }
}

/// What one character becomes: a letter its position, anything else itself.
pub open spec fn ordinal_token(c: char) -> Seq<char> {
    if is_letter(c) {
        decimal(letter_pos(c) as nat)
    } else {
        seq![c]
    }
}

/// The encoding of a whole text: one token per character, separated by spaces.
pub open spec fn ordinals(s: Seq<char>) -> Seq<char> {
    join_spaced(s.map_values(|c: char| ordinal_token(c)))
}

/// Characters with the Unicode White_Space property.
pub open spec fn is_white_space(c: char) -> bool {
    ||| c == ' '
    ||| '\t' <= c && c <= '\r'
    ||| c == '\u{85}'
    ||| c == '\u{a0}'
    ||| c == '\u{1680}'
    ||| '\u{2000}' <= c && c <= '\u{200a}'
    ||| c == '\u{2028}'
    ||| c == '\u{2029}'
    ||| c == '\u{202f}'
    ||| c == '\u{205f}'
    ||| c == '\u{3000}'
}

/// The number written by the decimal digits of `w`; other characters are
/// passed over, and a word without digits stands for 0.
pub open spec fn digits_value(w: Seq<char>) -> nat
    decreases w.len(),
{
    if w.len() == 0 {
        0
    } else if is_digit(w.last()) {
        digits_value(w.drop_last()) * 10 + (w.last() as nat - '0' as nat) as nat
    } else {
        digits_value(w.drop_last())
    }
}

/// 1..26 are the lowercase letters, 27..52 the uppercase ones; any other
/// number gives nothing.
pub open spec fn letter_for(n: int) -> Seq<char> {
    if 1 <= n <= 26 {
        seq![('a' as int + n - 1) as char]
    } else if 27 <= n <= 52 {
        seq![('A' as int + n - 27) as char]
    } else {
        Seq::empty()
    }
}

/// The letters of a sequence of whitespace-separated words.
pub open spec fn word_letters(words: Seq<Seq<char>>) -> Seq<char>
    decreases words.len(),
{
    if words.len() == 0 {
        Seq::empty()
    } else {
        word_letters(words.drop_last()) + letter_for(digits_value(words.last()) as int)
    }
}

/// The decoding of a whole text.
pub open spec fn letters_of(s: Seq<char>) -> Seq<char> {
    word_letters(split_where(s, |c: char| is_white_space(c)))
}

fn is_whitespace_char(c: char) -> (r: bool)
    ensures
        r == is_white_space(c),
{
    c == ' ' || ('\t' <= c && c <= '\r') || c == '\u{85}' || c == '\u{a0}' || c == '\u{1680}'
        || ('\u{2000}' <= c && c <= '\u{200a}') || c == '\u{2028}' || c == '\u{2029}' || c
        == '\u{202f}' || c == '\u{205f}' || c == '\u{3000}'
}

fn digit_of(d: u32) -> (r: char)
    requires
        d < 10,
    ensures
        r == digit_char(d as int),
{
    (48u8 + d as u8) as char
}

fn ordinal_letter(n: u32) -> (r: Option<char>)
    ensures
        r matches Some(c) ==> letter_for(n as int) == seq![c],
        r is None ==> letter_for(n as int) == Seq::<char>::empty(),
{
    if 1 <= n && n <= 26 {
        Some((96u8 + n as u8) as char)
    } else if 27 <= n && n <= 52 {
        Some((38u8 + n as u8) as char)
    } else {
        None
    }
}

/// Writes each character's token, with a space between each two tokens: an
/// ASCII letter becomes its position in its case's alphabet (1 to 26), any
/// other character stays as it is.
pub fn alpha2num(text: &str) -> (r: String)
    ensures
        r@ == ordinals(text@),
{
    let cs = chars_of(text);
    let ghost s = text@;
    let ghost toks = s.map_values(|c: char| ordinal_token(c));
    let mut out = String::new();
    let mut i: usize = 0;
    while i < cs.len()
        invariant
            cs@ == s,
            toks == s.map_values(|c: char| ordinal_token(c)),
            i <= cs.len(),
            out@ == join_spaced(toks.take(i as int)),
        decreases cs.len() - i,
    {
        let ghost before = out@;
        if i > 0 {
            out.push(' ');
        }
        let c = cs[i];
        if ('a' <= c && c <= 'z') || ('A' <= c && c <= 'Z') {
            let base: u32 = if c <= 'Z' { 'A' as u32 } else { 'a' as u32 };
            let pos: u32 = c as u32 - base + 1;
            proof {
                reveal_with_fuel(decimal, 2);
            }
            if pos >= 10 {
                out.push(digit_of(pos / 10));
            }
            out.push(digit_of(pos % 10));
            assert(out@ =~= if i > 0 {
                before + seq![' '] + ordinal_token(c)
            } else {
                ordinal_token(c)
            });
        } else {
            out.push(c);
            assert(out@ =~= if i > 0 {
                before + seq![' '] + ordinal_token(c)
            } else {
                ordinal_token(c)
            });
        }
        assert(toks.take(i + 1).drop_last() =~= toks.take(i as int));
        i = i + 1;
    }
    assert(toks.take(cs.len() as int) =~= toks);
    out
}

/// Reads whitespace-separated numbers and turns each into a letter: 1 to 26
/// lowercase, 27 to 52 uppercase. Other numbers are dropped, and characters
/// that are neither digits nor whitespace are passed over.
pub fn num2alpha(cipher_text: &str) -> (r: String)
    ensures
        r@ == letters_of(cipher_text@),
{
    let cs = chars_of(cipher_text);
    let ghost s = cipher_text@;
    let ghost sep = |c: char| is_white_space(c);
    let mut out = String::new();
    let mut num: u32 = 0;
    let mut i: usize = 0;
    while i < cs.len()
        invariant
            cs@ == s,
            sep == (|c: char| is_white_space(c)),
            i <= cs.len(),
            split_where(s.take(i as int), sep).len() >= 1,
            out@ == word_letters(split_where(s.take(i as int), sep).drop_last()),
            num <= 529,
            num <= 52 ==> num == digits_value(split_where(s.take(i as int), sep).last()),
            num > 52 ==> digits_value(split_where(s.take(i as int), sep).last()) > 52,
        decreases cs.len() - i,
    {
        let ghost words = split_where(s.take(i as int), sep);
        let c = cs[i];
        assert(s.take(i + 1).drop_last() =~= s.take(i as int));
        assert(s.take(i + 1).last() == c);
        let ghost next = split_where(s.take(i + 1), sep);
        if '0' <= c && c <= '9' {
            assert(next.drop_last() =~= words.drop_last());
            assert(next.last() == words.last().push(c));
            assert(next.last().drop_last() =~= words.last());
            if num <= 52 {
                num = num * 10 + (c as u32 - '0' as u32);
            }
        } else if is_whitespace_char(c) {
            assert(next.drop_last() =~= words);
            match ordinal_letter(num) {
                Some(l) => out.push(l),
                None => {},
            }
            num = 0;
        } else {
            assert(next.drop_last() =~= words.drop_last());
            assert(next.last() == words.last().push(c));
            assert(next.last().drop_last() =~= words.last());
        }
        proof {
            lemma_split_len(s.take(i + 1), sep);
        }
        i = i + 1;
    }
    assert(s.take(cs.len() as int) =~= s);
    match ordinal_letter(num) {
        Some(l) => out.push(l),
        None => {},
    }
    out
}

pub proof fn lemma_decimal(n: nat)
    ensures
        digits_value(decimal(n)) == n,
        forall|i: int| 0 <= i < decimal(n).len() ==> is_digit(#[trigger] decimal(n)[i]),
    decreases n,
{
    let k = (n % 10) as int;
    assert(0 <= k < 10);
    assert(digit_char(k) as int == k + 48);
    if n >= 10 {
        lemma_decimal(n / 10);
        let d = decimal(n);
        assert(d.last() == digit_char(k));
        assert(is_digit(d.last()));
        assert(d.drop_last() =~= decimal(n / 10));
        assert(digits_value(d) == digits_value(decimal(n / 10)) * 10 + k);
        assert(n == (n / 10) * 10 + n % 10) by (nonlinear_arith);
        assert forall|i: int| 0 <= i < d.len() implies is_digit(#[trigger] d[i]) by {
            if i < d.len() - 1 {
                assert(d[i] == decimal(n / 10)[i]);
            }
        }
    } else {
        assert(decimal(n).drop_last() =~= Seq::<char>::empty());
        assert(digits_value(Seq::<char>::empty()) == 0);
        assert(digits_value(decimal(n)) == k);
    }
}

/// What one character comes back as once its token is decoded: a letter in
/// lowercase, a digit from 1 to 9 as the letter at that position, and
/// anything else (0, whitespace, other characters) as nothing.
pub open spec fn read_back(c: char) -> Seq<char> {
    if is_letter(c) {
        seq![lowered(c)]
    } else if is_digit(c) {
        letter_for(c as int - '0' as int)
    } else {
        Seq::empty()
    }
}

/// What a whole text comes back as, character by character.
pub open spec fn read_back_text(m: Seq<char>) -> Seq<char>
    decreases m.len(),
{
    if m.len() == 0 {
        Seq::empty()
    } else {
        read_back_text(m.drop_last()) + read_back(m.last())
    }
}

proof fn lemma_letters_of_empty()
    ensures
        letters_of(Seq::<char>::empty()) == Seq::<char>::empty(),
{
    let e = Seq::<char>::empty();
    let words = split_where(e, |c: char| is_white_space(c));
    assert(words == seq![e]);
    assert(words.drop_last() =~= Seq::<Seq<char>>::empty());
    assert(word_letters(Seq::<Seq<char>>::empty()) == e);
    assert(letter_for(digits_value(e) as int) == e);
    assert(word_letters(words) =~= e);
}

/// The token of a character that is not whitespace holds no whitespace, and
/// reads back as `read_back` says.
proof fn lemma_token_read_back(c: char)
    requires
        !is_white_space(c),
    ensures
        none_where(ordinal_token(c), |c: char| is_white_space(c)),
        letter_for(digits_value(ordinal_token(c)) as int) == read_back(c),
{
    let t = ordinal_token(c);
    if is_letter(c) {
        lemma_decimal(letter_pos(c) as nat);
        assert forall|j: int| 0 <= j < t.len() implies !is_white_space(#[trigger] t[j]) by {
            assert(is_digit(t[j]));
        }
        assert(letter_for(letter_pos(c)) =~= seq![lowered(c)]);
    } else {
        assert(t.drop_last() =~= Seq::<char>::empty());
        assert(t.last() == c);
        assert(digits_value(Seq::<char>::empty()) == 0);
    }
}

/// After a separator (or at the start), one more token adds its reading.
proof fn lemma_token_after_break(p: Seq<char>, c: char)
    requires
        split_where(p, |c: char| is_white_space(c)).len() >= 1,
        split_where(p, |c: char| is_white_space(c)).last() == Seq::<char>::empty(),
    ensures
        word_letters(split_where(p + ordinal_token(c), |c: char| is_white_space(c)))
            == word_letters(split_where(p, |c: char| is_white_space(c))) + read_back(c),
{
    let sep = |c: char| is_white_space(c);
    let w = split_where(p, sep);
    let t = ordinal_token(c);
    let e = Seq::<char>::empty();
    assert(w.drop_last().push(e) =~= w);
    assert(letter_for(digits_value(e) as int) == e);
    assert(word_letters(w) =~= word_letters(w.drop_last()));
    if is_white_space(c) {
        assert((p + t).drop_last() =~= p);
        assert((p + t).last() == c);
        assert(split_where(p + t, sep).drop_last() =~= w);
    } else {
        lemma_token_read_back(c);
        lemma_split_extend(p, t, sep);
        let v = split_where(p + t, sep);
        assert(e + t =~= t);
        assert(v.drop_last() =~= w.drop_last());
        assert(v.last() == t);
    }
}

/// Decoding the encoding of any text gives back, for each character, what
/// `read_back` says: letters in lowercase, digits 1 to 9 as letters, and
/// nothing for the rest. Case, spaces, 0 and punctuation are lost.
pub proof fn ordinals_read_back(m: Seq<char>)
    ensures
        letters_of(ordinals(m)) == read_back_text(m),
    decreases m.len(),
{
    let sep = |c: char| is_white_space(c);
    let toks = m.map_values(|c: char| ordinal_token(c));
    let e = Seq::<char>::empty();
    if m.len() == 0 {
        assert(toks =~= Seq::<Seq<char>>::empty());
        lemma_letters_of_empty();
    } else {
        let init = m.drop_last();
        let c = m.last();
        ordinals_read_back(init);
        assert(toks.drop_last() =~= init.map_values(|c: char| ordinal_token(c)));
        if init.len() == 0 {
            assert(ordinals(m) == ordinal_token(c));
            assert(split_where(e, sep) == seq![e]);
            lemma_token_after_break(e, c);
            assert(e + ordinal_token(c) =~= ordinal_token(c));
            assert(seq![e].drop_last() =~= Seq::<Seq<char>>::empty());
            assert(word_letters(Seq::<Seq<char>>::empty()) == e);
            assert(letter_for(digits_value(e) as int) == e);
            assert(read_back_text(init) == e);
            assert(read_back_text(m) =~= read_back(c));
        } else {
            let before = ordinals(init);
            let p = before + seq![' '];
            assert(ordinals(m) == p + ordinal_token(c));
            assert(p.drop_last() =~= before);
            lemma_split_len(before, sep);
            assert(split_where(p, sep) == split_where(before, sep).push(e));
            assert(split_where(p, sep).drop_last() =~= split_where(before, sep));
            assert(letter_for(digits_value(e) as int) == e);
            lemma_token_after_break(p, c);
            assert(word_letters(split_where(p, sep)) =~= letters_of(before));
        }
    }
}

/// For a text made only of ASCII letters, decoding the encoding gives the text
/// back in lowercase.
pub proof fn ordinals_round_trip(m: Seq<char>)
    requires
        forall|i: int| 0 <= i < m.len() ==> is_letter(#[trigger] m[i]),
    ensures
        letters_of(ordinals(m)) == m.map_values(|c: char| lowered(c)),
{
    ordinals_read_back(m);
    lemma_read_back_letters(m);
}

proof fn lemma_read_back_letters(m: Seq<char>)
    requires
        forall|i: int| 0 <= i < m.len() ==> is_letter(#[trigger] m[i]),
    ensures
        read_back_text(m) == m.map_values(|c: char| lowered(c)),
    decreases m.len(),
{
    if m.len() == 0 {
        assert(m.map_values(|c: char| lowered(c)) =~= Seq::<char>::empty());
    } else {
        let init = m.drop_last();
        assert forall|i: int| 0 <= i < init.len() implies is_letter(#[trigger] init[i]) by {
            assert(init[i] == m[i]);
        }
        lemma_read_back_letters(init);
        assert(is_letter(m[m.len() - 1]));
        assert(m.map_values(|c: char| lowered(c)) =~= init.map_values(|c: char| lowered(c)).push(
            lowered(m.last()),
        ));
    }
}

} // verus!
