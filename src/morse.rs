//! Morse code: a fixed table between symbols and dot-dash codes.
use vstd::prelude::*;
use crate::alphabet::{chars_of, same_chars};
use crate::tokens::{join_spaced, lemma_split_join, none_where, split_where};

verus! {

/// Entry `i` of the Morse table: a symbol and its code.
pub open spec fn morse_entry(i: int) -> (char, Seq<char>) {
    if i == 0 {
        ('A', seq!['.', '-'])
    } else if i == 1 {
        ('B', seq!['-', '.', '.', '.'])
    } else if i == 2 {
        ('C', seq!['-', '.', '-', '.'])
    } else if i == 3 {
        ('D', seq!['-', '.', '.'])
    } else if i == 4 {
        ('E', seq!['.'])
    } else if i == 5 {
        ('F', seq!['.', '.', '-', '.'])
    } else if i == 6 {
        ('G', seq!['-', '-', '.'])
    } else if i == 7 {
        ('H', seq!['.', '.', '.', '.'])
    } else if i == 8 {
        ('I', seq!['.', '.'])
    } else if i == 9 {
        ('J', seq!['.', '-', '-', '-'])
    } else if i == 10 {
        ('K', seq!['-', '.', '-'])
    } else if i == 11 {
        ('L', seq!['.', '-', '.', '.'])
    } else if i == 12 {
        ('M', seq!['-', '-'])
    } else if i == 13 {
        ('N', seq!['-', '.'])
    } else if i == 14 {
        ('O', seq!['-', '-', '-'])
    } else if i == 15 {
        ('P', seq!['.', '-', '-', '.'])
    } else if i == 16 {
        ('Q', seq!['-', '-', '.', '-'])
    } else if i == 17 {
        ('R', seq!['.', '-', '.'])
    } else if i == 18 {
        ('S', seq!['.', '.', '.'])
    } else if i == 19 {
        ('T', seq!['-'])
    } else if i == 20 {
        ('U', seq!['.', '.', '-'])
    } else if i == 21 {
        ('V', seq!['.', '.', '.', '-'])
    } else if i == 22 {
        ('W', seq!['.', '-', '-'])
    } else if i == 23 {
        ('X', seq!['-', '.', '.', '-'])
    } else if i == 24 {
        ('Y', seq!['-', '.', '-', '-'])
    } else if i == 25 {
        ('Z', seq!['-', '-', '.', '.'])
    } else if i == 26 {
        ('0', seq!['-', '-', '-', '-', '-'])
    } else if i == 27 {
        ('1', seq!['.', '-', '-', '-', '-'])
    } else if i == 28 {
        ('2', seq!['.', '.', '-', '-', '-'])
    } else if i == 29 {
        ('3', seq!['.', '.', '.', '-', '-'])
    } else if i == 30 {
        ('4', seq!['.', '.', '.', '.', '-'])
    } else if i == 31 {
        ('5', seq!['.', '.', '.', '.', '.'])
    } else if i == 32 {
        ('6', seq!['-', '.', '.', '.', '.'])
    } else if i == 33 {
        ('7', seq!['-', '-', '.', '.', '.'])
    } else if i == 34 {
        ('8', seq!['-', '-', '-', '.', '.'])
    } else if i == 35 {
        ('9', seq!['-', '-', '-', '-', '.'])
    } else if i == 36 {
        (' ', seq!['/'])
    } else if i == 37 {
        ('.', seq!['.', '-', '.', '-', '.', '-'])
    } else if i == 38 {
        (',', seq!['-', '-', '.', '.', '-', '-'])
    } else if i == 39 {
        ('?', seq!['.', '.', '-', '-', '.', '.'])
    } else if i == 40 {
        (';', seq!['-', '.', '-', '.', '-', '.'])
    } else if i == 41 {
        (':', seq!['-', '-', '-', '.', '.', '.'])
    } else if i == 42 {
        ('-', seq!['-', '.', '.', '.', '.', '-'])
    } else if i == 43 {
        ('/', seq!['-', '.', '.', '-', '.'])
    } else if i == 44 {
        ('\'', seq!['.', '-', '-', '-', '-', '.'])
    } else if i == 45 {
        ('"', seq!['.', '-', '.', '.', '-', '.'])
    } else if i == 46 {
        ('=', seq!['-', '.', '.', '.', '-'])
    } else if i == 47 {
        ('_', seq!['.', '.', '-', '-', '.', '-'])
    } else if i == 48 {
        ('+', seq!['.', '-', '.', '-', '.'])
    } else if i == 49 {
        ('(', seq!['-', '.', '-', '-', '.'])
    } else if i == 50 {
        (')', seq!['-', '.', '-', '-', '.', '-'])
    } else {
        (' ', Seq::empty())
    }
}

/// The symbols and their codes, in the order in which the maps are filled.
pub open spec fn morse_table() -> Seq<(char, Seq<char>)> {
    Seq::new(51, |i: int| morse_entry(i))
}

/// The table turned around: each code with its symbol.
pub open spec fn reverse_table() -> Seq<(Seq<char>, char)> {
    morse_table().map_values(|e: (char, Seq<char>)| (e.1, e.0))
}

/// Looks `c` up among the first `n` entries as a map filled from them in order
/// would: a later entry overrides an earlier one.
pub open spec fn code_in(t: Seq<(char, Seq<char>)>, c: char, n: int) -> Option<Seq<char>>
    decreases n,
{
    if n <= 0 {
        None
    } else if t[n - 1].0 == c {
        Some(t[n - 1].1)
    } else {
        code_in(t, c, n - 1)
    }
}

/// Looks `code` up among the first `n` entries, a later entry overriding an
/// earlier one.
pub open spec fn symbol_in(t: Seq<(Seq<char>, char)>, code: Seq<char>, n: int) -> Option<char>
    decreases n,
{
    if n <= 0 {
        None
    } else if t[n - 1].0 == code {
        Some(t[n - 1].1)
    } else {
        symbol_in(t, code, n - 1)
    }
}

pub open spec fn code_of(c: char) -> Option<Seq<char>> {
    code_in(morse_table(), c, 51)
}

pub open spec fn symbol_of(code: Seq<char>) -> Option<char> {
    symbol_in(reverse_table(), code, 51)
}

/// The codes of those characters of `u` that have one, in order.
pub open spec fn codes_of(u: Seq<char>) -> Seq<Seq<char>>
    decreases u.len(),
{
    if u.len() == 0 {
        Seq::empty()
    } else {
        let before = codes_of(u.drop_last());
        match code_of(u.last()) {
            Some(k) => before.push(k),
            None => before,
        }
    }
}

/// Morse encoding of text that is already in uppercase: the codes, separated
/// by single spaces; characters without a code are left out.
pub open spec fn morse_encoded(u: Seq<char>) -> Seq<char> {
    join_spaced(codes_of(u))
}

/// The symbols of a sequence of codes; codes without a symbol are left out.
pub open spec fn symbols_of(codes: Seq<Seq<char>>) -> Seq<char>
    decreases codes.len(),
{
    if codes.len() == 0 {
        Seq::empty()
    } else {
        symbols_of(codes.drop_last()) + match symbol_of(codes.last()) {
            Some(c) => seq![c],
            None => Seq::empty(),
        }
    }
}

/// Morse decoding: the text is cut at every single space, and each piece is
/// looked up.
pub open spec fn morse_decoded(s: Seq<char>) -> Seq<char> {
    symbols_of(split_where(s, |c: char| c == ' '))
}

/// The Unicode uppercase form of a text.
pub uninterp spec fn uppercase_of(s: Seq<char>) -> Seq<char>;

/// Relies on `str::to_uppercase`: the Unicode uppercase mapping, which depends
/// on the characters alone.
#[verifier::external_body]
pub(crate) fn to_uppercase(s: &str) -> (r: String)
    ensures
        r@ == uppercase_of(s@),
{
    s.to_uppercase()
}

/// Entry `i` of the Morse table, built for use.
fn morse_entry_at(i: usize) -> (r: (char, Vec<char>))
    ensures
        r.deep_view() == morse_entry(i as int),
{
    let r = if i == 0 {
        ('A', vec!['.', '-'])
    } else if i == 1 {
        ('B', vec!['-', '.', '.', '.'])
    } else if i == 2 {
        ('C', vec!['-', '.', '-', '.'])
    } else if i == 3 {
        ('D', vec!['-', '.', '.'])
    } else if i == 4 {
        ('E', vec!['.'])
    } else if i == 5 {
        ('F', vec!['.', '.', '-', '.'])
    } else if i == 6 {
        ('G', vec!['-', '-', '.'])
    } else if i == 7 {
        ('H', vec!['.', '.', '.', '.'])
    } else if i == 8 {
        ('I', vec!['.', '.'])
    } else if i == 9 {
        ('J', vec!['.', '-', '-', '-'])
    } else if i == 10 {
        ('K', vec!['-', '.', '-'])
    } else if i == 11 {
        ('L', vec!['.', '-', '.', '.'])
    } else if i == 12 {
        ('M', vec!['-', '-'])
    } else if i == 13 {
        ('N', vec!['-', '.'])
    } else if i == 14 {
        ('O', vec!['-', '-', '-'])
    } else if i == 15 {
        ('P', vec!['.', '-', '-', '.'])
    } else if i == 16 {
        ('Q', vec!['-', '-', '.', '-'])
    } else if i == 17 {
        ('R', vec!['.', '-', '.'])
    } else if i == 18 {
        ('S', vec!['.', '.', '.'])
    } else if i == 19 {
        ('T', vec!['-'])
    } else if i == 20 {
        ('U', vec!['.', '.', '-'])
    } else if i == 21 {
        ('V', vec!['.', '.', '.', '-'])
    } else if i == 22 {
        ('W', vec!['.', '-', '-'])
    } else if i == 23 {
        ('X', vec!['-', '.', '.', '-'])
    } else if i == 24 {
        ('Y', vec!['-', '.', '-', '-'])
    } else if i == 25 {
        ('Z', vec!['-', '-', '.', '.'])
    } else if i == 26 {
        ('0', vec!['-', '-', '-', '-', '-'])
    } else if i == 27 {
        ('1', vec!['.', '-', '-', '-', '-'])
    } else if i == 28 {
        ('2', vec!['.', '.', '-', '-', '-'])
    } else if i == 29 {
        ('3', vec!['.', '.', '.', '-', '-'])
    } else if i == 30 {
        ('4', vec!['.', '.', '.', '.', '-'])
    } else if i == 31 {
        ('5', vec!['.', '.', '.', '.', '.'])
    } else if i == 32 {
        ('6', vec!['-', '.', '.', '.', '.'])
    } else if i == 33 {
        ('7', vec!['-', '-', '.', '.', '.'])
    } else if i == 34 {
        ('8', vec!['-', '-', '-', '.', '.'])
    } else if i == 35 {
        ('9', vec!['-', '-', '-', '-', '.'])
    } else if i == 36 {
        (' ', vec!['/'])
    } else if i == 37 {
        ('.', vec!['.', '-', '.', '-', '.', '-'])
    } else if i == 38 {
        (',', vec!['-', '-', '.', '.', '-', '-'])
    } else if i == 39 {
        ('?', vec!['.', '.', '-', '-', '.', '.'])
    } else if i == 40 {
        (';', vec!['-', '.', '-', '.', '-', '.'])
    } else if i == 41 {
        (':', vec!['-', '-', '-', '.', '.', '.'])
    } else if i == 42 {
        ('-', vec!['-', '.', '.', '.', '.', '-'])
    } else if i == 43 {
        ('/', vec!['-', '.', '.', '-', '.'])
    } else if i == 44 {
        ('\'', vec!['.', '-', '-', '-', '-', '.'])
    } else if i == 45 {
        ('"', vec!['.', '-', '.', '.', '-', '.'])
    } else if i == 46 {
        ('=', vec!['-', '.', '.', '.', '-'])
    } else if i == 47 {
        ('_', vec!['.', '.', '-', '-', '.', '-'])
    } else if i == 48 {
        ('+', vec!['.', '-', '.', '-', '.'])
    } else if i == 49 {
        ('(', vec!['-', '.', '-', '-', '.'])
    } else if i == 50 {
        (')', vec!['-', '.', '-', '-', '.', '-'])
    } else {
        (' ', Vec::new())
    };
    proof {
        if i < 51 {
            assert(r.1@ =~= morse_entry(i as int).1);
        }
    }
    r
}

/// The symbols and their codes, in table order.
pub fn create_morse_code_map() -> (r: Vec<(char, Vec<char>)>)
    ensures
        r.deep_view() == morse_table(),
{
    let mut r: Vec<(char, Vec<char>)> = Vec::new();
    let mut i: usize = 0;
    while i < 51
        invariant
            i <= 51,
            r@.len() == i,
            forall|j: int| 0 <= j < i ==> #[trigger] r@[j].deep_view() == morse_entry(j),
        decreases 51 - i,
    {
        r.push(morse_entry_at(i));
        i = i + 1;
    }
    assert(r.deep_view() =~= morse_table());
    r
}

/// The codes and their symbols, in table order.
pub fn create_reverse_morse_code_map() -> (r: Vec<(Vec<char>, char)>)
    ensures
        r.deep_view() == reverse_table(),
{
    let mut r: Vec<(Vec<char>, char)> = Vec::new();
    let mut i: usize = 0;
    while i < 51
        invariant
            i <= 51,
            r@.len() == i,
            forall|j: int| 0 <= j < i ==> #[trigger] r@[j].deep_view() == reverse_table()[j],
        decreases 51 - i,
    {
        let (symbol, code) = morse_entry_at(i);
        r.push((code, symbol));
        i = i + 1;
    }
    assert(r.deep_view() =~= reverse_table());
    r
}

fn find_code(map: &Vec<(char, Vec<char>)>, c: char) -> (r: Option<&Vec<char>>)
    ensures
        r matches Some(k) ==> code_in(map.deep_view(), c, map.len() as int) == Some(k@),
        r is None ==> code_in(map.deep_view(), c, map.len() as int) is None,
{
    let mut n: usize = map.len();
    while n > 0
        invariant
            n <= map.len(),
            code_in(map.deep_view(), c, map.len() as int) == code_in(map.deep_view(), c, n as int),
        decreases n,
    {
        if map[n - 1].0 == c {
            assert(map@[n - 1].1.deep_view() =~= map@[n - 1].1@);
            return Some(&map[n - 1].1);
        }
        n = n - 1;
    }
    None
}

fn find_symbol(map: &Vec<(Vec<char>, char)>, code: &Vec<char>) -> (r: Option<char>)
    ensures
        r == symbol_in(map.deep_view(), code@, map.len() as int),
{
    let mut n: usize = map.len();
    while n > 0
        invariant
            n <= map.len(),
            symbol_in(map.deep_view(), code@, map.len() as int) == symbol_in(
                map.deep_view(),
                code@,
                n as int,
            ),
        decreases n,
    {
        assert(map@[n - 1].0.deep_view() =~= map@[n - 1].0@);
        if same_chars(&map[n - 1].0, code) {
            return Some(map[n - 1].1);
        }
        n = n - 1;
    }
    None
}

/// Encodes `upper`, which is taken as it stands, with the given table.
pub(crate) fn encode_with(map: &Vec<(char, Vec<char>)>, upper: &str) -> (r: String)
    requires
        map.deep_view() == morse_table(),
    ensures
        r@ == morse_encoded(upper@),
{
    assert(map.deep_view().len() == map@.len());
    let cs = chars_of(upper);
    let ghost u = upper@;
    let mut out = String::new();
    let mut first = true;
    let mut i: usize = 0;
    while i < cs.len()
        invariant
            map.deep_view() == morse_table(),
            map.len() == 51,
            cs@ == u,
            i <= cs.len(),
            out@ == join_spaced(codes_of(u.take(i as int))),
            first == (codes_of(u.take(i as int)).len() == 0),
        decreases cs.len() - i,
    {
        let ghost before = codes_of(u.take(i as int));
        assert(u.take(i + 1).drop_last() =~= u.take(i as int));
        match find_code(map, cs[i]) {
            Some(code) => {
                let ghost start = out@;
                if !first {
                    out.push(' ');
                }
                let ghost lead = out@;
                let mut j: usize = 0;
                while j < code.len()
                    invariant
                        j <= code.len(),
                        out@ == lead + code@.take(j as int),
                    decreases code.len() - j,
                {
                    out.push(code[j]);
                    assert(code@.take(j + 1) =~= code@.take(j as int).push(code@[j as int]));
                    j = j + 1;
                }
                assert(code@.take(code.len() as int) =~= code@);
                assert(before.push(code@).drop_last() =~= before);
                first = false;
            },
            None => {},
        }
        i = i + 1;
    }
    assert(u.take(cs.len() as int) =~= u);
    out
}

/// Decodes `code` with the given reverse table.
pub(crate) fn decode_with(map: &Vec<(Vec<char>, char)>, code: &str) -> (r: String)
    requires
        map.deep_view() == reverse_table(),
    ensures
        r@ == morse_decoded(code@),
{
    assert(map.deep_view().len() == map@.len());
    let cs = chars_of(code);
    let ghost s = code@;
    let ghost sep = |c: char| c == ' ';
    let mut out = String::new();
    let mut piece: Vec<char> = Vec::new();
    let mut i: usize = 0;
    while i < cs.len()
        invariant
            map.deep_view() == reverse_table(),
            map.len() == 51,
            cs@ == s,
            sep == (|c: char| c == ' '),
            i <= cs.len(),
            split_where(s.take(i as int), sep).len() >= 1,
            out@ == symbols_of(split_where(s.take(i as int), sep).drop_last()),
            piece@ == split_where(s.take(i as int), sep).last(),
        decreases cs.len() - i,
    {
        let ghost pieces = split_where(s.take(i as int), sep);
        let c = cs[i];
        assert(s.take(i + 1).drop_last() =~= s.take(i as int));
        let ghost next = split_where(s.take(i + 1), sep);
        if c == ' ' {
            assert(next.drop_last() =~= pieces);
            match find_symbol(map, &piece) {
                Some(sym) => out.push(sym),
                None => {},
            }
            piece = Vec::new();
        } else {
            assert(next.drop_last() =~= pieces.drop_last());
            piece.push(c);
        }
        i = i + 1;
    }
    assert(s.take(cs.len() as int) =~= s);
    match find_symbol(map, &piece) {
        Some(sym) => out.push(sym),
        None => {},
    }
    out
}

/// Morse encoding of text that is already in uppercase.
pub fn morse_encode_uppercased(upper: &str) -> (r: String)
    ensures
        r@ == morse_encoded(upper@),
{
    let map = create_morse_code_map();
    encode_with(&map, upper)
}

/// Morse encoding: the text is put in uppercase, then each character with a
/// code becomes that code, with one space between codes.
pub fn morse_code_cipher(text: &str) -> (r: String)
    ensures
        r@ == morse_encoded(uppercase_of(text@)),
{
    let upper = to_uppercase(text);
    morse_encode_uppercased(upper.as_str())
}

/// Morse decoding: each space-separated code becomes its symbol; unknown codes
/// are left out.
pub fn morse_code_decipher(code: &str) -> (r: String)
    ensures
        r@ == morse_decoded(code@),
{
    let map = create_reverse_morse_code_map();
    decode_with(&map, code)
}

/// The code from position `i` on, read as a number in base 4; equal codes give
/// equal numbers, so different numbers tell two codes apart.
spec fn code_value(s: Seq<char>, i: int) -> int
    decreases s.len() - i,
{
    if i >= s.len() || i < 0 {
        0
    } else {
        (if s[i] == '.' {
            1int
        } else if s[i] == '-' {
            2int
        } else {
            3int
        }) + 4 * code_value(s, i + 1)
    }
}

proof fn lemma_code_in_last(t: Seq<(char, Seq<char>)>, c: char, i: int, n: int)
    requires
        0 <= i < n <= t.len(),
        t[i].0 == c,
        forall|j: int| i < j < n ==> #[trigger] t[j].0 != c,
    ensures
        code_in(t, c, n) == Some(t[i].1),
    decreases n,
{
    if n - 1 > i {
        lemma_code_in_last(t, c, i, n - 1);
    }
}

proof fn lemma_symbol_in_last(t: Seq<(Seq<char>, char)>, code: Seq<char>, i: int, n: int)
    requires
        0 <= i < n <= t.len(),
        t[i].0 == code,
        forall|j: int| i < j < n ==> #[trigger] t[j].0 != code,
    ensures
        symbol_in(t, code, n) == Some(t[i].1),
    decreases n,
{
    if n - 1 > i {
        lemma_symbol_in_last(t, code, i, n - 1);
    }
}

proof fn lemma_symbol_in_absent(t: Seq<(Seq<char>, char)>, code: Seq<char>, n: int)
    requires
        n <= t.len(),
        forall|j: int| 0 <= j < n ==> #[trigger] t[j].0 != code,
    ensures
        symbol_in(t, code, n) is None,
    decreases n,
{
    if n > 0 {
        lemma_symbol_in_absent(t, code, n - 1);
    }
}

proof fn lemma_code_in_found(t: Seq<(char, Seq<char>)>, c: char, n: int)
    requires
        n <= t.len(),
    ensures
        code_in(t, c, n) matches Some(k) ==> exists|i: int|
            0 <= i < n && #[trigger] t[i].0 == c && t[i].1 == k,
    decreases n,
{
    if n > 0 {
        lemma_code_in_found(t, c, n - 1);
    }
}

/// No two entries share a symbol, and no two share a code.
#[verifier::rlimit(40)]
proof fn lemma_entries_distinct(i: int)
    requires
        0 <= i < 51,
    ensures
        forall|j: int| i < j < 51 ==> #[trigger] morse_table()[j].0 != morse_table()[i].0,
        forall|j: int| i < j < 51 ==> #[trigger] morse_table()[j].1 != morse_table()[i].1,
{
    reveal_with_fuel(code_value, 8);
    let t = morse_table();
    assert forall|j: int| i < j < 51 implies #[trigger] t[j].1 != t[i].1 by {
        assert(code_value(t[j].1, 0) != code_value(t[i].1, 0));
    }
}

/// Every code is non-empty and made of dots, dashes and slashes.
#[verifier::rlimit(40)]
proof fn lemma_entry_code_shape(i: int)
    requires
        0 <= i < 51,
    ensures
        morse_table()[i].1.len() > 0,
        forall|k: int|
            0 <= k < morse_table()[i].1.len() ==> #[trigger] morse_table()[i].1[k] != ' ',
{
}

/// The code of an entry's symbol is the entry's code, and that code decodes to
/// the symbol.
proof fn lemma_entry_reads_back(i: int)
    requires
        0 <= i < 51,
    ensures
        code_of(morse_table()[i].0) == Some(morse_table()[i].1),
        symbol_of(morse_table()[i].1) == Some(morse_table()[i].0),
{
    let t = morse_table();
    let r = reverse_table();
    lemma_entries_distinct(i);
    lemma_code_in_last(t, t[i].0, i, 51);
    assert forall|j: int| i < j < 51 implies #[trigger] r[j].0 != t[i].1 by {
        assert(r[j].0 == t[j].1);
    }
    lemma_symbol_in_last(r, t[i].1, i, 51);
}

/// The two directions of the table are inverse to each other: the code of a
/// symbol decodes to that symbol, and a code that decodes to a symbol is that
/// symbol's code.
pub proof fn reverse_inverts_forward(c: char)
    ensures
        code_of(c) matches Some(k) ==> symbol_of(k) == Some(c),
        forall|k: Seq<char>| #[trigger] symbol_of(k) == Some(c) ==> code_of(c) == Some(k),
{
    let t = morse_table();
    let r = reverse_table();
    lemma_code_in_found(t, c, 51);
    if code_of(c) is Some {
        let i = choose|i: int| 0 <= i < 51 && #[trigger] t[i].0 == c && Some(t[i].1) == code_of(c);
        lemma_entry_reads_back(i);
    }
    assert forall|k: Seq<char>| #[trigger] symbol_of(k) == Some(c) implies code_of(c) == Some(k) by {
        lemma_symbol_in_found(r, k, 51);
        let i = choose|i: int| 0 <= i < 51 && #[trigger] r[i].0 == k && Some(r[i].1) == symbol_of(k);
        assert(r[i] == (t[i].1, t[i].0));
        lemma_entry_reads_back(i);
    }
}

proof fn lemma_symbol_in_found(t: Seq<(Seq<char>, char)>, code: Seq<char>, n: int)
    requires
        n <= t.len(),
    ensures
        symbol_in(t, code, n) matches Some(c) ==> exists|i: int|
            0 <= i < n && #[trigger] t[i].0 == code && Some(t[i].1) == symbol_in(t, code, n),
    decreases n,
{
    if n > 0 {
        lemma_symbol_in_found(t, code, n - 1);
    }
}

proof fn lemma_codes_of(u: Seq<char>)
    requires
        forall|k: int| 0 <= k < u.len() ==> #[trigger] code_of(u[k]) is Some,
    ensures
        codes_of(u).len() == u.len(),
        forall|k: int| 0 <= k < u.len() ==> Some(#[trigger] codes_of(u)[k]) == code_of(u[k]),
    decreases u.len(),
{
    if u.len() > 0 {
        let init = u.drop_last();
        assert forall|k: int| 0 <= k < init.len() implies #[trigger] code_of(init[k]) is Some by {
            assert(init[k] == u[k]);
        }
        lemma_codes_of(init);
        assert(code_of(u[u.len() - 1]) is Some);
    }
}

proof fn lemma_symbols_of_codes(u: Seq<char>)
    requires
        forall|k: int| 0 <= k < u.len() ==> #[trigger] code_of(u[k]) is Some,
    ensures
        symbols_of(codes_of(u)) == u,
    decreases u.len(),
{
    if u.len() > 0 {
        let init = u.drop_last();
        assert forall|k: int| 0 <= k < init.len() implies #[trigger] code_of(init[k]) is Some by {
            assert(init[k] == u[k]);
        }
        lemma_symbols_of_codes(init);
        let c = u.last();
        assert(code_of(u[u.len() - 1]) is Some);
        reverse_inverts_forward(c);
        let codes = codes_of(u);
        assert(codes.drop_last() =~= codes_of(init));
        assert(init.push(c) =~= u);
    }
}

/// Decoding the Morse encoding of a text gives back the text in uppercase,
/// when every character of that uppercase form has a code.
pub proof fn morse_round_trip(m: Seq<char>)
    requires
        forall|k: int|
            0 <= k < uppercase_of(m).len() ==> #[trigger] code_of(uppercase_of(m)[k]) is Some,
    ensures
        morse_decoded(morse_encoded(uppercase_of(m))) == uppercase_of(m),
{
    let u = uppercase_of(m);
    let sep = |c: char| c == ' ';
    let codes = codes_of(u);
    lemma_codes_of(u);
    lemma_symbols_of_codes(u);
    if u.len() == 0 {
        let e: Seq<char> = Seq::empty();
        assert(split_where(e, sep) == seq![e]);
        assert forall|j: int| 0 <= j < 51 implies #[trigger] reverse_table()[j].0 != e by {
            lemma_entry_code_shape(j);
        }
        lemma_symbol_in_absent(reverse_table(), e, 51);
        assert(seq![e].drop_last() =~= Seq::<Seq<char>>::empty());
        assert(symbols_of(seq![e]) =~= e);
        assert(u =~= e);
    } else {
        assert forall|k: int| 0 <= k < codes.len() implies none_where(#[trigger] codes[k], sep) by {
            let t = morse_table();
            lemma_code_in_found(t, u[k], 51);
            let i = choose|i: int|
                0 <= i < 51 && #[trigger] t[i].0 == u[k] && Some(t[i].1) == code_of(u[k]);
            lemma_entry_code_shape(i);
        }
        lemma_split_join(codes, sep);
    }
}

} // verus!
