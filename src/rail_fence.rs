//! The rail-fence transposition: a zig-zag over a number of rows.
use vstd::prelude::*;
use crate::alphabet::chars_of;

verus! {

/// Length of one down-and-up sweep over `rails` rows.
pub open spec fn period(rails: int) -> int {
    2 * (rails - 1)
}

/// The row that position `i` lands on: 0, 1, .., rails-1, rails-2, .., 1, 0, 1, ..
pub open spec fn zigzag_row(i: int, rails: int) -> int {
    let t = i % period(rails);
    if t < rails {
        t
    } else {
        period(rails) - t
    }
}

/// How many of the positions `0..len` land on row `k`.
pub open spec fn row_count(rails: int, k: int, len: nat) -> nat
    decreases len,
{
    if len == 0 {
        0
    } else {
        row_count(rails, k, (len - 1) as nat) + if zigzag_row(len - 1, rails) == k {
            1nat
        } else {
            0nat
        }
    }
}

/// Where row `k` begins once rows `0..k` are laid end to end.
pub open spec fn row_start(rails: int, k: nat, len: nat) -> nat
    decreases k,
{
    if k == 0 {
        0
    } else {
        row_start(rails, (k - 1) as nat, len) + row_count(rails, k - 1, len)
    }
}

/// The characters among `m[0..len]` that land on row `k`, in order.
pub open spec fn row_chars(m: Seq<char>, rails: int, k: int, len: nat) -> Seq<char>
    decreases len,
{
    if len == 0 {
        Seq::empty()
    } else {
        let before = row_chars(m, rails, k, (len - 1) as nat);
        if zigzag_row(len - 1, rails) == k {
            before.push(m[len - 1])
        } else {
            before
        }
    }
}

/// Rows `0..k` of the fence over the whole of `m`, concatenated.
pub open spec fn rows_before(m: Seq<char>, rails: int, k: nat) -> Seq<char>
    decreases k,
{
    if k == 0 {
        Seq::empty()
    } else {
        rows_before(m, rails, (k - 1) as nat) + row_chars(m, rails, k - 1, m.len())
    }
}

/// Too few rows, or at least one row per character: the text stays as it is.
pub open spec fn fence_is_trivial(len: nat, rails: int) -> bool {
    rails <= 1 || rails >= len
}

/// The enciphered text: all rows, top to bottom.
pub open spec fn fenced(m: Seq<char>, rails: int) -> Seq<char> {
    if fence_is_trivial(m.len(), rails) {
        m
    } else {
        rows_before(m, rails, rails as nat)
    }
}

/// Where the character of position `i` sits in the enciphered text of length `len`.
pub open spec fn fence_slot(i: int, rails: int, len: nat) -> int {
    let k = zigzag_row(i, rails);
    (row_start(rails, k as nat, len) + row_count(rails, k, i as nat)) as int
}

/// The deciphered text: position `i` takes the character at its fence slot.
pub open spec fn unfenced(c: Seq<char>, rails: int) -> Seq<char> {
    if fence_is_trivial(c.len(), rails) {
        c
    } else {
        Seq::new(c.len(), |i: int| c[fence_slot(i, rails, c.len())])
    }
}

pub proof fn lemma_zigzag_row_bounds(i: int, rails: int)
    requires
        i >= 0,
        rails >= 2,
    ensures
        0 <= zigzag_row(i, rails) < rails,
{
    let p = period(rails);
    assert(0 <= i % p < p) by (nonlinear_arith)
        requires
            p > 0,
    ;
}

pub proof fn lemma_zigzag_step(i: int, rails: int)
    requires
        i >= 0,
        rails >= 2,
    ensures
        (i + 1) % period(rails) == if i % period(rails) + 1 == period(rails) {
            0
        } else {
            i % period(rails) + 1
        },
{
    let p = period(rails);
    assert((i + 1) % p == if i % p + 1 == p {
        0
    } else {
        i % p + 1
    }) by (nonlinear_arith)
        requires
            p > 0,
            i >= 0,
    ;
}

pub proof fn lemma_row_count_monotone(rails: int, k: int, a: nat, b: nat)
    requires
        a <= b,
    ensures
        row_count(rails, k, a) <= row_count(rails, k, b),
    decreases b,
{
    if a < b {
        lemma_row_count_monotone(rails, k, a, (b - 1) as nat);
    }
}

/// `row_start(k, len)` counts the positions below `len` whose row is below `k`.
pub proof fn lemma_row_start_step(rails: int, k: nat, len: nat)
    requires
        rails >= 2,
    ensures
        row_start(rails, k, len + 1) == row_start(rails, k, len) + if zigzag_row(len as int, rails)
            < k {
            1nat
        } else {
            0nat
        },
    decreases k,
{
    lemma_zigzag_row_bounds(len as int, rails);
    if k > 0 {
        lemma_row_start_step(rails, (k - 1) as nat, len);
        assert(row_count(rails, k - 1, len + 1) == row_count(rails, k - 1, len) + if zigzag_row(
            len as int,
            rails,
        ) == k - 1 {
            1nat
        } else {
            0nat
        });
    }
}

pub proof fn lemma_row_start_monotone(rails: int, j: nat, k: nat, len: nat)
    requires
        j <= k,
    ensures
        row_start(rails, j, len) <= row_start(rails, k, len),
    decreases k,
{
    if j < k {
        lemma_row_start_monotone(rails, j, (k - 1) as nat, len);
    }
}

pub proof fn lemma_row_start_empty(rails: int, k: nat)
    ensures
        row_start(rails, k, 0) == 0,
    decreases k,
{
    if k > 0 {
        lemma_row_start_empty(rails, (k - 1) as nat);
    }
}

/// All rows together hold every position.
pub proof fn lemma_row_start_all(rails: int, len: nat)
    requires
        rails >= 2,
    ensures
        row_start(rails, rails as nat, len) == len,
    decreases len,
{
    if len > 0 {
        let prev = (len - 1) as nat;
        lemma_row_start_all(rails, prev);
        lemma_row_start_step(rails, rails as nat, prev);
        assert(prev + 1 == len);
        lemma_zigzag_row_bounds(len - 1, rails);
    } else {
        lemma_row_start_empty(rails, rails as nat);
    }
}

/// A position's slot lies inside its row, so inside the text.
pub proof fn lemma_fence_slot_bounds(i: int, rails: int, len: nat)
    requires
        rails >= 2,
        0 <= i < len,
    ensures
        row_start(rails, zigzag_row(i, rails) as nat, len) <= fence_slot(i, rails, len),
        row_count(rails, zigzag_row(i, rails), i as nat) < row_count(
            rails,
            zigzag_row(i, rails),
            len,
        ),
        fence_slot(i, rails, len) < len,
{
    let k = zigzag_row(i, rails);
    lemma_zigzag_row_bounds(i, rails);
    lemma_row_count_monotone(rails, k, (i + 1) as nat, len);
    lemma_row_start_monotone(rails, (k + 1) as nat, rails as nat, len);
    lemma_row_start_all(rails, len);
}

pub proof fn lemma_row_chars(m: Seq<char>, rails: int, k: int, len: nat)
    requires
        len <= m.len(),
    ensures
        row_chars(m, rails, k, len).len() == row_count(rails, k, len),
        forall|i: int|
            0 <= i < len && zigzag_row(i, rails) == k ==> #[trigger] row_chars(
                m,
                rails,
                k,
                len,
            )[row_count(rails, k, i as nat) as int] == m[i],
    decreases len,
{
    if len > 0 {
        let prev = (len - 1) as nat;
        lemma_row_chars(m, rails, k, prev);
        assert forall|i: int| 0 <= i < len && zigzag_row(i, rails) == k implies #[trigger] row_chars(
            m,
            rails,
            k,
            len,
        )[row_count(rails, k, i as nat) as int] == m[i] by {
            if i < prev {
                lemma_row_count_monotone(rails, k, (i + 1) as nat, prev);
            }
        }
    }
}

pub proof fn lemma_rows_before(m: Seq<char>, rails: int, kk: nat)
    ensures
        rows_before(m, rails, kk).len() == row_start(rails, kk, m.len()),
        forall|k: nat, j: int|
            k < kk && 0 <= j < row_count(rails, k as int, m.len()) ==> #[trigger] rows_before(
                m,
                rails,
                kk,
            )[row_start(rails, k, m.len()) + j] == #[trigger] row_chars(m, rails, k as int, m.len())[j],
    decreases kk,
{
    if kk > 0 {
        let prev = (kk - 1) as nat;
        lemma_rows_before(m, rails, prev);
        lemma_row_chars(m, rails, prev as int, m.len());
        assert forall|k: nat, j: int|
            k < kk && 0 <= j < row_count(rails, k as int, m.len()) implies #[trigger] rows_before(
            m,
            rails,
            kk,
        )[row_start(rails, k, m.len()) + j] == #[trigger] row_chars(m, rails, k as int, m.len())[j] by {
            if k < prev {
                lemma_row_start_monotone(rails, (k + 1) as nat, prev, m.len());
            }
        }
    }
}

/// Walks the zig-zag over `n` positions, turning at the top and bottom rows,
/// and records the row of each position.
fn zigzag_rows(n: usize, rails: usize) -> (rows: Vec<usize>)
    requires
        rails >= 2,
    ensures
        rows@.len() == n,
        forall|i: int| 0 <= i < n ==> rows@[i] as int == zigzag_row(i, rails as int),
{
    let ghost p = period(rails as int);
    let mut rows: Vec<usize> = Vec::new();
    let mut rail: usize = 0;
    let mut down: bool = true;
    let mut i: usize = 0;
    while i < n
        invariant
            rails >= 2,
            p == period(rails as int),
            i <= n,
            rows@.len() == i,
            forall|j: int| 0 <= j < i ==> rows@[j] as int == zigzag_row(j, rails as int),
            rail as int == zigzag_row(i as int, rails as int),
            rail < rails,
            (i as int) % p > 0 ==> (down <==> (i as int) % p < rails),
        decreases n - i,
    {
        proof {
            lemma_zigzag_step(i as int, rails as int);
            lemma_zigzag_row_bounds(i as int + 1, rails as int);
            assert(0 <= (i as int) % p < p) by (nonlinear_arith)
                requires
                    p > 0,
            ;
        }
        rows.push(rail);
        if rail == 0 {
            down = true;
        } else if rail == rails - 1 {
            down = false;
        }
        if down {
            rail = rail + 1;
        } else {
            rail = rail - 1;
        }
        i = i + 1;
    }
    rows
}

/// Rail-fence encipherment: the characters are written along the zig-zag and
/// the rows are read off from top to bottom.
pub fn rail_fence_cipher(plaintext: &str, rails: usize) -> (r: String)
    requires
        rails >= 1,
    ensures
        r@ == fenced(plaintext@, rails as int),
{
    let cs = chars_of(plaintext);
    let n = cs.len();
    if rails == 1 || rails >= n {
        let mut same = String::new();
        same.append(plaintext);
        return same;
    }
    let rows = zigzag_rows(n, rails);
    let ghost m = plaintext@;
    let mut out = String::new();
    let mut k: usize = 0;
    while k < rails
        invariant
            cs@ == m,
            n == m.len(),
            rows@.len() == n,
            forall|j: int| 0 <= j < n ==> rows@[j] as int == zigzag_row(j, rails as int),
            k <= rails,
            out@ == rows_before(m, rails as int, k as nat),
        decreases rails - k,
    {
        let ghost done = out@;
        let mut i: usize = 0;
        while i < n
            invariant
                cs@ == m,
                n == m.len(),
                rows@.len() == n,
                forall|j: int| 0 <= j < n ==> rows@[j] as int == zigzag_row(j, rails as int),
                k < rails,
                i <= n,
                done == rows_before(m, rails as int, k as nat),
                out@ == done + row_chars(m, rails as int, k as int, i as nat),
            decreases n - i,
        {
            if rows[i] == k {
                out.push(cs[i]);
                assert(out@ =~= done + row_chars(m, rails as int, k as int, (i + 1) as nat));
            }
            i = i + 1;
        }
        k = k + 1;
    }
    out
}

/// Rail-fence decipherment. The zig-zag is first walked without placing any
/// character, to learn how many characters each row holds; the ciphertext is
/// split into rows of those sizes; the walk is then replayed, each step taking
/// the next unused character of the row it visits.
pub fn rail_fence_decipher(ciphertext: &str, rails: usize) -> (r: String)
    requires
        rails >= 1,
    ensures
        r@ == unfenced(ciphertext@, rails as int),
{
    let cs = chars_of(ciphertext);
    let n = cs.len();
    if rails == 1 || rails >= n {
        let mut same = String::new();
        same.append(ciphertext);
        return same;
    }
    let ghost c = ciphertext@;
    let ghost ri = rails as int;
    let rows = zigzag_rows(n, rails);
    proof {
        lemma_row_start_all(ri, n as nat);
    }
    // how many characters each row holds
    let mut counts: Vec<usize> = Vec::new();
    let mut k: usize = 0;
    while k < rails
        invariant
            k <= rails,
            counts@.len() == k,
            forall|j: int| 0 <= j < k ==> counts@[j] == 0,
        decreases rails - k,
    {
        counts.push(0);
        k = k + 1;
    }
    let mut i: usize = 0;
    while i < n
        invariant
            rails >= 2,
            ri == rails as int,
            rows@.len() == n,
            forall|j: int| 0 <= j < n ==> rows@[j] as int == zigzag_row(j, ri),
            i <= n,
            counts@.len() == rails,
            forall|j: int| 0 <= j < rails ==> counts@[j] == row_count(ri, j, i as nat),
            forall|j: int| 0 <= j < rails ==> counts@[j] <= i,
        decreases n - i,
    {
        let row = rows[i];
        proof {
            lemma_zigzag_row_bounds(i as int, ri);
        }
        counts.set(row, counts[row] + 1);
        i = i + 1;
    }
    // where each row begins in the ciphertext
    let mut starts: Vec<usize> = Vec::new();
    let mut acc: usize = 0;
    k = 0;
    while k < rails
        invariant
            rails >= 2,
            ri == rails as int,
            k <= rails,
            counts@.len() == rails,
            forall|j: int| 0 <= j < rails ==> counts@[j] == row_count(ri, j, n as nat),
            row_start(ri, rails as nat, n as nat) == n,
            starts@.len() == k,
            forall|j: int| 0 <= j < k ==> starts@[j] == row_start(ri, j as nat, n as nat),
            acc == row_start(ri, k as nat, n as nat),
        decreases rails - k,
    {
        proof {
            lemma_row_start_monotone(ri, (k + 1) as nat, rails as nat, n as nat);
        }
        starts.push(acc);
        acc = acc + counts[k];
        k = k + 1;
    }
    // replay the walk, taking from each row in turn
    let mut used: Vec<usize> = Vec::new();
    k = 0;
    while k < rails
        invariant
            k <= rails,
            used@.len() == k,
            forall|j: int| 0 <= j < k ==> used@[j] == 0,
        decreases rails - k,
    {
        used.push(0);
        k = k + 1;
    }
    let mut out = String::new();
    i = 0;
    while i < n
        invariant
            rails >= 2,
            ri == rails as int,
            cs@ == c,
            n == c.len(),
            rows@.len() == n,
            forall|j: int| 0 <= j < n ==> rows@[j] as int == zigzag_row(j, ri),
            starts@.len() == rails,
            forall|j: int| 0 <= j < rails ==> starts@[j] == row_start(ri, j as nat, n as nat),
            used@.len() == rails,
            forall|j: int| 0 <= j < rails ==> used@[j] == row_count(ri, j, i as nat),
            i <= n,
            out@.len() == i,
            forall|j: int| 0 <= j < i ==> out@[j] == c[fence_slot(j, ri, n as nat)],
        decreases n - i,
    {
        let row = rows[i];
        proof {
            lemma_zigzag_row_bounds(i as int, ri);
            lemma_fence_slot_bounds(i as int, ri, n as nat);
        }
        let at = starts[row] + used[row];
        out.push(cs[at]);
        used.set(row, used[row] + 1);
        i = i + 1;
    }
    assert(out@ =~= unfenced(c, ri));
    out
}

/// Deciphering with the same number of rails undoes enciphering.
pub proof fn rail_fence_round_trip(m: Seq<char>, rails: int)
    requires
        rails >= 1,
    ensures
        unfenced(fenced(m, rails), rails) == m,
{
    if !fence_is_trivial(m.len(), rails) {
        let n = m.len();
        let c = fenced(m, rails);
        lemma_rows_before(m, rails, rails as nat);
        lemma_row_start_all(rails, n);
        assert forall|i: int| 0 <= i < n implies #[trigger] unfenced(c, rails)[i] == m[i] by {
            let k = zigzag_row(i, rails);
            lemma_zigzag_row_bounds(i, rails);
            lemma_fence_slot_bounds(i, rails, n);
            lemma_row_chars(m, rails, k, n);
            assert(c[fence_slot(i, rails, n)] == row_chars(
                m,
                rails,
                k,
                n,
            )[row_count(rails, k, i as nat) as int]);
        }
        assert(unfenced(c, rails) =~= m);
    }
}

} // verus!
