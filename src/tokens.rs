//! Splitting text into separated pieces, and joining pieces with spaces.
use vstd::prelude::*;

verus! {

/// The pieces of `s` between characters that satisfy `sep`. There is always at
/// least one piece: empty text is one empty piece, and two adjacent separators
/// enclose an empty piece.
pub open spec fn split_where(s: Seq<char>, sep: spec_fn(char) -> bool) -> Seq<Seq<char>>
    decreases s.len(),
{
    if s.len() == 0 {
        seq![Seq::empty()]
    } else {
        let pieces = split_where(s.drop_last(), sep);
        if sep(s.last()) {
            pieces.push(Seq::empty())
        } else {
            pieces.update(pieces.len() - 1, pieces.last().push(s.last()))
        }
    }
}

/// The pieces written one after another with a single space between each two.
pub open spec fn join_spaced(pieces: Seq<Seq<char>>) -> Seq<char>
    decreases pieces.len(),
{
    if pieces.len() == 0 {
        Seq::empty()
    } else if pieces.len() == 1 {
        pieces[0]
    } else {
        join_spaced(pieces.drop_last()) + seq![' '] + pieces.last()
    }
}

pub open spec fn none_where(s: Seq<char>, sep: spec_fn(char) -> bool) -> bool {
    forall|i: int| 0 <= i < s.len() ==> !sep(#[trigger] s[i])
}

pub proof fn lemma_split_len(s: Seq<char>, sep: spec_fn(char) -> bool)
    ensures
        split_where(s, sep).len() >= 1,
    decreases s.len(),
{
    if s.len() > 0 {
        lemma_split_len(s.drop_last(), sep);
    }
}

/// Text without separators extends the last piece.
pub proof fn lemma_split_extend(a: Seq<char>, b: Seq<char>, sep: spec_fn(char) -> bool)
    requires
        none_where(b, sep),
    ensures
        split_where(a + b, sep) == split_where(a, sep).update(
            split_where(a, sep).len() - 1,
            split_where(a, sep).last() + b,
        ),
    decreases b.len(),
{
    lemma_split_len(a, sep);
    let pa = split_where(a, sep);
    if b.len() == 0 {
        assert(a + b =~= a);
        assert(pa.last() + b =~= pa.last());
        assert(pa.update(pa.len() - 1, pa.last() + b) =~= pa);
    } else {
        let b0 = b.drop_last();
        assert(none_where(b0, sep)) by {
            assert forall|i: int| 0 <= i < b0.len() implies !sep(#[trigger] b0[i]) by {
                assert(b0[i] == b[i]);
            }
        }
        lemma_split_extend(a, b0, sep);
        assert((a + b).drop_last() =~= a + b0);
        assert((a + b).last() == b.last());
        assert(!sep(b[b.len() - 1]));
        assert((pa.last() + b0).push(b.last()) =~= pa.last() + b);
        let q = pa.update(pa.len() - 1, pa.last() + b0);
        assert(q.update(q.len() - 1, q.last().push(b.last())) =~= pa.update(
            pa.len() - 1,
            pa.last() + b,
        ));
    }
}

/// Splitting at spaces undoes joining with spaces, as long as no piece holds a
/// separator and there is at least one piece.
pub proof fn lemma_split_join(pieces: Seq<Seq<char>>, sep: spec_fn(char) -> bool)
    requires
        pieces.len() >= 1,
        sep(' '),
        forall|i: int| 0 <= i < pieces.len() ==> none_where(#[trigger] pieces[i], sep),
    ensures
        split_where(join_spaced(pieces), sep) == pieces,
    decreases pieces.len(),
{
    if pieces.len() == 1 {
        let e: Seq<char> = Seq::empty();
        lemma_split_extend(e, pieces[0], sep);
        assert(e + pieces[0] =~= pieces[0]);
        assert(seq![e].update(0, e + pieces[0]) =~= pieces);
    } else {
        let init = pieces.drop_last();
        assert forall|i: int| 0 <= i < init.len() implies none_where(#[trigger] init[i], sep) by {
            assert(init[i] == pieces[i]);
        }
        lemma_split_join(init, sep);
        let a = join_spaced(init) + seq![' '];
        assert(a.drop_last() =~= join_spaced(init));
        assert(split_where(a, sep) == init.push(Seq::empty()));
        lemma_split_extend(a, pieces.last(), sep);
        let e: Seq<char> = Seq::empty();
        assert(e + pieces.last() =~= pieces.last());
        assert(init.push(e).update(init.len() as int, e + pieces.last()) =~= pieces);
    }
}

} // verus!
