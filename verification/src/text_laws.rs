//! What holds of trimming, splitting and joining, for every text.

use vstd::prelude::*;
use crate::text::{is_white_space, join, lemma_split_nonempty, split, trim, trim_end, trim_start};

verus! {

/// The character `c` does not occur in `s`.
pub open spec fn free_of(s: Seq<char>, c: char) -> bool {
    forall|i: int| 0 <= i < s.len() ==> s[i] != c
}

/// Every piece is free of `c`.
pub open spec fn all_free_of(pieces: Seq<Seq<char>>, c: char) -> bool {
    forall|k: int| 0 <= k < pieces.len() ==> free_of(#[trigger] pieces[k], c)
}

/// `s` neither starts nor ends with white space.
pub open spec fn is_trimmed(s: Seq<char>) -> bool {
    s.len() > 0 ==> !is_white_space(s.first()) && !is_white_space(s.last())
}

/// Trimming the start leaves the part of `s` from some index `a` on, and that
/// part does not start with white space.
pub proof fn lemma_trim_start_bound(s: Seq<char>) -> (a: int)
    ensures
        0 <= a <= s.len(),
        trim_start(s) == s.subrange(a, s.len() as int),
        a < s.len() ==> !is_white_space(s[a]),
    decreases s.len(),
{
    if s.len() > 0 && is_white_space(s.first()) {
        let rest = s.drop_first();
        let a = lemma_trim_start_bound(rest);
        assert(rest.subrange(a, rest.len() as int) =~= s.subrange(a + 1, s.len() as int));
        a + 1
    } else {
        assert(s.subrange(0, s.len() as int) =~= s);
        0
    }
}

/// Trimming the end leaves the part of `s` up to some index `b`, and that
/// part does not end with white space.
pub proof fn lemma_trim_end_bound(s: Seq<char>) -> (b: int)
    ensures
        0 <= b <= s.len(),
        trim_end(s) == s.subrange(0, b),
        b > 0 ==> !is_white_space(s[b - 1]),
    decreases s.len(),
{
    if s.len() > 0 && is_white_space(s.last()) {
        let rest = s.drop_last();
        let b = lemma_trim_end_bound(rest);
        assert(rest.subrange(0, b) =~= s.subrange(0, b));
        b
    } else {
        assert(s.subrange(0, s.len() as int) =~= s);
        s.len() as int
    }
}

/// Trimming leaves one part `s[a..b]` of `s`, which neither starts nor ends
/// with white space.
pub proof fn lemma_trim_bounds(s: Seq<char>) -> (bounds: (int, int))
    ensures
        0 <= bounds.0 <= bounds.1 <= s.len(),
        trim(s) == s.subrange(bounds.0, bounds.1),
        is_trimmed(trim(s)),
{
    let a = lemma_trim_start_bound(s);
    let rest = s.subrange(a, s.len() as int);
    let b = lemma_trim_end_bound(rest);
    assert(rest.subrange(0, b) =~= s.subrange(a, a + b));
    (a, a + b)
}

/// A text that neither starts nor ends with white space is left as it is.
pub proof fn lemma_trim_of_trimmed(s: Seq<char>)
    requires
        is_trimmed(s),
    ensures
        trim(s) == s,
{
}

/// Trimming twice is trimming once.
pub proof fn lemma_trim_idempotent(s: Seq<char>)
    ensures
        trim(trim(s)) == trim(s),
{
    let bounds = lemma_trim_bounds(s);
    lemma_trim_of_trimmed(trim(s));
}

/// Trimming takes away a space in front of a trimmed text.
pub proof fn lemma_trim_after_space(s: Seq<char>)
    requires
        trim(s) == s,
    ensures
        trim(seq![' '] + s) == s,
{
    let spaced = seq![' '] + s;
    assert(spaced.drop_first() =~= s);
    assert(is_white_space(spaced.first()));
}

/// Trimming brings in no character.
pub proof fn lemma_trim_keeps_free(s: Seq<char>, c: char)
    requires
        free_of(s, c),
    ensures
        free_of(trim(s), c),
{
    let bounds = lemma_trim_bounds(s);
}

/// No piece of a split holds the delimiter, nor any character that the text
/// does not hold.
pub proof fn lemma_split_pieces_free(s: Seq<char>, d: char, c: char)
    requires
        c == d || free_of(s, c),
    ensures
        all_free_of(split(s, d), c),
    decreases s.len(),
{
    if s.len() > 0 {
        lemma_split_pieces_free(s.drop_last(), d, c);
        lemma_split_nonempty(s.drop_last(), d);
        let before = split(s.drop_last(), d);
        if s.last() != d {
            assert(free_of(before.last().push(s.last()), c));
        }
    }
}

/// Text without a delimiter, put behind a text, extends its last piece.
pub proof fn lemma_split_append(x: Seq<char>, s: Seq<char>, d: char)
    requires
        free_of(s, d),
    ensures
        split(x + s, d) == split(x, d).drop_last().push(split(x, d).last() + s),
    decreases s.len(),
{
    let pieces = split(x, d);
    lemma_split_nonempty(x, d);
    if s.len() == 0 {
        assert(x + s =~= x);
        assert(pieces.drop_last().push(pieces.last() + s) =~~= pieces);
    } else {
        let head = s.drop_last();
        lemma_split_append(x, head, d);
        assert((x + s).drop_last() =~= x + head);
        assert((x + s).last() == s.last());
        let before = split(x + head, d);
        assert(before.drop_last() =~~= pieces.drop_last());
        assert(before.last().push(s.last()) =~= pieces.last() + s);
    }
}

/// A text without the delimiter is one piece.
pub proof fn lemma_split_free(s: Seq<char>, d: char)
    requires
        free_of(s, d),
    ensures
        split(s, d) == seq![s],
{
    lemma_split_append(Seq::<char>::empty(), s, d);
    assert(Seq::<char>::empty() + s =~= s);
    assert(split(Seq::<char>::empty(), d).drop_last().push(
        split(Seq::<char>::empty(), d).last() + s,
    ) =~~= seq![s]);
}

/// A delimiter behind a text opens a new, empty piece.
pub proof fn lemma_split_push_delimiter(x: Seq<char>, d: char)
    ensures
        split(x.push(d), d) == split(x, d).push(Seq::<char>::empty()),
{
    assert(x.push(d).drop_last() =~= x);
}

/// The pieces of a split, joined with the delimiter, give the text back. As
/// no piece holds the delimiter, the pieces are the only ones that do.
pub proof fn lemma_split_rejoins(s: Seq<char>, d: char)
    ensures
        join(split(s, d), seq![d]) == s,
    decreases s.len(),
{
    if s.len() == 0 {
        assert(join(split(s, d), seq![d]) =~= s);
    } else {
        let head = s.drop_last();
        lemma_split_rejoins(head, d);
        lemma_split_nonempty(head, d);
        let before = split(head, d);
        let pieces = split(s, d);
        if s.last() == d {
            assert(pieces.drop_last() =~~= before);
            assert(join(pieces, seq![d]) =~= head.push(d));
        } else {
            let last = before.last().push(s.last());
            if before.len() == 1 {
                assert(pieces =~~= seq![last]);
                assert(join(pieces, seq![d]) =~= head.push(s.last()));
            } else {
                assert(pieces.drop_last() =~~= before.drop_last());
                assert(join(pieces, seq![d]) =~= join(before, seq![d]).push(s.last()));
            }
        }
        assert(head.push(s.last()) =~= s);
    }
}

/// Joining brings in no character that neither the pieces nor the separator
/// hold.
pub proof fn lemma_join_free(pieces: Seq<Seq<char>>, sep: Seq<char>, c: char)
    requires
        all_free_of(pieces, c),
        free_of(sep, c),
    ensures
        free_of(join(pieces, sep), c),
    decreases pieces.len(),
{
    if pieces.len() >= 2 {
        lemma_join_free(pieces.drop_last(), sep, c);
        assert(free_of(pieces.last(), c));
    } else if pieces.len() == 1 {
        assert(free_of(pieces[0], c));
    }
}

} // verus!
