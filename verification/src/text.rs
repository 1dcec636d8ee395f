//! Character-level text operations: whitespace trimming, splitting on a
//! delimiter and joining with a separator, each with its mathematical model
//! over `Seq<char>`.

use vstd::prelude::*;

verus! {

/// What `char::is_whitespace` reports of `c`: whether the character has the
/// Unicode property `White_Space`. Which characters have it is not stated
/// here, but for the space.
pub uninterp spec fn unicode_white_space(c: char) -> bool;

/// Trusted, not proved: `char::is_whitespace` of the standard library. Its
/// result is taken to depend on the character alone, under the name
/// `unicode_white_space`, and to be `true` for the space character.
pub assume_specification[ char::is_whitespace ](c: char) -> (b: bool)
    ensures
        b == unicode_white_space(c),
        c == ' ' ==> b,
;

/// Trusted, not proved: `String::push` of the standard library. It is taken
/// to put `ch` behind the characters that the string held, and to keep those.
pub assume_specification[ String::push ](s: &mut String, ch: char)
    ensures
        final(s)@ == old(s)@.push(ch),
;

/// The characters that trimming removes: the space, and every other character
/// with the Unicode property `White_Space`.
pub open spec fn is_white_space(c: char) -> bool {
    c == ' ' || unicode_white_space(c)
}

/// `s` without its leading white space.
pub open spec fn trim_start(s: Seq<char>) -> Seq<char>
    decreases s.len(),
{
    if s.len() > 0 && is_white_space(s.first()) {
        trim_start(s.drop_first())
    } else {
        s
    }
}

/// `s` without its trailing white space.
pub open spec fn trim_end(s: Seq<char>) -> Seq<char>
    decreases s.len(),
{
    if s.len() > 0 && is_white_space(s.last()) {
        trim_end(s.drop_last())
    } else {
        s
    }
}

/// `s` without its leading and trailing white space.
pub open spec fn trim(s: Seq<char>) -> Seq<char> {
    trim_end(trim_start(s))
}

/// The pieces of `s` between occurrences of the delimiter `d`, read from left
/// to right: a delimiter closes the current piece and opens an empty one, any
/// other character extends the current piece. There is always at least one
/// piece, and `n` delimiters give `n + 1` pieces.
pub open spec fn split(s: Seq<char>, d: char) -> Seq<Seq<char>>
    decreases s.len(),
{
    if s.len() == 0 {
        seq![Seq::<char>::empty()]
    } else {
        let before = split(s.drop_last(), d);
        if s.last() == d {
            before.push(Seq::<char>::empty())
        } else {
            before.drop_last().push(before.last().push(s.last()))
        }
    }
}

/// A split always yields at least one piece.
pub proof fn lemma_split_nonempty(s: Seq<char>, d: char)
    ensures
        split(s, d).len() >= 1,
    decreases s.len(),
{
    if s.len() > 0 {
        lemma_split_nonempty(s.drop_last(), d);
    }
}

/// The pieces in order, with `sep` between each two neighbours.
pub open spec fn join(pieces: Seq<Seq<char>>, sep: Seq<char>) -> Seq<char>
    decreases pieces.len(),
{
    if pieces.len() == 0 {
        Seq::<char>::empty()
    } else if pieces.len() == 1 {
        pieces[0]
    } else {
        join(pieces.drop_last(), sep) + sep + pieces.last()
    }
}

/// The contents of each string of `v`, in order.
pub open spec fn texts(v: Seq<String>) -> Seq<Seq<char>> {
    Seq::new(v.len(), |i: int| v[i]@)
}

/// The parts of `s` that the index pairs of `ranges` delimit, in order.
pub open spec fn slices(s: Seq<char>, ranges: Seq<(usize, usize)>) -> Seq<Seq<char>> {
    Seq::new(ranges.len(), |k: int| s.subrange(ranges[k].0 as int, ranges[k].1 as int))
}

/// Every pair of `ranges` is an interval inside `lo..hi`.
pub open spec fn ranges_within(ranges: Seq<(usize, usize)>, lo: int, hi: int) -> bool {
    forall|k: int|
        0 <= k < ranges.len() ==> lo <= (#[trigger] ranges[k]).0 <= ranges[k].1 <= hi
}

/// Whether `c` is removed by trimming.
pub(crate) fn is_white_space_char(c: char) -> (b: bool)
    ensures
        b == is_white_space(c),
{
    c.is_whitespace()
}

/// Copies the characters of `s` into a vector, in order.
pub(crate) fn to_chars(s: &str) -> (chars: Vec<char>)
    ensures
        chars@ == s@,
{
    let mut chars: Vec<char> = Vec::new();
    for c in it: s.chars()
        invariant
            chars@ == s@.take(it.index() as int),
            it.seq() == s@,
    {
        chars.push(c);
    }
    chars
}

/// A string holding the characters `chars[lo..hi]`.
pub(crate) fn string_of(chars: &Vec<char>, lo: usize, hi: usize) -> (s: String)
    requires
        lo <= hi <= chars.len(),
    ensures
        s@ == chars@.subrange(lo as int, hi as int),
{
    let mut s = String::new();
    let mut i: usize = lo;
    while i < hi
        invariant
            lo <= i <= hi <= chars.len(),
            s@ == chars@.subrange(lo as int, i as int),
        decreases hi - i,
    {
        s.push(chars[i]);
        i += 1;
    }
    s
}

/// The bounds of `chars[lo..hi]` once its leading and trailing white space is
/// left out.
pub(crate) fn trim_range(chars: &Vec<char>, lo: usize, hi: usize) -> (r: (usize, usize))
    requires
        lo <= hi <= chars.len(),
    ensures
        lo <= r.0 <= r.1 <= hi,
        chars@.subrange(r.0 as int, r.1 as int) == trim(chars@.subrange(lo as int, hi as int)),
{
    let mut a: usize = lo;
    while a < hi && is_white_space_char(chars[a])
        invariant
            lo <= a <= hi <= chars.len(),
            trim_start(chars@.subrange(lo as int, hi as int)) == trim_start(
                chars@.subrange(a as int, hi as int),
            ),
        decreases hi - a,
    {
        assert(chars@.subrange(a as int, hi as int).drop_first() == chars@.subrange(
            a + 1,
            hi as int,
        ));
        a += 1;
    }
    let mut b: usize = hi;
    while b > a && is_white_space_char(chars[b - 1])
        invariant
            a <= b <= hi <= chars.len(),
            trim_end(chars@.subrange(a as int, hi as int)) == trim_end(
                chars@.subrange(a as int, b as int),
            ),
        decreases b - a,
    {
        assert(chars@.subrange(a as int, b as int).drop_last() == chars@.subrange(
            a as int,
            b - 1,
        ));
        b -= 1;
    }
    (a, b)
}

/// The bounds of the pieces of `chars[lo..hi]` between occurrences of `d`.
pub(crate) fn split_ranges(chars: &Vec<char>, lo: usize, hi: usize, d: char) -> (ranges: Vec<
    (usize, usize),
>)
    requires
        lo <= hi <= chars.len(),
    ensures
        ranges_within(ranges@, lo as int, hi as int),
        slices(chars@, ranges@) == split(chars@.subrange(lo as int, hi as int), d),
{
    let mut ranges: Vec<(usize, usize)> = Vec::new();
    let mut start: usize = lo;
    let mut i: usize = lo;
    assert(slices(chars@, ranges@.push((start, i))) =~~= split(
        chars@.subrange(lo as int, i as int),
        d,
    ));
    while i < hi
        invariant
            lo <= start <= i <= hi <= chars.len(),
            ranges_within(ranges@, lo as int, hi as int),
            slices(chars@, ranges@.push((start, i))) == split(
                chars@.subrange(lo as int, i as int),
                d,
            ),
        decreases hi - i,
    {
        let ghost pieces = slices(chars@, ranges@.push((start, i)));
        let ghost next = (i + 1) as usize;
        proof {
            let now = chars@.subrange(lo as int, next as int);
            assert(now.drop_last() =~= chars@.subrange(lo as int, i as int));
            assert(now.last() == chars@[i as int]);
        }
        if chars[i] == d {
            assert(slices(chars@, ranges@.push((start, i)).push((next, next))) =~~= pieces.push(
                Seq::<char>::empty(),
            ));
            ranges.push((start, i));
            start = i + 1;
        } else {
            assert(slices(chars@, ranges@.push((start, next))) =~~= pieces.drop_last().push(
                pieces.last().push(chars@[i as int]),
            ));
        }
        i += 1;
    }
    ranges.push((start, hi));
    ranges
}

/// The strings of `pieces` in order, with `sep` between each two neighbours.
pub(crate) fn join_strings(pieces: &Vec<String>, sep: &str) -> (out: String)
    ensures
        out@ == join(texts(pieces@), sep@),
{
    let mut out = String::new();
    let mut i: usize = 0;
    while i < pieces.len()
        invariant
            i <= pieces.len(),
            out@ == join(texts(pieces@).take(i as int), sep@),
        decreases pieces.len() - i,
    {
        proof {
            let now = texts(pieces@).take(i + 1);
            assert(now.drop_last() =~= texts(pieces@).take(i as int));
            assert(now.last() == pieces@[i as int]@);
        }
        if i > 0 {
            out.append(sep);
        }
        out.append(pieces[i].as_str());
        i += 1;
    }
    assert(texts(pieces@).take(i as int) =~= texts(pieces@));
    out
}

} // verus!
