//! Text as sequences of characters: conversion, trimming, splitting, joining
//! and decimal digits.

use vstd::prelude::*;

verus! {

/// `String::push` of the standard library, taken on trust: it appends the
/// character to the end of the string and changes nothing else.
pub assume_specification[ String::push ](s: &mut String, c: char)
    ensures
        final(s)@ == old(s)@.push(c),
;

/// `eq` of the standard library on string slices, taken on trust: two slices
/// are equal exactly when they hold the same characters in the same order.
pub assume_specification[ <str as PartialEq>::eq ](a: &str, b: &str) -> (same: bool)
    ensures
        same == (a@ == b@),
;

/// The characters of `s`, in order.
pub fn to_chars(s: &str) -> (chars: Vec<char>)
    ensures
        chars@ == s@,
{
    let mut chars: Vec<char> = Vec::new();
    for c in it: s.chars()
        invariant
            it.seq() == s@,
            chars@ == it.seq().take(it.index() as int),
    {
        chars.push(c);
    }
    chars
}

/// Appends `chars[from..to]` to `out`.
pub fn push_chars(out: &mut String, chars: &Vec<char>, from: usize, to: usize)
    requires
        from <= to <= chars@.len(),
    ensures
        final(out)@ == old(out)@ + chars@.subrange(from as int, to as int),
{
    let mut i: usize = from;
    while i < to
        invariant
            from <= i <= to <= chars@.len(),
            out@ == old(out)@ + chars@.subrange(from as int, i as int),
        decreases to - i,
    {
        out.push(chars[i]);
        i += 1;
        assert(chars@.subrange(from as int, i as int) == chars@.subrange(
            from as int,
            i - 1,
        ).push(chars@[i - 1]));
    }
}

/// The string that holds `chars[from..to]`.
pub fn to_text(chars: &Vec<char>, from: usize, to: usize) -> (text: String)
    requires
        from <= to <= chars@.len(),
    ensures
        text@ == chars@.subrange(from as int, to as int),
{
    let mut text = String::new();
    push_chars(&mut text, chars, from, to);
    text
}

/// Appends the characters of `piece` to `out`.
pub fn push_text(out: &mut String, piece: &str)
    ensures
        final(out)@ == old(out)@ + piece@,
{
    for c in it: piece.chars()
        invariant
            it.seq() == piece@,
            out@ == old(out)@ + it.seq().take(it.index() as int),
    {
        out.push(c);
        assert(it.seq().take(it.index() + 1) == it.seq().take(it.index() as int).push(c));
    }
}

/// White space: the characters with the Unicode property `White_Space`.
pub open spec fn is_space(c: char) -> bool {
    let code = c as u32;
    ||| 0x09 <= code <= 0x0D
    ||| code == 0x20
    ||| code == 0x85
    ||| code == 0xA0
    ||| code == 0x1680
    ||| 0x2000 <= code <= 0x200A
    ||| code == 0x2028
    ||| code == 0x2029
    ||| code == 0x202F
    ||| code == 0x205F
    ||| code == 0x3000
}

/// Tells whether `c` is white space.
pub fn is_whitespace(c: char) -> (space: bool)
    ensures
        space == is_space(c),
{
    let code: u32 = c as u32;
    (0x09 <= code && code <= 0x0D) || code == 0x20 || code == 0x85 || code == 0xA0 || code
        == 0x1680 || (0x2000 <= code && code <= 0x200A) || code == 0x2028 || code == 0x2029
        || code == 0x202F || code == 0x205F || code == 0x3000
}

/// `s` without its leading white space.
pub open spec fn trim_start(s: Seq<char>) -> Seq<char>
    decreases s.len(),
{
    if s.len() > 0 && is_space(s[0]) {
        trim_start(s.drop_first())
    } else {
        s
    }
}

/// `s` without its trailing white space.
pub open spec fn trim_end(s: Seq<char>) -> Seq<char>
    decreases s.len(),
{
    if s.len() > 0 && is_space(s.last()) {
        trim_end(s.drop_last())
    } else {
        s
    }
}

/// `s` without leading and trailing white space.
pub open spec fn trimmed(s: Seq<char>) -> Seq<char> {
    trim_end(trim_start(s))
}

/// Finds the bounds of `chars[from..to]` without its surrounding white space.
pub fn trim_bounds(chars: &Vec<char>, from: usize, to: usize) -> (bounds: (usize, usize))
    requires
        from <= to <= chars@.len(),
    ensures
        from <= bounds.0 <= bounds.1 <= to,
        chars@.subrange(bounds.0 as int, bounds.1 as int) == trimmed(
            chars@.subrange(from as int, to as int),
        ),
{
    let mut start: usize = from;
    while start < to && is_whitespace(chars[start])
        invariant
            from <= start <= to <= chars@.len(),
            trim_start(chars@.subrange(start as int, to as int)) == trim_start(
                chars@.subrange(from as int, to as int),
            ),
        decreases to - start,
    {
        assert(chars@.subrange(start as int, to as int).drop_first() == chars@.subrange(
            start + 1,
            to as int,
        ));
        start += 1;
    }
    let mut end: usize = to;
    while start < end && is_whitespace(chars[end - 1])
        invariant
            start <= end <= to <= chars@.len(),
            trim_end(chars@.subrange(start as int, end as int)) == trim_end(
                chars@.subrange(start as int, to as int),
            ),
        decreases end - start,
    {
        assert(chars@.subrange(start as int, end as int).drop_last() == chars@.subrange(
            start as int,
            end - 1,
        ));
        end -= 1;
    }
    (start, end)
}

/// Where `sep` first occurs in `s`; the length of `s` if it does not.
pub open spec fn first_index_of(s: Seq<char>, sep: char) -> nat
    decreases s.len(),
{
    if s.len() == 0 || s[0] == sep {
        0
    } else {
        1 + first_index_of(s.drop_first(), sep)
    }
}

/// The first occurrence of `sep` lies within `s`, or is its length.
pub proof fn lemma_first_index_of_bound(s: Seq<char>, sep: char)
    ensures
        first_index_of(s, sep) <= s.len(),
        first_index_of(s, sep) < s.len() ==> s[first_index_of(s, sep) as int] == sep,
        forall|i: int| 0 <= i < first_index_of(s, sep) ==> s[i] != sep,
    decreases s.len(),
{
    if s.len() > 0 && s[0] != sep {
        lemma_first_index_of_bound(s.drop_first(), sep);
        let k = first_index_of(s.drop_first(), sep);
        assert forall|i: int| 0 <= i < first_index_of(s, sep) implies s[i] != sep by {
            if i > 0 {
                assert(s[i] == s.drop_first()[i - 1]);
            }
        }
        if k < s.len() - 1 {
            assert(s[k as int + 1] == s.drop_first()[k as int]);
        }
    }
}

/// Searches `chars[from..to]` for `sep`.
pub fn find_char(chars: &Vec<char>, from: usize, to: usize, sep: char) -> (at: usize)
    requires
        from <= to <= chars@.len(),
    ensures
        from <= at <= to,
        at - from == first_index_of(chars@.subrange(from as int, to as int), sep),
{
    let mut at: usize = from;
    while at < to && chars[at] != sep
        invariant
            from <= at <= to <= chars@.len(),
            first_index_of(chars@.subrange(from as int, to as int), sep) == (at - from)
                + first_index_of(chars@.subrange(at as int, to as int), sep),
        decreases to - at,
    {
        assert(chars@.subrange(at as int, to as int).drop_first() == chars@.subrange(
            at + 1,
            to as int,
        ));
        at += 1;
    }
    at
}

/// The pieces of `s` between occurrences of `sep`. There is always at least
/// one piece, and `n` separators give `n + 1` pieces, empty ones included.
pub open spec fn split(s: Seq<char>, sep: char) -> Seq<Seq<char>>
    decreases s.len(),
{
    let at = first_index_of(s, sep) as int;
    if at >= s.len() {
        seq![s]
    } else {
        seq![s.take(at)] + split(s.skip(at + 1), sep)
    }
}

/// The text of each range of `ranges` within `chars`.
pub open spec fn pieces_at(chars: Seq<char>, ranges: Seq<(usize, usize)>) -> Seq<Seq<char>> {
    Seq::new(ranges.len(), |i: int| chars.subrange(ranges[i].0 as int, ranges[i].1 as int))
}

/// Whether each range is in order and lies within `from..to`.
pub open spec fn ranges_within(ranges: Seq<(usize, usize)>, from: int, to: int) -> bool {
    forall|i: int| 0 <= i < ranges.len() ==> from <= (#[trigger] ranges[i]).0 <= ranges[i].1 <= to
}

/// Splits `chars[from..to]` at each `sep`, giving the bounds of the pieces.
pub fn split_bounds(chars: &Vec<char>, from: usize, to: usize, sep: char) -> (ranges: Vec<
    (usize, usize),
>)
    requires
        from <= to <= chars@.len(),
    ensures
        pieces_at(chars@, ranges@) == split(chars@.subrange(from as int, to as int), sep),
        ranges_within(ranges@, from as int, to as int),
{
    let mut ranges: Vec<(usize, usize)> = Vec::new();
    let mut start: usize = from;
    loop
        invariant_except_break
            split(chars@.subrange(from as int, to as int), sep) == pieces_at(chars@, ranges@)
                + split(chars@.subrange(start as int, to as int), sep),
        invariant
            from <= start <= to <= chars@.len(),
            ranges_within(ranges@, from as int, to as int),
        ensures
            pieces_at(chars@, ranges@) == split(chars@.subrange(from as int, to as int), sep),
            ranges_within(ranges@, from as int, to as int),
        decreases to - start,
    {
        let at = find_char(chars, start, to, sep);
        let ghost rest = chars@.subrange(start as int, to as int);
        let ghost before = ranges@;
        if at >= to {
            ranges.push((start, to));
            assert(pieces_at(chars@, ranges@) == pieces_at(chars@, before) + seq![rest]);
            break;
        }
        ranges.push((start, at));
        proof {
            assert(rest.take(at - start) == chars@.subrange(start as int, at as int));
            assert(rest.skip(at - start + 1) == chars@.subrange(at + 1, to as int));
            assert(pieces_at(chars@, ranges@) == pieces_at(chars@, before) + seq![
                rest.take(at - start),
            ]);
        }
        start = at + 1;
    }
    ranges
}

/// The texts that a list of strings holds.
pub open spec fn names_of(strings: Seq<String>) -> Seq<Seq<char>> {
    Seq::new(strings.len(), |i: int| strings[i]@)
}

/// Each piece without its surrounding white space.
pub open spec fn each_trimmed(pieces: Seq<Seq<char>>) -> Seq<Seq<char>> {
    Seq::new(pieces.len(), |i: int| trimmed(pieces[i]))
}

/// The strings of the given ranges of `chars`.
pub fn collect_pieces(chars: &Vec<char>, ranges: &Vec<(usize, usize)>) -> (pieces: Vec<String>)
    requires
        ranges_within(ranges@, 0, chars@.len() as int),
    ensures
        names_of(pieces@) == pieces_at(chars@, ranges@),
{
    let mut pieces: Vec<String> = Vec::new();
    let mut i: usize = 0;
    while i < ranges.len()
        invariant
            i <= ranges@.len(),
            ranges_within(ranges@, 0, chars@.len() as int),
            names_of(pieces@) == pieces_at(chars@, ranges@.take(i as int)),
        decreases ranges@.len() - i,
    {
        let ghost before = names_of(pieces@);
        let (from, to) = ranges[i];
        pieces.push(to_text(chars, from, to));
        i += 1;
        assert(names_of(pieces@) =~= before.push(chars@.subrange(from as int, to as int)));
        assert(names_of(pieces@) =~= pieces_at(chars@, ranges@.take(i as int)));
    }
    assert(ranges@.take(i as int) == ranges@);
    pieces
}

/// The strings of the given ranges of `chars`, each without its surrounding
/// white space.
pub fn collect_trimmed_pieces(chars: &Vec<char>, ranges: &Vec<(usize, usize)>) -> (pieces: Vec<
    String,
>)
    requires
        ranges_within(ranges@, 0, chars@.len() as int),
    ensures
        names_of(pieces@) == each_trimmed(pieces_at(chars@, ranges@)),
{
    let mut pieces: Vec<String> = Vec::new();
    let mut i: usize = 0;
    while i < ranges.len()
        invariant
            i <= ranges@.len(),
            ranges_within(ranges@, 0, chars@.len() as int),
            names_of(pieces@) == each_trimmed(pieces_at(chars@, ranges@.take(i as int))),
        decreases ranges@.len() - i,
    {
        let ghost before = names_of(pieces@);
        let (from, to) = ranges[i];
        let (start, end) = trim_bounds(chars, from, to);
        pieces.push(to_text(chars, start, end));
        i += 1;
        assert(names_of(pieces@) =~= before.push(trimmed(chars@.subrange(from as int, to as int))));
        assert(names_of(pieces@) =~= each_trimmed(pieces_at(chars@, ranges@.take(i as int))));
    }
    assert(ranges@.take(i as int) == ranges@);
    pieces
}

/// Tells whether `chars[from..to]` is the text of `word`.
pub fn range_is(chars: &Vec<char>, from: usize, to: usize, word: &str) -> (same: bool)
    requires
        from <= to <= chars@.len(),
    ensures
        same == (chars@.subrange(from as int, to as int) == word@),
{
    let letters = to_chars(word);
    if letters.len() != to - from {
        return false;
    }
    let mut i: usize = 0;
    while i < letters.len()
        invariant
            from <= to <= chars@.len(),
            letters@ == word@,
            letters@.len() == to - from,
            i <= letters@.len(),
            forall|j: int| 0 <= j < i ==> chars@[from + j] == letters@[j],
        decreases letters@.len() - i,
    {
        if chars[from + i] != letters[i] {
            assert(chars@.subrange(from as int, to as int)[i as int] != word@[i as int]);
            return false;
        }
        i += 1;
    }
    assert(chars@.subrange(from as int, to as int) =~= word@);
    true
}

/// The pieces in order, with `sep` between each two neighbours.
pub open spec fn joined(pieces: Seq<Seq<char>>, sep: char) -> Seq<char>
    decreases pieces.len(),
{
    if pieces.len() == 0 {
        Seq::empty()
    } else if pieces.len() == 1 {
        pieces[0]
    } else {
        joined(pieces.drop_last(), sep).push(sep) + pieces.last()
    }
}

/// Splitting loses nothing: the pieces, joined again, are the text.
pub proof fn lemma_join_of_split(s: Seq<char>, sep: char)
    ensures
        joined(split(s, sep), sep) == s,
    decreases s.len(),
{
    let at = first_index_of(s, sep) as int;
    lemma_first_index_of_bound(s, sep);
    if at < s.len() {
        let rest = s.skip(at + 1);
        lemma_join_of_split(rest, sep);
        lemma_join_prepend(s.take(at), split(rest, sep), sep);
        assert(s.take(at).push(sep) + rest == s);
    }
}

/// Joining with one more piece in front.
pub proof fn lemma_join_prepend(head: Seq<char>, tail: Seq<Seq<char>>, sep: char)
    requires
        tail.len() > 0,
    ensures
        joined(seq![head] + tail, sep) == head.push(sep) + joined(tail, sep),
    decreases tail.len(),
{
    let all = seq![head] + tail;
    assert(all.drop_last() == seq![head] + tail.drop_last());
    assert(all.last() == tail.last());
    if tail.len() == 1 {
        assert(all.drop_last() == seq![head]);
        assert(joined(all.drop_last(), sep) == head);
        assert(tail.last() == tail[0]);
    } else {
        lemma_join_prepend(head, tail.drop_last(), sep);
        assert(joined(all, sep) == (head.push(sep) + joined(tail.drop_last(), sep)).push(sep)
            + tail.last());
        assert(joined(tail, sep) == joined(tail.drop_last(), sep).push(sep) + tail.last());
    }
}

/// No piece of a split holds the separator.
pub proof fn lemma_split_pieces_lack_separator(s: Seq<char>, sep: char, i: int)
    requires
        0 <= i < split(s, sep).len(),
    ensures
        !split(s, sep)[i].contains(sep),
    decreases s.len(),
{
    let at = first_index_of(s, sep) as int;
    lemma_first_index_of_bound(s, sep);
    if at < s.len() && i > 0 {
        lemma_split_pieces_lack_separator(s.skip(at + 1), sep, i - 1);
    }
}

/// The character of a decimal digit.
pub open spec fn digit(d: int) -> char {
    if d == 0 {
        '0'
    } else if d == 1 {
        '1'
    } else if d == 2 {
        '2'
    } else if d == 3 {
        '3'
    } else if d == 4 {
        '4'
    } else if d == 5 {
        '5'
    } else if d == 6 {
        '6'
    } else if d == 7 {
        '7'
    } else if d == 8 {
        '8'
    } else {
        '9'
    }
}

/// The character of the decimal digit `d`.
pub fn digit_char(d: u64) -> (c: char)
    requires
        d < 10,
    ensures
        c == digit(d as int),
{
    if d == 0 {
        '0'
    } else if d == 1 {
        '1'
    } else if d == 2 {
        '2'
    } else if d == 3 {
        '3'
    } else if d == 4 {
        '4'
    } else if d == 5 {
        '5'
    } else if d == 6 {
        '6'
    } else if d == 7 {
        '7'
    } else if d == 8 {
        '8'
    } else {
        '9'
    }
}

/// The decimal digits of `n`, most significant first, without leading zeros.
pub open spec fn decimal(n: nat) -> Seq<char>
    decreases n,
{
    if n < 10 {
        seq![digit(n as int)]
    } else {
        decimal(n / 10).push(digit((n % 10) as int))
    }
}

/// Appends the decimal digits of `n` to `out`.
pub fn push_decimal(out: &mut String, n: u64)
    ensures
        final(out)@ == old(out)@ + decimal(n as nat),
    decreases n,
{
    if n >= 10 {
        push_decimal(out, n / 10);
    }
    out.push(digit_char(n % 10));
    assert(out@ == old(out)@ + decimal(n as nat));
}

} // verus!
