//! Character-level helpers shared by the parsers and the writers.

use vstd::prelude::*;

verus! {

/// The characters of `s`, in order.
pub fn chars_of(s: &str) -> (v: Vec<char>)
    ensures
        v@ == s@,
{
    let mut v: Vec<char> = Vec::new();
    let it = s.chars();
    for c in iter: it
        invariant
            iter.seq() == s@,
            v@ == s@.take(iter.index()),
    {
        v.push(c);
    }
    v
}

/// Whether two character sequences are the same.
pub fn same_chars(a: &Vec<char>, b: &Vec<char>) -> (same: bool)
    ensures
        same == (a@ == b@),
{
    if a.len() != b.len() {
        return false;
    }
    let mut i: usize = 0;
    while i < a.len()
        invariant
            i <= a.len(),
            a.len() == b.len(),
            a@.take(i as int) == b@.take(i as int),
        decreases a.len() - i,
    {
        if a[i] != b[i] {
            return false;
        }
        assert(a@.take(i + 1) =~= a@.take(i as int).push(a@[i as int]));
        assert(b@.take(i + 1) =~= b@.take(i as int).push(b@[i as int]));
        i += 1;
    }
    assert(a@ =~= a@.take(a.len() as int));
    assert(b@ =~= b@.take(b.len() as int));
    true
}

/// Appends one character to `s`.
///
/// Wraps `String::push`, which the standard library documents as appending
/// the given character to the end of the string.
#[verifier::external_body]
pub(crate) fn push_char(s: &mut String, c: char)
    ensures
        final(s)@ == old(s)@.push(c),
{
    s.push(c);
}

/// `n` times the character `c`.
pub open spec fn repeat(c: char, n: nat) -> Seq<char> {
    Seq::new(n, |i: int| c)
}

/// Appends `n` times the character `c` to `s`.
pub fn push_repeated(s: &mut String, c: char, n: u128)
    ensures
        final(s)@ == old(s)@ + repeat(c, n as nat),
{
    let mut i: u128 = 0;
    assert(old(s)@ + repeat(c, 0) == old(s)@);
    while i < n
        invariant
            i <= n,
            s@ == old(s)@ + repeat(c, i as nat),
        decreases n - i,
    {
        push_char(s, c);
        assert(repeat(c, (i + 1) as nat) == repeat(c, i as nat).push(c));
        i += 1;
    }
}

/// Appends the characters of `text` to `s`.
pub fn push_text(s: &mut String, text: &str)
    ensures
        final(s)@ == old(s)@ + text@,
{
    let chars = chars_of(text);
    let mut i: usize = 0;
    assert(old(s)@ + chars@.take(0) == old(s)@);
    while i < chars.len()
        invariant
            i <= chars.len(),
            s@ == old(s)@ + chars@.take(i as int),
        decreases chars.len() - i,
    {
        push_char(s, chars[i]);
        assert(chars@.take(i + 1) == chars@.take(i as int).push(chars@[i as int]));
        i += 1;
    }
    assert(chars@.take(chars.len() as int) == chars@);
}

/// The string made of the characters of `v`, in order.
pub fn string_of(v: &Vec<char>) -> (s: String)
    ensures
        s@ == v@,
{
    let mut s = String::new();
    let mut i: usize = 0;
    while i < v.len()
        invariant
            i <= v.len(),
            s@ == v@.take(i as int),
        decreases v.len() - i,
    {
        push_char(&mut s, v[i]);
        i += 1;
    }
    s
}

/// Whether `s` begins with `prefix`.
pub open spec fn starts_with(s: Seq<char>, prefix: Seq<char>) -> bool {
    prefix.len() <= s.len() && s.take(prefix.len() as int) == prefix
}

/// Whether `s` ends with `suffix`.
pub open spec fn ends_with(s: Seq<char>, suffix: Seq<char>) -> bool {
    suffix.len() <= s.len() && s.skip(s.len() - suffix.len()) == suffix
}

/// The characters of `s` from `from` up to, not including, `to`.
pub fn slice_of(s: &Vec<char>, from: usize, to: usize) -> (v: Vec<char>)
    requires
        from <= to <= s.len(),
    ensures
        v@ == s@.subrange(from as int, to as int),
{
    let mut v: Vec<char> = Vec::new();
    let mut i: usize = from;
    while i < to
        invariant
            from <= i <= to <= s.len(),
            v@ == s@.subrange(from as int, i as int),
        decreases to - i,
    {
        v.push(s[i]);
        i += 1;
    }
    v
}

/// Whether `s` begins with `prefix`.
pub fn has_prefix(s: &Vec<char>, prefix: &Vec<char>) -> (yes: bool)
    ensures
        yes == starts_with(s@, prefix@),
{
    if prefix.len() > s.len() {
        return false;
    }
    let head = slice_of(s, 0, prefix.len());
    same_chars(&head, prefix)
}

/// Whether `s` ends with `suffix`.
pub fn has_suffix(s: &Vec<char>, suffix: &Vec<char>) -> (yes: bool)
    ensures
        yes == ends_with(s@, suffix@),
{
    if suffix.len() > s.len() {
        return false;
    }
    let tail = slice_of(s, s.len() - suffix.len(), s.len());
    same_chars(&tail, suffix)
}

/// The number of bytes that `c` takes in UTF-8.
pub open spec fn utf8_width(c: char) -> nat {
    if (c as u32) < 0x80 {
        1
    } else if (c as u32) < 0x800 {
        2
    } else if (c as u32) < 0x10000 {
        3
    } else {
        4
    }
}

/// The number of bytes that `s` takes in UTF-8.
pub open spec fn utf8_len(s: Seq<char>) -> nat
    decreases s.len(),
{
    if s.len() == 0 {
        0
    } else {
        utf8_len(s.drop_last()) + utf8_width(s.last())
    }
}

/// The number of bytes that `c` takes in UTF-8.
pub fn char_width(c: char) -> (w: u128)
    ensures
        w == utf8_width(c),
{
    let v = c as u32;
    if v < 0x80 {
        1
    } else if v < 0x800 {
        2
    } else if v < 0x10000 {
        3
    } else {
        4
    }
}

/// The number of bytes that `s` takes in UTF-8.
pub fn byte_len(s: &Vec<char>) -> (n: u128)
    ensures
        n == utf8_len(s@),
        n <= 4 * s@.len(),
{
    let mut n: u128 = 0;
    let mut i: usize = 0;
    while i < s.len()
        invariant
            i <= s.len(),
            n == utf8_len(s@.take(i as int)),
            n <= 4 * i,
        decreases s.len() - i,
    {
        assert(s@.take(i + 1).drop_last() == s@.take(i as int));
        n = n + char_width(s[i]);
        i += 1;
    }
    assert(s@.take(s.len() as int) == s@);
    n
}

/// The texts of a list of strings.
pub open spec fn texts(items: Seq<String>) -> Seq<Seq<char>> {
    items.map_values(|s: String| s@)
}

/// The contents of a list of character sequences.
pub open spec fn pieces(parts: Seq<Vec<char>>) -> Seq<Seq<char>> {
    parts.map_values(|p: Vec<char>| p@)
}

/// The place of the first `c` in `s`, or the length of `s` if it holds none.
pub open spec fn index_of(s: Seq<char>, c: char) -> nat
    decreases s.len(),
{
    if s.len() == 0 || s[0] == c {
        0
    } else {
        1 + index_of(s.skip(1), c)
    }
}

/// Whether `c` occurs in `s`.
pub open spec fn has(s: Seq<char>, c: char) -> bool {
    exists|i: int| 0 <= i < s.len() && s[i] == c
}

/// `index_of` is the least place of `c`, and not beyond the end.
pub proof fn lemma_index_of(s: Seq<char>, c: char)
    ensures
        index_of(s, c) <= s.len(),
        index_of(s, c) < s.len() ==> s[index_of(s, c) as int] == c,
        forall|i: int| 0 <= i < index_of(s, c) ==> s[i] != c,
        index_of(s, c) < s.len() <==> has(s, c),
    decreases s.len(),
{
    if s.len() > 0 && s[0] != c {
        let rest = s.skip(1);
        lemma_index_of(rest, c);
        assert forall|i: int| 0 <= i < index_of(s, c) implies s[i] != c by {
            if i > 0 {
                assert(rest[i - 1] == s[i]);
            }
        }
        if index_of(rest, c) < rest.len() {
            assert(rest[index_of(rest, c) as int] == s[index_of(s, c) as int]);
        }
        if has(s, c) {
            let k = choose|k: int| 0 <= k < s.len() && s[k] == c;
            assert(rest[k - 1] == c);
        }
    }
}

/// If `c` stands at `k` and nowhere before, or `k` is the end and `c` stands
/// nowhere, then `index_of` is `k`.
pub proof fn lemma_index_of_is(s: Seq<char>, c: char, k: int)
    requires
        0 <= k <= s.len(),
        forall|i: int| 0 <= i < k ==> s[i] != c,
        k < s.len() ==> s[k] == c,
    ensures
        index_of(s, c) == k,
{
    lemma_index_of(s, c);
    let found = index_of(s, c) as int;
    if found < k {
        assert(s[found] == c);
    }
}

/// The parts of `s` between the occurrences of `sep`. A text without `sep` is
/// one part, an empty text is one empty part.
pub open spec fn split(s: Seq<char>, sep: char) -> Seq<Seq<char>>
    decreases s.len(),
{
    if index_of(s, sep) >= s.len() {
        seq![s]
    } else {
        seq![s.take(index_of(s, sep) as int)] + split(s.skip(index_of(s, sep) as int + 1), sep)
    }
}

/// The parts of `s` between the occurrences of `sep`.
pub fn split_at_each(s: &Vec<char>, sep: char) -> (parts: Vec<Vec<char>>)
    ensures
        pieces(parts@) == split(s@, sep),
{
    let mut parts: Vec<Vec<char>> = Vec::new();
    let mut start: usize = 0;
    let mut i: usize = 0;
    assert(s@.skip(0) == s@);
    assert(pieces(parts@) + split(s@, sep) == split(s@, sep));
    while i < s.len()
        invariant
            start <= i <= s.len(),
            split(s@, sep) == pieces(parts@) + split(s@.skip(start as int), sep),
            forall|k: int| start <= k < i ==> s@[k] != sep,
        decreases s.len() - i,
    {
        if s[i] == sep {
            let ghost rest = s@.skip(start as int);
            let ghost before = pieces(parts@);
            proof {
                lemma_index_of_is(rest, sep, i - start);
                assert(rest.take(i - start) == s@.subrange(start as int, i as int));
                assert(rest.skip(i - start + 1) == s@.skip(i + 1));
            }
            let part = slice_of(s, start, i);
            parts.push(part);
            assert(pieces(parts@) == before.push(part@));
            assert(before + (seq![part@] + split(s@.skip(i + 1), sep)) == before.push(part@) + split(
                s@.skip(i + 1),
                sep,
            ));
            start = i + 1;
        }
        i += 1;
    }
    let ghost rest = s@.skip(start as int);
    let ghost before = pieces(parts@);
    proof {
        lemma_index_of_is(rest, sep, s.len() - start);
        assert(rest == s@.subrange(start as int, s.len() as int));
    }
    let part = slice_of(s, start, s.len());
    parts.push(part);
    assert(pieces(parts@) == before.push(part@));
    assert(before + seq![part@] == before.push(part@));
    parts
}

/// `s` without every occurrence of `c`.
pub open spec fn without(s: Seq<char>, c: char) -> Seq<char> {
    s.filter(|x: char| x != c)
}

/// `s` without every occurrence of `c`.
pub fn remove_each(s: &Vec<char>, c: char) -> (v: Vec<char>)
    ensures
        v@ == without(s@, c),
{
    let mut v: Vec<char> = Vec::new();
    let mut i: usize = 0;
    assert(s@.take(0).filter(|x: char| x != c) == Seq::<char>::empty());
    while i < s.len()
        invariant
            i <= s.len(),
            v@ == without(s@.take(i as int), c),
        decreases s.len() - i,
    {
        proof {
            assert(s@.take(i + 1).drop_last() == s@.take(i as int));
            reveal(Seq::filter);
        }
        if s[i] != c {
            v.push(s[i]);
        }
        i += 1;
    }
    assert(s@.take(s.len() as int) == s@);
    v
}

/// Whether `c` is white space, as Unicode defines it.
pub uninterp spec fn white_space(c: char) -> bool;

/// Whether `c` is white space.
///
/// Wraps `char::is_whitespace`, which answers by the character alone whether
/// it has the Unicode property `White_Space`. The contract names that answer
/// and claims nothing about which characters have the property.
#[verifier::external_body]
pub(crate) fn is_white(c: char) -> (yes: bool)
    ensures
        yes == white_space(c),
{
    c.is_whitespace()
}

/// The number of white-space characters at the beginning of `s`.
pub open spec fn leading_white(s: Seq<char>) -> nat
    decreases s.len(),
{
    if s.len() == 0 || !white_space(s[0]) {
        0
    } else {
        1 + leading_white(s.skip(1))
    }
}

/// The number of white-space characters at the end of `s`.
pub open spec fn trailing_white(s: Seq<char>) -> nat
    decreases s.len(),
{
    if s.len() == 0 || !white_space(s.last()) {
        0
    } else {
        1 + trailing_white(s.drop_last())
    }
}

/// `s` without the white space at its beginning and at its end.
pub open spec fn trimmed(s: Seq<char>) -> Seq<char> {
    s.skip(leading_white(s) as int).take(
        s.skip(leading_white(s) as int).len() - trailing_white(s.skip(leading_white(s) as int)),
    )
}

/// `s` without the white space at its beginning and at its end.
pub fn trim(s: &Vec<char>) -> (v: Vec<char>)
    ensures
        v@ == trimmed(s@),
{
    let mut from: usize = 0;
    assert(s@.skip(0) == s@);
    while from < s.len() && is_white(s[from])
        invariant
            from <= s.len(),
            leading_white(s@) == from + leading_white(s@.skip(from as int)),
        decreases s.len() - from,
    {
        assert(s@.skip(from as int)[0] == s@[from as int]);
        assert(s@.skip(from as int).skip(1) == s@.skip(from + 1));
        from += 1;
    }
    assert(s@.skip(from as int).len() == 0 || s@.skip(from as int)[0] == s@[from as int]);
    assert(leading_white(s@) == from);
    let ghost rest = s@.skip(from as int);
    let mut to: usize = s.len();
    assert(rest.take(rest.len() as int) == rest);
    while to > from && is_white(s[to - 1])
        invariant
            from <= to <= s.len(),
            rest == s@.skip(from as int),
            trailing_white(rest) == (s.len() - to) + trailing_white(rest.take(to - from)),
        decreases to,
    {
        assert(rest.take(to - from).last() == s@[to - 1]);
        assert(rest.take(to - from).drop_last() == rest.take(to - from - 1));
        to -= 1;
    }
    assert(rest.take(to - from).len() == 0 || rest.take(to - from).last() == s@[to - 1]);
    assert(trailing_white(rest) == s.len() - to);
    let v = slice_of(s, from, to);
    assert(v@ == rest.take(rest.len() - trailing_white(rest)));
    v
}

} // verus!
