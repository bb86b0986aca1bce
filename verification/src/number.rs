//! Numbers as text: unsigned decimals, and the grammar of floating-point
//! literals.

use vstd::prelude::*;
use crate::text::{index_of, lemma_index_of, lemma_index_of_is, same_chars, slice_of, chars_of};

verus! {

/// Whether `c` is one of the digits `0` to `9`.
pub open spec fn is_digit(c: char) -> bool {
    0x30 <= c as u32 <= 0x39
}

/// The value of the digit `c`.
pub open spec fn digit_value(c: char) -> nat {
    (c as u32 - 0x30) as nat
}

/// The digit of value `d`.
pub open spec fn digit_char(d: nat) -> char {
    ((0x30 + d) as u8) as char
}

/// Whether `s` holds digits only. An empty text does.
pub open spec fn all_digits(s: Seq<char>) -> bool {
    forall|i: int| 0 <= i < s.len() ==> is_digit(#[trigger] s[i])
}

/// The number that the digits of `s` write in base ten.
pub open spec fn decimal_value(s: Seq<char>) -> nat
    decreases s.len(),
{
    if s.len() == 0 {
        0
    } else {
        decimal_value(s.drop_last()) * 10 + digit_value(s.last())
    }
}

/// `s` without a leading `+`.
pub open spec fn unsigned_part(s: Seq<char>) -> Seq<char> {
    if s.len() > 0 && s[0] == '+' {
        s.skip(1)
    } else {
        s
    }
}

/// The number that `s` writes, if it writes one that is at most `max`: one
/// digit or more, and nothing else.
pub open spec fn parse_digits(s: Seq<char>, max: nat) -> Option<nat> {
    if s.len() > 0 && all_digits(s) && decimal_value(s) <= max {
        Some(decimal_value(s))
    } else {
        None
    }
}

/// The unsigned number that `s` writes, if it writes one that is at most
/// `max`: an optional `+`, then one digit or more, and nothing else.
pub open spec fn parse_unsigned(s: Seq<char>, max: nat) -> Option<nat> {
    parse_digits(unsigned_part(s), max)
}

/// The digits of `n` in base ten, without leading zeros.
pub open spec fn decimal_text(n: nat) -> Seq<char>
    decreases n,
{
    if n < 10 {
        seq![digit_char(n)]
    } else {
        decimal_text(n / 10).push(digit_char(n % 10))
    }
}

/// The number written by a beginning of `s` is at most the number that `s`
/// writes.
pub proof fn lemma_decimal_value_grows(s: Seq<char>, k: int)
    requires
        0 <= k <= s.len(),
    ensures
        decimal_value(s.take(k)) <= decimal_value(s),
    decreases s.len() - k,
{
    if k < s.len() {
        lemma_decimal_value_grows(s, k + 1);
        assert(s.take(k + 1).drop_last() == s.take(k));
    } else {
        assert(s.take(k) == s);
    }
}

/// Whether the characters of `s` from `from` up to `to` are digits.
pub fn digits_only(s: &Vec<char>, from: usize, to: usize) -> (yes: bool)
    requires
        from <= to <= s.len(),
    ensures
        yes == all_digits(s@.subrange(from as int, to as int)),
{
    let ghost part = s@.subrange(from as int, to as int);
    let mut i: usize = from;
    while i < to
        invariant
            from <= i <= to <= s.len(),
            part == s@.subrange(from as int, to as int),
            forall|k: int| 0 <= k < i - from ==> is_digit(#[trigger] part[k]),
        decreases to - i,
    {
        let v = s[i] as u32;
        if v < 0x30 || v > 0x39 {
            assert(!is_digit(part[i - from]));
            return false;
        }
        i += 1;
    }
    true
}

/// Reads an unsigned number of at most `max` from `s`.
pub fn read_unsigned(s: &Vec<char>, max: u64) -> (res: Option<u64>)
    ensures
        match res {
            Some(n) => parse_unsigned(s@, max as nat) == Some(n as nat),
            None => parse_unsigned(s@, max as nat) is None,
        },
{
    let start: usize = if s.len() > 0 && s[0] == '+' {
        1
    } else {
        0
    };
    let ghost digits = unsigned_part(s@);
    assert(digits == s@.subrange(start as int, s.len() as int));
    if start == s.len() {
        return None;
    }
    if !digits_only(s, start, s.len()) {
        return None;
    }
    let mut n: u64 = 0;
    let mut i: usize = start;
    assert(digits.take(0) == Seq::<char>::empty());
    while i < s.len()
        invariant
            start <= i <= s.len(),
            digits == unsigned_part(s@),
            digits == s@.subrange(start as int, s.len() as int),
            all_digits(digits),
            n == decimal_value(digits.take(i - start)),
            n <= max,
        decreases s.len() - i,
    {
        proof {
            assert(digits[i - start] == s@[i as int]);
            assert(is_digit(digits[i - start]));
            assert(digits.take(i - start + 1).drop_last() == digits.take(i - start));
            assert(digits.take(i - start + 1).last() == digits[i - start]);
            lemma_decimal_value_grows(digits, i - start + 1);
        }
        let d = (s[i] as u32 - 0x30) as u64;
        assert(d == digit_value(digits[i - start]));
        assert(decimal_value(digits.take(i - start + 1)) == n * 10 + d);
        if d > max || n > (max - d) / 10 {
            assert(n * 10 + d > max);
            return None;
        }
        n = n * 10 + d;
        i += 1;
    }
    assert(digits.take(s.len() - start) == digits);
    Some(n)
}

/// Reads a number of at most `max` from `s`, which is to hold digits only.
pub fn read_digits(s: &Vec<char>, max: u64) -> (res: Option<u64>)
    ensures
        match res {
            Some(n) => parse_digits(s@, max as nat) == Some(n as nat),
            None => parse_digits(s@, max as nat) is None,
        },
{
    if s.len() > 0 && s[0] == '+' {
        assert(!is_digit(s@[0]));
        return None;
    }
    read_unsigned(s, max)
}

/// Appends the digits of `n` in base ten.
pub fn push_decimal(out: &mut Vec<char>, n: u64)
    ensures
        final(out)@ == old(out)@ + decimal_text(n as nat),
    decreases n,
{
    if n >= 10 {
        push_decimal(out, n / 10);
    }
    let ghost before = out@;
    let d = (n % 10) as u8;
    out.push((0x30u8 + d) as char);
    proof {
        if n >= 10 {
            assert(before.push(digit_char((n % 10) as nat)) == old(out)@ + decimal_text(n as nat));
        } else {
            assert(old(out)@.push(digit_char(n as nat)) == old(out)@ + decimal_text(n as nat));
        }
    }
}

/// The text of a number holds digits only, at least one, and writes the
/// number; so reading it gives the number back.
pub proof fn lemma_decimal_round_trip(n: nat, max: nat)
    requires
        n <= max,
    ensures
        decimal_text(n).len() > 0,
        all_digits(decimal_text(n)),
        decimal_value(decimal_text(n)) == n,
        parse_unsigned(decimal_text(n), max) == Some(n),
    decreases n,
{
    if n < 10 {
        let t = decimal_text(n);
        assert(t.drop_last() == Seq::<char>::empty());
        assert(decimal_value(t.drop_last()) == 0);
        assert(t.last() == digit_char(n));
    } else {
        lemma_decimal_round_trip(n / 10, max);
        let t = decimal_text(n);
        assert(t.drop_last() == decimal_text(n / 10));
        assert(t.last() == digit_char(n % 10));
        assert forall|i: int| 0 <= i < t.len() implies is_digit(#[trigger] t[i]) by {
            if i < t.len() - 1 {
                assert(t[i] == decimal_text(n / 10)[i]);
            }
        }
    }
    assert(is_digit(decimal_text(n)[0]));
}

/// `c` in lower case, where it is one of the letters `A` to `Z`.
pub open spec fn lower(c: char) -> char {
    if 0x41 <= c as u32 <= 0x5a {
        ((c as u32 + 0x20) as u8) as char
    } else {
        c
    }
}

/// `s` with the letters `A` to `Z` in lower case.
pub open spec fn lowered(s: Seq<char>) -> Seq<char> {
    s.map_values(|c: char| lower(c))
}

/// `s` without a leading `+` or `-`.
pub open spec fn without_sign(s: Seq<char>) -> Seq<char> {
    if s.len() > 0 && (s[0] == '+' || s[0] == '-') {
        s.skip(1)
    } else {
        s
    }
}

/// Whether `m` is digits with at most one `.` among them, and at least one
/// digit.
pub open spec fn is_mantissa(m: Seq<char>) -> bool {
    if index_of(m, '.') >= m.len() {
        m.len() > 0 && all_digits(m)
    } else {
        m.len() > 1 && all_digits(m.take(index_of(m, '.') as int)) && all_digits(
            m.skip(index_of(m, '.') as int + 1),
        )
    }
}

/// Whether `e` is an optional sign and then one digit or more.
pub open spec fn is_exponent(e: Seq<char>) -> bool {
    without_sign(e).len() > 0 && all_digits(without_sign(e))
}

/// Whether `s`, in lower case, is a mantissa, or a mantissa, an `e` and an
/// exponent.
pub open spec fn is_number(s: Seq<char>) -> bool {
    is_mantissa(s.take(index_of(s, 'e') as int)) && (index_of(s, 'e') >= s.len() || is_exponent(
        s.skip(index_of(s, 'e') as int + 1),
    ))
}

/// Whether `s` is a floating-point literal: an optional sign, then `inf`,
/// `infinity` or `nan` in any case, or a number. A number is digits with an
/// optional `.` before, among or after them, and optionally `e` or `E`, an
/// optional sign and digits.
pub open spec fn is_float_literal(s: Seq<char>) -> bool {
    ||| lowered(without_sign(s)) == "inf"@
    ||| lowered(without_sign(s)) == "infinity"@
    ||| lowered(without_sign(s)) == "nan"@
    ||| is_number(lowered(without_sign(s)))
}

/// Digits, at least one, are a floating-point literal as they stand.
pub proof fn lemma_digits_are_a_number(s: Seq<char>)
    requires
        s.len() > 0,
        all_digits(s),
    ensures
        is_float_literal(s),
{
    assert(is_digit(s[0]));
    assert(without_sign(s) == s);
    let low = lowered(s);
    assert(low =~= s) by {
        assert forall|i: int| 0 <= i < s.len() implies low[i] == s[i] by {
            assert(is_digit(s[i]));
        }
    }
    assert forall|i: int| 0 <= i < s.len() implies s[i] != 'e' && s[i] != '.' by {
        assert(is_digit(s[i]));
    }
    lemma_index_of_is(s, 'e', s.len() as int);
    assert(s.take(s.len() as int) == s);
    lemma_index_of_is(s, '.', s.len() as int);
}

/// The place of the first `c` in `s`, or the length of `s`.
pub fn position_of(s: &Vec<char>, c: char) -> (at: usize)
    ensures
        at == index_of(s@, c),
        at <= s.len(),
{
    let mut i: usize = 0;
    while i < s.len()
        invariant
            i <= s.len(),
            forall|k: int| 0 <= k < i ==> s@[k] != c,
        decreases s.len() - i,
    {
        if s[i] == c {
            proof {
                lemma_index_of_is(s@, c, i as int);
            }
            return i;
        }
        i += 1;
    }
    proof {
        lemma_index_of_is(s@, c, s.len() as int);
    }
    i
}

/// `c` in lower case, where it is one of the letters `A` to `Z`.
fn lower_of(c: char) -> (l: char)
    ensures
        l == lower(c),
{
    let v = c as u32;
    if 0x41 <= v && v <= 0x5a {
        ((v + 0x20) as u8) as char
    } else {
        c
    }
}

/// `s` from `from` on, with the letters `A` to `Z` in lower case.
fn lowered_from(s: &Vec<char>, from: usize) -> (v: Vec<char>)
    requires
        from <= s.len(),
    ensures
        v@ == lowered(s@.skip(from as int)),
{
    let mut v: Vec<char> = Vec::new();
    let mut i: usize = from;
    while i < s.len()
        invariant
            from <= i <= s.len(),
            v@ == lowered(s@.skip(from as int)).take(i - from),
        decreases s.len() - i,
    {
        v.push(lower_of(s[i]));
        i += 1;
    }
    v
}

/// Whether `m` is a mantissa.
fn mantissa(m: &Vec<char>) -> (yes: bool)
    ensures
        yes == is_mantissa(m@),
{
    let dot = position_of(m, '.');
    assert(m@.subrange(0, dot as int) == m@.take(dot as int));
    if dot >= m.len() {
        assert(m@.subrange(0, m.len() as int) == m@);
        m.len() > 0 && digits_only(m, 0, m.len())
    } else {
        assert(m@.subrange(dot + 1, m.len() as int) == m@.skip(dot + 1));
        m.len() > 1 && digits_only(m, 0, dot) && digits_only(m, dot + 1, m.len())
    }
}

/// Whether `e` is an exponent.
fn exponent(e: &Vec<char>) -> (yes: bool)
    ensures
        yes == is_exponent(e@),
{
    let start: usize = if e.len() > 0 && (e[0] == '+' || e[0] == '-') {
        1
    } else {
        0
    };
    assert(e@.subrange(start as int, e.len() as int) == without_sign(e@));
    start < e.len() && digits_only(e, start, e.len())
}

/// Whether `s` is a floating-point literal.
pub fn is_float(s: &Vec<char>) -> (yes: bool)
    ensures
        yes == is_float_literal(s@),
{
    let start: usize = if s.len() > 0 && (s[0] == '+' || s[0] == '-') {
        1
    } else {
        0
    };
    assert(s@.skip(start as int) == without_sign(s@));
    let low = lowered_from(s, start);
    if same_chars(&low, &chars_of("inf")) || same_chars(&low, &chars_of("infinity")) || same_chars(
        &low,
        &chars_of("nan"),
    ) {
        return true;
    }
    let mark = position_of(&low, 'e');
    let head = slice_of(&low, 0, mark);
    assert(head@ == low@.take(mark as int));
    if !mantissa(&head) {
        return false;
    }
    if mark >= low.len() {
        return true;
    }
    let tail = slice_of(&low, mark + 1, low.len());
    assert(tail@ == low@.skip(mark + 1));
    exponent(&tail)
}

/// A floating-point literal is not empty and holds neither a comma nor a
/// line's end.
pub proof fn lemma_float_literal_is_plain(s: Seq<char>)
    requires
        is_float_literal(s),
    ensures
        s.len() > 0,
        forall|i: int| 0 <= i < s.len() ==> s[i] != ',' && s[i] != '\n',
{
    reveal_strlit("inf");
    reveal_strlit("infinity");
    reveal_strlit("nan");
    let u = without_sign(s);
    let low = lowered(u);
    assert(low.len() == u.len());
    let mark = index_of(low, 'e') as int;
    lemma_index_of(low, 'e');
    let m = low.take(mark);
    let dot = index_of(m, '.') as int;
    lemma_index_of(m, '.');
    assert forall|i: int| 0 <= i < s.len() implies s[i] != ',' && s[i] != '\n' by {
        let j = if u.len() < s.len() { i - 1 } else { i };
        if j >= 0 {
            assert(u[j] == s[i]);
            assert(low[j] == lower(u[j]));
            if is_number(low) && !(low == "inf"@) && !(low == "infinity"@) && !(low == "nan"@) {
                if j < mark {
                    assert(m[j] == low[j]);
                    if dot < m.len() {
                        if j < dot {
                            assert(is_digit(m.take(dot)[j]));
                        } else if j > dot {
                            assert(is_digit(m.skip(dot + 1)[j - dot - 1]));
                        }
                    } else {
                        assert(is_digit(m[j]));
                    }
                } else if j > mark {
                    let e = low.skip(mark + 1);
                    assert(e[j - mark - 1] == low[j]);
                    let d = without_sign(e);
                    if d.len() < e.len() {
                        if j - mark - 1 > 0 {
                            assert(is_digit(d[j - mark - 2]));
                        }
                    } else {
                        assert(is_digit(d[j - mark - 1]));
                    }
                }
            }
        }
    }
}

} // verus!
