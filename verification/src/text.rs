//! Character sequences: conversion to and from strings, decimal numerals,
//! replacement of a pattern, and trimming of whitespace.

use vstd::prelude::*;
use vstd::string::*;

verus! {

/// `String::push` appends one character.
pub assume_specification[ std::string::String::push ](s: &mut std::string::String, ch: char)
    ensures
        final(s)@ == old(s)@.push(ch),
;

/// The characters of `s`, in order.
pub fn chars_of(s: &str) -> (v: Vec<char>)
    ensures
        v@ == s@,
{
    let mut v: Vec<char> = Vec::new();
    for c in it: s.chars()
        invariant
            v@ == it.seq().take(it.index()),
    {
        v.push(c);
    }
    v
}

/// The string that holds the characters of `v`, in order.
pub fn string_of(v: &Vec<char>) -> (s: String)
    ensures
        s@ == v@,
{
    let mut s = String::new();
    let mut i: usize = 0;
    while i < v.len()
        invariant
            i <= v.len(),
            s@ == v@.take(i as int),
        decreases v.len() - i,
    {
        s.push(v[i]);
        i += 1;
    }
    s
}

/// The character of one decimal digit, `0 <= d <= 9`.
pub open spec fn digit_char(d: int) -> char {
    ((48 + d) as u8) as char
}

/// The decimal numeral of `n`: no sign, no leading zero but for `0` itself.
pub open spec fn decimal(n: nat) -> Seq<char>
    decreases n,
{
    if n < 10 {
        seq![digit_char(n as int)]
    } else {
        decimal(n / 10).push(digit_char((n % 10) as int))
    }
}

/// The decimal numeral of `i`, with a leading `-` when `i` is negative.
pub open spec fn signed_decimal(i: int) -> Seq<char> {
    if i < 0 {
        seq!['-'] + decimal((-i) as nat)
    } else {
        decimal(i as nat)
    }
}

/// Appends the decimal numeral of `n` to `out`.
pub fn push_decimal(out: &mut Vec<char>, n: u64)
    ensures
        final(out)@ == old(out)@ + decimal(n as nat),
    decreases n,
{
    if n >= 10 {
        push_decimal(out, n / 10);
    }
    let d: u8 = (n % 10) as u8;
    out.push((48u8 + d) as char);
    assert(out@ =~= old(out)@ + decimal(n as nat));
}

/// Appends the decimal numeral of `i` to `out`, with `-` before a negative one.
pub fn push_signed_decimal(out: &mut Vec<char>, i: i64)
    ensures
        final(out)@ == old(out)@ + signed_decimal(i as int),
{
    if i < 0 {
        out.push('-');
        let magnitude: u64 = ((-(i + 1)) as u64) + 1;
        push_decimal(out, magnitude);
        assert(out@ =~= old(out)@ + signed_decimal(i as int));
    } else {
        push_decimal(out, i as u64);
    }
}

/// Appends the characters of `more` to `out`.
pub fn append(out: &mut Vec<char>, more: &Vec<char>)
    ensures
        final(out)@ == old(out)@ + more@,
{
    let mut k: usize = 0;
    while k < more.len()
        invariant
            k <= more.len(),
            out@ == old(out)@ + more@.take(k as int),
        decreases more.len() - k,
    {
        out.push(more[k]);
        k += 1;
        assert(out@ =~= old(out)@ + more@.take(k as int));
    }
    assert(more@.take(more.len() as int) =~= more@);
}

/// Whether `pat` stands in `s` at position `at`.
pub open spec fn occurs_at(s: Seq<char>, pat: Seq<char>, at: int) -> bool {
    &&& 0 <= at
    &&& at + pat.len() <= s.len()
    &&& s.subrange(at, at + pat.len()) == pat
}

/// Whether `pat` stands anywhere in `s`.
pub open spec fn occurs_in(s: Seq<char>, pat: Seq<char>) -> bool {
    exists|at: int| occurs_at(s, pat, at)
}

/// `s` with every occurrence of `from` replaced by `to`. Occurrences are found
/// from the left and do not overlap; an empty `from` occurs nowhere.
pub open spec fn replaced(s: Seq<char>, from: Seq<char>, to: Seq<char>) -> Seq<char>
    decreases s.len(),
{
    if from.len() == 0 || s.len() < from.len() {
        s
    } else if occurs_at(s, from, 0) {
        to + replaced(s.skip(from.len() as int), from, to)
    } else {
        seq![s[0]] + replaced(s.skip(1), from, to)
    }
}

/// Tells whether `pat` stands in `s` at position `at`.
pub fn matches_at(s: &Vec<char>, pat: &Vec<char>, at: usize) -> (found: bool)
    ensures
        found == occurs_at(s@, pat@, at as int),
{
    if at > s.len() || pat.len() > s.len() - at {
        return false;
    }
    let mut k: usize = 0;
    while k < pat.len()
        invariant
            k <= pat.len(),
            at + pat.len() <= s.len(),
            forall|j: int| 0 <= j < k ==> s@[at + j] == pat@[j],
        decreases pat.len() - k,
    {
        if s[at + k] != pat[k] {
            assert(s@.subrange(at as int, at + pat.len())[k as int] != pat@[k as int]);
            return false;
        }
        k += 1;
    }
    assert(s@.subrange(at as int, at + pat.len()) =~= pat@);
    true
}

/// Replaces every occurrence of `from` in `s` by `to`.
pub fn replace_all(s: &Vec<char>, from: &Vec<char>, to: &Vec<char>) -> (out: Vec<char>)
    ensures
        out@ == replaced(s@, from@, to@),
{
    let mut out: Vec<char> = Vec::new();
    let mut i: usize = 0;
    assert(s@.skip(0) =~= s@);
    assert(out@ + replaced(s@, from@, to@) =~= replaced(s@, from@, to@));
    while i < s.len()
        invariant
            i <= s.len(),
            out@ + replaced(s@.skip(i as int), from@, to@) == replaced(s@, from@, to@),
        decreases s.len() - i,
    {
        let ghost rest = s@.skip(i as int);
        let found = from.len() > 0 && matches_at(s, from, i);
        proof {
            lemma_occurs_at_skip(s@, from@, i as int, 0);
        }
        if found {
            let ghost before = out@;
            append(&mut out, to);
            i += from.len();
            assert(out@ + replaced(s@.skip(i as int), from@, to@) =~= before + replaced(
                rest,
                from@,
                to@,
            )) by {
                assert(rest.skip(from@.len() as int) =~= s@.skip(i as int));
            }
        } else {
            let ghost before = out@;
            out.push(s[i]);
            i += 1;
            assert(out@ + replaced(s@.skip(i as int), from@, to@) =~= before + replaced(
                rest,
                from@,
                to@,
            )) by {
                assert(rest.skip(1) =~= s@.skip(i as int));
                if from@.len() == 0 || rest.len() < from@.len() {
                    lemma_replaced_short(rest, from@, to@);
                    lemma_replaced_short(rest.skip(1), from@, to@);
                }
            }
        }
    }
    assert(s@.skip(i as int) =~= Seq::<char>::empty());
    assert(out@ + Seq::<char>::empty() =~= out@);
    out
}

/// An occurrence in what follows the first `n` characters of `s` is an
/// occurrence in `s`, `n` places further on.
pub proof fn lemma_occurs_at_skip(s: Seq<char>, pat: Seq<char>, n: int, at: int)
    requires
        0 <= n <= s.len(),
        0 <= at,
    ensures
        occurs_at(s.skip(n), pat, at) == occurs_at(s, pat, n + at),
{
    if n + at + pat.len() <= s.len() {
        assert(s.skip(n).subrange(at, at + pat.len()) =~= s.subrange(n + at, n + at + pat.len()));
    }
}

/// A text shorter than the pattern, or any text under an empty pattern, is
/// left as it is.
pub proof fn lemma_replaced_short(s: Seq<char>, from: Seq<char>, to: Seq<char>)
    requires
        from.len() == 0 || s.len() < from.len(),
    ensures
        replaced(s, from, to) == s,
{
}

/// Where no occurrence starts before position `k`, the first `k` characters
/// are left as they are.
pub proof fn lemma_replaced_prefix(s: Seq<char>, from: Seq<char>, to: Seq<char>, k: int)
    requires
        0 <= k <= s.len(),
        from.len() > 0,
        forall|p: int| 0 <= p < k ==> !occurs_at(s, from, p),
    ensures
        replaced(s, from, to) == s.take(k) + replaced(s.skip(k), from, to),
    decreases k,
{
    if k == 0 {
        assert(s.skip(0) =~= s);
        assert(s.take(0) + replaced(s, from, to) =~= replaced(s, from, to));
    } else if s.len() < from.len() {
        assert(s.take(k) + s.skip(k) =~= s);
    } else {
        assert(!occurs_at(s, from, 0));
        let rest = s.skip(1);
        assert forall|p: int| 0 <= p < k - 1 implies !occurs_at(rest, from, p) by {
            lemma_occurs_at_skip(s, from, 1, p);
        }
        lemma_replaced_prefix(rest, from, to, k - 1);
        assert(rest.skip(k - 1) =~= s.skip(k));
        assert(seq![s[0]] + rest.take(k - 1) =~= s.take(k));
        assert(seq![s[0]] + (rest.take(k - 1) + replaced(s.skip(k), from, to)) =~= s.take(k)
            + replaced(s.skip(k), from, to));
    }
}

/// A text in which the pattern does not occur is left as it is.
pub proof fn lemma_replaced_absent(s: Seq<char>, from: Seq<char>, to: Seq<char>)
    requires
        !occurs_in(s, from),
    ensures
        replaced(s, from, to) == s,
{
    if from.len() > 0 {
        lemma_replaced_prefix(s, from, to, s.len() as int);
        assert(s.take(s.len() as int) =~= s);
        assert(s.skip(s.len() as int) =~= Seq::<char>::empty());
        assert(s + Seq::<char>::empty() =~= s);
    }
}

/// Where no occurrence lies across the end of `a`, replacement in `a + b` is
/// replacement in `a` and in `b`.
pub proof fn lemma_replaced_concat(a: Seq<char>, b: Seq<char>, from: Seq<char>, to: Seq<char>)
    requires
        forall|p: int| #[trigger]
            occurs_at(a + b, from, p) ==> p + from.len() <= a.len() || a.len() <= p,
    ensures
        replaced(a + b, from, to) == replaced(a, from, to) + replaced(b, from, to),
    decreases a.len(),
{
    let s = a + b;
    let n = from.len() as int;
    if n == 0 {
    } else if a.len() == 0 {
        assert(s =~= b);
        assert(a + replaced(b, from, to) =~= replaced(b, from, to));
    } else if s.len() < n {
        lemma_replaced_short(a, from, to);
        lemma_replaced_short(b, from, to);
    } else if occurs_at(s, from, 0) {
        assert(n <= a.len());
        assert(a.subrange(0, n) =~= s.subrange(0, n));
        let a2 = a.skip(n);
        assert(s.skip(n) =~= a2 + b);
        assert forall|p: int| #[trigger]
            occurs_at(a2 + b, from, p) implies p + from.len() <= a2.len() || a2.len() <= p by {
            lemma_occurs_at_skip(s, from, n, p);
        }
        lemma_replaced_concat(a2, b, from, to);
        assert(to + (replaced(a2, from, to) + replaced(b, from, to)) =~= (to + replaced(
            a2,
            from,
            to,
        )) + replaced(b, from, to));
    } else {
        let a2 = a.skip(1);
        assert(s.skip(1) =~= a2 + b);
        assert forall|p: int| #[trigger]
            occurs_at(a2 + b, from, p) implies p + from.len() <= a2.len() || a2.len() <= p by {
            lemma_occurs_at_skip(s, from, 1, p);
        }
        lemma_replaced_concat(a2, b, from, to);
        if a.len() >= n {
            assert(a.subrange(0, n) =~= s.subrange(0, n));
        } else {
            lemma_replaced_short(a, from, to);
            lemma_replaced_short(a2, from, to);
            assert(seq![a[0]] + a2 =~= a);
        }
        assert(seq![s[0]] + (replaced(a2, from, to) + replaced(b, from, to)) =~= (seq![a[0]]
            + replaced(a2, from, to)) + replaced(b, from, to));
    }
}

/// Where no occurrence touches the middle part `m`, that part is left as it
/// is, and replacement goes on independently on either side of it.
pub proof fn lemma_replaced_around(
    a: Seq<char>,
    m: Seq<char>,
    b: Seq<char>,
    from: Seq<char>,
    to: Seq<char>,
)
    requires
        forall|p: int| #[trigger]
            occurs_at(a + m + b, from, p) ==> p + from.len() <= a.len() || a.len() + m.len()
                <= p,
    ensures
        replaced(a + m + b, from, to) == replaced(a, from, to) + m + replaced(b, from, to),
{
    if from.len() > 0 {
        let tail = m + b;
        assert(a + m + b =~= a + tail);
        lemma_replaced_concat(a, tail, from, to);
        assert forall|p: int| 0 <= p < m.len() implies !occurs_at(tail, from, p) by {
            assert((a + tail).skip(a.len() as int) =~= tail);
            lemma_occurs_at_skip(a + tail, from, a.len() as int, p);
        }
        lemma_replaced_prefix(tail, from, to, m.len() as int);
        assert(tail.take(m.len() as int) =~= m);
        assert(tail.skip(m.len() as int) =~= b);
        assert(replaced(a, from, to) + (m + replaced(b, from, to)) =~= replaced(a, from, to) + m
            + replaced(b, from, to));
    }
}

/// An occurrence that no other occurrence reaches from the left is replaced,
/// and replacement goes on independently on either side of it.
pub proof fn lemma_replaced_at(a: Seq<char>, b: Seq<char>, from: Seq<char>, to: Seq<char>)
    requires
        from.len() > 0,
        forall|p: int| #[trigger]
            occurs_at(a + from + b, from, p) ==> p + from.len() <= a.len() || a.len() <= p,
    ensures
        replaced(a + from + b, from, to) == replaced(a, from, to) + to + replaced(b, from, to),
{
    let tail = from + b;
    assert(a + from + b =~= a + tail);
    lemma_replaced_concat(a, tail, from, to);
    assert(tail.subrange(0, from.len() as int) =~= from);
    assert(tail.skip(from.len() as int) =~= b);
    assert(replaced(a, from, to) + (to + replaced(b, from, to)) =~= replaced(a, from, to) + to
        + replaced(b, from, to));
}

/// Whether `c` is one of the ten decimal digits.
pub open spec fn is_digit(c: char) -> bool {
    48 <= c as u32 <= 57
}

/// A decimal numeral is made of digits, and has one digit exactly when the
/// number is below ten.
pub proof fn lemma_decimal_digits(n: nat)
    ensures
        decimal(n).len() >= 1,
        decimal(n).len() == 1 <==> n < 10,
        forall|k: int| 0 <= k < decimal(n).len() ==> is_digit(#[trigger] decimal(n)[k]),
    decreases n,
{
    if n >= 10 {
        lemma_decimal_digits(n / 10);
    }
}

/// Two numbers with the same decimal numeral are the same number.
pub proof fn lemma_decimal_injective(x: nat, y: nat)
    requires
        decimal(x) == decimal(y),
    ensures
        x == y,
    decreases x,
{
    lemma_decimal_digits(x);
    lemma_decimal_digits(y);
    if x >= 10 {
        assert(decimal(x / 10) =~= decimal(x).drop_last());
        assert(decimal(y / 10) =~= decimal(y).drop_last());
        lemma_decimal_injective(x / 10, y / 10);
        assert(decimal(x).last() == digit_char((x % 10) as int));
        assert(decimal(y).last() == digit_char((y % 10) as int));
        assert(digit_char((x % 10) as int) as u32 == 48 + x % 10);
        assert(digit_char((y % 10) as int) as u32 == 48 + y % 10);
    } else {
        assert(decimal(x)[0] == digit_char(x as int));
        assert(decimal(y)[0] == digit_char(y as int));
        assert(digit_char(x as int) as u32 == 48 + x);
        assert(digit_char(y as int) as u32 == 48 + y);
    }
}

/// A number whose decimal numeral is the beginning of a longer one is the
/// smaller of the two.
pub proof fn lemma_decimal_prefix(x: nat, y: nat)
    requires
        decimal(x).len() < decimal(y).len(),
        decimal(y).take(decimal(x).len() as int) == decimal(x),
    ensures
        x < y,
    decreases y,
{
    lemma_decimal_digits(x);
    lemma_decimal_digits(y);
    let n = decimal(x).len() as int;
    let shorter = decimal(y / 10);
    assert(shorter =~= decimal(y).drop_last());
    assert(shorter.take(n) =~= decimal(y).take(n));
    if n == shorter.len() {
        assert(shorter.take(n) =~= shorter);
        lemma_decimal_injective(x, y / 10);
    } else {
        lemma_decimal_prefix(x, y / 10);
    }
}

/// Whether `c` is white space: a character with the Unicode property
/// White_Space.
pub open spec fn is_space(c: char) -> bool {
    let u = c as u32;
    ||| 0x09 <= u <= 0x0D
    ||| u == 0x20
    ||| u == 0x85
    ||| u == 0xA0
    ||| u == 0x1680
    ||| 0x2000 <= u <= 0x200A
    ||| u == 0x2028
    ||| u == 0x2029
    ||| u == 0x202F
    ||| u == 0x205F
    ||| u == 0x3000
}

/// `s` without the white space it starts with.
pub open spec fn trimmed_start(s: Seq<char>) -> Seq<char>
    decreases s.len(),
{
    if s.len() > 0 && is_space(s[0]) {
        trimmed_start(s.skip(1))
    } else {
        s
    }
}

/// `s` without the white space it ends with.
pub open spec fn trimmed_end(s: Seq<char>) -> Seq<char>
    decreases s.len(),
{
    if s.len() > 0 && is_space(s.last()) {
        trimmed_end(s.drop_last())
    } else {
        s
    }
}

/// `s` without the white space at either end.
pub open spec fn trimmed(s: Seq<char>) -> Seq<char> {
    trimmed_end(trimmed_start(s))
}

/// Tells whether `c` is white space.
pub fn is_whitespace(c: char) -> (b: bool)
    ensures
        b == is_space(c),
{
    let u: u32 = c as u32;
    (0x09 <= u && u <= 0x0D) || u == 0x20 || u == 0x85 || u == 0xA0 || u == 0x1680 || (0x2000 <= u
        && u <= 0x200A) || u == 0x2028 || u == 0x2029 || u == 0x202F || u == 0x205F || u == 0x3000
}

/// Removes the white space at either end of `s`.
pub fn trim(s: &Vec<char>) -> (out: Vec<char>)
    ensures
        out@ == trimmed(s@),
{
    let mut start: usize = 0;
    assert(s@.skip(0) =~= s@);
    while start < s.len() && is_whitespace(s[start])
        invariant
            start <= s.len(),
            trimmed_start(s@.skip(start as int)) == trimmed_start(s@),
        decreases s.len() - start,
    {
        assert(s@.skip(start as int).skip(1) =~= s@.skip(start + 1));
        start += 1;
    }
    let mut end: usize = s.len();
    assert(s@.subrange(start as int, end as int) =~= s@.skip(start as int));
    while end > start && is_whitespace(s[end - 1])
        invariant
            start <= end <= s.len(),
            trimmed_end(s@.subrange(start as int, end as int)) == trimmed_end(
                s@.skip(start as int),
            ),
        decreases end - start,
    {
        assert(s@.subrange(start as int, end as int).drop_last() =~= s@.subrange(
            start as int,
            end - 1,
        ));
        end -= 1;
    }
    let mut out: Vec<char> = Vec::new();
    let mut i: usize = start;
    while i < end
        invariant
            start <= i <= end <= s.len(),
            out@ == s@.subrange(start as int, i as int),
        decreases end - i,
    {
        out.push(s[i]);
        i += 1;
        assert(out@ =~= s@.subrange(start as int, i as int));
    }
    out
}

} // verus!
