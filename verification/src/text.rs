//! Character-level text utilities shared across the crate: conversion between
//! strings and character vectors, decimal rendering of counters, and substring
//! search. Contracts are stated over `Seq<char>` views.

use vstd::prelude::*;

verus! {

/// Relies on str::chars (std): yields the characters of the string in order.
#[verifier::external_body]
pub(crate) fn chars_of(s: &str) -> (r: Vec<char>)
    ensures
        r@ == s@,
{
    s.chars().collect()
}

/// Relies on String's FromIterator over char (std): the collected string holds
/// exactly the characters of the slice, in order.
#[verifier::external_body]
pub(crate) fn string_from_chars(v: &[char]) -> (r: String)
    ensures
        r@ == v@,
{
    v.iter().collect()
}

/// String-slice equality by view, built on verified conversions.
pub(crate) fn str_eq(a: &str, b: &str) -> (r: bool)
    ensures
        r == (a@ == b@),
{
    let av = String::from_str(a);
    let bv = String::from_str(b);
    av == bv
}

/// The character for one decimal digit.
pub open spec fn spec_digit(d: int) -> char {
    if d == 0 { '0' }
    else if d == 1 { '1' }
    else if d == 2 { '2' }
    else if d == 3 { '3' }
    else if d == 4 { '4' }
    else if d == 5 { '5' }
    else if d == 6 { '6' }
    else if d == 7 { '7' }
    else if d == 8 { '8' }
    else { '9' }
}

/// The usual decimal numeral of `n`, most significant digit first, no leading
/// zeros (`0` itself is rendered as "0").
pub open spec fn spec_digits(n: nat) -> Seq<char>
    decreases n,
{
    if n < 10 {
        seq![spec_digit(n as int)]
    } else {
        spec_digits(n / 10).push(spec_digit((n % 10) as int))
    }
}

pub open spec fn is_digit_char(c: char) -> bool {
    '0' as int <= c as int <= '9' as int
}

/// Whether a code point is a Unicode scalar value (a value a `char` can hold):
/// at most 0x10FFFF and not a surrogate.
pub open spec fn is_scalar(v: int) -> bool {
    0 <= v <= 0x10FFFF && !(0xD800 <= v <= 0xDFFF)
}

/// Relies on std char::from_u32: a Unicode scalar value converts to the char
/// with that code point; any other value gives nothing.
#[verifier::external_body]
pub(crate) fn char_from_u32(v: u32) -> (r: Option<char>)
    ensures
        is_scalar(v as int) ==> r == Some(v as char),
        !is_scalar(v as int) ==> r is None,
{
    char::from_u32(v)
}

fn digit_char(d: u64) -> (c: char)
    requires
        d < 10,
    ensures
        c == spec_digit(d as int),
{
    match d {
        0 => '0',
        1 => '1',
        2 => '2',
        3 => '3',
        4 => '4',
        5 => '5',
        6 => '6',
        7 => '7',
        8 => '8',
        _ => '9',
    }
}

/// Appends the decimal numeral of `n` to `out`.
pub(crate) fn push_digits(n: u64, out: &mut Vec<char>)
    ensures
        final(out)@ == old(out)@ + spec_digits(n as nat),
    decreases n,
{
    if n >= 10 {
        push_digits(n / 10, out);
    }
    out.push(digit_char(n % 10));
    proof {
        if n < 10 {
            assert(final(out)@ =~= old(out)@ + spec_digits(n as nat));
        } else {
            assert(final(out)@ =~= old(out)@ + spec_digits(n as nat));
        }
    }
}

pub proof fn lemma_digits_are_digits(n: nat)
    ensures
        spec_digits(n).len() >= 1,
        forall|i: int| 0 <= i < spec_digits(n).len() ==> is_digit_char(#[trigger] spec_digits(n)[i]),
    decreases n,
{
    if n >= 10 {
        lemma_digits_are_digits(n / 10);
    }
}

/// Distinct numbers have distinct numerals.
pub proof fn lemma_digits_injective(m: nat, n: nat)
    requires
        m != n,
    ensures
        spec_digits(m) != spec_digits(n),
    decreases m + n,
{
    let dm = spec_digits(m);
    let dn = spec_digits(n);
    if dm == dn {
        if m < 10 && n < 10 {
            assert(dm[0] == spec_digit(m as int));
            assert(dn[0] == spec_digit(n as int));
            assert(false);
        } else if m < 10 && n >= 10 {
            lemma_digits_are_digits(n / 10);
            assert(dn.len() >= 2);
            assert(false);
        } else if m >= 10 && n < 10 {
            lemma_digits_are_digits(m / 10);
            assert(dm.len() >= 2);
            assert(false);
        } else {
            assert(dm.last() == spec_digit((m % 10) as int));
            assert(dn.last() == spec_digit((n % 10) as int));
            assert(m % 10 == n % 10);
            assert(dm.drop_last() =~= spec_digits(m / 10));
            assert(dn.drop_last() =~= spec_digits(n / 10));
            if m / 10 != n / 10 {
                lemma_digits_injective(m / 10, n / 10);
                assert(false);
            } else {
                assert(m == n);
                assert(false);
            }
        }
    }
}

/// The autogenerated id of the `n`-th unlabeled element of a class:
/// the class name, a dash, and the counter.
pub open spec fn autogen_id(class: Seq<char>, n: nat) -> Seq<char> {
    class + seq!['-'] + spec_digits(n)
}

/// Law: autogenerated ids are unique — two generated ids coincide only for
/// the same class and the same counter value, whatever the class names hold.
pub proof fn lemma_autogen_id_injective(c1: Seq<char>, n1: nat, c2: Seq<char>, n2: nat)
    requires
        c1 != c2 || n1 != n2,
    ensures
        autogen_id(c1, n1) != autogen_id(c2, n2),
{
    let id1 = autogen_id(c1, n1);
    let id2 = autogen_id(c2, n2);
    if id1 == id2 {
        lemma_digits_are_digits(n1);
        lemma_digits_are_digits(n2);
        assert(id1[c1.len() as int] == '-');
        assert(id2[c2.len() as int] == '-');
        assert(forall|j: int|
            c1.len() < j < id1.len() ==> is_digit_char(#[trigger] id1[j]) && id1[j] != '-') by {
            assert forall|j: int| c1.len() < j < id1.len() implies is_digit_char(#[trigger] id1[j])
                && id1[j] != '-' by {
                assert(id1[j] == spec_digits(n1)[j - c1.len() - 1]);
                assert(is_digit_char(id1[j]));
                assert('0' as int == 48 && '9' as int == 57 && '-' as int == 45);
            }
        }
        assert(forall|j: int|
            c2.len() < j < id2.len() ==> is_digit_char(#[trigger] id2[j]) && id2[j] != '-') by {
            assert forall|j: int| c2.len() < j < id2.len() implies is_digit_char(#[trigger] id2[j])
                && id2[j] != '-' by {
                assert(id2[j] == spec_digits(n2)[j - c2.len() - 1]);
                assert(is_digit_char(id2[j]));
                assert('0' as int == 48 && '9' as int == 57 && '-' as int == 45);
            }
        }
        if c1.len() < c2.len() {
            assert(id1[c2.len() as int] == id2[c2.len() as int]);
            assert(c2.len() < id2.len());
            assert(false);
        } else if c2.len() < c1.len() {
            assert(id2[c1.len() as int] == id1[c1.len() as int]);
            assert(false);
        } else {
            assert(c1 =~= c2) by {
                assert(forall|j: int| 0 <= j < c1.len() ==> #[trigger] c1[j] == id1[j] && c2[j]
                    == id2[j]);
            }
            assert(spec_digits(n1) =~= spec_digits(n2)) by {
                assert(id1.len() == c1.len() + 1 + spec_digits(n1).len());
                assert(id2.len() == c2.len() + 1 + spec_digits(n2).len());
                assert(spec_digits(n1).len() == spec_digits(n2).len());
                assert(forall|j: int|
                    0 <= j < spec_digits(n1).len() ==> #[trigger] spec_digits(n1)[j] == id1[j
                        + c1.len() + 1]);
                assert(forall|j: int|
                    0 <= j < spec_digits(n2).len() ==> #[trigger] spec_digits(n2)[j] == id2[j
                        + c2.len() + 1]);
            }
            if n1 != n2 {
                lemma_digits_injective(n1, n2);
            }
            assert(false);
        }
    }
}

/// Position of the first occurrence of `t` in `s` at or after `from`.
pub open spec fn find_sub(s: Seq<char>, t: Seq<char>, from: int) -> Option<int>
    decreases s.len() - from,
    when 0 <= from && t.len() >= 1
{
    if from + t.len() > s.len() {
        None
    } else if s.subrange(from, from + t.len() as int) == t {
        Some(from)
    } else {
        find_sub(s, t, from + 1)
    }
}

pub open spec fn contains_sub(s: Seq<char>, t: Seq<char>) -> bool {
    find_sub(s, t, 0) is Some
}

pub proof fn lemma_find_sub_props(s: Seq<char>, t: Seq<char>, from: int)
    requires
        0 <= from,
        t.len() >= 1,
    ensures
        match find_sub(s, t, from) {
            Some(i) => from <= i && i + t.len() <= s.len() && s.subrange(i, i + t.len() as int)
                == t,
            None => true,
        },
    decreases s.len() - from,
{
    if from + t.len() > s.len() {
    } else if s.subrange(from, from + t.len() as int) == t {
    } else {
        lemma_find_sub_props(s, t, from + 1);
    }
}

/// Whether `t` occurs in `s` starting exactly at `i`.
pub open spec fn sub_at(s: Seq<char>, t: Seq<char>, i: int) -> bool {
    0 <= i && i + t.len() <= s.len() && s.subrange(i, i + t.len() as int) == t
}

fn eq_at(s: &[char], t: &[char], i: usize) -> (r: bool)
    requires
        i + t@.len() <= s@.len(),
    ensures
        r == (s@.subrange(i as int, i + t@.len()) == t@),
{
    let n = s.len();
    let m = t.len();
    let mut j: usize = 0;
    while j < m
        invariant
            0 <= j <= m,
            m == t@.len(),
            n == s@.len(),
            i + m <= n,
            forall|k: int| 0 <= k < j ==> s@[i + k] == t@[k],
        decreases m - j,
    {
        if s[i + j] != t[j] {
            proof {
                assert(s@.subrange(i as int, i + t@.len())[j as int] == s@[i + j]);
            }
            return false;
        }
        j += 1;
    }
    proof {
        assert(s@.subrange(i as int, i + t@.len()) =~= t@);
    }
    true
}

/// Finds the first occurrence of `t` in `s` at or after `from`.
pub(crate) fn find_sub_exec(s: &[char], t: &[char], from: usize) -> (r: Option<usize>)
    requires
        t@.len() >= 1,
    ensures
        match r {
            Some(i) => Some(i as int) == find_sub(s@, t@, from as int),
            None => find_sub(s@, t@, from as int) is None,
        },
{
    let n = s.len();
    let m = t.len();
    if m > n || from > n - m {
        proof {
            lemma_find_sub_none(s@, t@, from as int);
        }
        return None;
    }
    let mut i: usize = from;
    while i <= n - m
        invariant
            from <= i,
            1 <= m == t@.len(),
            n == s@.len(),
            m <= n,
            i <= n - m + 1,
            find_sub(s@, t@, from as int) == find_sub(s@, t@, i as int),
        decreases n - i,
    {
        if eq_at(s, t, i) {
            return Some(i);
        }
        i += 1;
    }
    None
}

/// Appends `s[a..b]` to `out`.
pub(crate) fn push_range(out: &mut Vec<char>, s: &[char], a: usize, b: usize)
    requires
        a <= b <= s@.len(),
    ensures
        final(out)@ == old(out)@ + s@.subrange(a as int, b as int),
{
    let mut i: usize = a;
    while i < b
        invariant
            a <= i <= b <= s@.len(),
            out@ == old(out)@ + s@.subrange(a as int, i as int),
        decreases b - i,
    {
        out.push(s[i]);
        proof {
            assert(old(out)@ + s@.subrange(a as int, i + 1) =~= (old(out)@ + s@.subrange(
                a as int,
                i as int,
            )).push(s@[i as int]));
        }
        i += 1;
    }
    proof {
        assert(out@ =~= old(out)@ + s@.subrange(a as int, b as int));
    }
}

proof fn lemma_find_sub_none(s: Seq<char>, t: Seq<char>, from: int)
    requires
        0 <= from,
        t.len() >= 1,
        from + t.len() > s.len(),
    ensures
        find_sub(s, t, from) is None,
{
}

} // verus!
