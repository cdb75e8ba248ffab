//! Character-level building blocks of the text encodings: conversion
//! between `String` and `Vec<char>`, and canonical decimal numerals with
//! their parse-back lemmas.

use vstd::prelude::*;
use vstd::std_specs::iter::IteratorSpec;

verus! {

/// The characters of the string, in order: the string's view, collected.
pub fn chars_of(s: &str) -> (r: Vec<char>)
    ensures
        r@ == s@,
{
    broadcast use vstd::string::axiom_spec_iter, vstd::string::next_postcondition;

    let mut it = s.chars();
    let mut out: Vec<char> = Vec::new();
    proof {
        assert(out@ + it.remaining() =~= s@);
    }
    loop
        invariant
            it.decrease() is Some,
            out@ + it.remaining() == s@,
        decreases it.decrease()->0,
    {
        match it.next() {
            Some(c) => {
                out.push(c);
                proof {
                    assert(out@ + it.remaining() =~= s@);
                }
            },
            None => {
                proof {
                    assert(out@ =~= s@);
                }
                return out;
            },
        }
    }
}

/// Relies on String's FromIterator over char: the collected string holds
/// exactly the given characters, in order.
#[verifier::external_body]
pub fn string_of(v: &Vec<char>) -> (r: String)
    ensures
        r@ == v@,
{
    v.iter().collect()
}

/// Append the characters of a (short) string slice one by one.
pub fn push_str_chars(out: &mut Vec<char>, s: &str)
    ensures
        final(out)@ == old(out)@ + s@,
{
    let n = s.unicode_len();
    let mut i: usize = 0;
    while i < n
        invariant
            n == s@.len(),
            i <= n,
            out@ == old(out)@ + s@.take(i as int),
        decreases n - i,
    {
        let c = s.get_char(i);
        out.push(c);
        proof {
            assert(out@ =~= old(out)@ + s@.take(i + 1));
        }
        i = i + 1;
    }
    proof {
        assert(out@ =~= old(out)@ + s@);
    }
}

pub open spec fn is_digit(c: char) -> bool {
    48 <= c as u32 <= 57
}

pub open spec fn digit_val(c: char) -> nat {
    (c as u32 - 48) as nat
}

pub open spec fn char_of_digit(d: nat) -> char {
    if d == 0 {
        '0'
    } else if d == 1 {
        '1'
    } else if d == 2 {
        '2'
    } else if d == 3 {
        '3'
    } else if d == 4 {
        '4'
    } else if d == 5 {
        '5'
    } else if d == 6 {
        '6'
    } else if d == 7 {
        '7'
    } else if d == 8 {
        '8'
    } else {
        '9'
    }
}

/// The canonical decimal numeral of a number: no sign, no leading zero.
pub open spec fn dec_seq(n: nat) -> Seq<char>
    decreases n,
{
    if n < 10 {
        seq![char_of_digit(n)]
    } else {
        dec_seq(n / 10) + seq![char_of_digit(n % 10)]
    }
}

pub open spec fn pow10(k: nat) -> nat
    decreases k,
{
    if k == 0 {
        1
    } else {
        10 * pow10((k - 1) as nat)
    }
}

/// Shape of a canonical numeral: nonempty, digits only, and a leading zero
/// only for the numeral of zero itself.
pub proof fn lemma_dec_seq_shape(n: nat)
    ensures
        dec_seq(n).len() >= 1,
        forall|i: int| 0 <= i < dec_seq(n).len() ==> is_digit(#[trigger] dec_seq(n)[i]),
        n > 0 ==> dec_seq(n).first() != '0',
        n < 10 ==> dec_seq(n) == seq![char_of_digit(n)],
        digit_val(char_of_digit(n % 10)) == n % 10,
    decreases n,
{
    if n < 10 {
    } else {
        lemma_dec_seq_shape(n / 10);
        assert(n / 10 > 0);
        assert(dec_seq(n).first() == dec_seq(n / 10).first());
    }
}

/// The exec character for one decimal digit.
pub fn digit_char(d: usize) -> (c: char)
    requires
        d < 10,
    ensures
        c == char_of_digit(d as nat),
        is_digit(c),
        digit_val(c) == d as nat,
{
    if d == 0 {
        '0'
    } else if d == 1 {
        '1'
    } else if d == 2 {
        '2'
    } else if d == 3 {
        '3'
    } else if d == 4 {
        '4'
    } else if d == 5 {
        '5'
    } else if d == 6 {
        '6'
    } else if d == 7 {
        '7'
    } else if d == 8 {
        '8'
    } else {
        '9'
    }
}

/// Append the canonical decimal numeral of `n`.
pub fn push_dec(out: &mut Vec<char>, n: usize)
    ensures
        final(out)@ == old(out)@ + dec_seq(n as nat),
    decreases n,
{
    if n < 10 {
        let c = digit_char(n);
        out.push(c);
        proof {
            assert(out@ =~= old(out)@ + dec_seq(n as nat));
        }
    } else {
        push_dec(out, n / 10);
        let c = digit_char(n % 10);
        out.push(c);
        proof {
            assert(out@ =~= old(out)@ + dec_seq(n as nat));
        }
    }
}

/// Greedy digit accumulation: consume digits while they fit below the
/// machine bound, then hand back the value and the rest.
pub open spec fn spec_parse_digits(s: Seq<char>, acc: nat) -> Option<(nat, Seq<char>)>
    decreases s.len(),
{
    if s.len() > 0 && is_digit(s.first()) {
        let v = acc * 10 + digit_val(s.first());
        if v > usize::MAX {
            None
        } else {
            spec_parse_digits(s.drop_first(), v)
        }
    } else {
        Some((acc, s))
    }
}

/// A canonical decimal numeral at the head of the input: at least one
/// digit, no leading zero, value within the machine bound.
pub open spec fn spec_parse_nat(s: Seq<char>) -> Option<(nat, Seq<char>)> {
    if s.len() > 0 && is_digit(s.first()) && (s.first() == '0' ==> !(s.len() >= 2 && is_digit(
        s[1],
    ))) {
        spec_parse_digits(s, 0)
    } else {
        None
    }
}

pub proof fn lemma_parse_digits_len(s: Seq<char>, acc: nat)
    ensures
        spec_parse_digits(s, acc) matches Some(p) ==> p.1.len() <= s.len(),
    decreases s.len(),
{
    if s.len() > 0 && is_digit(s.first()) {
        let v = acc * 10 + digit_val(s.first());
        if v <= usize::MAX {
            lemma_parse_digits_len(s.drop_first(), v);
        }
    }
}

pub proof fn lemma_parse_nat_len(s: Seq<char>)
    ensures
        spec_parse_nat(s) matches Some(p) ==> p.1.len() < s.len(),
{
    if spec_parse_nat(s) is Some {
        let v = digit_val(s.first());
        assert(spec_parse_digits(s, 0) == spec_parse_digits(s.drop_first(), v));
        lemma_parse_digits_len(s.drop_first(), v);
    }
}

/// Consuming the canonical numeral of `n` from the head of the input takes
/// the accumulator from `acc` to `acc * pow10(len) + n`, as long as that
/// stays within the machine bound.
proof fn lemma_parse_digits_dec(n: nat, acc: nat, rest: Seq<char>)
    requires
        acc * pow10(dec_seq(n).len()) + n <= usize::MAX,
    ensures
        spec_parse_digits(dec_seq(n) + rest, acc) == spec_parse_digits(
            rest,
            acc * pow10(dec_seq(n).len()) + n,
        ),
    decreases n,
{
    lemma_dec_seq_shape(n);
    if n < 10 {
        let s = dec_seq(n) + rest;
        assert(s.first() == char_of_digit(n));
        assert(digit_val(char_of_digit(n)) == n);
        assert(pow10(1) == 10) by {
            assert(pow10(0) == 1);
        }
        assert(acc * pow10(1) == acc * 10) by (nonlinear_arith)
            requires
                pow10(1) == 10,
        ;
        assert(s.drop_first() =~= rest);
    } else {
        let d = (n % 10) as nat;
        let m = n / 10;
        let lo = dec_seq(m).len();
        assert(pow10(lo + 1) == 10 * pow10(lo));
        assert(dec_seq(n) + rest =~= dec_seq(m) + (seq![char_of_digit(d)] + rest));
        assert(pow10(lo) >= 1) by {
            lemma_pow10_pos(lo);
        }
        assert(n == 10 * (n / 10) + n % 10) by (nonlinear_arith);
        assert(acc * pow10(lo) + m <= acc * pow10(lo + 1) + n) by (nonlinear_arith)
            requires
                pow10(lo + 1) == 10 * pow10(lo),
                m == n / 10,
                n == 10 * (n / 10) + n % 10,
                pow10(lo) >= 1,
        ;
        lemma_parse_digits_dec(m, acc, seq![char_of_digit(d)] + rest);
        let acc2 = acc * pow10(lo) + m;
        let s2 = seq![char_of_digit(d)] + rest;
        assert(s2.first() == char_of_digit(d));
        assert(is_digit(s2.first()) && digit_val(s2.first()) == d);
        assert(acc2 * 10 + d == acc * pow10(lo + 1) + n) by (nonlinear_arith)
            requires
                acc2 == acc * pow10(lo) + m,
                pow10(lo + 1) == 10 * pow10(lo),
                m == n / 10,
                d == n % 10,
                n == 10 * (n / 10) + n % 10,
        ;
        assert(s2.drop_first() =~= rest);
        assert(dec_seq(n).len() == lo + 1);
    }
}

pub proof fn lemma_pow10_pos(k: nat)
    ensures
        pow10(k) >= 1,
    decreases k,
{
    if k > 0 {
        lemma_pow10_pos((k - 1) as nat);
    }
}

/// Parsing the canonical numeral of `n`, followed by anything that does
/// not begin with a digit, yields exactly `n` and that remainder.
pub proof fn lemma_parse_nat_dec(n: nat, rest: Seq<char>)
    requires
        n <= usize::MAX,
        rest.len() > 0 ==> !is_digit(rest.first()),
    ensures
        spec_parse_nat(dec_seq(n) + rest) == Some((n, rest)),
{
    lemma_dec_seq_shape(n);
    let s = dec_seq(n) + rest;
    assert(s.first() == dec_seq(n).first());
    if s.first() == '0' {
        assert(n == 0);
        assert(dec_seq(0) == seq![char_of_digit(0)]);
        if s.len() >= 2 {
            assert(s[1] == rest[0]);
        }
    }
    assert(0 * pow10(dec_seq(n).len()) + n == n) by (nonlinear_arith);
    lemma_parse_digits_dec(n, 0, rest);
    assert(spec_parse_digits(rest, n) == Some((n, rest)));
}

/// The whitespace that request trimming and blank detection go by.
pub open spec fn is_space(c: char) -> bool {
    c == ' ' || c == '\n' || c == '\r' || c == '\t'
}

pub open spec fn trim_front(s: Seq<char>) -> Seq<char>
    decreases s.len(),
{
    if s.len() > 0 && is_space(s.first()) {
        trim_front(s.drop_first())
    } else {
        s
    }
}

pub open spec fn trim_back(s: Seq<char>) -> Seq<char>
    decreases s.len(),
{
    if s.len() > 0 && is_space(s.last()) {
        trim_back(s.drop_last())
    } else {
        s
    }
}

/// The characters left when leading and trailing whitespace goes.
pub open spec fn spec_trim(s: Seq<char>) -> Seq<char> {
    trim_back(trim_front(s))
}

fn is_space_exec(c: char) -> (r: bool)
    ensures
        r == is_space(c),
{
    c == ' ' || c == '\n' || c == '\r' || c == '\t'
}

/// The index range holding the trimmed middle of the buffer.
pub fn trim_range(v: &Vec<char>) -> (r: (usize, usize))
    ensures
        r.0 <= r.1 <= v@.len(),
        v@.subrange(r.0 as int, r.1 as int) == spec_trim(v@),
{
    let n = v.len();
    let mut a: usize = 0;
    proof {
        assert(v@.skip(0) =~= v@);
    }
    while a < n && is_space_exec(v[a])
        invariant
            a <= n,
            n == v@.len(),
            trim_front(v@) == trim_front(v@.skip(a as int)),
        decreases n - a,
    {
        proof {
            assert(v@.skip(a as int).first() == v@[a as int]);
            assert(v@.skip(a as int).drop_first() =~= v@.skip(a + 1));
        }
        a = a + 1;
    }
    proof {
        if a == n {
            assert(v@.skip(a as int) =~= Seq::<char>::empty());
        } else {
            assert(v@.skip(a as int).first() == v@[a as int]);
        }
        assert(trim_front(v@) == v@.skip(a as int));
        assert(v@.skip(a as int) =~= v@.subrange(a as int, n as int));
    }
    let mut b: usize = n;
    while b > a && is_space_exec(v[b - 1])
        invariant
            a <= b <= n,
            n == v@.len(),
            trim_front(v@) == v@.subrange(a as int, n as int),
            trim_back(v@.subrange(a as int, n as int)) == trim_back(v@.subrange(a as int, b as int)),
        decreases b,
    {
        proof {
            assert(v@.subrange(a as int, b as int).last() == v@[b - 1]);
            assert(v@.subrange(a as int, b as int).drop_last() =~= v@.subrange(a as int, b - 1));
        }
        b = b - 1;
    }
    proof {
        if b > a {
            assert(v@.subrange(a as int, b as int).last() == v@[b - 1]);
        }
        assert(trim_back(v@.subrange(a as int, b as int)) == v@.subrange(a as int, b as int));
    }
    (a, b)
}

/// Whether the given slice of the buffer spells exactly the literal.
pub fn range_eq_lit(v: &Vec<char>, a: usize, b: usize, lit: &str) -> (r: bool)
    requires
        a <= b <= v@.len(),
    ensures
        r == (v@.subrange(a as int, b as int) == lit@),
{
    let n = lit.unicode_len();
    if b - a != n {
        return false;
    }
    let vn = v.len();
    proof {
        assert(v@.len() == vn);
    }
    let mut k: usize = 0;
    while k < n
        invariant
            a <= b <= v@.len(),
            v@.len() <= usize::MAX,
            n == lit@.len(),
            b - a == n,
            k <= n,
            forall|m: int| 0 <= m < k ==> v@[a + m] == lit@[m],
        decreases n - k,
    {
        if v[a + k] != lit.get_char(k) {
            proof {
                assert(v@.subrange(a as int, b as int)[k as int] == v@[a + k]);
            }
            return false;
        }
        k = k + 1;
    }
    proof {
        assert(v@.subrange(a as int, b as int) =~= lit@);
    }
    true
}

/// Structural equality of two string slices.
pub fn str_eq(x: &str, y: &str) -> (r: bool)
    ensures
        r == (x@ == y@),
{
    let v = chars_of(x);
    let n = v.len();
    if n != y.unicode_len() {
        return false;
    }
    proof {
        assert(v@.subrange(0, n as int) =~= v@);
    }
    range_eq_lit(&v, 0, n, y)
}

} // verus!
