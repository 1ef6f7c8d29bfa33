//! Character-level helpers shared by the clock, the identifiers and the
//! query language: conversion between `str` and character vectors, and
//! hexadecimal / decimal rendering and parsing of integers.
use vstd::prelude::*;

use crate::clock::HexError;

verus! {

broadcast use vstd::string::group_string_axioms;

/// Builds a `String` holding exactly the given characters, collecting them
/// with std's `FromIterator<char> for String`; claimed: the string's
/// characters are those of `v`, in order.
#[verifier::external_body]
pub fn string_from_chars(v: &Vec<char>) -> (s: String)
    ensures
        s@ == v@,
{
    v.iter().collect()
}

/// The characters of `s`, in order.
pub fn chars_of(s: &str) -> (v: Vec<char>)
    ensures
        v@ == s@,
{
    let mut v: Vec<char> = Vec::new();
    for c in iter: s.chars()
        invariant
            iter.seq() == s@,
            v@ == iter.seq().take(iter.index() as int),
    {
        v.push(c);
    }
    v
}

/// A copy of `s`.
pub fn copy_string(s: &String) -> (r: String)
    ensures
        r@ == s@,
{
    s.clone()
}

/// `a` followed by `b`.
pub fn concat(a: &str, b: &str) -> (r: String)
    ensures
        r@ == a@ + b@,
{
    let mut r = String::from_str(a);
    r.append(b);
    r
}

/// Whether two strings hold the same characters.
pub fn str_eq(a: &str, b: &str) -> (r: bool)
    ensures
        r == (a@ == b@),
{
    let x = String::from_str(a);
    let y = String::from_str(b);
    x == y
}

/// The lowercase hexadecimal digit for `d < 16`.
pub open spec fn hex_char(d: nat) -> char {
    if d < 10 {
        ((d + 48) as u8) as char
    } else {
        ((d + 87) as u8) as char
    }
}

/// The decimal digit for `d < 10`.
pub open spec fn dec_char(d: nat) -> char {
    ((d + 48) as u8) as char
}

/// The value of a hexadecimal digit of either case.
pub open spec fn hex_digit_value(c: char) -> Option<nat> {
    if '0' <= c && c <= '9' {
        Some((c as nat - 48) as nat)
    } else if 'a' <= c && c <= 'f' {
        Some((c as nat - 87) as nat)
    } else if 'A' <= c && c <= 'F' {
        Some((c as nat - 55) as nat)
    } else {
        None
    }
}

/// The `k` lowest hexadecimal digits of `n`, most significant first.
pub open spec fn spec_hex_digits(n: nat, k: nat) -> Seq<char>
    decreases k,
{
    if k == 0 {
        seq![]
    } else {
        spec_hex_digits(n / 16, (k - 1) as nat).push(hex_char(n % 16))
    }
}

/// `n` as 16 lowercase hexadecimal digits (as `{:016x}` renders a `u64`).
pub open spec fn spec_hex16(n: nat) -> Seq<char> {
    spec_hex_digits(n, 16)
}

/// The lowercase hexadecimal digit for `d`.
pub fn hex_digit_char(d: u64) -> (c: char)
    requires
        d < 16,
    ensures
        c == hex_char(d as nat),
{
    if d < 10 {
        ((d + 48) as u8) as char
    } else {
        ((d + 87) as u8) as char
    }
}

fn hex_digits(n: u64, k: usize) -> (v: Vec<char>)
    ensures
        v@ == spec_hex_digits(n as nat, k as nat),
    decreases k,
{
    if k == 0 {
        Vec::new()
    } else {
        let mut v = hex_digits(n / 16, k - 1);
        v.push(hex_digit_char(n % 16));
        v
    }
}

/// `n` as 16 lowercase hexadecimal digits.
pub fn hex16(n: u64) -> (v: Vec<char>)
    ensures
        v@ == spec_hex16(n as nat),
        v@.len() == 16,
{
    proof {
        lemma_hex_digits_len(n as nat, 16);
    }
    hex_digits(n, 16)
}

/// `n` as 32 lowercase hexadecimal digits.
pub fn hex32(n: u128) -> (v: Vec<char>)
    ensures
        v@ == spec_hex_digits(n as nat, 32),
        v@.len() == 32,
{
    proof {
        lemma_hex_digits_len(n as nat, 32);
    }
    hex_digits_wide(n, 32)
}

fn hex_digits_wide(n: u128, k: usize) -> (v: Vec<char>)
    ensures
        v@ == spec_hex_digits(n as nat, k as nat),
    decreases k,
{
    if k == 0 {
        Vec::new()
    } else {
        let mut v = hex_digits_wide(n / 16, k - 1);
        v.push(hex_digit_char((n % 16) as u64));
        v
    }
}

/// The hex rendering has exactly `k` digits.
pub proof fn lemma_hex_digits_len(n: nat, k: nat)
    ensures
        spec_hex_digits(n, k).len() == k,
    decreases k,
{
    if k > 0 {
        lemma_hex_digits_len(n / 16, (k - 1) as nat);
    }
}

/// `n` in decimal, without leading zeros.
pub open spec fn spec_decimal(n: nat) -> Seq<char>
    decreases n,
{
    if n < 10 {
        seq![dec_char(n)]
    } else {
        spec_decimal(n / 10).push(dec_char(n % 10))
    }
}

fn decimal_digits(n: u64) -> (v: Vec<char>)
    ensures
        v@ == spec_decimal(n as nat),
    decreases n,
{
    if n < 10 {
        let mut v = Vec::new();
        v.push(((n + 48) as u8) as char);
        v
    } else {
        let mut v = decimal_digits(n / 10);
        v.push(((n % 10 + 48) as u8) as char);
        v
    }
}

/// `n` in decimal.
pub fn decimal_u64(n: u64) -> (s: String)
    ensures
        s@ == spec_decimal(n as nat),
{
    string_from_chars(&decimal_digits(n))
}

/// `n` in decimal, with a leading `-` when negative.
pub open spec fn spec_decimal_i64(n: int) -> Seq<char> {
    if n < 0 {
        seq!['-'] + spec_decimal((-n) as nat)
    } else {
        spec_decimal(n as nat)
    }
}

/// `n` in decimal, with a leading `-` when negative.
pub fn decimal_i64(n: i64) -> (s: String)
    ensures
        s@ == spec_decimal_i64(n as int),
{
    if n < 0 {
        let m: u64 = if n == i64::MIN {
            0x8000_0000_0000_0000u64
        } else {
            (-n) as u64
        };
        let mut v: Vec<char> = Vec::new();
        v.push('-');
        let mut d = decimal_digits(m);
        v.append(&mut d);
        string_from_chars(&v)
    } else {
        decimal_u64(n as u64)
    }
}

/// Accumulates hexadecimal digits of `d` from index `i` onto `acc`, as
/// `from_str_radix(_, 16)` does for an unsigned type whose largest value is
/// `max`: the first non-digit gives `InvalidDigit`, the first digit that takes
/// the value past `max` gives `Overflow`.
pub open spec fn spec_hex_accumulate(d: Seq<char>, i: int, acc: nat, max: nat) -> Result<nat, HexError>
    decreases d.len() - i,
{
    if i < 0 || i >= d.len() {
        Ok(acc)
    } else {
        match hex_digit_value(d[i]) {
            None => Err(HexError::InvalidDigit),
            Some(x) => if acc * 16 + x > max {
                Err(HexError::Overflow)
            } else {
                spec_hex_accumulate(d, i + 1, acc * 16 + x, max)
            },
        }
    }
}

/// What `from_str_radix(s, 16)` gives for an unsigned type whose largest
/// value is `max`.
pub open spec fn spec_parse_hex_max(s: Seq<char>, max: nat) -> Result<nat, HexError> {
    if s.len() == 0 {
        Err(HexError::Empty)
    } else if s.len() == 1 && (s[0] == '+' || s[0] == '-') {
        Err(HexError::InvalidDigit)
    } else if s[0] == '+' {
        spec_hex_accumulate(s, 1, 0, max)
    } else {
        spec_hex_accumulate(s, 0, 0, max)
    }
}

/// What `u64::from_str_radix(s, 16)` gives.
pub open spec fn spec_parse_hex(s: Seq<char>) -> Result<u64, HexError> {
    match spec_parse_hex_max(s, u64::MAX as nat) {
        Ok(n) => Ok(n as u64),
        Err(e) => Err(e),
    }
}

/// What `u128::from_str_radix(s, 16)` gives.
pub open spec fn spec_parse_hex_wide(s: Seq<char>) -> Result<u128, HexError> {
    match spec_parse_hex_max(s, u128::MAX as nat) {
        Ok(n) => Ok(n as u128),
        Err(e) => Err(e),
    }
}

proof fn lemma_accumulate_bounded(d: Seq<char>, i: int, acc: nat, max: nat)
    requires
        acc <= max,
    ensures
        spec_hex_accumulate(d, i, acc, max) matches Ok(n) ==> n <= max,
    decreases d.len() - i,
{
    if 0 <= i < d.len() {
        if let Some(x) = hex_digit_value(d[i]) {
            if acc * 16 + x <= max {
                lemma_accumulate_bounded(d, i + 1, acc * 16 + x, max);
            }
        }
    }
}

/// The value of the hexadecimal digit `c`, if it is one.
pub fn hex_value_of(c: char) -> (r: Option<u64>)
    ensures
        r matches Some(x) ==> hex_digit_value(c) == Some(x as nat) && x < 16,
        r is None ==> hex_digit_value(c) is None,
{
    if '0' <= c && c <= '9' {
        Some((c as u32 - 48) as u64)
    } else if 'a' <= c && c <= 'f' {
        Some((c as u32 - 87) as u64)
    } else if 'A' <= c && c <= 'F' {
        Some((c as u32 - 55) as u64)
    } else {
        None
    }
}

/// Parses `v[start..]` as `u64::from_str_radix(_, 16)` does.
pub fn parse_hex_u64(v: &Vec<char>, start: usize) -> (r: Result<u64, HexError>)
    requires
        start <= v.len(),
    ensures
        r == spec_parse_hex(v@.subrange(start as int, v.len() as int)),
{
    match parse_hex_u128_bounded(v, start, u64::MAX as u128) {
        Ok(n) => {
            proof {
                let s = v@.subrange(start as int, v.len() as int);
                if s.len() > 0 && s[0] == '+' {
                    lemma_accumulate_bounded(s, 1, 0, u64::MAX as nat);
                } else {
                    lemma_accumulate_bounded(s, 0, 0, u64::MAX as nat);
                }
            }
            Ok(n as u64)
        },
        Err(e) => Err(e),
    }
}

/// Parses `v[start..]` as `u128::from_str_radix(_, 16)` does.
pub fn parse_hex_u128(v: &Vec<char>, start: usize) -> (r: Result<u128, HexError>)
    requires
        start <= v.len(),
    ensures
        r == spec_parse_hex_wide(v@.subrange(start as int, v.len() as int)),
{
    match parse_hex_u128_bounded(v, start, u128::MAX) {
        Ok(n) => Ok(n),
        Err(e) => Err(e),
    }
}

fn parse_hex_u128_bounded(v: &Vec<char>, start: usize, max: u128) -> (r: Result<u128, HexError>)
    requires
        start <= v.len(),
    ensures
        r matches Ok(n) ==> spec_parse_hex_max(v@.subrange(start as int, v.len() as int), max as nat)
            == Ok::<nat, HexError>(n as nat),
        r matches Err(e) ==> spec_parse_hex_max(v@.subrange(start as int, v.len() as int), max as nat)
            == Err::<nat, HexError>(e),
{
    let ghost s = v@.subrange(start as int, v.len() as int);
    let n = v.len();
    if start == n {
        return Err(HexError::Empty);
    }
    if start + 1 == n && (v[start] == '+' || v[start] == '-') {
        return Err(HexError::InvalidDigit);
    }
    let mut i = start;
    if v[start] == '+' {
        i = start + 1;
    }
    let mut acc: u128 = 0;
    assert(spec_parse_hex_max(s, max as nat) == spec_hex_accumulate(s, (i - start) as int, 0, max as nat));
    while i < n
        invariant
            start <= i <= n,
            n == v.len(),
            acc <= max,
            s == v@.subrange(start as int, n as int),
            spec_parse_hex_max(s, max as nat) == spec_hex_accumulate(s, (i - start) as int, acc as nat, max as nat),
        decreases n - i,
    {
        let c = v[i];
        assert(s[(i - start) as int] == c);
        match hex_value_of(c) {
            None => {
                return Err(HexError::InvalidDigit);
            },
            Some(x) => {
                let x = x as u128;
                if x > max || acc > (max - x) / 16 {
                    assert(acc * 16 + x > max) by (nonlinear_arith)
                        requires
                            x > max || acc > (max - x) / 16,
                            x < 16,
                    ;
                    return Err(HexError::Overflow);
                }
                assert(acc * 16 + x <= max) by (nonlinear_arith)
                    requires
                        acc <= (max - x) / 16,
                        x <= max,
                        x < 16,
                ;
                acc = acc * 16 + x;
            },
        }
        i = i + 1;
    }
    Ok(acc)
}

} // verus!
