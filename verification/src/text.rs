//! Decimal numbers as text: formatting and parsing as std does.

use vstd::prelude::*;
use vstd::string::{StrSliceExecFns, StringSliceAdditionalSpecFns};
use crate::support::string_push;

verus! {

pub open spec fn digit_char(d: nat) -> char {
    (48 + d) as char
}

/// Decimal digits of `n`, most significant first, without leading zeros.
pub open spec fn decimal(n: nat) -> Seq<char>
    decreases n,
{
    if n < 10 {
        seq![digit_char(n)]
    } else {
        decimal(n / 10).push(digit_char(n % 10))
    }
}

/// The decimal text of `n`, as `to_string` writes it.
pub fn usize_to_decimal(n: usize) -> (s: String)
    ensures
        s@ == decimal(n as nat),
{
    let mut digits: Vec<char> = Vec::new();
    let mut m = n;
    // digits are collected least significant first
    while m >= 10
        invariant
            decimal(n as nat) == decimal(m as nat) + digits@.reverse(),
        decreases m,
    {
        let d = (m % 10) as u8;
        digits.push((48 + d) as char);
        proof {
            assert(decimal(m as nat) == decimal((m / 10) as nat).push(digit_char((m % 10) as nat)));
            assert(digits@.reverse() =~= seq![digit_char((m % 10) as nat)] + digits@.drop_last().reverse());
        }
        m = m / 10;
    }
    let d = m as u8;
    let mut out = String::new();
    string_push(&mut out, (48 + d) as char);
    assert(out@ =~= decimal(m as nat));
    let k = digits.len();
    let mut i: usize = 0;
    while i < k
        invariant
            k == digits@.len(),
            i <= k,
            decimal(n as nat) == decimal(m as nat) + digits@.reverse(),
            out@ == decimal(m as nat) + digits@.reverse().take(i as int),
        decreases k - i,
    {
        string_push(&mut out, digits[k - 1 - i]);
        assert(digits@.reverse().take(i + 1) =~= digits@.reverse().take(i as int).push(
            digits@[k - 1 - i],
        ));
        i += 1;
    }
    assert(digits@.reverse().take(k as int) =~= digits@.reverse());
    out
}

pub open spec fn is_digit_byte(b: u8) -> bool {
    48 <= b <= 57
}

/// Value of a sequence of decimal digit bytes.
pub open spec fn decimal_value(digits: Seq<u8>) -> nat
    decreases digits.len(),
{
    if digits.len() == 0 {
        0
    } else {
        decimal_value(digits.drop_last()) * 10 + (digits.last() - 48) as nat
    }
}

/// The digits part of a number: without its leading `+`, if any.
pub open spec fn unsigned_digits(b: Seq<u8>) -> Seq<u8> {
    if b.len() > 0 && b[0] == 43u8 {
        b.drop_first()
    } else {
        b
    }
}

pub open spec fn all_digits(d: Seq<u8>) -> bool {
    forall|i: int| 0 <= i < d.len() ==> is_digit_byte(#[trigger] d[i])
}

/// What `str::parse::<u32>` gives: an optional `+`, then one or more decimal
/// digits whose value fits in a `u32`.
pub open spec fn parse_u32_spec(b: Seq<u8>) -> Option<u32> {
    let digits = unsigned_digits(b);
    if digits.len() == 0 || !all_digits(digits) {
        None
    } else if decimal_value(digits) > u32::MAX {
        None
    } else {
        Some(decimal_value(digits) as u32)
    }
}

pub proof fn lemma_decimal_value_monotone(digits: Seq<u8>, i: int)
    requires
        0 <= i <= digits.len(),
        forall|j: int| 0 <= j < digits.len() ==> is_digit_byte(#[trigger] digits[j]),
    ensures
        decimal_value(digits.take(i)) <= decimal_value(digits),
    decreases digits.len() - i,
{
    if i < digits.len() {
        lemma_decimal_value_monotone(digits, i + 1);
        assert(digits.take(i + 1).drop_last() =~= digits.take(i));
    } else {
        assert(digits.take(i) =~= digits);
    }
}

/// Parses a decimal `u32` as `str::parse` does.
pub fn parse_u32(s: &str) -> (r: Option<u32>)
    ensures
        r == parse_u32_spec(s.spec_bytes()),
{
    let b = s.as_bytes();
    let start: usize = if b.len() > 0 && b[0] == 43 {
        1
    } else {
        0
    };
    let ghost digits = unsigned_digits(b@);
    assert(digits =~= b@.skip(start as int));
    if start >= b.len() {
        return None;
    }
    let mut acc: u64 = 0;
    let mut i: usize = start;
    while i < b.len()
        invariant
            b@ == s.spec_bytes(),
            digits == unsigned_digits(b@),
            digits =~= b@.skip(start as int),
            start <= i <= b@.len(),
            forall|j: int| start <= j < i ==> is_digit_byte(#[trigger] b@[j]),
            acc == decimal_value(digits.take(i - start)),
            acc <= u32::MAX,
        decreases b@.len() - i,
    {
        let c = b[i];
        if c < 48 || c > 57 {
            assert(digits[i - start] == b@[i as int]);
            assert(!is_digit_byte(digits[i - start]));
            assert(!all_digits(digits));
            return None;
        }
        proof {
            assert(digits.take(i + 1 - start).drop_last() =~= digits.take(i - start));
        }
        acc = acc * 10 + (c - 48) as u64;
        i += 1;
        if acc > 4294967295 {
            proof {
                if all_digits(digits) {
                    lemma_decimal_value_monotone(digits, i - start);
                }
            }
            return None;
        }
    }
    assert(digits.take(b@.len() - start) =~= digits);
    Some(acc as u32)
}

/// What `str::parse::<usize>` gives: an optional `+`, then one or more
/// decimal digits whose value fits in a `usize`.
pub open spec fn parse_usize_spec(b: Seq<u8>) -> Option<usize> {
    let digits = unsigned_digits(b);
    if digits.len() == 0 || !all_digits(digits) {
        None
    } else if decimal_value(digits) > usize::MAX {
        None
    } else {
        Some(decimal_value(digits) as usize)
    }
}

/// Parses a decimal `usize` as `str::parse` does.
pub fn parse_usize(s: &str) -> (r: Option<usize>)
    ensures
        r == parse_usize_spec(s.spec_bytes()),
{
    let b = s.as_bytes();
    let start: usize = if b.len() > 0 && b[0] == 43 {
        1
    } else {
        0
    };
    let ghost digits = unsigned_digits(b@);
    assert(digits =~= b@.skip(start as int));
    if start >= b.len() {
        return None;
    }
    let mut acc: usize = 0;
    let mut i: usize = start;
    while i < b.len()
        invariant
            b@ == s.spec_bytes(),
            digits == unsigned_digits(b@),
            digits =~= b@.skip(start as int),
            start <= i <= b@.len(),
            forall|j: int| start <= j < i ==> is_digit_byte(#[trigger] b@[j]),
            acc == decimal_value(digits.take(i - start)),
        decreases b@.len() - i,
    {
        let c = b[i];
        if c < 48 || c > 57 {
            assert(digits[i - start] == b@[i as int]);
            assert(!is_digit_byte(digits[i - start]));
            assert(!all_digits(digits));
            return None;
        }
        proof {
            assert(digits.take(i + 1 - start).drop_last() =~= digits.take(i - start));
        }
        let d: usize = (c - 48) as usize;
        let next = match acc.checked_mul(10) {
            Some(m) => m.checked_add(d),
            None => None,
        };
        i += 1;
        match next {
            Some(v) => {
                acc = v;
            },
            None => {
                proof {
                    if all_digits(digits) {
                        lemma_decimal_value_monotone(digits, i - start);
                    }
                }
                return None;
            },
        }
    }
    assert(digits.take(b@.len() - start) =~= digits);
    Some(acc)
}

/// What `str::parse::<u64>` gives: an optional `+`, then one or more
/// decimal digits whose value fits in a `u64`.
pub open spec fn parse_u64_spec(b: Seq<u8>) -> Option<u64> {
    let digits = unsigned_digits(b);
    if digits.len() == 0 || !all_digits(digits) {
        None
    } else if decimal_value(digits) > u64::MAX {
        None
    } else {
        Some(decimal_value(digits) as u64)
    }
}

/// Parses a decimal `u64` as `str::parse` does.
pub fn parse_u64(s: &str) -> (r: Option<u64>)
    ensures
        r == parse_u64_spec(s.spec_bytes()),
{
    let b = s.as_bytes();
    let start: usize = if b.len() > 0 && b[0] == 43 {
        1
    } else {
        0
    };
    let ghost digits = unsigned_digits(b@);
    assert(digits =~= b@.skip(start as int));
    if start >= b.len() {
        return None;
    }
    let mut acc: u64 = 0;
    let mut i: usize = start;
    while i < b.len()
        invariant
            b@ == s.spec_bytes(),
            digits == unsigned_digits(b@),
            digits =~= b@.skip(start as int),
            start <= i <= b@.len(),
            forall|j: int| start <= j < i ==> is_digit_byte(#[trigger] b@[j]),
            acc == decimal_value(digits.take(i - start)),
        decreases b@.len() - i,
    {
        let c = b[i];
        if c < 48 || c > 57 {
            assert(digits[i - start] == b@[i as int]);
            assert(!is_digit_byte(digits[i - start]));
            assert(!all_digits(digits));
            return None;
        }
        proof {
            assert(digits.take(i + 1 - start).drop_last() =~= digits.take(i - start));
        }
        let d: u64 = (c - 48) as u64;
        let next = match acc.checked_mul(10) {
            Some(m) => m.checked_add(d),
            None => None,
        };
        i += 1;
        match next {
            Some(v) => {
                acc = v;
            },
            None => {
                proof {
                    if all_digits(digits) {
                        lemma_decimal_value_monotone(digits, i - start);
                    }
                }
                return None;
            },
        }
    }
    assert(digits.take(b@.len() - start) =~= digits);
    Some(acc)
}

/// `char::is_whitespace`: the Unicode `White_Space` characters.
pub open spec fn is_space(c: char) -> bool {
    let n = c as u32;
    (9 <= n <= 13) || n == 32 || n == 0x85 || n == 0xA0 || n == 0x1680 || (0x2000 <= n <= 0x200A)
        || n == 0x2028 || n == 0x2029 || n == 0x202F || n == 0x205F || n == 0x3000
}

pub fn char_is_space(c: char) -> (r: bool)
    ensures
        r == is_space(c),
{
    let n = c as u32;
    (9 <= n && n <= 13) || n == 32 || n == 0x85 || n == 0xA0 || n == 0x1680 || (0x2000 <= n && n
        <= 0x200A) || n == 0x2028 || n == 0x2029 || n == 0x202F || n == 0x205F || n == 0x3000
}

/// Number of leading whitespace characters.
pub open spec fn leading_spaces(s: Seq<char>) -> nat
    decreases s.len(),
{
    if s.len() > 0 && is_space(s[0]) {
        1 + leading_spaces(s.drop_first())
    } else {
        0
    }
}

/// Number of trailing whitespace characters.
pub open spec fn trailing_spaces(s: Seq<char>) -> nat
    decreases s.len(),
{
    if s.len() > 0 && is_space(s.last()) {
        1 + trailing_spaces(s.drop_last())
    } else {
        0
    }
}

/// `str::trim`: without leading and trailing whitespace.
pub open spec fn trim_spec(s: Seq<char>) -> Seq<char> {
    let a = leading_spaces(s);
    let t = s.skip(a as int);
    t.take(t.len() - trailing_spaces(t))
}

proof fn lemma_leading(s: Seq<char>, i: int)
    requires
        0 <= i <= s.len(),
        forall|j: int| 0 <= j < i ==> is_space(#[trigger] s[j]),
    ensures
        leading_spaces(s) == i + leading_spaces(s.skip(i)),
    decreases i,
{
    if i > 0 {
        assert(s.drop_first().skip(i - 1) =~= s.skip(i));
        assert forall|j: int| 0 <= j < i - 1 implies is_space(#[trigger] s.drop_first()[j]) by {
            assert(s.drop_first()[j] == s[j + 1]);
        }
        lemma_leading(s.drop_first(), i - 1);
    } else {
        assert(s.skip(0) =~= s);
    }
}

proof fn lemma_trailing(s: Seq<char>, i: int)
    requires
        0 <= i <= s.len(),
        forall|j: int| s.len() - i <= j < s.len() ==> is_space(#[trigger] s[j]),
    ensures
        trailing_spaces(s) == i + trailing_spaces(s.take(s.len() - i)),
    decreases i,
{
    if i > 0 {
        assert(s.drop_last().take(s.len() - 1 - (i - 1)) =~= s.take(s.len() - i));
        assert forall|j: int| s.drop_last().len() - (i - 1) <= j < s.drop_last().len() implies is_space(
            #[trigger] s.drop_last()[j],
        ) by {
            assert(s.drop_last()[j] == s[j]);
        }
        lemma_trailing(s.drop_last(), i - 1);
    } else {
        assert(s.take(s.len() as int) =~= s);
    }
}

/// `str::trim`.
pub fn trim(s: &str) -> (r: &str)
    ensures
        r@ == trim_spec(s@),
{
    let n = s.unicode_len();
    let mut a: usize = 0;
    while a < n && char_is_space(s.get_char(a))
        invariant
            n == s@.len(),
            a <= n,
            forall|j: int| 0 <= j < a ==> is_space(#[trigger] s@[j]),
        decreases n - a,
    {
        a += 1;
    }
    proof {
        lemma_leading(s@, a as int);
        if a < n {
            assert(s@.skip(a as int)[0] == s@[a as int]);
        }
        assert(leading_spaces(s@.skip(a as int)) == 0);
    }
    let ghost t = s@.skip(a as int);
    let mut b: usize = n;
    while b > a && char_is_space(s.get_char(b - 1))
        invariant
            n == s@.len(),
            a <= b <= n,
            t == s@.skip(a as int),
            forall|j: int| b <= j < n ==> is_space(#[trigger] s@[j]),
        decreases b - a,
    {
        b -= 1;
    }
    proof {
        let i = (n - b) as int;
        assert forall|j: int| t.len() - i <= j < t.len() implies is_space(#[trigger] t[j]) by {
            assert(t[j] == s@[j + a]);
        }
        lemma_trailing(t, i);
        let u = t.take(t.len() - i);
        if u.len() > 0 {
            assert(u.last() == s@[b - 1]);
        }
        assert(trailing_spaces(u) == 0);
    }
    let r = s.substring_char(a, b);
    assert(r@ =~= trim_spec(s@));
    r
}

/// `char::to_ascii_lowercase`.
pub open spec fn ascii_lower(c: char) -> char {
    if 'A' <= c <= 'Z' {
        ((c as u32) + 32) as char
    } else {
        c
    }
}

/// `str::to_ascii_lowercase`.
pub fn to_ascii_lowercase(s: &str) -> (r: String)
    ensures
        r@ == s@.map_values(|c: char| ascii_lower(c)),
{
    let n = s.unicode_len();
    let mut out = String::new();
    let mut i: usize = 0;
    while i < n
        invariant
            n == s@.len(),
            i <= n,
            out@ == s@.take(i as int).map_values(|c: char| ascii_lower(c)),
        decreases n - i,
    {
        let c = s.get_char(i);
        let l = if 'A' <= c && c <= 'Z' {
            ((c as u32) + 32) as u8 as char
        } else {
            c
        };
        string_push(&mut out, l);
        assert(s@.take(i + 1).map_values(|c: char| ascii_lower(c)) =~= s@.take(i as int).map_values(
            |c: char| ascii_lower(c),
        ).push(ascii_lower(c)));
        i += 1;
    }
    assert(s@.take(n as int) =~= s@);
    out
}

/// Whether `s` begins with `p`.
pub fn starts_with(s: &str, p: &str) -> (r: bool)
    ensures
        r == (p@.len() <= s@.len() && s@.take(p@.len() as int) == p@),
{
    let n = s.unicode_len();
    let m = p.unicode_len();
    if m > n {
        return false;
    }
    let mut i: usize = 0;
    while i < m
        invariant
            n == s@.len(),
            m == p@.len(),
            m <= n,
            i <= m,
            forall|j: int| 0 <= j < i ==> s@[j] == p@[j],
        decreases m - i,
    {
        if s.get_char(i) != p.get_char(i) {
            assert(s@.take(m as int)[i as int] != p@[i as int]);
            return false;
        }
        i += 1;
    }
    assert(s@.take(m as int) =~= p@);
    true
}

} // verus!

verus! {

/// The first character after the leading whitespace is not whitespace.
proof fn lemma_leading_stops(s: Seq<char>)
    ensures
        leading_spaces(s) <= s.len(),
        leading_spaces(s) < s.len() ==> !is_space(s[leading_spaces(s) as int]),
    decreases s.len(),
{
    if s.len() > 0 && is_space(s[0]) {
        lemma_leading_stops(s.drop_first());
        if leading_spaces(s) < s.len() {
            assert(s[leading_spaces(s) as int] == s.drop_first()[leading_spaces(s.drop_first()) as int]);
        }
    }
}

/// The last character before the trailing whitespace is not whitespace.
proof fn lemma_trailing_stops(s: Seq<char>)
    ensures
        trailing_spaces(s) <= s.len(),
        trailing_spaces(s) < s.len() ==> !is_space(s[s.len() - trailing_spaces(s) - 1]),
    decreases s.len(),
{
    if s.len() > 0 && is_space(s.last()) {
        lemma_trailing_stops(s.drop_last());
        if trailing_spaces(s) < s.len() {
            assert(s[s.len() - trailing_spaces(s) - 1] == s.drop_last()[s.drop_last().len()
                - trailing_spaces(s.drop_last()) - 1]);
        }
    }
}

/// A trimmed text neither starts nor ends with whitespace.
pub proof fn lemma_trim_ends(s: Seq<char>)
    ensures
        trim_spec(s).len() > 0 ==> !is_space(trim_spec(s)[0]) && !is_space(trim_spec(s).last()),
{
    lemma_leading_stops(s);
    let t = s.skip(leading_spaces(s) as int);
    lemma_trailing_stops(t);
    let u = trim_spec(s);
    if u.len() > 0 {
        assert(u[0] == t[0]);
        assert(t[0] == s[leading_spaces(s) as int]);
        assert(u.last() == t[t.len() - trailing_spaces(t) - 1]);
    }
}

/// A text that neither starts nor ends with whitespace is its own trim.
pub proof fn lemma_trim_fixed(s: Seq<char>)
    requires
        s.len() > 0 ==> !is_space(s[0]) && !is_space(s.last()),
    ensures
        trim_spec(s) == s,
{
    assert(leading_spaces(s) == 0);
    assert(s.skip(0) =~= s);
    assert(trailing_spaces(s) == 0);
    assert(s.take(s.len() as int) =~= s);
}

} // verus!

verus! {

/// The bytes of `decimal(n)`.
pub open spec fn decimal_bytes(n: nat) -> Seq<u8>
    decreases n,
{
    if n < 10 {
        seq![(48 + n) as u8]
    } else {
        decimal_bytes(n / 10).push((48 + n % 10) as u8)
    }
}

proof fn lemma_decimal_bytes(n: nat)
    ensures
        decimal(n).len() > 0,
        decimal_bytes(n).len() == decimal(n).len(),
        forall|i: int| 0 <= i < decimal(n).len() ==> 48 <= (#[trigger] decimal(n)[i]) as u32 <= 57,
        forall|i: int| 0 <= i < decimal(n).len() ==> decimal_bytes(n)[i] == ((#[trigger] decimal(n)[i]) as u32) as u8,
        all_digits(decimal_bytes(n)),
        decimal_value(decimal_bytes(n)) == n,
    decreases n,
{
    if n < 10 {
        assert(decimal_bytes(n).drop_last() =~= Seq::<u8>::empty());
        assert(decimal_bytes(n).last() == (48 + n) as u8);
        assert(decimal_value(decimal_bytes(n)) == decimal_value(Seq::<u8>::empty()) * 10 + ((48 + n) as u8 - 48) as nat);
    } else {
        lemma_decimal_bytes(n / 10);
        let d = decimal(n / 10);
        let b = decimal_bytes(n / 10);
        assert(decimal_bytes(n).drop_last() =~= b);
        assert forall|i: int| 0 <= i < decimal(n).len() implies 48 <= (#[trigger] decimal(n)[i]) as u32 <= 57 by {
            if i < d.len() {
                assert(decimal(n)[i] == d[i]);
            }
        }
        assert forall|i: int| 0 <= i < decimal(n).len() implies decimal_bytes(n)[i] == ((#[trigger] decimal(n)[i]) as u32) as u8 by {
            if i < d.len() {
                assert(decimal(n)[i] == d[i]);
                assert(decimal_bytes(n)[i] == b[i]);
            }
        }
        assert(n == (n / 10) * 10 + n % 10) by (nonlinear_arith);
        let last = (48 + n % 10) as u8;
        assert(decimal_bytes(n).last() == last);
        assert(last - 48 == n % 10);
        assert(decimal_value(decimal_bytes(n)) == decimal_value(b) * 10 + (last - 48) as nat);
    }
}

/// Decimal digits encode to one byte each, their code.
proof fn lemma_encode_digits(d: Seq<char>)
    requires
        forall|i: int| 0 <= i < d.len() ==> 48 <= (#[trigger] d[i]) as u32 <= 57,
    ensures
        vstd::utf8::encode_utf8(d).len() == d.len(),
        forall|i: int| 0 <= i < d.len() ==> vstd::utf8::encode_utf8(d)[i] == ((#[trigger] d[i]) as u32) as u8,
    decreases d.len(),
{
    if d.len() > 0 {
        let c = d[0] as u32;
        assert(48 <= c <= 57);
        assert(vstd::utf8::leading_byte_width_1(c) == c as u8) by (bit_vector)
            requires
                48 <= c <= 57,
        ;
        let t = d.drop_first();
        assert forall|i: int| 0 <= i < t.len() implies 48 <= (#[trigger] t[i]) as u32 <= 57 by {
            assert(t[i] == d[i + 1]);
        }
        lemma_encode_digits(t);
        assert(vstd::utf8::encode_scalar(c) =~= seq![c as u8]);
        assert(vstd::utf8::encode_utf8(d) == vstd::utf8::encode_scalar(c) + vstd::utf8::encode_utf8(t));
        assert forall|i: int| 0 <= i < d.len() implies vstd::utf8::encode_utf8(d)[i] == ((#[trigger] d[i]) as u32) as u8 by {
            if i > 0 {
                assert(d[i] == t[i - 1]);
            }
        }
    }
}

/// Reading the decimal text of a `usize` gives it back.
pub proof fn lemma_decimal_reads_back(n: usize)
    ensures
        parse_usize_spec(vstd::utf8::encode_utf8(decimal(n as nat))) == Some(n),
        forall|i: int| 0 <= i < decimal(n as nat).len() ==> 48 <= (#[trigger] decimal(n as nat)[i]) as u32 <= 57,
{
    let d = decimal(n as nat);
    lemma_decimal_bytes(n as nat);
    lemma_encode_digits(d);
    assert forall|i: int| 0 <= i < d.len() implies vstd::utf8::encode_utf8(d)[i] == decimal_bytes(n as nat)[i] by {
        assert(vstd::utf8::encode_utf8(d)[i] == ((d[i]) as u32) as u8);
        assert(decimal_bytes(n as nat)[i] == ((decimal(n as nat)[i]) as u32) as u8);
    }
    assert(vstd::utf8::encode_utf8(d) =~= decimal_bytes(n as nat));
    assert(decimal_bytes(n as nat)[0] != 43u8);
    assert(unsigned_digits(decimal_bytes(n as nat)) == decimal_bytes(n as nat));
}

} // verus!
