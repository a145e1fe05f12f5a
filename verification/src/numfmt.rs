//! Decimal rendering and parsing of integers.

use vstd::prelude::*;

verus! {

pub open spec fn is_digit(c: char) -> bool {
    '0' <= c && c <= '9'
}

/// Whether `c` belongs to the `regex` crate's Unicode `\d` class (general
/// category `Nd`, decimal digits of every script).
pub uninterp spec fn unicode_decimal(c: char) -> bool;

/// `Regex::is_match` of the `regex` crate, for the pattern `\A\d\z` on the
/// one-character text `c`. The contract names the answer and claims only
/// that it depends on `c` alone; the pattern is fixed and valid, so
/// `Regex::new` does not fail on it.
#[verifier::external_body]
fn regex_decimal(c: char) -> (r: bool)
    ensures
        r == unicode_decimal(c),
{
    match regex::Regex::new(r"\A\d\z") {
        Ok(re) => re.is_match(c.to_string().as_str()),
        Err(_) => false,
    }
}

/// A decimal digit as a pattern's `\d` reads it: among ASCII characters
/// exactly `0`-`9`, beyond ASCII the Unicode decimal digits.
pub open spec fn is_dec(c: char) -> bool {
    if c <= '\u{7F}' {
        is_digit(c)
    } else {
        unicode_decimal(c)
    }
}

pub fn is_decimal(c: char) -> (r: bool)
    ensures
        r == is_dec(c),
{
    if c <= '\u{7F}' {
        '0' <= c && c <= '9'
    } else {
        regex_decimal(c)
    }
}

/// What `str::parse::<i64>` gives for a run of decimal digits: the value
/// when every digit is ASCII and it fits an `i64`, otherwise nothing.
pub open spec fn digits_i64(d: Seq<char>) -> Option<i64> {
    if d.len() > 0 && all_digits(d) && digits_val(d) <= i64::MAX {
        Some(digits_val(d) as i64)
    } else {
        None
    }
}

pub open spec fn digit_char(d: nat) -> char
    recommends
        d < 10,
{
    ((d + 48) as u32) as char
}

pub open spec fn digit_val(c: char) -> nat {
    ((c as u32) - 48) as nat
}

/// Decimal digits of `n` without leading zeros (`"0"` for zero).
pub open spec fn digits_of(n: nat) -> Seq<char>
    decreases n,
{
    if n < 10 {
        seq![digit_char(n)]
    } else {
        digits_of(n / 10).push(digit_char(n % 10))
    }
}

/// `n` as Rust's `Display` writes it.
pub open spec fn int_str(n: int) -> Seq<char> {
    if n < 0 {
        seq!['-'] + digits_of((-n) as nat)
    } else {
        digits_of(n as nat)
    }
}

/// `n` as Rust's `{:02}` writes it: zero-padded to at least two
/// characters, the sign counting towards the width.
pub open spec fn int_str_pad2(n: int) -> Seq<char> {
    if 0 <= n < 10 {
        seq!['0'] + digits_of(n as nat)
    } else {
        int_str(n)
    }
}

/// The value of a sequence of ASCII decimal digits.
pub open spec fn digits_val(s: Seq<char>) -> nat
    decreases s.len(),
{
    if s.len() == 0 {
        0
    } else {
        digits_val(s.drop_last()) * 10 + digit_val(s.last())
    }
}

pub open spec fn all_digits(s: Seq<char>) -> bool {
    forall|k: int| 0 <= k < s.len() ==> is_digit(#[trigger] s[k])
}

pub proof fn lemma_digit_roundtrip(d: nat)
    requires
        d < 10,
    ensures
        digit_val(digit_char(d)) == d,
        is_digit(digit_char(d)),
{
    let x: u32 = (d + 48) as u32;
    assert((x as char) as u32 == x);
}

pub proof fn lemma_digits_of_shape(n: nat)
    ensures
        digits_of(n).len() >= 1,
        all_digits(digits_of(n)),
        digits_val(digits_of(n)) == n,
        n < 10 <==> digits_of(n).len() == 1,
    decreases n,
{
    lemma_digit_roundtrip(n % 10);
    if n < 10 {
        assert(digits_of(n).drop_last() =~= Seq::<char>::empty());
        assert(digits_val(Seq::<char>::empty()) == 0);
        assert(digits_val(digits_of(n)) == digits_val(digits_of(n).drop_last()) * 10 + digit_val(
            digits_of(n).last(),
        ));
    }
    if n >= 10 {
        lemma_digits_of_shape(n / 10);
        let d = digits_of(n);
        assert(d.drop_last() =~= digits_of(n / 10));
        assert(d.last() == digit_char(n % 10));
        assert(digits_val(d) == digits_val(d.drop_last()) * 10 + digit_val(d.last()));
        assert(n == (n / 10) * 10 + n % 10);
    }
}

pub proof fn lemma_digits_val_extend(s: Seq<char>, t: Seq<char>)
    requires
        all_digits(t),
    ensures
        digits_val(s + t) >= digits_val(s),
    decreases t.len(),
{
    if t.len() > 0 {
        assert((s + t).drop_last() =~= s + t.drop_last());
        lemma_digits_val_extend(s, t.drop_last());
    } else {
        assert(s + t =~= s);
    }
}

/// Decimal rendering of an unsigned value.
pub fn fmt_u64(n: u64) -> (r: Vec<char>)
    ensures
        r@ == digits_of(n as nat),
    decreases n,
{
    if n < 10 {
        let mut v: Vec<char> = Vec::new();
        let b: u8 = n as u8;
        v.push((b + 48) as char);
        assert(v@ =~= seq![digit_char(n as nat)]);
        v
    } else {
        let mut v = fmt_u64(n / 10);
        let b: u8 = (n % 10) as u8;
        v.push((b + 48) as char);
        v
    }
}

/// Decimal rendering of a signed value (`i64`'s `Display`).
pub fn fmt_i64(n: i64) -> (r: Vec<char>)
    ensures
        r@ == int_str(n as int),
{
    if n < 0 {
        let m: u64 = if n == i64::MIN {
            9223372036854775808u64
        } else {
            (-n) as u64
        };
        let d = fmt_u64(m);
        let mut v: Vec<char> = Vec::new();
        v.push('-');
        let mut i: usize = 0;
        while i < d.len()
            invariant
                i <= d.len(),
                v@ == seq!['-'] + d@.subrange(0, i as int),
            decreases d.len() - i,
        {
            v.push(d[i]);
            i = i + 1;
        }
        assert(d@.subrange(0, d.len() as int) =~= d@);
        v
    } else {
        fmt_u64(n as u64)
    }
}

/// `{:02}` rendering of a signed value.
pub fn fmt_i64_pad2(n: i64) -> (r: Vec<char>)
    ensures
        r@ == int_str_pad2(n as int),
{
    if 0 <= n && n < 10 {
        let mut v: Vec<char> = Vec::new();
        v.push('0');
        let b: u8 = n as u8;
        v.push((b + 48) as char);
        assert(digits_of(n as nat) =~= seq![digit_char(n as nat)]);
        assert(v@ =~= seq!['0'] + digits_of(n as nat));
        v
    } else {
        fmt_i64(n)
    }
}

/// Decimal rendering of an `i32` (`Display`).
pub fn fmt_i32(n: i32) -> (r: Vec<char>)
    ensures
        r@ == int_str(n as int),
{
    fmt_i64(n as i64)
}

/// Parses a sequence of ASCII digits into an `i64`; `None` when it is
/// empty, holds a non-digit, or its value exceeds `i64::MAX`
/// (`str::parse::<i64>` on such input).
pub fn parse_digits_i64(v: &Vec<char>, a: usize, b: usize) -> (r: Option<i64>)
    requires
        a <= b <= v.len(),
    ensures
        r == (if b > a && all_digits(v@.subrange(a as int, b as int)) && digits_val(
            v@.subrange(a as int, b as int),
        ) <= i64::MAX {
            Some(digits_val(v@.subrange(a as int, b as int)) as i64)
        } else {
            None::<i64>
        }),
{
    if b == a {
        return None;
    }
    let mut i: usize = a;
    let mut val: i64 = 0;
    while i < b
        invariant
            a <= i <= b,
            b <= v.len(),
            all_digits(v@.subrange(a as int, i as int)),
            val as int == digits_val(v@.subrange(a as int, i as int)),
            0 <= val,
        decreases b - i,
    {
        let c = v[i];
        let ghost s = v@.subrange(a as int, i + 1);
        proof {
            assert(s.drop_last() =~= v@.subrange(a as int, i as int));
        }
        if !('0' <= c && c <= '9') {
            proof {
                assert(!is_digit(v@.subrange(a as int, b as int)[i - a]));
            }
            return None;
        }
        let d: i64 = (c as u32 - 48) as i64;
        if val > (i64::MAX - d) / 10 {
            proof {
                assert(digits_val(s) > i64::MAX);
                let rest = v@.subrange(i + 1, b as int);
                if all_digits(v@.subrange(a as int, b as int)) {
                    assert forall|k: int| 0 <= k < rest.len() implies is_digit(#[trigger] rest[k]) by {
                        assert(rest[k] == v@.subrange(a as int, b as int)[k + i + 1 - a]);
                    }
                    lemma_digits_val_extend(s, rest);
                    assert(s + rest =~= v@.subrange(a as int, b as int));
                }
            }
            return None;
        }
        val = val * 10 + d;
        i = i + 1;
    }
    Some(val)
}


/// At most three digits always fit an `i64`.
pub proof fn lemma_small_digits_val(s: Seq<char>)
    requires
        s.len() <= 3,
        all_digits(s),
    ensures
        digits_val(s) < 1000,
    decreases s.len(),
{
    if s.len() > 0 {
        assert(all_digits(s.drop_last())) by {
            assert forall|k: int| 0 <= k < s.drop_last().len() implies is_digit(
                #[trigger] s.drop_last()[k],
            ) by {
                assert(s.drop_last()[k] == s[k]);
            }
        }
        lemma_lt_100(s.drop_last());
        let c = s.last();
        assert(is_digit(c));
        assert(digit_val(c) <= 9);
        assert(digits_val(s) == digits_val(s.drop_last()) * 10 + digit_val(c));
    }
}

proof fn lemma_lt_100(s: Seq<char>)
    requires
        s.len() <= 2,
        all_digits(s),
    ensures
        digits_val(s) < 100,
    decreases s.len(),
{
    if s.len() > 0 {
        assert(all_digits(s.drop_last())) by {
            assert forall|k: int| 0 <= k < s.drop_last().len() implies is_digit(
                #[trigger] s.drop_last()[k],
            ) by {
                assert(s.drop_last()[k] == s[k]);
            }
        }
        assert(is_digit(s.last()));
        assert(digit_val(s.last()) <= 9);
        assert(digits_val(s) == digits_val(s.drop_last()) * 10 + digit_val(s.last()));
        if s.len() == 1 {
            assert(digits_val(s.drop_last()) == 0);
        }
        if s.len() == 2 {
            let t = s.drop_last();
            assert(t.drop_last().len() == 0);
            assert(digits_val(t.drop_last()) == 0);
            assert(is_digit(t.last()));
            assert(t.last() == s[0]);
            assert(digit_val(t.last()) <= 9);
            assert(digits_val(t) == digits_val(t.drop_last()) * 10 + digit_val(t.last()));
            assert(digits_val(t) < 10);
        }
    }
}


/// Rust's `i64::from_str`: an optional `+` or `-`, then at least one ASCII
/// digit, the value within `i64`'s range.
pub open spec fn parse_i64_spec(s: Seq<char>) -> Option<i64> {
    let neg = s.len() > 0 && s[0] == '-';
    let start: int = if s.len() > 0 && (s[0] == '+' || s[0] == '-') {
        1
    } else {
        0
    };
    let d = s.subrange(start, s.len() as int);
    if d.len() == 0 || !all_digits(d) {
        None
    } else if neg {
        if digits_val(d) <= 9223372036854775808 {
            Some((-digits_val(d)) as i64)
        } else {
            None
        }
    } else if digits_val(d) <= i64::MAX {
        Some(digits_val(d) as i64)
    } else {
        None
    }
}

/// Parsing what `Display` writes for an `i64` gives the number back.
pub proof fn lemma_parse_int_str(n: i64)
    ensures
        parse_i64_spec(int_str(n as int)) == Some(n),
        int_str(n as int).len() > 0,
        int_str(n as int)[0] == '-' || is_digit(int_str(n as int)[0]),
        is_digit(int_str(n as int).last()),
{
    let s = int_str(n as int);
    if n < 0 {
        let m = (-(n as int)) as nat;
        lemma_digits_of_shape(m);
        let d = digits_of(m);
        assert(s =~= seq!['-'] + d);
        assert(s.subrange(1, s.len() as int) =~= d);
        assert(is_digit(d[0]));
        assert(s.last() == d.last());
        assert(is_digit(d[d.len() - 1]));
    } else {
        lemma_digits_of_shape(n as nat);
        let d = digits_of(n as nat);
        assert(s == d);
        assert(is_digit(d[0]));
        assert(is_digit(d[d.len() - 1]));
        assert(s.subrange(0, s.len() as int) =~= d);
    }
}

/// Digits `v[a..b]` as a `u64` no larger than `limit`; `None` when the range
/// is empty, holds a non-digit, or its value exceeds `limit`.
fn parse_digits_upto(v: &Vec<char>, a: usize, b: usize, limit: u64) -> (r: Option<u64>)
    requires
        a <= b <= v.len(),
    ensures
        r == (if b > a && all_digits(v@.subrange(a as int, b as int)) && digits_val(
            v@.subrange(a as int, b as int),
        ) <= limit {
            Some(digits_val(v@.subrange(a as int, b as int)) as u64)
        } else {
            None::<u64>
        }),
{
    if b == a {
        return None;
    }
    let mut i: usize = a;
    let mut val: u64 = 0;
    while i < b
        invariant
            a <= i <= b,
            b <= v.len(),
            all_digits(v@.subrange(a as int, i as int)),
            val as int == digits_val(v@.subrange(a as int, i as int)),
            val <= limit,
        decreases b - i,
    {
        let c = v[i];
        let ghost s = v@.subrange(a as int, i + 1);
        proof {
            assert(s.drop_last() =~= v@.subrange(a as int, i as int));
        }
        if !('0' <= c && c <= '9') {
            proof {
                assert(!is_digit(v@.subrange(a as int, b as int)[i - a]));
            }
            return None;
        }
        let d: u64 = (c as u32 - 48) as u64;
        if d > limit || val > (limit - d) / 10 {
            proof {
                assert(digits_val(s) > limit);
                let rest = v@.subrange(i + 1, b as int);
                if all_digits(v@.subrange(a as int, b as int)) {
                    assert forall|k: int| 0 <= k < rest.len() implies is_digit(#[trigger] rest[k]) by {
                        assert(rest[k] == v@.subrange(a as int, b as int)[k + i + 1 - a]);
                    }
                    lemma_digits_val_extend(s, rest);
                    assert(s + rest =~= v@.subrange(a as int, b as int));
                }
            }
            return None;
        }
        val = val * 10 + d;
        i = i + 1;
    }
    Some(val)
}

/// `v[a..b].parse::<i64>()`, `None` where that fails.
pub fn parse_i64(v: &Vec<char>, a: usize, b: usize) -> (r: Option<i64>)
    requires
        a <= b <= v.len(),
    ensures
        r == parse_i64_spec(v@.subrange(a as int, b as int)),
{
    let ghost s = v@.subrange(a as int, b as int);
    if a < b && (v[a] == '+' || v[a] == '-') {
        proof {
            assert(s[0] == v@[a as int]);
            assert(v@.subrange(a + 1, b as int) =~= s.subrange(1, s.len() as int));
        }
        if v[a] == '-' {
            match parse_digits_upto(v, a + 1, b, 9223372036854775808u64) {
                Some(m) => {
                    if m == 9223372036854775808u64 {
                        Some(i64::MIN)
                    } else {
                        Some(-(m as i64))
                    }
                },
                None => None,
            }
        } else {
            match parse_digits_upto(v, a + 1, b, 9223372036854775807u64) {
                Some(m) => Some(m as i64),
                None => None,
            }
        }
    } else {
        proof {
            assert(v@.subrange(a as int, b as int) =~= s.subrange(0, s.len() as int));
        }
        match parse_digits_upto(v, a, b, 9223372036854775807u64) {
            Some(m) => Some(m as i64),
            None => None,
        }
    }
}

} // verus!
