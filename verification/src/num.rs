//! Decimal and hexadecimal formatting and parsing of unsigned integers, with
//! the semantics of `format!("{}")`, `format!("{:x}")` and `from_str_radix`.
use vstd::prelude::*;
use crate::text::string_from_chars;

verus! {

/// The digit character for `d` (`0`-`9`, then lowercase `a`-`f`).
pub open spec fn digit_char(d: nat) -> char {
    if d < 10 {
        ((48 + d) as u32) as char
    } else {
        ((87 + d) as u32) as char
    }
}

/// The representation of `n` in base `radix`, without leading zeros.
pub open spec fn radix_repr(n: nat, radix: nat) -> Seq<char>
    decreases n,
{
    if radix < 2 {
        Seq::empty()
    } else if n < radix {
        seq![digit_char(n)]
    } else {
        proof {
            assert(n / radix < n) by (nonlinear_arith)
                requires
                    n >= radix,
                    radix >= 2,
            ;
        }
        radix_repr(n / radix, radix).push(digit_char(n % radix))
    }
}

/// `format!("{}", n)`.
pub open spec fn dec_repr(n: nat) -> Seq<char> {
    radix_repr(n, 10)
}

/// `format!("{:x}", n)`.
pub open spec fn hex_repr(n: nat) -> Seq<char> {
    radix_repr(n, 16)
}

/// Left-pads `s` with `0` up to `width` characters (`{:0width}`).
pub open spec fn zero_pad(s: Seq<char>, width: nat) -> Seq<char> {
    if s.len() < width {
        Seq::new((width - s.len()) as nat, |i: int| '0') + s
    } else {
        s
    }
}

/// The digit character for `d < 16`.
pub fn digit_to_char(d: u64) -> (c: char)
    requires
        d < 16,
    ensures
        c == digit_char(d as nat),
{
    if d < 10 {
        let b = 48u8 + d as u8;
        b as char
    } else {
        let b = 87u8 + d as u8;
        b as char
    }
}

/// Appends the base-`radix` representation of `n` to `out`.
pub fn push_radix(out: &mut Vec<char>, n: u64, radix: u64)
    requires
        2 <= radix <= 16,
    ensures
        final(out)@ == old(out)@ + radix_repr(n as nat, radix as nat),
    decreases n,
{
    if n < radix {
        out.push(digit_to_char(n));
        assert(old(out)@.push(digit_char(n as nat)) =~= old(out)@ + seq![digit_char(n as nat)]);
    } else {
        assert(n / radix < n) by (nonlinear_arith)
            requires
                n >= radix,
                radix >= 2,
        ;
        push_radix(out, n / radix, radix);
        out.push(digit_to_char(n % radix));
        assert(old(out)@ + radix_repr(n as nat, radix as nat) =~= old(out)@ + radix_repr(
            (n / radix) as nat,
            radix as nat,
        ) + seq![digit_char((n % radix) as nat)]);
    }
}

/// The decimal representation of `n`.
pub fn dec_chars(n: u64) -> (r: Vec<char>)
    ensures
        r@ == dec_repr(n as nat),
{
    let mut r: Vec<char> = Vec::new();
    push_radix(&mut r, n, 10);
    assert(r@ =~= dec_repr(n as nat));
    r
}

/// `n.to_string()` for an unsigned integer.
pub fn u64_to_string(n: u64) -> (r: String)
    ensures
        r@ == dec_repr(n as nat),
{
    let v = dec_chars(n);
    string_from_chars(&v)
}

/// The lowercase hexadecimal representation of `n`.
pub fn hex_chars(n: u64) -> (r: Vec<char>)
    ensures
        r@ == hex_repr(n as nat),
{
    let mut r: Vec<char> = Vec::new();
    push_radix(&mut r, n, 16);
    assert(r@ =~= hex_repr(n as nat));
    r
}

/// Left-pads `v` with zeros up to `width` characters.
pub fn pad_zeros(v: &Vec<char>, width: usize) -> (r: Vec<char>)
    ensures
        r@ == zero_pad(v@, width as nat),
{
    let mut r: Vec<char> = Vec::new();
    if v.len() < width {
        let k = width - v.len();
        let mut i: usize = 0;
        while i < k
            invariant
                i <= k,
                r@ == Seq::new(i as nat, |j: int| '0'),
            decreases k - i,
        {
            r.push('0');
            i = i + 1;
            assert(r@ =~= Seq::new(i as nat, |j: int| '0'));
        }
    }
    let ghost pre = r@;
    let mut i: usize = 0;
    while i < v.len()
        invariant
            i <= v.len(),
            r@ == pre + v@.subrange(0, i as int),
        decreases v.len() - i,
    {
        r.push(v[i]);
        i = i + 1;
        assert(r@ =~= pre + v@.subrange(0, i as int));
    }
    assert(v@.subrange(0, v@.len() as int) =~= v@);
    assert(r@ =~= zero_pad(v@, width as nat));
    r
}

// ───────────────────────── parsing ─────────────────────────

/// `char::to_digit(radix)`.
pub open spec fn digit_value(c: char, radix: nat) -> Option<nat> {
    let d: int = if '0' <= c <= '9' {
        (c as u32) - 48
    } else if 'a' <= c <= 'z' {
        (c as u32) - 87
    } else if 'A' <= c <= 'Z' {
        (c as u32) - 55
    } else {
        radix as int
    };
    if d < radix {
        Some(d as nat)
    } else {
        None
    }
}

/// Every character of `s` is a digit in base `radix`.
pub open spec fn all_digits(s: Seq<char>, radix: nat) -> bool {
    forall|i: int| 0 <= i < s.len() ==> (#[trigger] digit_value(s[i], radix)) is Some
}

/// The value of the digits `s` in base `radix`.
pub open spec fn digits_value(s: Seq<char>, radix: nat) -> nat
    decreases s.len(),
{
    if s.len() == 0 {
        0
    } else {
        digits_value(s.drop_last(), radix) * radix + match digit_value(s.last(), radix) {
            Some(d) => d,
            None => 0,
        }
    }
}

/// The digits of an unsigned number: an optional leading `+` is dropped.
pub open spec fn unsigned_digits(s: Seq<char>) -> Seq<char> {
    if s.len() > 0 && s[0] == '+' {
        s.drop_first()
    } else {
        s
    }
}

/// `from_str_radix` for an unsigned type whose largest value is `max`: an
/// optional `+`, then at least one digit, and a value that fits.
pub open spec fn parse_unsigned(s: Seq<char>, radix: nat, max: nat) -> Option<nat> {
    let d = unsigned_digits(s);
    if d.len() > 0 && all_digits(d, radix) && digits_value(d, radix) <= max {
        Some(digits_value(d, radix))
    } else {
        None
    }
}

/// The value of a digit, as in `char::to_digit`.
pub fn to_digit(c: char, radix: u64) -> (r: Option<u64>)
    requires
        2 <= radix <= 36,
    ensures
        match r {
            Some(d) => digit_value(c, radix as nat) == Some(d as nat),
            None => digit_value(c, radix as nat) is None,
        },
{
    let d: u64 = if '0' <= c && c <= '9' {
        (c as u64) - 48
    } else if 'a' <= c && c <= 'z' {
        (c as u64) - 87
    } else if 'A' <= c && c <= 'Z' {
        (c as u64) - 55
    } else {
        radix
    };
    if d < radix {
        Some(d)
    } else {
        None
    }
}

/// A longer run of digits is worth at least as much as its prefix.
pub proof fn lemma_digits_value_prefix(s: Seq<char>, radix: nat, i: int)
    requires
        radix >= 1,
        0 <= i <= s.len(),
    ensures
        digits_value(s.subrange(0, i), radix) <= digits_value(s, radix),
    decreases s.len() - i,
{
    if i < s.len() {
        lemma_digits_value_prefix(s, radix, i + 1);
        let a = s.subrange(0, i + 1);
        assert(a.drop_last() =~= s.subrange(0, i));
        let v = digits_value(s.subrange(0, i), radix);
        assert(v <= v * radix) by (nonlinear_arith)
            requires
                radix >= 1,
        ;
    } else {
        assert(s.subrange(0, i) =~= s);
    }
}

/// Parses `v[from..to]` as an unsigned number in base `radix` no greater
/// than `max`.
pub fn parse_radix(v: &Vec<char>, from: usize, to: usize, radix: u64, max: u64) -> (r: Option<u64>)
    requires
        from <= to <= v.len(),
        2 <= radix <= 36,
    ensures
        match r {
            Some(n) => parse_unsigned(v@.subrange(from as int, to as int), radix as nat, max as nat)
                == Some(n as nat),
            None => parse_unsigned(v@.subrange(from as int, to as int), radix as nat, max as nat)
                is None,
        },
{
    let ghost s = v@.subrange(from as int, to as int);
    let mut start = from;
    if from < to && v[from] == '+' {
        start = from + 1;
        assert(v@.subrange(start as int, to as int) =~= s.drop_first());
    } else {
        assert(v@.subrange(start as int, to as int) =~= s);
    }
    let ghost d = v@.subrange(start as int, to as int);
    assert(d == unsigned_digits(s));
    if start == to {
        return None;
    }
    let mut i = start;
    while i < to
        invariant
            start <= i <= to <= v.len(),
            2 <= radix <= 36,
            d == v@.subrange(start as int, to as int),
            s == v@.subrange(from as int, to as int),
            d == unsigned_digits(s),
            forall|j: int| 0 <= j < i - start ==> (#[trigger] digit_value(d[j], radix as nat)) is Some,
        decreases to - i,
    {
        match to_digit(v[i], radix) {
            Some(_) => {},
            None => {
                assert(d[i - start] == v@[i as int]);
                assert(digit_value(d[i - start], radix as nat) is None);
                assert(!all_digits(d, radix as nat));
                assert(parse_unsigned(s, radix as nat, max as nat) is None);
                return None;
            },
        }
        i = i + 1;
    }
    assert(all_digits(d, radix as nat));
    let mut val: u64 = 0;
    let mut i = start;
    while i < to
        invariant
            start <= i <= to <= v.len(),
            2 <= radix <= 36,
            d == v@.subrange(start as int, to as int),
            s == v@.subrange(from as int, to as int),
            d == unsigned_digits(s),
            all_digits(d, radix as nat),
            val as nat == digits_value(d.subrange(0, i - start), radix as nat),
        decreases to - i,
    {
        let ghost pre = d.subrange(0, i - start);
        let ghost next = d.subrange(0, i - start + 1);
        assert(next.drop_last() =~= pre);
        assert(next.last() == d[i - start]);
        assert(digit_value(d[i - start], radix as nat) is Some);
        assert(v@[i as int] == d[i - start]);
        let dg = to_digit(v[i], radix).unwrap();
        match val.checked_mul(radix) {
            Some(m) => match m.checked_add(dg) {
                Some(n) => {
                    if n > max {
                        proof {
                            lemma_digits_value_prefix(d, radix as nat, i - start + 1);
                            assert(digits_value(next, radix as nat) == n);
                            assert(parse_unsigned(s, radix as nat, max as nat) is None);
                        }
                        return None;
                    }
                    val = n;
                },
                None => {
                    proof {
                        lemma_digits_value_prefix(d, radix as nat, i - start + 1);
                        assert(digits_value(next, radix as nat) == m + dg);
                        assert(parse_unsigned(s, radix as nat, max as nat) is None);
                    }
                    return None;
                },
            },
            None => {
                proof {
                    lemma_digits_value_prefix(d, radix as nat, i - start + 1);
                    assert(digits_value(next, radix as nat) >= val * radix);
                    assert(parse_unsigned(s, radix as nat, max as nat) is None);
                }
                return None;
            },
        }
        i = i + 1;
    }
    assert(d.subrange(0, to - start) =~= d);
    if val > max {
        return None;
    }
    Some(val)
}

/// `s.parse::<usize>()` restricted to values no greater than `max`.
pub fn parse_decimal(v: &Vec<char>, from: usize, to: usize, max: u64) -> (r: Option<u64>)
    requires
        from <= to <= v.len(),
    ensures
        match r {
            Some(n) => parse_unsigned(v@.subrange(from as int, to as int), 10, max as nat) == Some(
                n as nat,
            ),
            None => parse_unsigned(v@.subrange(from as int, to as int), 10, max as nat) is None,
        },
{
    parse_radix(v, from, to, 10, max)
}

/// `10` to the power `k`.
pub open spec fn pow10(k: nat) -> nat
    decreases k,
{
    if k == 0 {
        1
    } else {
        10 * pow10((k - 1) as nat)
    }
}

/// A number below `10^k` has at most `k` decimal digits.
pub proof fn lemma_dec_repr_len_below(n: nat, k: nat)
    requires
        k >= 1,
        n < pow10(k),
    ensures
        dec_repr(n).len() <= k,
    decreases k,
{
    if n >= 10 {
        assert(k >= 2) by {
            if k == 1 {
                assert(pow10(1) == 10);
            }
        }
        let k1 = (k - 1) as nat;
        assert(n / 10 < pow10(k1)) by (nonlinear_arith)
            requires
                n < 10 * pow10(k1),
        ;
        lemma_dec_repr_len_below(n / 10, k1);
    }
}

/// A `u64` has at most 20 decimal digits.
pub proof fn lemma_dec_repr_len(n: nat)
    requires
        n <= u64::MAX,
    ensures
        dec_repr(n).len() <= 20,
{
    reveal_with_fuel(pow10, 21);
    assert(pow10(20) == 100000000000000000000);
    lemma_dec_repr_len_below(n, 20);
}

/// The decimal text of `n` is non-empty ASCII digits, read back as `n`.
pub proof fn lemma_dec_repr_digits(n: nat)
    ensures
        dec_repr(n).len() >= 1,
        forall|i: int| 0 <= i < dec_repr(n).len() ==> '0' <= #[trigger] dec_repr(n)[i] <= '9',
        all_digits(dec_repr(n), 10),
        digits_value(dec_repr(n), 10) == n,
    decreases n,
{
    let s = dec_repr(n);
    let d = n % 10;
    assert(digit_char(d) == ((48 + d) as u32) as char);
    assert(digit_value(digit_char(d), 10) == Some(d));
    if n >= 10 {
        lemma_dec_repr_digits(n / 10);
        let p = dec_repr(n / 10);
        assert(s == p.push(digit_char(d)));
        assert(s.drop_last() =~= p);
        assert forall|i: int| 0 <= i < s.len() implies '0' <= #[trigger] s[i] <= '9' by {
            if i < p.len() {
                assert(s[i] == p[i]);
            }
        }
        assert forall|i: int| 0 <= i < s.len() implies (#[trigger] digit_value(s[i], 10)) is Some by {
            if i < p.len() {
                assert(s[i] == p[i]);
                assert(digit_value(p[i], 10) is Some);
            }
        }
        assert(s.last() == digit_char(d));
        assert(digits_value(s, 10) == digits_value(p, 10) * 10 + d);
        assert(n == (n / 10) * 10 + d);
    } else {
        assert(s == seq![digit_char(n)]);
        assert(s.drop_last() =~= Seq::<char>::empty());
        assert(d == n);
        assert(s.last() == digit_char(d));
        assert(digits_value(s.drop_last(), 10) == 0);
        assert(digits_value(s, 10) == digits_value(s.drop_last(), 10) * 10 + d);
    }
}

/// The decimal text of a number up to `max` parses back to it.
pub proof fn lemma_dec_repr_parses(n: nat, max: nat)
    requires
        n <= max,
    ensures
        parse_unsigned(dec_repr(n), 10, max) == Some(n),
{
    lemma_dec_repr_digits(n);
    assert('0' <= dec_repr(n)[0] <= '9');
}

// ───────────────────────── the shape of hexadecimal text ─────────────────────────

/// `b` to the power `k`.
pub open spec fn pow_nat(b: nat, k: nat) -> nat
    decreases k,
{
    if k == 0 {
        1
    } else {
        b * pow_nat(b, (k - 1) as nat)
    }
}

/// A lowercase hexadecimal digit.
pub open spec fn is_lower_hex(c: char) -> bool {
    ('0' <= c && c <= '9') || ('a' <= c && c <= 'f')
}

/// Every character of `s` is a lowercase hexadecimal digit.
pub open spec fn all_lower_hex(s: Seq<char>) -> bool {
    forall|i: int| 0 <= i < s.len() ==> is_lower_hex(#[trigger] s[i])
}

/// The hexadecimal text of a number below `16^k` is one to `k` lowercase
/// hexadecimal digits.
pub proof fn lemma_hex_repr_shape(n: nat, k: nat)
    requires
        k >= 1,
        n < pow_nat(16, k),
    ensures
        1 <= hex_repr(n).len() <= k,
        all_lower_hex(hex_repr(n)),
    decreases k,
{
    let s = hex_repr(n);
    let d = n % 16;
    assert(is_lower_hex(digit_char(d)));
    if n >= 16 {
        assert(k >= 2) by {
            if k == 1 {
                assert(pow_nat(16, 1) == 16 * pow_nat(16, 0));
            }
        }
        let k1 = (k - 1) as nat;
        assert(n / 16 < pow_nat(16, k1)) by (nonlinear_arith)
            requires
                n < 16 * pow_nat(16, k1),
        ;
        lemma_hex_repr_shape(n / 16, k1);
        let p = hex_repr(n / 16);
        assert(s == p.push(digit_char(d)));
        assert forall|i: int| 0 <= i < s.len() implies is_lower_hex(#[trigger] s[i]) by {
            if i < p.len() {
                assert(s[i] == p[i]);
            }
        }
    } else {
        assert(s == seq![digit_char(n)]);
    }
}

/// `16^8` and `16^16`: the ranges of `u32` and `u64`.
pub proof fn lemma_pow16()
    ensures
        pow_nat(16, 8) == 0x1_0000_0000,
        pow_nat(16, 16) == 0x1_0000_0000_0000_0000,
{
    reveal_with_fuel(pow_nat, 17);
}

/// Padding lowercase hexadecimal text of at most `w` digits with zeros
/// gives exactly `w` lowercase hexadecimal digits.
pub proof fn lemma_zero_pad_hex(s: Seq<char>, w: nat)
    requires
        all_lower_hex(s),
        s.len() <= w,
    ensures
        zero_pad(s, w).len() == w,
        all_lower_hex(zero_pad(s, w)),
{
    let z = zero_pad(s, w);
    if s.len() < w {
        let pad = Seq::new((w - s.len()) as nat, |i: int| '0');
        assert(z == pad + s);
        assert forall|i: int| 0 <= i < z.len() implies is_lower_hex(#[trigger] z[i]) by {
            if i < pad.len() {
                assert(z[i] == '0');
            } else {
                assert(z[i] == s[i - pad.len()]);
            }
        }
    }
}

/// The four decimal digits of `c < 10000`, with leading zeros.
pub open spec fn four_digits(c: nat) -> Seq<char> {
    seq![
        digit_char(c / 1000),
        digit_char((c / 100) % 10),
        digit_char((c / 10) % 10),
        digit_char(c % 10),
    ]
}

/// A number below 10000, padded with zeros to four decimal digits, is its
/// four digits; different numbers give different texts.
pub proof fn lemma_four_digits(c: nat, c2: nat)
    requires
        c < 10000,
        c2 < 10000,
    ensures
        zero_pad(dec_repr(c), 4) == four_digits(c),
        four_digits(c) == four_digits(c2) ==> c == c2,
{
    reveal_with_fuel(radix_repr, 5);
    let a = c / 1000;
    let b = (c / 100) % 10;
    let e = (c / 10) % 10;
    let f = c % 10;
    assert(c == 1000 * a + 100 * b + 10 * e + f && a < 10 && b < 10 && e < 10) by (nonlinear_arith)
        requires
            c < 10000,
            a == c / 1000,
            b == (c / 100) % 10,
            e == (c / 10) % 10,
            f == c % 10,
    ;
    assert(c / 10 / 10 == c / 100 && c / 100 / 10 == c / 1000) by (nonlinear_arith);
    let z = zero_pad(dec_repr(c), 4);
    if c < 10 {
        assert(dec_repr(c) == seq![digit_char(c)]);
        assert(a == 0 && b == 0 && e == 0 && f == c);
        assert(z =~= four_digits(c));
    } else if c < 100 {
        assert(dec_repr(c) == seq![digit_char(c / 10)].push(digit_char(c % 10)));
        assert(a == 0 && b == 0 && e == c / 10);
        assert(z =~= four_digits(c));
    } else if c < 1000 {
        assert(dec_repr(c / 10) == seq![digit_char(c / 100)].push(digit_char((c / 10) % 10)));
        assert(dec_repr(c) == dec_repr(c / 10).push(digit_char(c % 10)));
        assert(a == 0 && b == c / 100);
        assert(z =~= four_digits(c));
    } else {
        assert(dec_repr(c / 100) == seq![digit_char(c / 1000)].push(digit_char((c / 100) % 10)));
        assert(dec_repr(c / 10) == dec_repr(c / 100).push(digit_char((c / 10) % 10)));
        assert(dec_repr(c) == dec_repr(c / 10).push(digit_char(c % 10)));
        assert(z =~= four_digits(c));
    }
    if four_digits(c) == four_digits(c2) {
        let a2 = c2 / 1000;
        let b2 = (c2 / 100) % 10;
        let e2 = (c2 / 10) % 10;
        let f2 = c2 % 10;
        assert(c2 == 1000 * a2 + 100 * b2 + 10 * e2 + f2 && a2 < 10 && b2 < 10 && e2 < 10 && f2 < 10)
            by (nonlinear_arith)
            requires
                c2 < 10000,
                a2 == c2 / 1000,
                b2 == (c2 / 100) % 10,
                e2 == (c2 / 10) % 10,
                f2 == c2 % 10,
        ;
        assert(four_digits(c)[0] == four_digits(c2)[0]);
        assert(four_digits(c)[1] == four_digits(c2)[1]);
        assert(four_digits(c)[2] == four_digits(c2)[2]);
        assert(four_digits(c)[3] == four_digits(c2)[3]);
        assert(a == a2 && b == b2 && e == e2 && f == f2);
    }
}

/// The lowercase hexadecimal text of `n` is non-empty, its digits are
/// hexadecimal digits, it does not start with `+`, and it reads back as `n`.
pub proof fn lemma_hex_repr_digits(n: nat)
    ensures
        hex_repr(n).len() >= 1,
        all_lower_hex(hex_repr(n)),
        all_digits(hex_repr(n), 16),
        digits_value(hex_repr(n), 16) == n,
    decreases n,
{
    let s = hex_repr(n);
    let d = n % 16;
    assert(digit_value(digit_char(d), 16) == Some(d));
    assert(is_lower_hex(digit_char(d)));
    if n >= 16 {
        lemma_hex_repr_digits(n / 16);
        let p = hex_repr(n / 16);
        assert(s == p.push(digit_char(d)));
        assert(s.drop_last() =~= p);
        assert forall|i: int| 0 <= i < s.len() implies is_lower_hex(#[trigger] s[i]) by {
            if i < p.len() {
                assert(s[i] == p[i]);
            }
        }
        assert forall|i: int| 0 <= i < s.len() implies (#[trigger] digit_value(s[i], 16)) is Some by {
            if i < p.len() {
                assert(s[i] == p[i]);
                assert(digit_value(p[i], 16) is Some);
            }
        }
        assert(s.last() == digit_char(d));
        assert(digits_value(s, 16) == digits_value(p, 16) * 16 + d);
        assert(n == (n / 16) * 16 + d);
    } else {
        assert(s == seq![digit_char(n)]);
        assert(s.drop_last() =~= Seq::<char>::empty());
        assert(d == n);
        assert(s.last() == digit_char(d));
        assert(digits_value(s.drop_last(), 16) == 0);
        assert(digits_value(s, 16) == digits_value(s.drop_last(), 16) * 16 + d);
    }
}

} // verus!
