//! Sizes written with a unit: `512`, `64k`, `100MiB`, `2tb`.
//!
//! A size is a decimal number, then at most one of the unit letters `k`, `m`,
//! `g` and `t`, then at most one of `b` and `ib`. Letters count in either
//! case. `ib` makes the unit a power of 1024, otherwise it is a power of
//! 1000. A number with `b` or `ib` alone is a count of bytes, a number with
//! nothing behind it is a count of whatever the caller says.

use vstd::prelude::*;
use vstd::string::*;

verus! {

/// Whether `c` is one of the ten decimal digits.
pub open spec fn is_digit(c: char) -> bool {
    '0' <= c <= '9'
}

/// The digit that `c` stands for.
pub open spec fn digit_value(c: char) -> nat
    recommends
        is_digit(c),
{
    (c as nat - '0' as nat) as nat
}

/// The character that stands for the digit `d`.
pub open spec fn digit_char(d: nat) -> char
    recommends
        d < 10,
{
    (d + '0' as nat) as char
}

/// Whether `s` holds decimal digits and nothing else.
pub open spec fn all_digits(s: Seq<char>) -> bool {
    forall|i: int| 0 <= i < s.len() ==> is_digit(#[trigger] s[i])
}

/// The number that the decimal digits `s` write, the empty one being zero.
pub open spec fn digits_value(s: Seq<char>) -> nat
    decreases s.len(),
{
    if s.len() == 0 {
        0
    } else {
        digits_value(s.drop_last()) * 10 + digit_value(s.last())
    }
}

/// The decimal digits of `n`, without leading zeros.
pub open spec fn decimal(n: nat) -> Seq<char>
    decreases n,
{
    if n < 10 {
        seq![digit_char(n)]
    } else {
        decimal(n / 10).push(digit_char(n % 10))
    }
}

/// What is left of `s` once a leading plus sign is taken off.
pub open spec fn unsigned(s: Seq<char>) -> Seq<char> {
    if s.len() > 0 && s[0] == '+' {
        s.drop_first()
    } else {
        s
    }
}

/// The number that `s` writes: one decimal digit or more, a plus sign before
/// them or not, and a value that a `u64` holds.
pub open spec fn number_value(s: Seq<char>) -> Option<u64> {
    let digits = unsigned(s);
    if digits.len() > 0 && all_digits(digits) && digits_value(digits) <= u64::MAX {
        Some(digits_value(digits) as u64)
    } else {
        None
    }
}

/// `c` with an upper-case ASCII letter turned into its lower-case one.
pub open spec fn lower(c: char) -> char {
    if 'A' <= c <= 'Z' {
        ((c as nat) + 32) as char
    } else {
        c
    }
}

/// Whether `s` ends in `ib`, in either case.
pub open spec fn ends_in_ib(s: Seq<char>) -> bool {
    s.len() >= 2 && lower(s[s.len() - 2]) == 'i' && lower(s[s.len() - 1]) == 'b'
}

/// Whether `s` ends in `b`, in either case.
pub open spec fn ends_in_b(s: Seq<char>) -> bool {
    s.len() >= 1 && lower(s[s.len() - 1]) == 'b'
}

/// `s` without its `ib` or `b`.
pub open spec fn quantity(s: Seq<char>) -> Seq<char> {
    if ends_in_ib(s) {
        s.take(s.len() - 2)
    } else if ends_in_b(s) {
        s.take(s.len() - 1)
    } else {
        s
    }
}

/// What the units of `s` are powers of.
pub open spec fn unit_base(s: Seq<char>) -> nat {
    if ends_in_ib(s) {
        1024
    } else {
        1000
    }
}

/// What the unit letter `c` multiplies by.
pub open spec fn unit_multiplier(c: char, base: nat) -> Option<nat> {
    let c = lower(c);
    if c == 'k' {
        Some(base)
    } else if c == 'm' {
        Some(base * base)
    } else if c == 'g' {
        Some(base * base * base)
    } else if c == 't' {
        Some(base * base * base * base)
    } else {
        None
    }
}

/// `number` times `multiplier`, where there is a number and a `u64` holds the
/// product.
pub open spec fn scaled(number: Option<u64>, multiplier: nat) -> Option<u64> {
    match number {
        Some(n) => if n * multiplier <= u64::MAX {
            Some((n * multiplier) as u64)
        } else {
            None
        },
        None => None,
    }
}

/// The number of bytes that `s` writes, if it writes one. A number with
/// nothing behind it counts units of `default_multiplier` bytes.
pub open spec fn size_value(s: Seq<char>, default_multiplier: u64) -> Option<u64> {
    let q = quantity(s);
    if q.len() == 0 {
        None
    } else {
        match unit_multiplier(q.last(), unit_base(s)) {
            Some(multiplier) => scaled(number_value(q.drop_last()), multiplier),
            None => if is_digit(q.last()) {
                scaled(
                    number_value(q),
                    if ends_in_b(s) {
                        1
                    } else {
                        default_multiplier as nat
                    },
                )
            } else {
                None
            },
        }
    }
}

/// The text of the error for a size that cannot be read.
pub open spec fn invalid_size(s: Seq<char>) -> Seq<char> {
    "invalid size "@ + s
}

/// Whether `bytes` are the characters `chars`, every one of them ASCII.
spec fn spells(bytes: Seq<u8>, chars: Seq<char>) -> bool {
    &&& bytes.len() == chars.len()
    &&& forall|i: int|
        0 <= i < chars.len() ==> '\0' <= (#[trigger] chars[i]) <= '\u{7f}' && chars[i] as u8
            == bytes[i]
}

/// A longer run of digits writes no smaller a number.
proof fn lemma_digits_value_grows(s: Seq<char>, n: int)
    requires
        0 <= n <= s.len(),
    ensures
        digits_value(s.take(n)) <= digits_value(s),
    decreases s.len() - n,
{
    if n < s.len() {
        lemma_digits_value_grows(s.drop_last(), n);
        assert(s.drop_last().take(n) =~= s.take(n));
    } else {
        assert(s.take(n) =~= s);
    }
}

/// The ASCII character `b` in lower case.
fn lower_byte(b: u8) -> (l: u8)
    requires
        b <= 0x7f,
    ensures
        l as char == lower(b as char),
        l <= 0x7f,
{
    if 'A' as u8 <= b && b <= 'Z' as u8 {
        b + 32
    } else {
        b
    }
}

/// Reads the number that the first `end` of `bytes` write.
fn parse_number(bytes: &[u8], end: usize, Ghost(chars): Ghost<Seq<char>>) -> (number: Option<u64>)
    requires
        spells(bytes@, chars),
        end <= bytes@.len(),
    ensures
        number == number_value(chars.take(end as int)),
{
    let start: usize = if end > 0 && bytes[0] == '+' as u8 {
        1
    } else {
        0
    };
    let ghost digits = unsigned(chars.take(end as int));
    if start == end {
        return None;
    }
    let mut value: u64 = 0;
    let mut i: usize = start;
    while i < end
        invariant
            start <= i <= end <= bytes@.len(),
            spells(bytes@, chars),
            digits == chars.subrange(start as int, end as int),
            digits == unsigned(chars.take(end as int)),
            all_digits(digits.take(i - start)),
            value == digits_value(digits.take(i - start)),
        decreases end - i,
    {
        let b = bytes[i];
        let ghost seen = digits.take(i - start + 1);
        assert(seen.drop_last() =~= digits.take(i - start));
        assert(seen.last() == chars[i as int]);
        if !('0' as u8 <= b && b <= '9' as u8) {
            return None;
        }
        let d: u64 = (b - '0' as u8) as u64;
        let next = match value.checked_mul(10) {
            Some(tens) => tens.checked_add(d),
            None => None,
        };
        match next {
            Some(v) => {
                value = v;
            },
            None => {
                proof {
                    lemma_digits_value_grows(digits, i - start + 1);
                }
                return None;
            },
        }
        i += 1;
    }
    assert(digits.take(end - start) =~= digits);
    Some(value)
}

/// Reads a size: the number of bytes that `s` writes, or nothing where `s`
/// is no size or the number of bytes is more than a `u64` holds.
pub fn u64_suffix(s: &str, default_multiplier: u64) -> (size: Option<u64>)
    ensures
        size == size_value(s@, default_multiplier),
{
    if !s.is_ascii() {
        proof {
            lemma_size_is_ascii(s@, default_multiplier);
        }
        return None;
    }
    let bytes = s.as_bytes();
    let ghost chars = s@;
    let n = bytes.len();
    let has_ib = n >= 2 && lower_byte(bytes[n - 2]) == 'i' as u8 && lower_byte(bytes[n - 1])
        == 'b' as u8;
    let has_b = n >= 1 && lower_byte(bytes[n - 1]) == 'b' as u8;
    let end: usize = if has_ib {
        n - 2
    } else if has_b {
        n - 1
    } else {
        n
    };
    let ghost q = quantity(chars);
    if end == 0 {
        return None;
    }
    let last = lower_byte(bytes[end - 1]);
    let k: u64 = if has_ib {
        1024
    } else {
        1000
    };
    let unit: Option<u64> = if last == 'k' as u8 {
        Some(k)
    } else if last == 'm' as u8 {
        Some(k * k)
    } else if last == 'g' as u8 {
        Some(k * k * k)
    } else if last == 't' as u8 {
        Some(k * k * k * k)
    } else {
        None
    };
    let (digits_end, multiplier) = match unit {
        Some(multiplier) => (end - 1, multiplier),
        None => {
            if !('0' as u8 <= last && last <= '9' as u8) {
                return None;
            }
            (
                end,
                if has_b {
                    1
                } else {
                    default_multiplier
                },
            )
        },
    };
    assert(chars.take(digits_end as int) =~= if unit is Some {
        q.drop_last()
    } else {
        q
    });
    match parse_number(bytes, digits_end, Ghost(chars)) {
        Some(number) => number.checked_mul(multiplier),
        None => None,
    }
}

/// Only ASCII characters write a size.
proof fn lemma_size_is_ascii(s: Seq<char>, default_multiplier: u64)
    ensures
        size_value(s, default_multiplier) is Some ==> vstd::utf8::is_ascii_chars(s),
{
    if size_value(s, default_multiplier) is Some {
        let q = quantity(s);
        let number = if unit_multiplier(q.last(), unit_base(s)) is Some {
            q.drop_last()
        } else {
            q
        };
        let digits = unsigned(number);
        assert forall|i: int| 0 <= i < s.len() implies '\0' <= #[trigger] s[i] <= '\u{7f}' by {
            if i < digits.len() && digits.len() == number.len() {
                assert(s[i] == digits[i]);
            } else if 0 < i < number.len() {
                assert(s[i] == digits[i - 1]);
            }
        }
    }
}

/// Number of bytes in a mebibyte.
pub const MIB: u64 = 0x10_0000;

/// Reads a size, as [`u64_suffix`] does, and says which text it could not
/// read.
pub fn with_suffix(s: &str, default_multiplier: u64) -> (result: Result<u64, String>)
    ensures
        match result {
            Ok(size) => size_value(s@, default_multiplier) == Some(size),
            Err(message) => size_value(s@, default_multiplier) is None && message@ == invalid_size(
                s@,
            ),
        },
{
    match u64_suffix(s, default_multiplier) {
        Some(size) => Ok(size),
        None => Err(String::from_str("invalid size ").concat(s)),
    }
}

/// Reads a size in which a number alone counts bytes.
pub fn bytes_with_suffix(s: &str) -> (result: Result<u64, String>)
    ensures
        match result {
            Ok(size) => size_value(s@, 1) == Some(size),
            Err(message) => size_value(s@, 1) is None && message@ == invalid_size(s@),
        },
{
    with_suffix(s, 1)
}

/// Reads a size in which a number alone counts mebibytes.
pub fn mib_with_suffix(s: &str) -> (result: Result<u64, String>)
    ensures
        match result {
            Ok(size) => size_value(s@, MIB) == Some(size),
            Err(message) => size_value(s@, MIB) is None && message@ == invalid_size(s@),
        },
{
    with_suffix(s, MIB)
}

/// The digit `d` as text.
fn digit_text(d: u8) -> (text: &'static str)
    requires
        d < 10,
    ensures
        text@ == seq![digit_char(d as nat)],
{
    proof {
        reveal_strlit("0");
        reveal_strlit("1");
        reveal_strlit("2");
        reveal_strlit("3");
        reveal_strlit("4");
        reveal_strlit("5");
        reveal_strlit("6");
        reveal_strlit("7");
        reveal_strlit("8");
        reveal_strlit("9");
    }
    match d {
        0 => "0",
        1 => "1",
        2 => "2",
        3 => "3",
        4 => "4",
        5 => "5",
        6 => "6",
        7 => "7",
        8 => "8",
        _ => "9",
    }
}

/// Writes `n` in decimal digits.
pub fn decimal_string(n: u128) -> (text: String)
    ensures
        text@ == decimal(n as nat),
{
    let mut text = String::from_str(digit_text((n % 10) as u8));
    let mut rest = n / 10;
    while rest > 0
        invariant
            decimal(n as nat) == if rest > 0 {
                decimal(rest as nat) + text@
            } else {
                text@
            },
        decreases rest,
    {
        text = String::from_str(digit_text((rest % 10) as u8)).concat(text.as_str());
        rest = rest / 10;
    }
    text
}

/// The digits of a number write that number.
pub proof fn lemma_decimal_reads_back(n: nat)
    ensures
        decimal(n).len() > 0,
        all_digits(decimal(n)),
        digits_value(decimal(n)) == n,
    decreases n,
{
    if n < 10 {
        assert(digits_value(decimal(n).drop_last()) == 0);
    } else {
        lemma_decimal_reads_back(n / 10);
        assert(decimal(n).drop_last() =~= decimal(n / 10));
    }
}

/// A number with nothing behind it counts units of the default multiplier:
/// `"N"` is `N * default_multiplier`.
pub proof fn lemma_number_alone(n: nat, default_multiplier: u64)
    requires
        n <= u64::MAX,
        n * default_multiplier <= u64::MAX,
    ensures
        size_value(decimal(n), default_multiplier) == Some((n * default_multiplier) as u64),
{
    lemma_decimal_reads_back(n);
}

/// A number of kilobytes is a thousand times as many bytes, whatever the
/// default multiplier: `"NkB"` is `N * 1000`.
pub proof fn lemma_kilobytes(n: nat, default_multiplier: u64)
    requires
        n * 1000 <= u64::MAX,
    ensures
        size_value(decimal(n) + "kB"@, default_multiplier) == Some((n * 1000) as u64),
{
    reveal_strlit("kB");
    lemma_decimal_reads_back(n);
    let s = decimal(n) + "kB"@;
    assert(quantity(s).drop_last() =~= decimal(n));
}

/// A number of kibibytes is 1024 times as many bytes, whatever the default
/// multiplier: `"NkiB"` is `N * 1024`.
pub proof fn lemma_kibibytes(n: nat, default_multiplier: u64)
    requires
        n * 1024 <= u64::MAX,
    ensures
        size_value(decimal(n) + "kiB"@, default_multiplier) == Some((n * 1024) as u64),
{
    reveal_strlit("kiB");
    lemma_decimal_reads_back(n);
    let s = decimal(n) + "kiB"@;
    assert(quantity(s).drop_last() =~= decimal(n));
}

/// A number of bytes is that number, whatever the default multiplier, and
/// whether the bytes are written `b` or `ib`: `"Nb"` and `"NiB"` are `N`.
pub proof fn lemma_bytes(n: nat, default_multiplier: u64)
    requires
        n <= u64::MAX,
    ensures
        size_value(decimal(n) + "b"@, default_multiplier) == Some(n as u64),
        size_value(decimal(n) + "iB"@, default_multiplier) == Some(n as u64),
{
    reveal_strlit("b");
    reveal_strlit("iB");
    lemma_decimal_reads_back(n);
    assert(quantity(decimal(n) + "b"@) =~= decimal(n));
    assert(quantity(decimal(n) + "iB"@) =~= decimal(n));
}

/// Whether `s` and `t` are the same text but for the case of their ASCII
/// letters.
pub open spec fn same_but_for_case(s: Seq<char>, t: Seq<char>) -> bool {
    &&& s.len() == t.len()
    &&& forall|i: int| 0 <= i < s.len() ==> lower(#[trigger] s[i]) == lower(t[i])
}

/// The case of letters makes no difference to a number: it has none.
proof fn lemma_number_without_case(s: Seq<char>, t: Seq<char>)
    requires
        same_but_for_case(s, t),
    ensures
        number_value(s) == number_value(t),
{
    let a = unsigned(s);
    let b = unsigned(t);
    assert(same_but_for_case(a, b));
    if all_digits(a) {
        assert forall|i: int| 0 <= i < b.len() implies is_digit(#[trigger] b[i]) && a[i] == b[i] by {
            assert(is_digit(a[i]) && lower(a[i]) == lower(b[i]));
        }
        assert(a =~= b);
    } else if all_digits(b) {
        assert forall|i: int| 0 <= i < a.len() implies is_digit(#[trigger] a[i]) by {
            assert(is_digit(b[i]) && lower(a[i]) == lower(b[i]));
        }
    }
}

/// The case of letters makes no difference to a size.
pub proof fn lemma_case_makes_no_difference(s: Seq<char>, t: Seq<char>, default_multiplier: u64)
    requires
        same_but_for_case(s, t),
    ensures
        size_value(s, default_multiplier) == size_value(t, default_multiplier),
{
    let q = quantity(s);
    let r = quantity(t);
    assert(same_but_for_case(q, r));
    if q.len() > 0 {
        assert(same_but_for_case(q.drop_last(), r.drop_last()));
        lemma_number_without_case(q, r);
        lemma_number_without_case(q.drop_last(), r.drop_last());
    }
}

} // verus!
