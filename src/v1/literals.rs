use vstd::prelude::*;
use std::str::FromStr;

verus! {

pub open spec fn is_digit(c: char) -> bool {
    '0' <= c && c <= '9'
}

/// The value of a text of decimal digits.
pub open spec fn digits_value(s: Seq<char>) -> nat
    decreases s.len(),
{
    if s.len() == 0 {
        0
    } else {
        (digits_value(s.drop_last()) * 10 + (s.last() as int - '0' as int)) as nat
    }
}

/// The digits of a number text: all of it, or all but a leading `+`.
pub open spec fn unsigned_digits(s: Seq<char>) -> Seq<char> {
    if s.len() > 0 && s[0] == '+' {
        s.drop_first()
    } else {
        s
    }
}

/// How a text reads as a `u32`: an optional `+`, then one or more decimal
/// digits whose value fits.
pub open spec fn u32_of_text(s: Seq<char>) -> Option<u32> {
    let d = unsigned_digits(s);
    if d.len() > 0 && (forall|i: int| 0 <= i < d.len() ==> is_digit(#[trigger] d[i])) && digits_value(d) <= u32::MAX {
        Some(digits_value(d) as u32)
    } else {
        None
    }
}

/// Reads a decimal `u32`: an optional `+`, then one or more digits whose value
/// fits; `None` otherwise.
pub fn parse_u32(text: &str) -> (r: Option<u32>)
    ensures
        r == u32_of_text(text@),
{
    let n = text.unicode_len();
    let mut i: usize = 0;
    if n > 0 && text.get_char(0) == '+' {
        i = 1;
    }
    let start = i;
    let ghost d = unsigned_digits(text@);
    assert(d == text@.subrange(start as int, n as int));
    if start == n {
        return None;
    }
    let mut value: u64 = 0;
    let mut over = false;
    while i < n
        invariant
            start <= i <= n,
            n == text@.len(),
            d == text@.subrange(start as int, n as int),
            d == unsigned_digits(text@),
            forall|k: int| start <= k < i ==> is_digit(#[trigger] text@[k]),
            !over ==> value == digits_value(text@.subrange(start as int, i as int)),
            !over ==> value <= u32::MAX,
            over ==> digits_value(text@.subrange(start as int, i as int)) > u32::MAX,
        decreases n - i,
    {
        let c = text.get_char(i);
        let ghost pre = text@.subrange(start as int, i as int);
        let ghost next = text@.subrange(start as int, i + 1);
        assert(next.drop_last() == pre);
        assert(next.last() == c);
        if c < '0' || c > '9' {
            assert(!is_digit(d[i - start]));
            return None;
        }
        let digit = (c as u32 - '0' as u32) as u64;
        if over {
            assert(digits_value(next) == digits_value(pre) * 10 + digit) by (nonlinear_arith)
                requires digits_value(next) == digits_value(pre) * 10 + (c as int - '0' as int), digit == c as int - '0' as int;
            assert(digits_value(next) > u32::MAX) by (nonlinear_arith)
                requires digits_value(next) == digits_value(pre) * 10 + digit, digits_value(pre) > u32::MAX;
        } else {
            let v = value * 10 + digit;
            if v > 0xffff_ffff {
                over = true;
            } else {
                value = v;
            }
        }
        i = i + 1;
    }
    assert(text@.subrange(start as int, n as int) == d);
    assert forall|k: int| 0 <= k < d.len() implies is_digit(#[trigger] d[k]) by {
        assert(d[k] == text@[k + start]);
    }
    if over {
        None
    } else {
        Some(value as u32)
    }
}

/// The 128-bit value of the UUID that uuid's parser reads from a text, if it
/// reads one.
pub uninterp spec fn uuid_value_of(s: Seq<char>) -> Option<u128>;

/// Relies on uuid::Uuid::from_str and Uuid::as_u128: the UUID that the text
/// spells, as a number, if the text spells one; the hyphenated lower-case
/// text of a UUID spells that UUID.
#[verifier::external_body]
pub fn parse_uuid(text: &str) -> (r: Option<u128>)
    ensures
        r == uuid_value_of(text@),
        forall|v: u128| text@ == uuid_hyphenated(v) ==> r == Some(v),
{
    uuid::Uuid::from_str(text).ok().map(|u| u.as_u128())
}

pub open spec fn hex_char(d: nat) -> char {
    if d < 10 {
        ('0' as nat + d) as char
    } else {
        ('a' as nat + (d - 10)) as char
    }
}

/// The `n` lowest hexadecimal digits of `v`, most significant first.
pub open spec fn hex_digits(v: nat, n: nat) -> Seq<char>
    decreases n,
{
    if n == 0 {
        Seq::empty()
    } else {
        hex_digits(v / 16, (n - 1) as nat).push(hex_char(v % 16))
    }
}

/// The hyphenated lower-case text of a UUID: 8-4-4-4-12 hexadecimal digits.
pub open spec fn uuid_hyphenated(v: u128) -> Seq<char> {
    let x = v as nat;
    hex_digits(x / 0x1_0000_0000_0000_0000_0000_0000, 8) + seq!['-']
        + hex_digits((x / 0x1_0000_0000_0000_0000_0000) % 0x1_0000, 4) + seq!['-']
        + hex_digits((x / 0x1_0000_0000_0000_0000) % 0x1_0000, 4) + seq!['-']
        + hex_digits((x / 0x1_0000_0000_0000) % 0x1_0000, 4) + seq!['-']
        + hex_digits(x % 0x1_0000_0000_0000, 12)
}

/// Relies on uuid::Uuid::from_u128 and Uuid's Display: the hyphenated
/// lower-case text of the UUID.
#[verifier::external_body]
pub fn uuid_text(v: u128) -> (r: String)
    ensures
        r@ == uuid_hyphenated(v),
{
    uuid::Uuid::from_u128(v).to_string()
}

} // verus!
