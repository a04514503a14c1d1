//! Text helpers: the comparison of texts, integers in decimal, and the few
//! operations of the standard library and of `serde_json` that the crate
//! calls and that `vstd` does not specify.

use crate::kernel::{integer_order, order_integers, Order};
use crate::value::Number;
use vstd::prelude::*;
use vstd::string::StringSliceAdditionalSpecFns;
use vstd::utf8::encode_utf8_decode_utf8;

verus! {

/// Whether two texts hold the same characters in the same order. They do
/// exactly when their UTF-8 bytes are the same, so the bytes are compared.
pub fn same_text(a: &str, b: &str) -> (r: bool)
    ensures
        r == (a@ == b@),
{
    let x = a.as_bytes();
    let y = b.as_bytes();
    proof {
        encode_utf8_decode_utf8(a@);
        encode_utf8_decode_utf8(b@);
    }
    if x.len() != y.len() {
        return false;
    }
    let mut i: usize = 0;
    while i < x.len()
        invariant
            i <= x.len(),
            x.len() == y.len(),
            x@ == a.spec_bytes(),
            y@ == b.spec_bytes(),
            forall|j: int| 0 <= j < i ==> x@[j] == y@[j],
        decreases x.len() - i,
    {
        if x[i] != y[i] {
            return false;
        }
        i += 1;
    }
    assert(x@ =~= y@);
    true
}

/// `String::push` from the standard library: appends one character.
#[verifier::external_body]
pub(crate) fn push_char(s: &mut String, c: char)
    ensures
        final(s)@ == old(s)@.push(c),
{
    s.push(c)
}

/// `String::try_reserve` from the standard library: asks for room for
/// `additional` more bytes. The text stays as it is, whether the room was
/// had or not.
#[verifier::external_body]
pub(crate) fn reserve_text(s: &mut String, additional: usize)
    ensures
        final(s)@ == old(s)@,
{
    let _ = s.try_reserve(additional);
}

/// The number that `serde_json` reads from `text`, `None` where it reads
/// none.
pub uninterp spec fn json_number(text: Seq<char>) -> Option<Number>;

/// `serde_json::from_str`, asked for a `serde_json::Number`: the number
/// that the text holds, an integer where `serde_json` read one and else the
/// bit pattern of the double that it read; `None` where the text is not one
/// JSON number. The contract only names the result.
#[verifier::external_body]
pub(crate) fn parse_json_number(text: &str) -> (r: Option<Number>)
    ensures
        r == json_number(text@),
{
    match serde_json::from_str::<serde_json::Number>(text) {
        Ok(number) => match number.as_i128() {
            Some(integer) => Some(Number::Integer(integer)),
            None => match number.as_f64() {
                Some(double) => Some(Number::Float(double.to_bits())),
                None => None,
            },
        },
        Err(_) => None,
    }
}

/// The decimal digit for a value below ten.
pub open spec fn digit(d: nat) -> char {
    if d == 0 {
        '0'
    } else if d == 1 {
        '1'
    } else if d == 2 {
        '2'
    } else if d == 3 {
        '3'
    } else if d == 4 {
        '4'
    } else if d == 5 {
        '5'
    } else if d == 6 {
        '6'
    } else if d == 7 {
        '7'
    } else if d == 8 {
        '8'
    } else {
        '9'
    }
}

/// The decimal digits of a natural number, without leading zeros.
pub open spec fn digits(n: nat) -> Seq<char>
    decreases n,
{
    if n < 10 {
        seq![digit(n)]
    } else {
        digits(n / 10).push(digit(n % 10))
    }
}

/// The decimal form of an integer: a minus sign where it is negative, then
/// its digits.
pub open spec fn decimal(n: int) -> Seq<char> {
    if n < 0 {
        seq!['-'] + digits((-n) as nat)
    } else {
        digits(n as nat)
    }
}

fn digit_char(d: u128) -> (c: char)
    requires
        d < 10,
    ensures
        c == digit(d as nat),
{
    if d == 0 {
        '0'
    } else if d == 1 {
        '1'
    } else if d == 2 {
        '2'
    } else if d == 3 {
        '3'
    } else if d == 4 {
        '4'
    } else if d == 5 {
        '5'
    } else if d == 6 {
        '6'
    } else if d == 7 {
        '7'
    } else if d == 8 {
        '8'
    } else {
        '9'
    }
}

/// Appends the decimal digits of `n` to `out`.
pub fn push_digits(out: &mut String, n: u128)
    ensures
        final(out)@ == old(out)@ + digits(n as nat),
    decreases n,
{
    if n >= 10 {
        push_digits(out, n / 10);
    }
    push_char(out, digit_char(n % 10));
    assert(final(out)@ =~= old(out)@ + digits(n as nat));
}

/// Appends the decimal form of `n` to `out`.
pub fn push_decimal(out: &mut String, n: i128)
    ensures
        final(out)@ == old(out)@ + decimal(n as int),
{
    if n < 0 {
        push_char(out, '-');
        let magnitude: u128 = (-(n + 1)) as u128 + 1;
        push_digits(out, magnitude);
        assert(final(out)@ =~= old(out)@ + decimal(n as int));
    } else {
        push_digits(out, n as u128);
    }
}

/// The value of a decimal digit.
pub open spec fn digit_value(c: char) -> Option<nat> {
    if '0' <= c && c <= '9' {
        Some((c as nat - '0' as nat) as nat)
    } else {
        None
    }
}

/// The number that the first `count` characters of `text` spell in decimal
/// digits, `None` where one of them is no digit.
pub open spec fn uint_prefix(text: Seq<char>, count: nat) -> Option<nat>
    decreases count,
{
    if count == 0 || count > text.len() {
        Some(0nat)
    } else {
        match (uint_prefix(text, (count - 1) as nat), digit_value(text[count - 1])) {
            (Some(value), Some(d)) => Some(value * 10 + d),
            _ => None,
        }
    }
}

/// The index that `text` spells: a non-empty run of decimal digits whose
/// value fits a `usize`.
pub open spec fn uint_value(text: Seq<char>) -> Option<nat> {
    if text.len() == 0 {
        None
    } else {
        match uint_prefix(text, text.len()) {
            Some(value) => if value <= usize::MAX {
                Some(value)
            } else {
                None
            },
            None => None,
        }
    }
}

/// A longer prefix spells no number where a shorter one spells none, and no
/// smaller number than a shorter one.
pub proof fn lemma_uint_prefix_grows(text: Seq<char>, short: nat, long: nat)
    requires
        short <= long <= text.len(),
    ensures
        uint_prefix(text, short) is None ==> uint_prefix(text, long) is None,
        uint_prefix(text, long) matches Some(big) ==> uint_prefix(text, short) matches Some(small)
            && small <= big,
    decreases long,
{
    if short < long {
        lemma_uint_prefix_grows(text, short, (long - 1) as nat);
    }
}

/// Reads an index written in decimal digits.
pub fn parse_uint(text: &str) -> (r: Option<usize>)
    ensures
        uint_value(text@) == match r {
            Some(value) => Some(value as nat),
            None => None,
        },
{
    let len = text.unicode_len();
    if len == 0 {
        return None;
    }
    let mut value: usize = 0;
    let mut i: usize = 0;
    while i < len
        invariant
            i <= len,
            len == text@.len(),
            uint_prefix(text@, i as nat) == Some(value as nat),
        decreases len - i,
    {
        let c = text.get_char(i);
        if c < '0' || c > '9' {
            proof {
                lemma_uint_prefix_grows(text@, (i + 1) as nat, len as nat);
            }
            return None;
        }
        let d: usize = (c as u32 - '0' as u32) as usize;
        if value > (usize::MAX - d) / 10 {
            proof {
                lemma_uint_prefix_grows(text@, (i + 1) as nat, len as nat);
            }
            return None;
        }
        value = value * 10 + d;
        i += 1;
    }
    Some(value)
}

/// The order of two texts from their character `from` on: by the first
/// character in which they differ, and by length where one is a prefix of
/// the other.
pub open spec fn text_order(s: Seq<char>, t: Seq<char>, from: nat) -> Order
    decreases s.len() - from,
{
    if from >= s.len() || from >= t.len() {
        integer_order(s.len() as int, t.len() as int)
    } else if s[from as int] == t[from as int] {
        text_order(s, t, from + 1)
    } else {
        integer_order(s[from as int] as int, t[from as int] as int)
    }
}

/// Compares two texts character by character.
pub fn order_texts(s: &str, t: &str) -> (r: Order)
    ensures
        r == text_order(s@, t@, 0),
{
    let s_len = s.unicode_len();
    let t_len = t.unicode_len();
    let mut i: usize = 0;
    while i < s_len && i < t_len
        invariant
            s_len == s@.len(),
            t_len == t@.len(),
            i <= s_len,
            i <= t_len,
            text_order(s@, t@, 0) == text_order(s@, t@, i as nat),
        decreases s_len - i,
    {
        let a = s.get_char(i);
        let b = t.get_char(i);
        if a != b {
            return order_integers(a as u32 as i128, b as u32 as i128);
        }
        i += 1;
    }
    order_integers(s_len as i128, t_len as i128)
}

} // verus!
