//! Textual IPv4 addresses.

use vstd::prelude::*;
use vstd::string::*;

verus! {

/// Whether `c` is one of the ten decimal digits.
pub open spec fn is_digit(c: char) -> bool {
    '0' <= c && c <= '9'
}

/// The number that a decimal digit stands for.
pub open spec fn digit_value(c: char) -> nat {
    (c as u32 - '0' as u32) as nat
}

/// The number that a run of decimal digits stands for.
pub open spec fn decimal(digits: Seq<char>) -> nat
    decreases digits.len(),
{
    if digits.len() == 0 {
        0
    } else {
        decimal(digits.drop_last()) * 10 + digit_value(digits.last())
    }
}

/// Whether `field` spells one octet of an address: one to three decimal
/// digits, no zero in front of another digit, and a value of at most 255.
pub open spec fn is_octet(field: Seq<char>) -> bool {
    &&& 1 <= field.len() <= 3
    &&& forall|i: int| 0 <= i < field.len() ==> is_digit(#[trigger] field[i])
    &&& (field.len() > 1 ==> field[0] != '0')
    &&& decimal(field) <= 255
}

/// The fields of `text`: what stands between its dots, in order. A text
/// without a dot is one field, and a dot at either end bounds an empty field.
pub open spec fn fields(text: Seq<char>) -> Seq<Seq<char>>
    decreases text.len(),
{
    if text.len() == 0 {
        seq![Seq::empty()]
    } else {
        let before = fields(text.drop_last());
        if text.last() == '.' {
            before.push(Seq::empty())
        } else {
            before.update(before.len() - 1, before.last().push(text.last()))
        }
    }
}

/// The four octets that `text` spells, where it is an IPv4 address in dotted
/// decimal notation: exactly four fields, each one octet.
pub open spec fn parsed_ipv4(text: Seq<char>) -> Option<Seq<u8>> {
    let parts = fields(text);
    if parts.len() == 4 && is_octet(parts[0]) && is_octet(parts[1]) && is_octet(parts[2])
        && is_octet(parts[3]) {
        Some(
            seq![
                decimal(parts[0]) as u8,
                decimal(parts[1]) as u8,
                decimal(parts[2]) as u8,
                decimal(parts[3]) as u8,
            ],
        )
    } else {
        None
    }
}

/// The text does not spell an IPv4 address.
#[derive(Debug)]
pub struct AddressParseError;

/// What an operator is shown in place of an address that could not be read.
pub open spec fn address_error_text() -> Seq<char> {
    "invalid IPv4 address syntax"@
}

impl AddressParseError {
    /// The error as text.
    pub fn message(&self) -> (text: String)
        ensures
            text@ == address_error_text(),
    {
        "invalid IPv4 address syntax".to_owned()
    }
}

/// Reads one octet from a field of an address.
pub fn parse_octet(field: &Vec<char>) -> (octet: Option<u8>)
    ensures
        octet is Some <==> is_octet(field@),
        octet matches Some(value) ==> value == decimal(field@),
{
    let n = field.len();
    if n < 1 || n > 3 {
        return None;
    }
    if n > 1 && field[0] == '0' {
        return None;
    }
    let mut value: u16 = 0;
    let mut i: usize = 0;
    while i < n
        invariant
            i <= n <= 3,
            n == field@.len(),
            value == decimal(field@.take(i as int)),
            value <= 999,
            i == 0 ==> value == 0,
            i == 1 ==> value <= 9,
            i == 2 ==> value <= 99,
            forall|j: int| 0 <= j < i ==> is_digit(#[trigger] field@[j]),
        decreases n - i,
    {
        let c = field[i];
        if c < '0' || c > '9' {
            return None;
        }
        proof {
            let next = field@.take(i + 1);
            assert(next.drop_last() =~= field@.take(i as int));
            assert(next.last() == c);
        }
        value = value * 10 + (c as u16 - '0' as u16);
        i += 1;
    }
    proof {
        assert(field@.take(n as int) =~= field@);
    }
    if value > 255 {
        return None;
    }
    Some(value as u8)
}

/// Reads an IPv4 address in dotted decimal notation.
pub fn parse_ipv4(text: &str) -> (address: Result<[u8; 4], AddressParseError>)
    ensures
        address is Ok <==> parsed_ipv4(text@) is Some,
        address matches Ok(octets) ==> octets@ == parsed_ipv4(text@)->0,
{
    let n = text.unicode_len();
    let mut parts: Vec<Vec<char>> = Vec::new();
    parts.push(Vec::new());
    let mut i: usize = 0;
    while i < n
        invariant
            i <= n,
            n == text@.len(),
            parts@.len() == fields(text@.take(i as int)).len(),
            parts@.len() >= 1,
            forall|k: int|
                0 <= k < parts@.len() ==> (#[trigger] parts@[k])@ == fields(
                    text@.take(i as int),
                )[k],
        decreases n - i,
    {
        let c = text.get_char(i);
        proof {
            let next = text@.take(i + 1);
            assert(next.drop_last() =~= text@.take(i as int));
            assert(next.last() == c);
        }
        if c == '.' {
            parts.push(Vec::new());
        } else {
            let mut field = parts.pop().unwrap();
            field.push(c);
            parts.push(field);
        }
        i += 1;
    }
    proof {
        assert(text@.take(n as int) =~= text@);
    }
    if parts.len() != 4 {
        return Err(AddressParseError);
    }
    let first = parse_octet(&parts[0]);
    let second = parse_octet(&parts[1]);
    let third = parse_octet(&parts[2]);
    let fourth = parse_octet(&parts[3]);
    match (first, second, third, fourth) {
        (Some(a), Some(b), Some(c), Some(d)) => {
            let octets = [a, b, c, d];
            assert(octets@ =~= parsed_ipv4(text@)->0);
            Ok(octets)
        },
        _ => Err(AddressParseError),
    }
}

} // verus!
