//! Stable identifiers.

use uuid::Uuid;
use vstd::prelude::*;

verus! {

/// Identifies a sheet independently of its place in the sheet list.
#[derive(Clone, Copy, Debug, PartialEq, Eq, Hash, Structural)]
pub struct SheetId {
    pub id: u128,
}

/// The 128-bit value that a text stands for as a UUID, in any of the forms a
/// UUID is commonly written in; `None` where it is no UUID.
pub uninterp spec fn uuid_value(s: Seq<char>) -> Option<u128>;

/// The lowercase hexadecimal digit for a value below sixteen.
pub open spec fn hex_digit(v: int) -> char {
    if v == 0 {
        '0'
    } else if v == 1 {
        '1'
    } else if v == 2 {
        '2'
    } else if v == 3 {
        '3'
    } else if v == 4 {
        '4'
    } else if v == 5 {
        '5'
    } else if v == 6 {
        '6'
    } else if v == 7 {
        '7'
    } else if v == 8 {
        '8'
    } else if v == 9 {
        '9'
    } else if v == 10 {
        'a'
    } else if v == 11 {
        'b'
    } else if v == 12 {
        'c'
    } else if v == 13 {
        'd'
    } else if v == 14 {
        'e'
    } else {
        'f'
    }
}

/// The hexadecimal digit of `id` at place `d`, the most significant at zero.
pub open spec fn hex_at(id: u128, d: int) -> int {
    (id as int / vstd::arithmetic::power::pow(16, (31 - d) as nat)) % 16
}

/// The hyphenated form of a UUID: thirty-two lowercase hexadecimal digits in
/// groups of 8, 4, 4, 4 and 12.
pub open spec fn uuid_text(id: u128) -> Seq<char> {
    Seq::new(
        36,
        |i: int|
            if i == 8 || i == 13 || i == 18 || i == 23 {
                '-'
            } else if i < 8 {
                hex_digit(hex_at(id, i))
            } else if i < 13 {
                hex_digit(hex_at(id, i - 1))
            } else if i < 18 {
                hex_digit(hex_at(id, i - 2))
            } else if i < 23 {
                hex_digit(hex_at(id, i - 3))
            } else {
                hex_digit(hex_at(id, i - 4))
            },
    )
}

/// Whether `id` is laid out as a random UUID is (version 4 of RFC 9562):
/// of its thirty-two hexadecimal digits the one at place 12 is 4, and the
/// one at place 16 is 8, 9, a or b. The other digits are free.
pub open spec fn is_random_uuid(id: u128) -> bool {
    hex_at(id, 12) == 4 && 8 <= hex_at(id, 16) <= 11
}

/// `Uuid::new_v4`, as its 128-bit value: a random identifier. The contract
/// states what the crate does to every value that it draws: it sets the
/// digits that mark a random UUID. Nothing is claimed of the other digits.
#[verifier::external_body]
pub(crate) fn random_uuid() -> (r: u128)
    ensures
        is_random_uuid(r),
{
    Uuid::new_v4().as_u128()
}

/// `Uuid::parse_str`, as the 128-bit value of what was parsed. The contract
/// names the result.
#[verifier::external_body]
pub(crate) fn parse_uuid(s: &str) -> (r: Option<u128>)
    ensures
        r == uuid_value(s@),
{
    match Uuid::parse_str(s) {
        Ok(id) => Some(id.as_u128()),
        Err(_) => None,
    }
}

/// `Uuid::to_string` on the UUID with the given value: its hyphenated
/// lowercase form, which parses back to the same value.
#[verifier::external_body]
pub(crate) fn uuid_string(id: u128) -> (r: String)
    ensures
        r@ == uuid_text(id),
        uuid_value(r@) == Some(id),
{
    Uuid::from_u128(id).to_string()
}

impl SheetId {
    /// A fresh random identifier: a random UUID.
    pub fn new() -> (r: SheetId)
        ensures
            is_random_uuid(r.id),
    {
        SheetId { id: random_uuid() }
    }

    /// The identifier that a text stands for.
    pub open spec fn spec_from_str(s: Seq<char>) -> Option<SheetId> {
        match uuid_value(s) {
            Some(id) => Some(SheetId { id }),
            None => None,
        }
    }

    /// Parses an identifier. Returns `None` where `s` is no UUID.
    pub fn from_str(s: &str) -> (r: Option<SheetId>)
        ensures
            r == SheetId::spec_from_str(s@),
    {
        match parse_uuid(s) {
            Some(id) => Some(SheetId { id }),
            None => None,
        }
    }

    /// The identifier in hyphenated form. The text parses back to the
    /// identifier.
    pub fn to_string(&self) -> (r: String)
        ensures
            r@ == uuid_text(self.id),
            SheetId::spec_from_str(r@) == Some(*self),
    {
        uuid_string(self.id)
    }
}

} // verus!
