//! Decimal numbers, held as the text of an arbitrary-precision decimal.

use bigdecimal::BigDecimal;
use std::str::FromStr;
use vstd::prelude::*;
use vstd::string::StringExecFns;

verus! {

/// The text with which the arbitrary-precision decimal parsed from `s` is
/// printed, or `None` where `s` is not a decimal number.
pub uninterp spec fn decimal_text(s: Seq<char>) -> Option<Seq<char>>;

/// `BigDecimal::from_str` followed by the number's `to_string`: parses `s`
/// as a decimal number and prints what was parsed. The contract claims only
/// that the outcome is a function of `s`, named [`decimal_text`]; nothing is
/// claimed of the digits. From how many zeros on the crate prints with an
/// exponent is fixed when the crate is built, so the function is that of
/// one build of the crate.
#[verifier::external_body]
pub(crate) fn bigdecimal_text(s: &str) -> (r: Option<String>)
    ensures
        r is Some <==> decimal_text(s@) is Some,
        r matches Some(t) ==> decimal_text(s@) == Some(t@),
{
    match BigDecimal::from_str(s) {
        Ok(number) => Some(number.to_string()),
        Err(_) => None,
    }
}

/// A decimal number in its printed form.
#[derive(Debug, PartialEq, Eq, Hash)]
pub struct Decimal {
    pub text: String,
}

impl Clone for Decimal {
    fn clone(&self) -> (r: Self)
        ensures
            r == *self,
    {
        Decimal { text: self.text.clone() }
    }
}

impl View for Decimal {
    type V = Seq<char>;

    open spec fn view(&self) -> Seq<char> {
        self.text@
    }
}

impl Decimal {
    /// The text is a decimal number that prints as itself.
    pub open spec fn wf(self) -> bool {
        decimal_text(self.text@) == Some(self.text@)
    }

    /// The number that `s` stands for: the printed form of `s`, where that
    /// form is itself stable under parsing and printing.
    pub open spec fn spec_parse(s: Seq<char>) -> Option<Seq<char>> {
        match decimal_text(s) {
            Some(t) => if decimal_text(t) == Some(t) {
                Some(t)
            } else {
                None
            },
            None => None,
        }
    }

    /// Parses a decimal number. Returns `None` where `s` is no number.
    pub fn parse(s: &str) -> (r: Option<Decimal>)
        ensures
            r is Some <==> Decimal::spec_parse(s@) is Some,
            r matches Some(d) ==> d.wf() && Some(d@) == Decimal::spec_parse(s@),
    {
        match bigdecimal_text(s) {
            Some(t) => {
                match bigdecimal_text(t.as_str()) {
                    Some(t2) => {
                        if t2 == t {
                            Some(Decimal { text: t })
                        } else {
                            None
                        }
                    },
                    None => None,
                }
            },
            None => None,
        }
    }

    /// Keeps `s` as it stands where it already is the printed form of a
    /// number; `None` otherwise.
    pub fn from_canonical(s: &String) -> (r: Option<Decimal>)
        ensures
            r is Some <==> decimal_text(s@) == Some(s@),
            r matches Some(d) ==> d.wf() && d.text == *s,
    {
        match bigdecimal_text(s.as_str()) {
            Some(t) => {
                if t == *s {
                    Some(Decimal { text: s.clone() })
                } else {
                    None
                }
            },
            None => None,
        }
    }

    /// The number from an integer: what its decimal text parses to.
    pub fn from_i64(n: i64) -> (r: Option<Decimal>)
        ensures
            r is Some <==> Decimal::spec_parse(int_text(n as int)) is Some,
            r matches Some(d) ==> d.wf() && Some(d@) == Decimal::spec_parse(int_text(n as int)),
    {
        let text = i64_to_string(n);
        Decimal::parse(text.as_str())
    }

    /// The printed form.
    pub fn to_text(&self) -> (r: String)
        ensures
            r@ == self@,
    {
        self.text.clone()
    }

    /// Whether both print alike.
    pub fn same(&self, other: &Decimal) -> (b: bool)
        ensures
            b == (self@ == other@),
    {
        self.text == other.text
    }
}

/// The decimal digits of `n`, most significant first, without sign.
pub open spec fn nat_digits(n: nat) -> Seq<char>
    decreases n,
{
    if n < 10 {
        seq![digit_char(n)]
    } else {
        nat_digits(n / 10).push(digit_char(n % 10))
    }
}

/// The character for a single decimal digit.
pub open spec fn digit_char(d: nat) -> char {
    if d == 0 {
        '0'
    } else if d == 1 {
        '1'
    } else if d == 2 {
        '2'
    } else if d == 3 {
        '3'
    } else if d == 4 {
        '4'
    } else if d == 5 {
        '5'
    } else if d == 6 {
        '6'
    } else if d == 7 {
        '7'
    } else if d == 8 {
        '8'
    } else {
        '9'
    }
}

/// The decimal text of an integer: a minus sign where negative, then digits.
pub open spec fn int_text(n: int) -> Seq<char> {
    if n < 0 {
        seq!['-'] + nat_digits((-n) as nat)
    } else {
        nat_digits(n as nat)
    }
}

/// The whole number that a text stands for, in the notation of `i64`:
/// digits with an optional sign; `None` where the text is not such a number
/// or the number does not fit.
pub uninterp spec fn text_i64(s: Seq<char>) -> Option<i64>;

/// `i64::to_string`: the decimal text of `n`, which parses back to `n`.
#[verifier::external_body]
pub(crate) fn i64_to_string(n: i64) -> (r: String)
    ensures
        r@ == int_text(n as int),
        text_i64(r@) == Some(n),
{
    n.to_string()
}

/// `str::parse::<i64>`. The contract names the result.
#[verifier::external_body]
pub(crate) fn parse_i64(s: &str) -> (r: Option<i64>)
    ensures
        r == text_i64(s@),
{
    s.parse::<i64>().ok()
}

/// `u128::to_string`: the decimal text of `n`.
#[verifier::external_body]
pub(crate) fn u128_to_string(n: u128) -> (r: String)
    ensures
        r@ == int_text(n as int),
{
    n.to_string()
}

} // verus!
