//! Configuration of a run, and the reading and writing of its amounts.

use vstd::prelude::*;
use crate::decimal::{decimal, law_decimal_round_trip, parse_unsigned, to_decimal};
use crate::decimal::{digits_value, law_digits_are_a_number, law_only_digits_are_read};
use crate::decimal::{unsigned_of, IntError};
use crate::text::{all_space, law_trim_takes_only_space, trim, trimmed};

verus! {

/// Root config (matches the TOML layout).
#[derive(Debug, Clone)]
pub struct Config {
    pub scenario: ScenarioConfig,
    pub ramp: RampConfig,
    pub target: TargetConfig,
    pub payment: PaymentConfig,
}

#[derive(Debug, Clone)]
pub struct ScenarioConfig {
    /// Deterministic seed for reproducible payload generation
    pub seed: u64,
    /// Base memo string (worker caps to 256 bytes)
    pub memo: String,
}

#[derive(Debug, Clone, Copy)]
pub struct RampStep {
    /// Target transactions per second
    pub tps: u64,
    /// Duration to hold this rate in milliseconds
    pub hold_ms: u64,
}

#[derive(Debug, Clone)]
pub struct RampConfig {
    pub steps: Vec<RampStep>,
}

#[derive(Debug, Clone)]
pub struct TargetConfig {
    /// List of RPC endpoints (worker will round-robin)
    pub rpc_urls: Vec<String>,
    /// Request timeout in milliseconds
    pub timeout_ms: u64,
    /// Maximum concurrent pending requests
    pub max_in_flight: u32,
}

#[derive(Debug, Clone)]
pub struct PaymentConfig {
    pub from: String,
    /// Path to a JSON file containing recipient addresses (round-robin).
    pub to_list_path: String,
    /// Payment amount in atomic units.
    pub amount_atomic: u128,
    /// Mandatory transaction fee in atomic units.
    pub fee_atomic: u128,
    /// Custodial signing key passed to `/tx/payment` (test keys only)
    pub signing_key: String,
}

/// An amount as it stands in a configuration file: an integer, or a base-10 text.
///
/// TOML has no integers of 128 bits, so amounts are written as texts, and read
/// from either form.
#[derive(Debug, Clone)]
pub enum RawAmount {
    Unsigned(u64),
    Signed(i64),
    Text(String),
}

/// Why a raw amount is no amount.
#[derive(Debug, Clone, Copy, PartialEq, Eq, Structural)]
pub enum AmountError {
    Negative,
    Invalid(IntError),
}

/// What a raw amount stands for. White space around a text does not matter.
pub open spec fn amount_of(raw: RawAmount) -> Result<nat, AmountError> {
    match raw {
        RawAmount::Unsigned(v) => Ok(v as nat),
        RawAmount::Signed(v) => if v < 0 {
            Err(AmountError::Negative)
        } else {
            Ok(v as nat)
        },
        RawAmount::Text(s) => match unsigned_of(trimmed(s@), u128::MAX as nat) {
            Ok(v) => Ok(v),
            Err(e) => Err(AmountError::Invalid(e)),
        },
    }
}

/// Reads an amount from either form.
pub fn de_u128_any(raw: &RawAmount) -> (r: Result<u128, AmountError>)
    ensures
        match amount_of(*raw) {
            Ok(v) => r == Ok::<u128, AmountError>(v as u128) && v <= u128::MAX,
            Err(e) => r == Err::<u128, AmountError>(e),
        },
{
    match raw {
        RawAmount::Unsigned(v) => Ok(*v as u128),
        RawAmount::Signed(v) => {
            if *v < 0 {
                return Err(AmountError::Negative);
            }
            Ok(*v as u128)
        },
        RawAmount::Text(s) => {
            let t = trim(s.as_str());
            match parse_unsigned(t.as_str(), u128::MAX) {
                Ok(v) => Ok(v),
                Err(e) => Err(AmountError::Invalid(e)),
            }
        },
    }
}

/// Writes an amount as the text that a configuration file holds.
pub fn ser_u128_as_string(v: u128) -> (s: String)
    ensures
        s@ == decimal(v as nat),
{
    to_decimal(v)
}

/// The wording of `AmountError`.
pub open spec fn amount_error_text(e: AmountError) -> Seq<char> {
    match e {
        AmountError::Negative => "expected non-negative integer for u128"@,
        AmountError::Invalid(e) => "invalid u128 string: "@ + e.text(),
    }
}

impl AmountError {
    /// The error in words.
    pub fn message(&self) -> (s: String)
        ensures
            s@ == amount_error_text(*self),
    {
        match self {
            AmountError::Negative => "expected non-negative integer for u128".to_owned(),
            AmountError::Invalid(e) => {
                let mut s = "invalid u128 string: ".to_owned();
                s.append(e.message().as_str());
                s
            },
        }
    }
}

/// Every amount is read back as it was written.
pub proof fn law_amount_round_trip(v: u128, s: String)
    requires
        s@ == decimal(v as nat),
    ensures
        amount_of(RawAmount::Text(s)) == Ok::<nat, AmountError>(v as nat),
{
    law_decimal_round_trip(v as nat, u128::MAX as nat);
}

/// An integer and its text stand for the same amount.
pub proof fn law_integer_and_text_agree(v: u64, s: String)
    requires
        s@ == decimal(v as nat),
    ensures
        amount_of(RawAmount::Text(s)) == amount_of(RawAmount::Unsigned(v)),
{
    law_decimal_round_trip(v as nat, u128::MAX as nat);
}

/// An integer stands for itself, in a signed form and in an unsigned one, and for the same
/// amount as its text; only a negative one is refused as such.
pub proof fn law_integers_stand_for_themselves(v: i64, u: u64, s: String)
    requires
        v >= 0 ==> s@ == decimal(v as nat),
    ensures
        amount_of(RawAmount::Unsigned(u)) == Ok::<nat, AmountError>(u as nat),
        v >= 0 ==> {
            &&& amount_of(RawAmount::Signed(v)) == Ok::<nat, AmountError>(v as nat)
            &&& amount_of(RawAmount::Text(s)) == Ok::<nat, AmountError>(v as nat)
        },
        v < 0 <==> amount_of(RawAmount::Signed(v)) == Err::<nat, AmountError>(
            AmountError::Negative,
        ),
{
    if v >= 0 {
        law_decimal_round_trip(v as nat, u128::MAX as nat);
    }
}

/// A text of digits stands for the number that they are, whatever white space stands
/// around it, as long as 128 bits can hold it.
pub proof fn law_texts_stand_for_their_digits(
    before: Seq<char>,
    digits: Seq<char>,
    after: Seq<char>,
    s: String,
)
    requires
        all_space(before),
        all_space(after),
        digits.len() > 0,
        forall|i: int| 0 <= i < digits.len() ==> '0' <= #[trigger] digits[i] <= '9',
        s@ == before + digits + after,
    ensures
        amount_of(RawAmount::Text(s)) == (if digits_value(digits) <= u128::MAX {
            Ok::<nat, AmountError>(digits_value(digits))
        } else {
            Err::<nat, AmountError>(AmountError::Invalid(IntError::TooLarge))
        }),
{
    assert('0' <= digits[0] <= '9');
    assert('0' <= digits[digits.len() - 1] <= '9');
    law_trim_takes_only_space(before, digits, after);
    law_digits_are_a_number(digits, u128::MAX as nat);
}

/// A text is refused where something else than digits, a sign before them and white space
/// around them stands in it; a blank one as empty.
pub proof fn law_other_texts_are_refused(s: String, i: int)
    ensures
        trimmed(s@).len() == 0 <==> amount_of(RawAmount::Text(s)) == Err::<nat, AmountError>(
            AmountError::Invalid(IntError::Empty),
        ),
        ({
            let t = trimmed(s@);
            0 <= i < t.len() && !('0' <= t[i] <= '9') && !(i == 0 && t[0] == '+' && t.len() > 1)
                ==> amount_of(RawAmount::Text(s)) is Err
        }),
{
    law_only_digits_are_read(trimmed(s@), u128::MAX as nat, i);
}

} // verus!
