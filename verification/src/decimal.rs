//! Unsigned integers as base-10 text, written and read.

use vstd::prelude::*;
use crate::text::{lemma_trim_keeps, to_chars, trimmed};

verus! {

pub open spec fn is_digit(c: char) -> bool {
    '0' <= c && c <= '9'
}

/// The character that stands for the digit `d`.
pub open spec fn digit_char(d: nat) -> char {
    ('0' as nat + d) as char
}

/// The digit that the character `c` stands for.
pub open spec fn char_digit(c: char) -> nat {
    (c as int - '0' as int) as nat
}

/// The base-10 text of `n`, without leading zeros.
pub open spec fn decimal(n: nat) -> Seq<char>
    decreases n,
{
    if n < 10 {
        seq![digit_char(n)]
    } else {
        decimal(n / 10).push(digit_char(n % 10))
    }
}

pub open spec fn all_digits(s: Seq<char>) -> bool {
    forall|i: int| 0 <= i < s.len() ==> is_digit(#[trigger] s[i])
}

/// The number that a run of digits stands for.
pub open spec fn digits_value(s: Seq<char>) -> nat
    decreases s.len(),
{
    if s.len() == 0 {
        0
    } else {
        10 * digits_value(s.drop_last()) + char_digit(s.last())
    }
}

/// How many characters at the start of `s` are digits.
pub open spec fn digit_run(s: Seq<char>) -> nat
    decreases s.len(),
{
    if s.len() > 0 && is_digit(s[0]) {
        1 + digit_run(s.drop_first())
    } else {
        0
    }
}

/// Why a text is no integer of the wanted range.
#[derive(Debug, Clone, Copy, PartialEq, Eq, Structural)]
pub enum IntError {
    /// There is no text at all.
    Empty,
    /// A character is no digit.
    InvalidDigit,
    /// The number is larger than the type can hold.
    TooLarge,
}

impl IntError {
    /// The error in words.
    pub open spec fn text(self) -> Seq<char> {
        match self {
            IntError::Empty => "cannot parse integer from empty string"@,
            IntError::InvalidDigit => "invalid digit found in string"@,
            IntError::TooLarge => "number too large to fit in target type"@,
        }
    }

    /// The error in words.
    pub fn message(&self) -> (s: String)
        ensures
            s@ == self.text(),
    {
        match self {
            IntError::Empty => "cannot parse integer from empty string".to_owned(),
            IntError::InvalidDigit => "invalid digit found in string".to_owned(),
            IntError::TooLarge => "number too large to fit in target type".to_owned(),
        }
    }
}

/// The text after an optional plus sign. A sign alone is no number, and stays.
pub open spec fn after_sign(s: Seq<char>) -> Seq<char> {
    if s.len() > 1 && s[0] == '+' {
        s.drop_first()
    } else {
        s
    }
}

/// What a base-10 text stands for, as an unsigned integer of at most `max`.
///
/// The text is an optional plus sign and at least one digit. Of a text that is
/// wrong in two ways, the fault that stands further left is told.
pub open spec fn unsigned_of(s: Seq<char>, max: nat) -> Result<nat, IntError> {
    let body = after_sign(s);
    let run = body.take(digit_run(body) as int);
    if s.len() == 0 {
        Err(IntError::Empty)
    } else if digits_value(run) > max {
        Err(IntError::TooLarge)
    } else if run.len() < body.len() {
        Err(IntError::InvalidDigit)
    } else {
        Ok(digits_value(body))
    }
}

proof fn lemma_digit_run(s: Seq<char>, n: int)
    requires
        0 <= n <= s.len(),
        all_digits(s.take(n)),
        n == s.len() || !is_digit(s[n]),
    ensures
        digit_run(s) == n,
    decreases n,
{
    if n > 0 {
        assert(is_digit(s.take(n)[0]));
        assert(s.drop_first().take(n - 1) =~= s.take(n).drop_first());
        assert forall|i: int| 0 <= i < n - 1 implies is_digit(
            #[trigger] s.drop_first().take(n - 1)[i],
        ) by {
            assert(s.drop_first().take(n - 1)[i] == s.take(n)[i + 1]);
        }
        lemma_digit_run(s.drop_first(), n - 1);
    }
}

proof fn lemma_value_grows(s: Seq<char>, k: int, n: int)
    requires
        0 <= k <= n <= s.len(),
    ensures
        digits_value(s.take(k)) <= digits_value(s.take(n)),
    decreases n - k,
{
    if k < n {
        lemma_value_grows(s, k, n - 1);
        assert(s.take(n).drop_last() =~= s.take(n - 1));
    }
}

proof fn lemma_run_bounds(s: Seq<char>)
    ensures
        digit_run(s) <= s.len(),
        all_digits(s.take(digit_run(s) as int)),
        digit_run(s) < s.len() ==> !is_digit(s[digit_run(s) as int]),
    decreases s.len(),
{
    if s.len() > 0 && is_digit(s[0]) {
        lemma_run_bounds(s.drop_first());
        let n = digit_run(s) as int;
        assert forall|i: int| 0 <= i < n implies is_digit(#[trigger] s.take(n)[i]) by {
            if i > 0 {
                assert(s.take(n)[i] == s.drop_first().take(n - 1)[i - 1]);
            }
        }
        if n < s.len() {
            assert(s[n] == s.drop_first()[n - 1]);
        }
    }
}

/// Reads `s` as an unsigned integer of at most `max`.
pub fn parse_unsigned(s: &str, max: u128) -> (r: Result<u128, IntError>)
    ensures
        match unsigned_of(s@, max as nat) {
            Ok(v) => r == Ok::<u128, IntError>(v as u128) && v <= max,
            Err(e) => r == Err::<u128, IntError>(e),
        },
{
    let chars = to_chars(s);
    let n: usize = chars.len();
    if n == 0 {
        return Err(IntError::Empty);
    }
    let from: usize = if n > 1 && chars[0] == '+' { 1 } else { 0 };
    let ghost body = after_sign(s@);
    assert(body =~= s@.skip(from as int));
    proof {
        lemma_run_bounds(body);
    }
    let ghost run = digit_run(body) as int;
    let mut acc: u128 = 0;
    let mut i: usize = from;
    assert(body.take(0) =~= Seq::<char>::empty());
    while i < n
        invariant
            chars@ == s@,
            n == s@.len(),
            n > 0,
            from <= i <= n,
            body == after_sign(s@),
            body == s@.skip(from as int),
            run == digit_run(body),
            0 <= run <= body.len(),
            run < body.len() ==> !is_digit(body[run]),
            all_digits(body.take(run)),
            i - from <= run,
            acc == digits_value(body.take(i - from)),
            acc <= max,
        decreases n - i,
    {
        let c: char = chars[i];
        let ghost k = i - from;
        assert(body[k] == c);
        if !('0' <= c && c <= '9') {
            proof {
                if k < run {
                    assert(is_digit(body.take(run)[k]));
                }
            }
            return Err(IntError::InvalidDigit);
        }
        let d: u128 = (c as u32 - '0' as u32) as u128;
        assert(k < run);
        assert(body.take(k + 1).drop_last() =~= body.take(k));
        assert(digits_value(body.take(k + 1)) == 10 * acc + d);
        if d > max || acc > (max - d) / 10 {
            proof {
                lemma_value_grows(body, k + 1, run);
            }
            return Err(IntError::TooLarge);
        }
        acc = acc * 10 + d;
        i = i + 1;
    }
    assert(body.take(body.len() as int) =~= body);
    Ok(acc)
}

/// Writes `n` in base 10.
pub fn to_decimal(n: u128) -> (s: String)
    ensures
        s@ == decimal(n as nat),
    decreases n,
{
    if n < 10 {
        let mut s = String::new();
        s.push(digit(n as u32));
        assert(s@ =~= decimal(n as nat));
        s
    } else {
        let mut s = to_decimal(n / 10);
        s.push(digit((n % 10) as u32));
        s
    }
}

/// A number with a text before and a text behind it.
pub open spec fn labelled_of(label: Seq<char>, n: nat, unit: Seq<char>) -> Seq<char> {
    label + decimal(n) + unit
}

/// A number with a text before and a text behind it.
pub fn labelled(label: &str, n: u128, unit: &str) -> (s: String)
    ensures
        s@ == labelled_of(label@, n as nat, unit@),
{
    let mut s = label.to_owned();
    s.append(to_decimal(n).as_str());
    s.append(unit);
    s
}

fn digit(d: u32) -> (c: char)
    requires
        d < 10,
    ensures
        c == digit_char(d as nat),
{
    (48u8 + d as u8) as char
}

/// The text of a number is made of digits, starts with a zero only where the
/// number is zero, and stands for that number.
pub proof fn lemma_decimal_reads_back(n: nat)
    ensures
        decimal(n).len() > 0,
        all_digits(decimal(n)),
        decimal(n)[0] == '0' <==> n == 0,
        digits_value(decimal(n)) == n,
    decreases n,
{
    if n < 10 {
        assert(decimal(n).drop_last() =~= Seq::<char>::empty());
        assert(digits_value(decimal(n).drop_last()) == 0);
    } else {
        lemma_decimal_reads_back(n / 10);
        let d = decimal(n);
        assert(d.drop_last() =~= decimal(n / 10));
        assert(d[0] == decimal(n / 10)[0]);
        assert forall|i: int| 0 <= i < d.len() implies is_digit(#[trigger] d[i]) by {
            if i < d.len() - 1 {
                assert(d[i] == decimal(n / 10)[i]);
            }
        }
    }
}

/// Reading what was written gives the number back, with white space around the
/// text trimmed away first or not.
pub proof fn law_decimal_round_trip(n: nat, max: nat)
    requires
        n <= max,
    ensures
        unsigned_of(decimal(n), max) == Ok::<nat, IntError>(n),
        unsigned_of(trimmed(decimal(n)), max) == Ok::<nat, IntError>(n),
{
    lemma_decimal_reads_back(n);
    let d = decimal(n);
    assert(is_digit(d[0]));
    assert(is_digit(d.last()));
    assert(after_sign(d) == d);
    assert(d.take(d.len() as int) =~= d);
    lemma_digit_run(d, d.len() as int);
    lemma_trim_keeps(d);
}

/// Two numbers with the same text are the same number.
pub proof fn law_decimal_is_injective(a: nat, b: nat)
    requires
        decimal(a) == decimal(b),
    ensures
        a == b,
{
    lemma_decimal_reads_back(a);
    lemma_decimal_reads_back(b);
}

/// A base-10 text has no needless zeros, and a digit more at its end is that digit more at
/// the end of the number.
pub proof fn law_decimal_is_positional(n: nat, d: nat)
    requires
        d < 10,
    ensures
        decimal(n).len() > 1 ==> decimal(n)[0] != '0',
        decimal(d).len() == 1,
        decimal(d)[0] as int == '0' as int + d,
        n > 0 ==> decimal(10 * n + d) == decimal(n) + decimal(d),
{
    lemma_decimal_reads_back(n);
    if n > 0 {
        assert(decimal(n) + decimal(d) =~= decimal(n).push(digit_char(d)));
    }
}

/// A run of digits is read by place: one digit more makes the number ten times as large,
/// and adds that digit.
pub proof fn law_digits_are_read_by_place(s: Seq<char>, c: char)
    requires
        '0' <= c <= '9',
    ensures
        digits_value(Seq::<char>::empty()) == 0,
        digits_value(s.push(c)) == 10 * digits_value(s) + (c as int - '0' as int),
{
    assert(s.push(c).drop_last() =~= s);
}

/// Digits alone are a number, with a plus sign or without, as long as it is in range.
pub proof fn law_digits_are_a_number(s: Seq<char>, max: nat)
    requires
        s.len() > 0,
        forall|i: int| 0 <= i < s.len() ==> '0' <= #[trigger] s[i] <= '9',
    ensures
        digits_value(s) <= max ==> {
            &&& unsigned_of(s, max) == Ok::<nat, IntError>(digits_value(s))
            &&& unsigned_of(seq!['+'] + s, max) == Ok::<nat, IntError>(digits_value(s))
        },
        digits_value(s) > max ==> {
            &&& unsigned_of(s, max) == Err::<nat, IntError>(IntError::TooLarge)
            &&& unsigned_of(seq!['+'] + s, max) == Err::<nat, IntError>(IntError::TooLarge)
        },
{
    assert(s.take(s.len() as int) =~= s);
    assert(all_digits(s));
    lemma_digit_run(s, s.len() as int);
    let signed = seq!['+'] + s;
    assert(signed.drop_first() =~= s);
    assert(after_sign(s) == s);
    assert(after_sign(signed) == s);
}

/// A number that is too large for its range is refused as such, whatever its size.
pub proof fn law_large_numbers_are_refused(n: nat, max: nat)
    requires
        n > max,
    ensures
        unsigned_of(decimal(n), max) == Err::<nat, IntError>(IntError::TooLarge),
{
    lemma_decimal_reads_back(n);
    let d = decimal(n);
    assert forall|i: int| 0 <= i < d.len() implies '0' <= #[trigger] d[i] <= '9' by {
        assert(is_digit(d[i]));
    }
    law_digits_are_a_number(d, max);
}

/// Whatever is read is made of digits, but for a plus sign before them; nothing at all is
/// told apart from something wrong.
pub proof fn law_only_digits_are_read(s: Seq<char>, max: nat, i: int)
    ensures
        unsigned_of(s, max) == Err::<nat, IntError>(IntError::Empty) <==> s.len() == 0,
        0 <= i < s.len() && !('0' <= s[i] <= '9') && !(i == 0 && s[0] == '+' && s.len() > 1)
            ==> unsigned_of(s, max) is Err,
        unsigned_of(s, max) matches Ok(v) ==> v <= max,
        i == 0 && s.len() > 0 && !('0' <= s[0] <= '9') && s[0] != '+' ==> unsigned_of(s, max)
            == Err::<nat, IntError>(IntError::InvalidDigit),
{
    let body = after_sign(s);
    lemma_run_bounds(body);
    let run = digit_run(body) as int;
    if s.len() > 0 && s[0] == '+' && s.len() > 1 {
        assert(body[0] == s[1]);
        if 1 <= i < s.len() && run == body.len() {
            assert(is_digit(body.take(run)[i - 1]));
            assert(body.take(run)[i - 1] == s[i]);
        }
    } else if 0 <= i < s.len() && run == body.len() {
        assert(is_digit(body.take(run)[i]));
        assert(body.take(run)[i] == s[i]);
    }
    if run == 0 {
        assert(body.take(run) =~= Seq::<char>::empty());
    }
    if run == body.len() {
        assert(body.take(run) =~= body);
    }
}

/// A number between two texts gives itself away: it reads back from behind the first.
pub proof fn law_labelled_number_reads_back(label: Seq<char>, n: nat, unit: Seq<char>, max: nat)
    requires
        n <= max,
    ensures
        ({
            let line = labelled_of(label, n, unit);
            &&& line.take(label.len() as int) == label
            &&& line.skip(line.len() - unit.len()) == unit
            &&& unsigned_of(
                line.subrange(label.len() as int, line.len() - unit.len()),
                max,
            ) == Ok::<nat, IntError>(n)
        }),
{
    let line = labelled_of(label, n, unit);
    assert(line.take(label.len() as int) =~= label);
    assert(line.skip(line.len() - unit.len()) =~= unit);
    assert(line.subrange(label.len() as int, line.len() - unit.len()) =~= decimal(n));
    law_decimal_round_trip(n, max);
}

} // verus!
