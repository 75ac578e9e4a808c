use vstd::prelude::*;

use crate::error::LedgerError;
use vstd::string::StringExecFns;

verus! {

/// The currencies an amount of money can be held in.
#[derive(Debug, Clone, Copy, PartialEq, Eq, Structural, PartialOrd)]
pub enum Currency {
    NGN,
    USD,
    EUR,
}

/// An amount in minor units (kobo, cents) of one currency.
#[derive(Debug, Clone, Copy, PartialEq, Eq, Structural, PartialOrd)]
pub struct Money {
    pub amount: i64,
    pub currency: Currency,
}

impl Money {
    pub fn new(amount: i64, currency: Currency) -> (m: Money)
        ensures
            m.amount == amount,
            m.currency == currency,
    {
        Money { amount, currency }
    }

    pub fn value(&self) -> (v: i64)
        ensures
            v == self.amount,
    {
        self.amount
    }

    /// Adds two amounts of the same currency; amounts of different
    /// currencies are refused with `CurrencyMismatch`.
    pub fn add(&self, other: &Money) -> (r: Result<Money, LedgerError>)
        requires
            self.currency == other.currency ==> i64::MIN <= self.amount + other.amount <= i64::MAX,
        ensures
            self.currency != other.currency ==> r == Err::<Money, LedgerError>(LedgerError::CurrencyMismatch),
            self.currency == other.currency ==> r == Ok::<Money, LedgerError>(
                Money { amount: (self.amount + other.amount) as i64, currency: self.currency },
            ),
    {
        if self.currency != other.currency {
            return Err(LedgerError::CurrencyMismatch);
        }
        Ok(Money::new(self.amount + other.amount, self.currency))
    }

    /// Subtracts an amount of the same currency; amounts of different
    /// currencies are refused with `CurrencyMismatch`.
    pub fn sub(&self, other: &Money) -> (r: Result<Money, LedgerError>)
        requires
            self.currency == other.currency ==> i64::MIN <= self.amount - other.amount <= i64::MAX,
        ensures
            self.currency != other.currency ==> r == Err::<Money, LedgerError>(LedgerError::CurrencyMismatch),
            self.currency == other.currency ==> r == Ok::<Money, LedgerError>(
                Money { amount: (self.amount - other.amount) as i64, currency: self.currency },
            ),
    {
        if self.currency != other.currency {
            return Err(LedgerError::CurrencyMismatch);
        }
        Ok(Money::new(self.amount - other.amount, self.currency))
    }

    /// The amount as text in naira and kobo, such as `₦12.05`.
    pub fn formatted(&self) -> (s: String)
        requires
            self.amount != i64::MIN,
        ensures
            s@ == naira_text(self.amount as int),
    {
        let mag: u64 = if self.amount < 0 {
            (-self.amount) as u64
        } else {
            self.amount as u64
        };
        let mut text = String::new();
        proof {
            reveal_strlit("₦");
            reveal_strlit("-");
            reveal_strlit(".");
        }
        text.append("₦");
        if self.amount <= -100 {
            text.append("-");
        }
        append_decimal_digits(mag / 100, &mut text);
        text.append(".");
        text.append(digit_text((mag % 100) / 10));
        text.append(digit_text(mag % 10));
        assert(mag == abs_int(self.amount as int));
        assert(text@ =~= naira_text(self.amount as int));
        text
    }
}

/// The decimal digit for `d` (0 to 9).
pub open spec fn digit_char(d: int) -> char {
    if d == 0 { '0' }
    else if d == 1 { '1' }
    else if d == 2 { '2' }
    else if d == 3 { '3' }
    else if d == 4 { '4' }
    else if d == 5 { '5' }
    else if d == 6 { '6' }
    else if d == 7 { '7' }
    else if d == 8 { '8' }
    else { '9' }
}

/// The decimal digits of `n`, most significant first, with no leading zero.
pub open spec fn decimal_digits(n: nat) -> Seq<char>
    decreases n,
{
    if n < 10 {
        seq![digit_char(n as int)]
    } else {
        decimal_digits(n / 10).push(digit_char((n % 10) as int))
    }
}

pub open spec fn abs_int(a: int) -> nat {
    if a < 0 { (-a) as nat } else { a as nat }
}

/// How an amount of kobo reads: the naira sign, the whole naira (the
/// quotient truncated toward zero, so with a minus sign only from one naira
/// down), a point, and the kobo in two digits.
pub open spec fn naira_text(amount: int) -> Seq<char> {
    let mag = abs_int(amount);
    seq!['₦'] + (if amount <= -100 { seq!['-'] } else { Seq::<char>::empty() }) + decimal_digits(mag / 100)
        + seq!['.', digit_char(((mag % 100) / 10) as int), digit_char((mag % 10) as int)]
}

/// The text of the decimal digit `d`.
fn digit_text(d: u64) -> (t: &'static str)
    requires
        d < 10,
    ensures
        t@ == seq![digit_char(d as int)],
{
    proof {
        reveal_strlit("0");
        reveal_strlit("1");
        reveal_strlit("2");
        reveal_strlit("3");
        reveal_strlit("4");
        reveal_strlit("5");
        reveal_strlit("6");
        reveal_strlit("7");
        reveal_strlit("8");
        reveal_strlit("9");
    }
    if d == 0 { "0" }
    else if d == 1 { "1" }
    else if d == 2 { "2" }
    else if d == 3 { "3" }
    else if d == 4 { "4" }
    else if d == 5 { "5" }
    else if d == 6 { "6" }
    else if d == 7 { "7" }
    else if d == 8 { "8" }
    else { "9" }
}

fn append_decimal_digits(n: u64, out: &mut String)
    ensures
        final(out)@ == old(out)@ + decimal_digits(n as nat),
    decreases n,
{
    if n >= 10 {
        append_decimal_digits(n / 10, out);
    }
    out.append(digit_text(n % 10));
    proof {
        if n >= 10 {
            assert(decimal_digits(n as nat) == decimal_digits((n / 10) as nat).push(digit_char((n % 10) as int)));
        }
    }
    assert(out@ =~= old(out)@ + decimal_digits(n as nat));
}

/// The state of a running total that starts at zero naira and adds one
/// amount at a time with `Money::add`: either a sum so far, a refusal
/// because an amount was not in naira, or an arithmetic overflow (on which
/// the running total cannot go on).
pub enum Tally {
    Sum(int),
    Mismatch,
    Overflow,
}

/// Adds `delta` in `currency` to a running naira total.
pub open spec fn tally_step(t: Tally, delta: int, currency: Currency) -> Tally {
    match t {
        Tally::Sum(acc) => if currency != Currency::NGN {
            Tally::Mismatch
        } else if i64::MIN <= acc + delta <= i64::MAX {
            Tally::Sum(acc + delta)
        } else {
            Tally::Overflow
        },
        Tally::Mismatch => Tally::Mismatch,
        Tally::Overflow => Tally::Overflow,
    }
}

/// What a running naira total yields as a result: the sum as money, or
/// the refusal of a foreign currency.
pub open spec fn tally_result(t: Tally) -> Result<Money, LedgerError> {
    match t {
        Tally::Sum(v) => Ok(Money { amount: v as i64, currency: Currency::NGN }),
        _ => Err(LedgerError::CurrencyMismatch),
    }
}

} // verus!
