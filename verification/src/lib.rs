use vstd::prelude::*;

verus! {

/// Errors reserved for future range and parse validation of the digit-length
/// operation. No current code path produces them: `digit_len` is total today,
/// and this taxonomy keeps its result type stable when validation is added.
#[derive(Debug)]
pub enum ParkError {
    /// The numeric value falls outside a supported range.
    OutOfRange(String),
    /// Textual-to-numeric conversion failed.
    ParseIntError(String),
    /// Unclassified failure.
    General,
}

/// An integer is even when it is divisible by two.
pub open spec fn even(n: int) -> bool {
    n % 2 == 0
}

/// An integer is odd when it is not divisible by two.
pub open spec fn odd(n: int) -> bool {
    n % 2 != 0
}

/// Returns true when given an integer with an even polarity.
///
/// Zero is even, and a negative integer has the parity of its magnitude:
/// -8 is even, -9 is odd.
pub fn is_even(n: i64) -> (r: bool)
    ensures
        r == even(n as int),
{
    n % 2 == 0
}

/// Returns true when given an integer with an odd polarity.
pub fn is_odd(n: i64) -> (r: bool)
    ensures
        r == odd(n as int),
{
    !is_even(n)
}

/// Evenness and oddness are complements: for every integer, exactly one of
/// the two parity predicates holds.
pub proof fn lemma_parity_complement(n: int)
    ensures
        even(n) != odd(n),
{
}

/// Parity ignores sign: a nonzero integer and its negation are even
/// together, and zero is even.
pub proof fn lemma_parity_of_negation(n: int)
    requires
        n != 0,
    ensures
        even(n) == even(-n),
        even(0),
{
}

/// Ten raised to the power `k`.
pub open spec fn pow10(k: nat) -> nat
    decreases k,
{
    if k == 0 {
        1
    } else {
        10 * pow10((k - 1) as nat)
    }
}

/// The number of digits in the canonical base-10 representation of a
/// non-negative integer: one digit for values below ten, and one more for
/// each further division by ten. Zero has one digit.
pub open spec fn digit_count(n: nat) -> nat
    decreases n,
{
    if n < 10 {
        1
    } else {
        (1 + digit_count(n / 10)) as nat
    }
}

/// The length of an integer's canonical base-10 textual rendering: its digit
/// count, plus one character for the leading minus sign when it is negative.
pub open spec fn text_len(n: int) -> nat {
    if n < 0 {
        1 + digit_count((-n) as nat)
    } else {
        digit_count(n as nat)
    }
}

/// A non-negative integer below `pow10(k)` has at most `k` digits.
proof fn lemma_digit_count_le(n: nat, k: nat)
    requires
        k >= 1,
        n < pow10(k),
    ensures
        digit_count(n) <= k,
    decreases k,
{
    if n >= 10 {
        assert(pow10(k) == 10 * pow10((k - 1) as nat));
        assert(n / 10 < pow10((k - 1) as nat)) by {
            assert(n == 10 * (n / 10) + n % 10);
        }
        lemma_digit_count_le(n / 10, (k - 1) as nat);
    }
}

/// Every value of the magnitude type has at most twenty digits.
proof fn lemma_digit_count_u64(n: u64)
    ensures
        digit_count(n as nat) <= 20,
{
    assert(pow10(20) == 100_000_000_000_000_000_000) by {
        reveal_with_fuel(pow10, 21);
    }
    lemma_digit_count_le(n as nat, 20);
}

/// The digit count matches the canonical base-10 representation, which has
/// no leading zeros: a positive integer `n` has `k` digits exactly when
/// `pow10(k - 1) <= n < pow10(k)`, and zero has one digit.
pub proof fn lemma_digit_count_canonical(n: nat)
    ensures
        n >= 1 ==> pow10((digit_count(n) - 1) as nat) <= n < pow10(digit_count(n)),
        digit_count(0) == 1,
    decreases n,
{
    if n < 10 {
        assert(pow10(1) == 10) by {
            reveal_with_fuel(pow10, 2);
        }
    } else {
        lemma_digit_count_canonical(n / 10);
        let d = digit_count(n / 10);
        assert(n == 10 * (n / 10) + n % 10);
        assert(pow10(d) == 10 * pow10((d - 1) as nat));
        assert(pow10((d + 1) as nat) == 10 * pow10(d));
        assert(10 * pow10((d - 1) as nat) <= 10 * (n / 10));
        assert(n < 10 * pow10(d));
    }
}

/// Counts the digits of a non-negative value by repeated division by ten.
fn count_digits(m: u64) -> (count: usize)
    ensures
        count == digit_count(m as nat),
        count <= 20,
{
    let mut rest = m;
    let mut count: usize = 1;
    proof {
        lemma_digit_count_u64(m);
    }
    while rest >= 10
        invariant
            count >= 1,
            count + digit_count(rest as nat) == 1 + digit_count(m as nat),
            digit_count(m as nat) <= 20,
        decreases rest,
    {
        rest = rest / 10;
        count = count + 1;
    }
    count
}

/// Returns the number of characters in the canonical base-10 rendering of the
/// integer passed in: its digit count, plus one for the minus sign when the
/// value is negative.
///
/// The result is wrapped in an always-`Ok` outcome so that future range or
/// parse validation can be added without changing the call signature.
pub fn digit_len(n: &i64) -> (r: Result<usize, ParkError>)
    ensures
        r matches Ok(len) && len == text_len(*n as int),
{
    let magnitude: u64 = if *n >= 0 {
        *n as u64
    } else {
        ((-(*n as i128)) as u64)
    };
    let digits = count_digits(magnitude);
    if *n < 0 {
        Ok(digits + 1)
    } else {
        Ok(digits)
    }
}

} // verus!
