//! Natural numbers of any size, and their conversion to machine integers.

use vstd::prelude::*;

verus! {

/// The weight of a digit relative to the one before it.
pub const DIGIT_BASE: u64 = 0x1_0000_0000;

/// A natural number of any size, as its base-2^32 digits, least significant first.
///
/// Zero digits at the most significant end are allowed and carry no meaning.
pub struct Nat {
    pub digits: Vec<u32>,
}

/// The number that a sequence of digits stands for.
pub open spec fn digits_value(digits: Seq<u32>) -> nat
    decreases digits.len(),
{
    if digits.len() == 0 {
        0
    } else {
        digits[0] as nat + DIGIT_BASE as nat * digits_value(digits.drop_first())
    }
}

impl View for Nat {
    type V = nat;

    open spec fn view(&self) -> nat {
        digits_value(self.digits@)
    }
}

impl Nat {
    /// The natural number with the value of `value`.
    pub fn from_u64(value: u64) -> (result: Nat)
        ensures
            result@ == value,
    {
        let low: u32 = (value % DIGIT_BASE) as u32;
        let high: u32 = (value / DIGIT_BASE) as u32;
        let digits: Vec<u32> = vec![low, high];
        proof {
            reveal_with_fuel(digits_value, 3);
            assert(digits@.drop_first() =~= seq![high]);
            assert(seq![high].drop_first() =~= Seq::<u32>::empty());
        }
        Nat { digits }
    }

    /// A copy of this number.
    pub fn duplicate(&self) -> (result: Nat)
        ensures
            result@ == self@,
    {
        let digits: Vec<u32> = self.digits.clone();
        assert(digits@ =~= self.digits@);
        Nat { digits }
    }
}

/// Dropping low digits never makes a number larger.
proof fn lemma_suffix_value(digits: Seq<u32>, from: int)
    requires
        0 <= from <= digits.len(),
    ensures
        digits_value(digits.skip(from)) <= digits_value(digits),
    decreases from,
{
    if from == 0 {
        assert(digits.skip(0) =~= digits);
    } else {
        lemma_suffix_value(digits, from - 1);
        assert(digits.skip(from - 1).drop_first() =~= digits.skip(from));
    }
}

/// The text reported for a number that is too large for `u64`.
pub open spec fn too_large_for_u64() -> Seq<char> {
    "Nat does not fit in u64"@
}

/// The text reported for a number that is too large for `u128`.
pub open spec fn too_large_for_u128() -> Seq<char> {
    "Nat does not fit in u128"@
}

/// Converts a natural number to `u128`; fails exactly when it is too large.
pub fn nat_to_u128(value: Nat) -> (result: Result<u128, String>)
    ensures
        match result {
            Ok(number) => value@ <= u128::MAX && number == value@,
            Err(error) => value@ > u128::MAX && error@ == too_large_for_u128() && error@
                == "Nat does not fit in u128"@,
        },
{
    let mut number: u128 = 0;
    let mut index: usize = value.digits.len();
    assert(value.digits@.skip(index as int) =~= Seq::<u32>::empty());
    while index > 0
        invariant
            index <= value.digits@.len(),
            number == digits_value(value.digits@.skip(index as int)),
        decreases index,
    {
        index = index - 1;
        proof {
            lemma_suffix_value(value.digits@, index as int);
            assert(value.digits@.skip(index as int).drop_first() =~= value.digits@.skip(
                index + 1,
            ));
        }
        let digit: u32 = value.digits[index];
        if number > (u128::MAX - digit as u128) / DIGIT_BASE as u128 {
            return Err("Nat does not fit in u128".to_owned());
        }
        number = number * DIGIT_BASE as u128 + digit as u128;
    }
    assert(value.digits@.skip(0) =~= value.digits@);
    Ok(number)
}

/// Converts a natural number to `u64`; fails exactly when it is too large.
pub fn nat_to_u64(value: Nat) -> (result: Result<u64, String>)
    ensures
        match result {
            Ok(number) => value@ <= u64::MAX && number == value@,
            Err(error) => value@ > u64::MAX && error@ == too_large_for_u64() && error@
                == "Nat does not fit in u64"@,
        },
{
    match nat_to_u128(value) {
        Ok(number) => if number <= u64::MAX as u128 {
            Ok(number as u64)
        } else {
            Err("Nat does not fit in u64".to_owned())
        },
        Err(_) => Err("Nat does not fit in u64".to_owned()),
    }
}

/// A digit in front of others counts once, and those behind it count 2^32 times; no digits are
/// zero.
pub proof fn law_digits_value(digit: u32, higher: Seq<u32>)
    ensures
        digits_value(Seq::empty()) == 0,
        digits_value(seq![digit] + higher) == digit + 0x1_0000_0000 * digits_value(higher),
{
    assert((seq![digit] + higher).drop_first() =~= higher);
}

/// A zero digit at the most significant end does not change a number.
pub proof fn law_leading_zero(digits: Seq<u32>)
    ensures
        digits_value(digits.push(0)) == digits_value(digits),
    decreases digits.len(),
{
    reveal_with_fuel(digits_value, 2);
    if digits.len() == 0 {
        assert(digits.push(0).drop_first() =~= Seq::<u32>::empty());
    } else {
        law_leading_zero(digits.drop_first());
        assert(digits.push(0).drop_first() =~= digits.drop_first().push(0));
    }
}

} // verus!
