//! Small integers that are checked against a closed range when they are built.

use vstd::prelude::*;
use vstd::std_specs::convert::TryFromSpecImpl;
use crate::text::{digits, push_digits};

verus! {

/// An integer in `0..=10`, used for the number of fans.
#[derive(Clone, Copy, Debug)]
pub struct UMax10 {
    value: u8,
}

/// The error of a conversion into [`UMax10`]: the number was above ten.
#[derive(Debug, Clone, Copy)]
#[non_exhaustive]
pub struct GreaterThan10;

impl GreaterThan10 {
    /// What the error says to a person.
    pub fn message(&self) -> (r: String)
        ensures
            r@ == "number is greater than 10"@,
    {
        "number is greater than 10".to_owned()
    }
}

impl UMax10 {
    #[verifier::type_invariant]
    closed spec fn in_range(self) -> bool {
        self.value <= 10
    }

    /// The number held.
    pub closed spec fn view(self) -> int {
        self.value as int
    }

    /// The value that holds `n`, for `n` in `0..=10`.
    pub closed spec fn of(n: int) -> Self {
        UMax10 { value: n as u8 }
    }

    /// What a checked conversion of `n` gives: the value for `n` up to ten, an
    /// error above.
    pub open spec fn checked(n: int) -> Result<Self, GreaterThan10> {
        if 0 <= n <= 10 {
            Ok(Self::of(n))
        } else {
            Err(GreaterThan10)
        }
    }

    /// The value that holds a number in `0..=10` holds that number.
    pub proof fn lemma_of_view(n: int)
        requires
            0 <= n <= 10,
        ensures
            Self::of(n)@ == n,
    {
    }

    /// A value is the value that holds its number: two values with one number are
    /// equal.
    pub proof fn lemma_view_of(self)
        ensures
            Self::of(self@) == self,
    {
    }

    /// `Some` exactly when `value` is at most ten.
    pub fn new(value: u8) -> (r: Option<Self>)
        ensures
            r == (if value <= 10 {
                Some(Self::of(value as int))
            } else {
                None
            }),
            r is Some ==> r->Some_0@ == value,
    {
        if value > 10 {
            None
        } else {
            Some(Self { value })
        }
    }

    /// Builds the value without a run-time test.
    pub fn new_unchecked(value: u8) -> (r: Self)
        requires
            value <= 10,
        ensures
            r == Self::of(value as int),
            r@ == value,
    {
        Self { value }
    }

    /// The number as a plain byte.
    pub fn get(&self) -> (r: u8)
        ensures
            r == self@,
            r <= 10,
    {
        proof {
            use_type_invariant(self);
        }
        self.value
    }

    /// The number in decimal.
    pub fn text(&self) -> (r: String)
        ensures
            r@ == digits(self@ as nat),
    {
        let mut r = String::new();
        push_digits(&mut r, self.value as u64);
        r
    }
}

impl Default for UMax10 {
    fn default() -> (r: Self)
        ensures
            r == Self::of(0),
            r@ == 0,
    {
        Self { value: 0 }
    }
}

impl TryFrom<u8> for UMax10 {
    type Error = GreaterThan10;

    fn try_from(value: u8) -> (r: Result<Self, Self::Error>) {
        if value > 10 {
            Err(GreaterThan10)
        } else {
            Ok(Self { value: value as u8 })
        }
    }
}

impl TryFromSpecImpl<u8> for UMax10 {
    open spec fn obeys_try_from_spec() -> bool {
        true
    }

    open spec fn try_from_spec(v: u8) -> Result<Self, Self::Error> {
        Self::checked(v as int)
    }
}

impl TryFrom<u16> for UMax10 {
    type Error = GreaterThan10;

    fn try_from(value: u16) -> (r: Result<Self, Self::Error>) {
        if value > 10 {
            Err(GreaterThan10)
        } else {
            Ok(Self { value: value as u8 })
        }
    }
}

impl TryFromSpecImpl<u16> for UMax10 {
    open spec fn obeys_try_from_spec() -> bool {
        true
    }

    open spec fn try_from_spec(v: u16) -> Result<Self, Self::Error> {
        Self::checked(v as int)
    }
}

impl TryFrom<u32> for UMax10 {
    type Error = GreaterThan10;

    fn try_from(value: u32) -> (r: Result<Self, Self::Error>) {
        if value > 10 {
            Err(GreaterThan10)
        } else {
            Ok(Self { value: value as u8 })
        }
    }
}

impl TryFromSpecImpl<u32> for UMax10 {
    open spec fn obeys_try_from_spec() -> bool {
        true
    }

    open spec fn try_from_spec(v: u32) -> Result<Self, Self::Error> {
        Self::checked(v as int)
    }
}

impl TryFrom<u64> for UMax10 {
    type Error = GreaterThan10;

    fn try_from(value: u64) -> (r: Result<Self, Self::Error>) {
        if value > 10 {
            Err(GreaterThan10)
        } else {
            Ok(Self { value: value as u8 })
        }
    }
}

impl TryFromSpecImpl<u64> for UMax10 {
    open spec fn obeys_try_from_spec() -> bool {
        true
    }

    open spec fn try_from_spec(v: u64) -> Result<Self, Self::Error> {
        Self::checked(v as int)
    }
}

impl TryFrom<u128> for UMax10 {
    type Error = GreaterThan10;

    fn try_from(value: u128) -> (r: Result<Self, Self::Error>) {
        if value > 10 {
            Err(GreaterThan10)
        } else {
            Ok(Self { value: value as u8 })
        }
    }
}

impl TryFromSpecImpl<u128> for UMax10 {
    open spec fn obeys_try_from_spec() -> bool {
        true
    }

    open spec fn try_from_spec(v: u128) -> Result<Self, Self::Error> {
        Self::checked(v as int)
    }
}

/// An integer in `0..=9`: one decimal digit, used for the index of a fan.
#[derive(Clone, Copy, Debug)]
pub struct OneDigit {
    value: u8,
}

/// The error of a conversion into [`OneDigit`]: the number has more than one digit.
#[derive(Debug, Clone, Copy)]
#[non_exhaustive]
pub struct MoreDigits;

impl MoreDigits {
    /// What the error says to a person.
    pub fn message(&self) -> (r: String)
        ensures
            r@ == "number contains more digits"@,
    {
        "number contains more digits".to_owned()
    }
}

impl OneDigit {
    #[verifier::type_invariant]
    closed spec fn in_range(self) -> bool {
        self.value <= 9
    }

    /// The number held.
    pub closed spec fn view(self) -> int {
        self.value as int
    }

    /// The value that holds `n`, for `n` in `0..=9`.
    pub closed spec fn of(n: int) -> Self {
        OneDigit { value: n as u8 }
    }

    /// What a checked conversion of `n` gives: the value for `n` up to nine, an
    /// error above.
    pub open spec fn checked(n: int) -> Result<Self, MoreDigits> {
        if 0 <= n <= 9 {
            Ok(Self::of(n))
        } else {
            Err(MoreDigits)
        }
    }

    /// The value that holds a number in `0..=9` holds that number.
    pub proof fn lemma_of_view(n: int)
        requires
            0 <= n <= 9,
        ensures
            Self::of(n)@ == n,
    {
    }

    /// A value is the value that holds its number: two values with one number are
    /// equal.
    pub proof fn lemma_view_of(self)
        ensures
            Self::of(self@) == self,
    {
    }

    /// `Some` exactly when `value` is at most nine.
    pub fn new(value: u8) -> (r: Option<Self>)
        ensures
            r == (if value <= 9 {
                Some(Self::of(value as int))
            } else {
                None
            }),
            r is Some ==> r->Some_0@ == value,
    {
        if value > 9 {
            None
        } else {
            Some(Self { value })
        }
    }

    /// Builds the value without a run-time test.
    pub fn new_unchecked(value: u8) -> (r: Self)
        requires
            value <= 9,
        ensures
            r == Self::of(value as int),
            r@ == value,
    {
        Self { value }
    }

    /// The number as a plain byte.
    pub fn get(&self) -> (r: u8)
        ensures
            r == self@,
            r <= 9,
    {
        proof {
            use_type_invariant(self);
        }
        self.value
    }

    /// The number in decimal.
    pub fn text(&self) -> (r: String)
        ensures
            r@ == digits(self@ as nat),
    {
        let mut r = String::new();
        push_digits(&mut r, self.value as u64);
        r
    }
}

impl Default for OneDigit {
    fn default() -> (r: Self)
        ensures
            r == Self::of(0),
            r@ == 0,
    {
        Self { value: 0 }
    }
}

impl TryFrom<u8> for OneDigit {
    type Error = MoreDigits;

    fn try_from(value: u8) -> (r: Result<Self, Self::Error>) {
        if value > 9 {
            Err(MoreDigits)
        } else {
            Ok(Self { value: value as u8 })
        }
    }
}

impl TryFromSpecImpl<u8> for OneDigit {
    open spec fn obeys_try_from_spec() -> bool {
        true
    }

    open spec fn try_from_spec(v: u8) -> Result<Self, Self::Error> {
        Self::checked(v as int)
    }
}

impl TryFrom<u16> for OneDigit {
    type Error = MoreDigits;

    fn try_from(value: u16) -> (r: Result<Self, Self::Error>) {
        if value > 9 {
            Err(MoreDigits)
        } else {
            Ok(Self { value: value as u8 })
        }
    }
}

impl TryFromSpecImpl<u16> for OneDigit {
    open spec fn obeys_try_from_spec() -> bool {
        true
    }

    open spec fn try_from_spec(v: u16) -> Result<Self, Self::Error> {
        Self::checked(v as int)
    }
}

impl TryFrom<u32> for OneDigit {
    type Error = MoreDigits;

    fn try_from(value: u32) -> (r: Result<Self, Self::Error>) {
        if value > 9 {
            Err(MoreDigits)
        } else {
            Ok(Self { value: value as u8 })
        }
    }
}

impl TryFromSpecImpl<u32> for OneDigit {
    open spec fn obeys_try_from_spec() -> bool {
        true
    }

    open spec fn try_from_spec(v: u32) -> Result<Self, Self::Error> {
        Self::checked(v as int)
    }
}

impl TryFrom<u64> for OneDigit {
    type Error = MoreDigits;

    fn try_from(value: u64) -> (r: Result<Self, Self::Error>) {
        if value > 9 {
            Err(MoreDigits)
        } else {
            Ok(Self { value: value as u8 })
        }
    }
}

impl TryFromSpecImpl<u64> for OneDigit {
    open spec fn obeys_try_from_spec() -> bool {
        true
    }

    open spec fn try_from_spec(v: u64) -> Result<Self, Self::Error> {
        Self::checked(v as int)
    }
}

impl TryFrom<u128> for OneDigit {
    type Error = MoreDigits;

    fn try_from(value: u128) -> (r: Result<Self, Self::Error>) {
        if value > 9 {
            Err(MoreDigits)
        } else {
            Ok(Self { value: value as u8 })
        }
    }
}

impl TryFromSpecImpl<u128> for OneDigit {
    open spec fn obeys_try_from_spec() -> bool {
        true
    }

    open spec fn try_from_spec(v: u128) -> Result<Self, Self::Error> {
        Self::checked(v as int)
    }
}

} // verus!
