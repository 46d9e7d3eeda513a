use vstd::prelude::*;

verus! {

/// The mean of two integers, rounded down.
pub open spec fn floor_mean(a: int, b: int) -> int {
    (a + b) / 2
}

/// Values that can be averaged pairwise into a value of the same type.
///
/// Used for the median of an even number of values: the mean of the two
/// middlemost ones.
pub trait AverageWith: Sized {
    /// The value as a mathematical integer.
    spec fn int_value(&self) -> int;

    /// Returns the arithmetic mean of `self` and `other`, rounded down.
    fn average_with(&self, other: &Self) -> (r: Self)
        ensures
            r.int_value() == floor_mean(self.int_value(), other.int_value()),
    ;
}

/// Halves `s`, rounding toward negative infinity.
fn floor_half(s: i128) -> (r: i128)
    requires
        -0x4_0000_0000_0000_0000 <= s <= 0x4_0000_0000_0000_0000,
    ensures
        r == s / 2,
{
    if s >= 0 {
        s / 2
    } else {
        -((1 - s) / 2)
    }
}

impl AverageWith for i8 {
    open spec fn int_value(&self) -> int {
        *self as int
    }

    fn average_with(&self, other: &Self) -> (r: Self) {
        floor_half(*self as i128 + *other as i128) as i8
    }
}

impl AverageWith for i16 {
    open spec fn int_value(&self) -> int {
        *self as int
    }

    fn average_with(&self, other: &Self) -> (r: Self) {
        floor_half(*self as i128 + *other as i128) as i16
    }
}

impl AverageWith for i32 {
    open spec fn int_value(&self) -> int {
        *self as int
    }

    fn average_with(&self, other: &Self) -> (r: Self) {
        floor_half(*self as i128 + *other as i128) as i32
    }
}

impl AverageWith for i64 {
    open spec fn int_value(&self) -> int {
        *self as int
    }

    fn average_with(&self, other: &Self) -> (r: Self) {
        floor_half(*self as i128 + *other as i128) as i64
    }
}

impl AverageWith for u8 {
    open spec fn int_value(&self) -> int {
        *self as int
    }

    fn average_with(&self, other: &Self) -> (r: Self) {
        floor_half(*self as i128 + *other as i128) as u8
    }
}

impl AverageWith for u16 {
    open spec fn int_value(&self) -> int {
        *self as int
    }

    fn average_with(&self, other: &Self) -> (r: Self) {
        floor_half(*self as i128 + *other as i128) as u16
    }
}

impl AverageWith for u32 {
    open spec fn int_value(&self) -> int {
        *self as int
    }

    fn average_with(&self, other: &Self) -> (r: Self) {
        floor_half(*self as i128 + *other as i128) as u32
    }
}

impl AverageWith for u64 {
    open spec fn int_value(&self) -> int {
        *self as int
    }

    fn average_with(&self, other: &Self) -> (r: Self) {
        floor_half(*self as i128 + *other as i128) as u64
    }
}

impl AverageWith for i128 {
    open spec fn int_value(&self) -> int {
        *self as int
    }

    fn average_with(&self, other: &Self) -> (r: Self) {
        let (lo, hi) = if *self <= *other {
            (*self, *other)
        } else {
            (*other, *self)
        };
        if lo >= 0 || hi < 0 {
            // Both have the same sign, so the distance fits.
            lo + (hi - lo) / 2
        } else {
            // The signs differ, so the sum fits.
            let s = lo + hi;
            if s >= 0 {
                s / 2
            } else {
                -((-(s + 1)) / 2) - 1
            }
        }
    }
}

impl AverageWith for u128 {
    open spec fn int_value(&self) -> int {
        *self as int
    }

    fn average_with(&self, other: &Self) -> (r: Self) {
        if *self <= *other {
            *self + (*other - *self) / 2
        } else {
            *other + (*self - *other) / 2
        }
    }
}

} // verus!
