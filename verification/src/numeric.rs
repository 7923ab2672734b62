//! Conversions between the fixed-width integer representations the
//! transform layer moves between: lossless widenings, saturating
//! narrowings, and the bias remap that recenters a signed value as an
//! unsigned one (and back) so a zero-centered coefficient displays as a
//! mid-range sample.

use vstd::prelude::*;

verus! {

/// A checked conversion into another integer representation: lossless
/// where the target can hold every source value, saturating or
/// bias-remapping where it cannot, always exactly as specified.
pub trait Convert<T> {
    /// The converted value.
    spec fn convert_spec(&self) -> T;

    /// Converts; the result is exactly the specified value.
    fn convert(&self) -> (r: T)
        ensures
            r == self.convert_spec(),
    ;
}

impl Convert<u8> for u8 {
    open spec fn convert_spec(&self) -> u8 {
        *self
    }

    fn convert(&self) -> (r: u8) {
        *self
    }
}

impl Convert<u16> for u16 {
    open spec fn convert_spec(&self) -> u16 {
        *self
    }

    fn convert(&self) -> (r: u16) {
        *self
    }
}

impl Convert<u32> for u32 {
    open spec fn convert_spec(&self) -> u32 {
        *self
    }

    fn convert(&self) -> (r: u32) {
        *self
    }
}

impl Convert<u64> for u64 {
    open spec fn convert_spec(&self) -> u64 {
        *self
    }

    fn convert(&self) -> (r: u64) {
        *self
    }
}

impl Convert<i8> for i8 {
    open spec fn convert_spec(&self) -> i8 {
        *self
    }

    fn convert(&self) -> (r: i8) {
        *self
    }
}

impl Convert<i16> for i16 {
    open spec fn convert_spec(&self) -> i16 {
        *self
    }

    fn convert(&self) -> (r: i16) {
        *self
    }
}

impl Convert<i32> for i32 {
    open spec fn convert_spec(&self) -> i32 {
        *self
    }

    fn convert(&self) -> (r: i32) {
        *self
    }
}

impl Convert<i64> for i64 {
    open spec fn convert_spec(&self) -> i64 {
        *self
    }

    fn convert(&self) -> (r: i64) {
        *self
    }
}

impl Convert<i8> for i16 {
    open spec fn convert_spec(&self) -> i8 {
        if *self < i8::MIN as i16 {
            i8::MIN
        } else if *self <= i8::MAX as i16 {
            *self as i8
        } else {
            i8::MAX
        }
    }

    fn convert(&self) -> (r: i8) {
        if *self < i8::MIN as i16 {
            i8::MIN
        } else if *self <= i8::MAX as i16 {
            *self as i8
        } else {
            i8::MAX
        }
    }
}

impl Convert<i8> for i32 {
    open spec fn convert_spec(&self) -> i8 {
        if *self < i8::MIN as i32 {
            i8::MIN
        } else if *self <= i8::MAX as i32 {
            *self as i8
        } else {
            i8::MAX
        }
    }

    fn convert(&self) -> (r: i8) {
        if *self < i8::MIN as i32 {
            i8::MIN
        } else if *self <= i8::MAX as i32 {
            *self as i8
        } else {
            i8::MAX
        }
    }
}

impl Convert<i16> for i32 {
    open spec fn convert_spec(&self) -> i16 {
        if *self < i16::MIN as i32 {
            i16::MIN
        } else if *self <= i16::MAX as i32 {
            *self as i16
        } else {
            i16::MAX
        }
    }

    fn convert(&self) -> (r: i16) {
        if *self < i16::MIN as i32 {
            i16::MIN
        } else if *self <= i16::MAX as i32 {
            *self as i16
        } else {
            i16::MAX
        }
    }
}

impl Convert<i8> for i64 {
    open spec fn convert_spec(&self) -> i8 {
        if *self < i8::MIN as i64 {
            i8::MIN
        } else if *self <= i8::MAX as i64 {
            *self as i8
        } else {
            i8::MAX
        }
    }

    fn convert(&self) -> (r: i8) {
        if *self < i8::MIN as i64 {
            i8::MIN
        } else if *self <= i8::MAX as i64 {
            *self as i8
        } else {
            i8::MAX
        }
    }
}

impl Convert<i16> for i64 {
    open spec fn convert_spec(&self) -> i16 {
        if *self < i16::MIN as i64 {
            i16::MIN
        } else if *self <= i16::MAX as i64 {
            *self as i16
        } else {
            i16::MAX
        }
    }

    fn convert(&self) -> (r: i16) {
        if *self < i16::MIN as i64 {
            i16::MIN
        } else if *self <= i16::MAX as i64 {
            *self as i16
        } else {
            i16::MAX
        }
    }
}

impl Convert<i32> for i64 {
    open spec fn convert_spec(&self) -> i32 {
        if *self < i32::MIN as i64 {
            i32::MIN
        } else if *self <= i32::MAX as i64 {
            *self as i32
        } else {
            i32::MAX
        }
    }

    fn convert(&self) -> (r: i32) {
        if *self < i32::MIN as i64 {
            i32::MIN
        } else if *self <= i32::MAX as i64 {
            *self as i32
        } else {
            i32::MAX
        }
    }
}

impl Convert<u8> for u16 {
    open spec fn convert_spec(&self) -> u8 {
        if *self <= u8::MAX as u16 {
            *self as u8
        } else {
            u8::MAX
        }
    }

    fn convert(&self) -> (r: u8) {
        if *self <= u8::MAX as u16 {
            *self as u8
        } else {
            u8::MAX
        }
    }
}

impl Convert<u8> for u32 {
    open spec fn convert_spec(&self) -> u8 {
        if *self <= u8::MAX as u32 {
            *self as u8
        } else {
            u8::MAX
        }
    }

    fn convert(&self) -> (r: u8) {
        if *self <= u8::MAX as u32 {
            *self as u8
        } else {
            u8::MAX
        }
    }
}

impl Convert<u16> for u32 {
    open spec fn convert_spec(&self) -> u16 {
        if *self <= u16::MAX as u32 {
            *self as u16
        } else {
            u16::MAX
        }
    }

    fn convert(&self) -> (r: u16) {
        if *self <= u16::MAX as u32 {
            *self as u16
        } else {
            u16::MAX
        }
    }
}

impl Convert<u8> for u64 {
    open spec fn convert_spec(&self) -> u8 {
        if *self <= u8::MAX as u64 {
            *self as u8
        } else {
            u8::MAX
        }
    }

    fn convert(&self) -> (r: u8) {
        if *self <= u8::MAX as u64 {
            *self as u8
        } else {
            u8::MAX
        }
    }
}

impl Convert<u16> for u64 {
    open spec fn convert_spec(&self) -> u16 {
        if *self <= u16::MAX as u64 {
            *self as u16
        } else {
            u16::MAX
        }
    }

    fn convert(&self) -> (r: u16) {
        if *self <= u16::MAX as u64 {
            *self as u16
        } else {
            u16::MAX
        }
    }
}

impl Convert<u32> for u64 {
    open spec fn convert_spec(&self) -> u32 {
        if *self <= u32::MAX as u64 {
            *self as u32
        } else {
            u32::MAX
        }
    }

    fn convert(&self) -> (r: u32) {
        if *self <= u32::MAX as u64 {
            *self as u32
        } else {
            u32::MAX
        }
    }
}

impl Convert<i16> for i8 {
    open spec fn convert_spec(&self) -> i16 {
        *self as i16
    }

    fn convert(&self) -> (r: i16) {
        *self as i16
    }
}

impl Convert<i32> for i8 {
    open spec fn convert_spec(&self) -> i32 {
        *self as i32
    }

    fn convert(&self) -> (r: i32) {
        *self as i32
    }
}

impl Convert<i64> for i8 {
    open spec fn convert_spec(&self) -> i64 {
        *self as i64
    }

    fn convert(&self) -> (r: i64) {
        *self as i64
    }
}

impl Convert<i32> for i16 {
    open spec fn convert_spec(&self) -> i32 {
        *self as i32
    }

    fn convert(&self) -> (r: i32) {
        *self as i32
    }
}

impl Convert<i64> for i16 {
    open spec fn convert_spec(&self) -> i64 {
        *self as i64
    }

    fn convert(&self) -> (r: i64) {
        *self as i64
    }
}

impl Convert<i64> for i32 {
    open spec fn convert_spec(&self) -> i64 {
        *self as i64
    }

    fn convert(&self) -> (r: i64) {
        *self as i64
    }
}

impl Convert<u16> for u8 {
    open spec fn convert_spec(&self) -> u16 {
        *self as u16
    }

    fn convert(&self) -> (r: u16) {
        *self as u16
    }
}

impl Convert<u32> for u8 {
    open spec fn convert_spec(&self) -> u32 {
        *self as u32
    }

    fn convert(&self) -> (r: u32) {
        *self as u32
    }
}

impl Convert<u64> for u8 {
    open spec fn convert_spec(&self) -> u64 {
        *self as u64
    }

    fn convert(&self) -> (r: u64) {
        *self as u64
    }
}

impl Convert<u32> for u16 {
    open spec fn convert_spec(&self) -> u32 {
        *self as u32
    }

    fn convert(&self) -> (r: u32) {
        *self as u32
    }
}

impl Convert<u64> for u16 {
    open spec fn convert_spec(&self) -> u64 {
        *self as u64
    }

    fn convert(&self) -> (r: u64) {
        *self as u64
    }
}

impl Convert<u64> for u32 {
    open spec fn convert_spec(&self) -> u64 {
        *self as u64
    }

    fn convert(&self) -> (r: u64) {
        *self as u64
    }
}

impl Convert<u8> for i8 {
    open spec fn convert_spec(&self) -> u8 {
        ((*self as int) + 128) as u8
    }

    fn convert(&self) -> (r: u8) {
        (((*self as i16) + 128) as u8)
    }
}

impl Convert<u16> for i16 {
    open spec fn convert_spec(&self) -> u16 {
        ((*self as int) + 32768) as u16
    }

    fn convert(&self) -> (r: u16) {
        (((*self as i32) + 32768) as u16)
    }
}

impl Convert<u32> for i32 {
    open spec fn convert_spec(&self) -> u32 {
        ((*self as int) + 2147483648) as u32
    }

    fn convert(&self) -> (r: u32) {
        (((*self as i64) + 2147483648) as u32)
    }
}

impl Convert<u64> for i64 {
    open spec fn convert_spec(&self) -> u64 {
        ((*self as int) + 9223372036854775808) as u64
    }

    fn convert(&self) -> (r: u64) {
        if *self >= 0 {
            (*self as u64) + 9223372036854775808
        } else {
            (*self - i64::MIN) as u64
        }
    }
}

impl Convert<i8> for u8 {
    open spec fn convert_spec(&self) -> i8 {
        ((*self as int) - 128) as i8
    }

    fn convert(&self) -> (r: i8) {
        (((*self as i16) - 128) as i8)
    }
}

impl Convert<i16> for u16 {
    open spec fn convert_spec(&self) -> i16 {
        ((*self as int) - 32768) as i16
    }

    fn convert(&self) -> (r: i16) {
        (((*self as i32) - 32768) as i16)
    }
}

impl Convert<i32> for u32 {
    open spec fn convert_spec(&self) -> i32 {
        ((*self as int) - 2147483648) as i32
    }

    fn convert(&self) -> (r: i32) {
        (((*self as i64) - 2147483648) as i32)
    }
}

impl Convert<i64> for u64 {
    open spec fn convert_spec(&self) -> i64 {
        ((*self as int) - 9223372036854775808) as i64
    }

    fn convert(&self) -> (r: i64) {
        if *self >= 9223372036854775808 {
            (*self - 9223372036854775808) as i64
        } else if *self == 0 {
            i64::MIN
        } else {
            -((9223372036854775808u64 - *self) as i64)
        }
    }
}

impl Convert<i16> for u8 {
    open spec fn convert_spec(&self) -> i16 {
        ((*self as int) - 128) as i16
    }

    fn convert(&self) -> (r: i16) {
        (((*self as i16) - 128) as i16)
    }
}

impl Convert<i32> for u8 {
    open spec fn convert_spec(&self) -> i32 {
        ((*self as int) - 128) as i32
    }

    fn convert(&self) -> (r: i32) {
        (((*self as i16) - 128) as i32)
    }
}

impl Convert<i64> for u8 {
    open spec fn convert_spec(&self) -> i64 {
        ((*self as int) - 128) as i64
    }

    fn convert(&self) -> (r: i64) {
        (((*self as i16) - 128) as i64)
    }
}

impl Convert<i32> for u16 {
    open spec fn convert_spec(&self) -> i32 {
        ((*self as int) - 32768) as i32
    }

    fn convert(&self) -> (r: i32) {
        (((*self as i32) - 32768) as i32)
    }
}

impl Convert<i64> for u16 {
    open spec fn convert_spec(&self) -> i64 {
        ((*self as int) - 32768) as i64
    }

    fn convert(&self) -> (r: i64) {
        (((*self as i32) - 32768) as i64)
    }
}

impl Convert<i64> for u32 {
    open spec fn convert_spec(&self) -> i64 {
        ((*self as int) - 2147483648) as i64
    }

    fn convert(&self) -> (r: i64) {
        (((*self as i64) - 2147483648) as i64)
    }
}

impl Convert<u16> for i8 {
    open spec fn convert_spec(&self) -> u16 {
        ((*self as int) + 128) as u16
    }

    fn convert(&self) -> (r: u16) {
        (((*self as i16) + 128) as u16)
    }
}

impl Convert<u32> for i8 {
    open spec fn convert_spec(&self) -> u32 {
        ((*self as int) + 128) as u32
    }

    fn convert(&self) -> (r: u32) {
        (((*self as i16) + 128) as u32)
    }
}

impl Convert<u64> for i8 {
    open spec fn convert_spec(&self) -> u64 {
        ((*self as int) + 128) as u64
    }

    fn convert(&self) -> (r: u64) {
        (((*self as i16) + 128) as u64)
    }
}

impl Convert<u32> for i16 {
    open spec fn convert_spec(&self) -> u32 {
        ((*self as int) + 32768) as u32
    }

    fn convert(&self) -> (r: u32) {
        (((*self as i32) + 32768) as u32)
    }
}

impl Convert<u64> for i16 {
    open spec fn convert_spec(&self) -> u64 {
        ((*self as int) + 32768) as u64
    }

    fn convert(&self) -> (r: u64) {
        (((*self as i32) + 32768) as u64)
    }
}

impl Convert<u64> for i32 {
    open spec fn convert_spec(&self) -> u64 {
        ((*self as int) + 2147483648) as u64
    }

    fn convert(&self) -> (r: u64) {
        (((*self as i64) + 2147483648) as u64)
    }
}

impl Convert<u8> for i16 {
    open spec fn convert_spec(&self) -> u8 {
        {
            let b = (*self as int) + 32768;
            if b <= u8::MAX as int {
                b as u8
            } else {
                u8::MAX
            }
        }
    }

    fn convert(&self) -> (r: u8) {
        {
            let b: u16 = Convert::<u16>::convert(self);
            Convert::<u8>::convert(&b)
        }
    }
}

impl Convert<u8> for i32 {
    open spec fn convert_spec(&self) -> u8 {
        {
            let b = (*self as int) + 2147483648;
            if b <= u8::MAX as int {
                b as u8
            } else {
                u8::MAX
            }
        }
    }

    fn convert(&self) -> (r: u8) {
        {
            let b: u32 = Convert::<u32>::convert(self);
            Convert::<u8>::convert(&b)
        }
    }
}

impl Convert<u16> for i32 {
    open spec fn convert_spec(&self) -> u16 {
        {
            let b = (*self as int) + 2147483648;
            if b <= u16::MAX as int {
                b as u16
            } else {
                u16::MAX
            }
        }
    }

    fn convert(&self) -> (r: u16) {
        {
            let b: u32 = Convert::<u32>::convert(self);
            Convert::<u16>::convert(&b)
        }
    }
}

impl Convert<u8> for i64 {
    open spec fn convert_spec(&self) -> u8 {
        {
            let b = (*self as int) + 9223372036854775808;
            if b <= u8::MAX as int {
                b as u8
            } else {
                u8::MAX
            }
        }
    }

    fn convert(&self) -> (r: u8) {
        {
            let b: u64 = Convert::<u64>::convert(self);
            Convert::<u8>::convert(&b)
        }
    }
}

impl Convert<u16> for i64 {
    open spec fn convert_spec(&self) -> u16 {
        {
            let b = (*self as int) + 9223372036854775808;
            if b <= u16::MAX as int {
                b as u16
            } else {
                u16::MAX
            }
        }
    }

    fn convert(&self) -> (r: u16) {
        {
            let b: u64 = Convert::<u64>::convert(self);
            Convert::<u16>::convert(&b)
        }
    }
}

impl Convert<u32> for i64 {
    open spec fn convert_spec(&self) -> u32 {
        {
            let b = (*self as int) + 9223372036854775808;
            if b <= u32::MAX as int {
                b as u32
            } else {
                u32::MAX
            }
        }
    }

    fn convert(&self) -> (r: u32) {
        {
            let b: u64 = Convert::<u64>::convert(self);
            Convert::<u32>::convert(&b)
        }
    }
}

impl Convert<i8> for u16 {
    open spec fn convert_spec(&self) -> i8 {
        {
            let b = (*self as int) - 32768;
            if b < i8::MIN as int {
                i8::MIN
            } else if b <= i8::MAX as int {
                b as i8
            } else {
                i8::MAX
            }
        }
    }

    fn convert(&self) -> (r: i8) {
        {
            let b: i16 = Convert::<i16>::convert(self);
            Convert::<i8>::convert(&b)
        }
    }
}

impl Convert<i8> for u32 {
    open spec fn convert_spec(&self) -> i8 {
        {
            let b = (*self as int) - 2147483648;
            if b < i8::MIN as int {
                i8::MIN
            } else if b <= i8::MAX as int {
                b as i8
            } else {
                i8::MAX
            }
        }
    }

    fn convert(&self) -> (r: i8) {
        {
            let b: i32 = Convert::<i32>::convert(self);
            Convert::<i8>::convert(&b)
        }
    }
}

impl Convert<i16> for u32 {
    open spec fn convert_spec(&self) -> i16 {
        {
            let b = (*self as int) - 2147483648;
            if b < i16::MIN as int {
                i16::MIN
            } else if b <= i16::MAX as int {
                b as i16
            } else {
                i16::MAX
            }
        }
    }

    fn convert(&self) -> (r: i16) {
        {
            let b: i32 = Convert::<i32>::convert(self);
            Convert::<i16>::convert(&b)
        }
    }
}

impl Convert<i8> for u64 {
    open spec fn convert_spec(&self) -> i8 {
        {
            let b = (*self as int) - 9223372036854775808;
            if b < i8::MIN as int {
                i8::MIN
            } else if b <= i8::MAX as int {
                b as i8
            } else {
                i8::MAX
            }
        }
    }

    fn convert(&self) -> (r: i8) {
        {
            let b: i64 = Convert::<i64>::convert(self);
            Convert::<i8>::convert(&b)
        }
    }
}

impl Convert<i16> for u64 {
    open spec fn convert_spec(&self) -> i16 {
        {
            let b = (*self as int) - 9223372036854775808;
            if b < i16::MIN as int {
                i16::MIN
            } else if b <= i16::MAX as int {
                b as i16
            } else {
                i16::MAX
            }
        }
    }

    fn convert(&self) -> (r: i16) {
        {
            let b: i64 = Convert::<i64>::convert(self);
            Convert::<i16>::convert(&b)
        }
    }
}

impl Convert<i32> for u64 {
    open spec fn convert_spec(&self) -> i32 {
        {
            let b = (*self as int) - 9223372036854775808;
            if b < i32::MIN as int {
                i32::MIN
            } else if b <= i32::MAX as int {
                b as i32
            } else {
                i32::MAX
            }
        }
    }

    fn convert(&self) -> (r: i32) {
        {
            let b: i64 = Convert::<i64>::convert(self);
            Convert::<i32>::convert(&b)
        }
    }
}

} // verus!
