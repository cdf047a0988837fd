//! The keyboard-backlight arithmetic: the cycle step, the saved-level
//! bookkeeping around tablet mode, and the decimal form the brightness
//! files use.
//!
//! Reading and writing the brightness files is the caller's business;
//! these functions decide what level to write.

use vstd::prelude::*;
use vstd::string::StringSliceAdditionalSpecFns;

use crate::Error;
use crate::state::trim_back;
use crate::state::trim_front;

verus! {

/// One step of the brightness cycle: up by one until the maximum, then
/// back around to zero.
pub fn next_brightness(current: u32, max: u32) -> (r: u32)
    ensures
        r == (if current < max {
            current + 1
        } else {
            0int
        }),
{
    if current < max {
        current + 1
    } else {
        0
    }
}

/// The backlight bookkeeping around tablet mode: the level that was on
/// before the backlight was forced off, so that leaving tablet mode can
/// restore it. Held explicitly and passed in by the owner.
#[derive(Clone, Copy, Debug, PartialEq, Eq, Structural)]
pub struct BacklightState {
    pub saved_value: Option<u32>,
}

impl BacklightState {
    pub fn new() -> (r: BacklightState)
        ensures
            r.saved_value is None,
    {
        BacklightState { saved_value: None }
    }

    /// Entering tablet mode: remembers `current` unless a level is
    /// already saved, and asks for the backlight to be turned off.
    pub fn enter_tablet_mode(&mut self, current: u32) -> (set_to: Option<u32>)
        ensures
            final(self).saved_value == (if old(self).saved_value is None {
                Some(current)
            } else {
                old(self).saved_value
            }),
            set_to == Some(0u32),
    {
        if self.saved_value.is_none() {
            self.saved_value = Some(current);
        }
        Some(0)
    }

    /// Leaving tablet mode: asks for the saved level back and forgets
    /// it; with nothing saved, nothing is written.
    pub fn leave_tablet_mode(&mut self) -> (set_to: Option<u32>)
        ensures
            final(self).saved_value is None,
            set_to == old(self).saved_value,
    {
        let r = self.saved_value;
        self.saved_value = None;
        r
    }
}

/// The number a run of decimal digits denotes, read from the left.
pub open spec fn decimal_value(digits: Seq<u8>) -> int
    decreases digits.len(),
{
    if digits.len() == 0 {
        0
    } else {
        decimal_value(digits.drop_last()) * 10 + (digits.last() - 48)
    }
}

/// Whether every byte is a decimal digit.
pub open spec fn all_digits(digits: Seq<u8>) -> bool {
    forall|i: int| 0 <= i < digits.len() ==> 48 <= #[trigger] digits[i] <= 57
}

/// What `parse_brightness` accepts: the text is, under surrounding
/// whitespace, a nonempty run of decimal digits whose value fits a
/// `u32`.
pub open spec fn brightness_spec(bytes: Seq<u8>) -> Option<u32> {
    let t = trim_back(trim_front(bytes));
    if t.len() > 0 && all_digits(t) && decimal_value(t) <= u32::MAX {
        Some(decimal_value(t) as u32)
    } else {
        None
    }
}

/// Reads a brightness level as the sysfs files print it: a decimal
/// number under surrounding whitespace. Fails with `ParseError` on
/// anything else, including a value too large for a `u32`.
pub fn parse_brightness(contents: &str) -> (r: Result<u32, Error>)
    ensures
        brightness_spec(contents.spec_bytes()) matches Some(v) ==> r == Ok::<u32, Error>(v),
        brightness_spec(contents.spec_bytes()) is None ==> r == Err::<u32, Error>(Error::ParseError),
{
    let bytes = contents.as_bytes();
    let n = bytes.len();
    proof {
        assert(bytes@.skip(0) =~= bytes@);
    }
    let mut lo: usize = 0;
    while lo < n && is_ws_byte(bytes[lo])
        invariant
            n == bytes@.len(),
            0 <= lo <= n,
            trim_front(bytes@) == trim_front(bytes@.skip(lo as int)),
        decreases n - lo,
    {
        proof {
            assert(bytes@.skip(lo as int).drop_first() =~= bytes@.skip(lo + 1));
        }
        lo += 1;
    }
    proof {
        assert(bytes@.skip(lo as int).len() > 0 ==> bytes@.skip(lo as int).first() == bytes@[
            lo as int
        ]);
        assert(trim_front(bytes@) == bytes@.skip(lo as int));
    }
    let mut hi: usize = n;
    proof {
        assert(bytes@.skip(lo as int).take(n - lo as int) =~= bytes@.skip(lo as int));
    }
    while hi > lo && is_ws_byte(bytes[hi - 1])
        invariant
            n == bytes@.len(),
            0 <= lo <= hi <= n,
            trim_front(bytes@) == bytes@.skip(lo as int),
            trim_back(bytes@.skip(lo as int)) == trim_back(
                bytes@.skip(lo as int).take(hi - lo as int),
            ),
        decreases hi,
    {
        proof {
            assert(bytes@.skip(lo as int).take(hi - lo as int).last() == bytes@[hi - 1]);
            assert(bytes@.skip(lo as int).take(hi - lo as int).drop_last() =~= bytes@.skip(
                lo as int,
            ).take(hi - 1 - lo as int));
        }
        hi -= 1;
    }
    let ghost t = bytes@.skip(lo as int).take(hi - lo as int);
    proof {
        assert(t.len() > 0 ==> t.last() == bytes@[hi - 1]);
        assert(trim_back(trim_front(bytes@)) == t);
    }
    if lo == hi {
        return Err(Error::ParseError);
    }
    let mut value: u32 = 0;
    let mut k: usize = lo;
    while k < hi
        invariant
            n == bytes@.len(),
            bytes@ == contents.spec_bytes(),
            0 <= lo <= k <= hi <= n,
            lo < hi,
            t == bytes@.skip(lo as int).take(hi - lo as int),
            t == trim_back(trim_front(bytes@)),
            all_digits(t.take(k - lo as int)),
            value == decimal_value(t.take(k - lo as int)),
        decreases hi - k,
    {
        let b = bytes[k];
        proof {
            assert(t.take(k + 1 - lo as int).drop_last() =~= t.take(k - lo as int));
            assert(t.take(k + 1 - lo as int).last() == bytes@[k as int]);
        }
        if b < 48 || b > 57 {
            proof {
                assert(t[k - lo as int] == bytes@[k as int]);
                assert(!all_digits(t));
            }
            return Err(Error::ParseError);
        }
        let digit = (b - 48) as u32;
        if value > (u32::MAX - digit) / 10 {
            proof {
                assert(decimal_value(t.take(k + 1 - lo as int)) > u32::MAX);
                if all_digits(t) {
                    lemma_decimal_value_prefix_overflow(t, k + 1 - lo as int);
                }
            }
            return Err(Error::ParseError);
        }
        value = value * 10 + digit;
        k += 1;
    }
    proof {
        assert(t.take(hi - lo as int) =~= t);
    }
    Ok(value)
}

/// Executable twin of `crate::state::is_ws`.
fn is_ws_byte(b: u8) -> (r: bool)
    ensures
        r == crate::state::is_ws(b),
{
    b == 32 || b == 9 || b == 10 || b == 13
}

/// A decimal run whose prefix already exceeds `u32::MAX` denotes a value
/// beyond it too.
proof fn lemma_decimal_value_prefix_overflow(digits: Seq<u8>, p: int)
    requires
        0 <= p <= digits.len(),
        all_digits(digits),
        decimal_value(digits.take(p)) > u32::MAX,
    ensures
        decimal_value(digits) > u32::MAX,
    decreases digits.len() - p,
{
    if p < digits.len() {
        assert(digits.take(p + 1).drop_last() =~= digits.take(p));
        assert(digits.take(p + 1).last() == digits[p]);
        assert(decimal_value(digits.take(p + 1)) == decimal_value(digits.take(p)) * 10 + (
        digits[p] - 48));
        lemma_decimal_value_prefix_overflow(digits, p + 1);
    } else {
        assert(digits.take(p) =~= digits);
    }
}

} // verus!
