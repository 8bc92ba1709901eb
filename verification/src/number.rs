//! Decimal numbers as they are written in bytes.

use vstd::prelude::*;

verus! {

/// The byte of `+`.
pub const PLUS: u8 = 43;

/// The byte of `-`.
pub const MINUS: u8 = 45;

/// The byte of `0`.
pub const ZERO: u8 = 48;

/// The byte of `9`.
pub const NINE: u8 = 57;

/// The byte is one of the ten decimal digits.
pub open spec fn is_digit(b: u8) -> bool {
    ZERO <= b <= NINE
}

/// Every byte is a decimal digit.
pub open spec fn all_digits(s: Seq<u8>) -> bool {
    forall|i: int| 0 <= i < s.len() ==> is_digit(#[trigger] s[i])
}

/// The number that a run of decimal digits writes down.
pub open spec fn decimal(s: Seq<u8>) -> nat
    decreases s.len(),
{
    if s.len() == 0 {
        0
    } else {
        decimal(s.drop_last()) * 10 + (s.last() - ZERO) as nat
    }
}

/// What follows the sign, where a sign is allowed and present.
pub open spec fn after_sign(s: Seq<u8>, minus_allowed: bool) -> Seq<u8> {
    if s.len() > 0 && (s[0] == PLUS || (minus_allowed && s[0] == MINUS)) {
        s.skip(1)
    } else {
        s
    }
}

/// The unsigned 32-bit number that `s` writes down: an optional `+` and
/// at least one digit, and nothing else. `None` where `s` is written
/// otherwise or the number is too large.
pub open spec fn u32_value(s: Seq<u8>) -> Option<u32> {
    let digits = after_sign(s, false);
    if digits.len() > 0 && all_digits(digits) && decimal(digits) <= u32::MAX {
        Some(decimal(digits) as u32)
    } else {
        None
    }
}

/// The signed 64-bit number that `s` writes down: an optional `+` or
/// `-` and at least one digit, and nothing else. `None` where `s` is
/// written otherwise or the number is out of range.
pub open spec fn i64_value(s: Seq<u8>) -> Option<i64> {
    let digits = after_sign(s, true);
    let value: int = if s.len() > 0 && s[0] == MINUS {
        -(decimal(digits) as int)
    } else {
        decimal(digits) as int
    };
    if digits.len() > 0 && all_digits(digits) && i64::MIN <= value <= i64::MAX {
        Some(value as i64)
    } else {
        None
    }
}

/// The smaller of two numbers.
pub open spec fn at_most(value: nat, cap: nat) -> nat {
    if value <= cap {
        value
    } else {
        cap
    }
}

/// Reads the digits of `bytes` from `from` up to `to`, and stops counting
/// at `cap`.
fn read_digits(bytes: &[u8], from: usize, to: usize, cap: u64) -> (res: Option<u64>)
    requires
        from <= to <= bytes@.len(),
    ensures
        res is Some <==> all_digits(bytes@.subrange(from as int, to as int)),
        res matches Some(v) ==> v == at_most(
            decimal(bytes@.subrange(from as int, to as int)),
            cap as nat,
        ),
{
    let mut value: u64 = 0;
    let mut i: usize = from;
    proof {
        assert(bytes@.subrange(from as int, from as int) == Seq::<u8>::empty());
    }
    while i < to
        invariant
            from <= i <= to <= bytes@.len(),
            all_digits(bytes@.subrange(from as int, i as int)),
            value == at_most(decimal(bytes@.subrange(from as int, i as int)), cap as nat),
        decreases to - i,
    {
        let b = bytes[i];
        let ghost read = bytes@.subrange(from as int, i as int);
        let ghost next = bytes@.subrange(from as int, i + 1);
        proof {
            assert(next.drop_last() == read);
            assert(next.last() == b);
        }
        if b < ZERO || b > NINE {
            proof {
                assert(!is_digit(next[i - from]));
                let whole = bytes@.subrange(from as int, to as int);
                assert(whole[i - from] == b);
            }
            return None;
        }
        let wide: u128 = value as u128 * 10 + (b - ZERO) as u128;
        value = if wide > cap as u128 {
            cap
        } else {
            wide as u64
        };
        proof {
            assert forall|j: int| 0 <= j < next.len() implies is_digit(#[trigger] next[j]) by {
                if j < read.len() {
                    assert(next[j] == read[j]);
                }
            }
        }
        i += 1;
    }
    Some(value)
}

/// Reads an unsigned 32-bit number from the bytes of `bytes` from `from`
/// up to `to`.
pub fn parse_u32(bytes: &[u8], from: usize, to: usize) -> (res: Option<u32>)
    requires
        from <= to <= bytes@.len(),
    ensures
        res == u32_value(bytes@.subrange(from as int, to as int)),
{
    let ghost s = bytes@.subrange(from as int, to as int);
    let start = if from < to && bytes[from] == PLUS {
        from + 1
    } else {
        from
    };
    proof {
        assert(from < to ==> s[0] == bytes@[from as int]);
        assert(bytes@.subrange(start as int, to as int) == after_sign(s, false));
    }
    if start == to {
        return None;
    }
    match read_digits(bytes, start, to, 0x1_0000_0000) {
        Some(v) => if v <= 0xffff_ffff {
            Some(v as u32)
        } else {
            None
        },
        None => None,
    }
}

/// Reads a signed 64-bit number from `bytes`.
pub fn parse_i64(bytes: &[u8]) -> (res: Option<i64>)
    ensures
        res == i64_value(bytes@),
{
    let len = bytes.len();
    let negative = len > 0 && bytes[0] == MINUS;
    let start: usize = if len > 0 && (bytes[0] == PLUS || bytes[0] == MINUS) {
        1
    } else {
        0
    };
    proof {
        assert(bytes@.subrange(0, len as int) == bytes@);
        assert(bytes@.subrange(start as int, len as int) == after_sign(bytes@, true));
    }
    if start == len {
        return None;
    }
    match read_digits(bytes, start, len, 0x8000_0000_0000_0001) {
        Some(v) => if negative {
            if v <= 0x8000_0000_0000_0000 {
                Some((0 - v as i128) as i64)
            } else {
                None
            }
        } else {
            if v <= 0x7fff_ffff_ffff_ffff {
                Some(v as i64)
            } else {
                None
            }
        },
        None => None,
    }
}

} // verus!
