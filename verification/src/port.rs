//! The control port, which a reply carries as decimal text.

use vstd::prelude::*;

verus! {

/// Whether `b` is an ASCII decimal digit.
pub open spec fn is_digit(b: u8) -> bool {
    0x30 <= b <= 0x39
}

/// Whether every byte of `s` is an ASCII decimal digit.
pub open spec fn all_digits(s: Seq<u8>) -> bool {
    forall|i: int| 0 <= i < s.len() ==> is_digit(#[trigger] s[i])
}

/// The number that the digits `s` write in base ten, most significant first.
pub open spec fn decimal_value(s: Seq<u8>) -> nat
    decreases s.len(),
{
    if s.len() == 0 {
        0
    } else {
        10 * decimal_value(s.drop_last()) + (s.last() - 0x30) as nat
    }
}

/// `s` without the plus sign that may stand in front of the digits.
pub open spec fn without_sign(s: Seq<u8>) -> Seq<u8> {
    if s.len() > 0 && s[0] == 0x2b {
        s.drop_first()
    } else {
        s
    }
}

/// The port that the text `s` denotes: an optional plus sign, then one or
/// more decimal digits whose value fits in sixteen bits. Leading zeros do
/// not count against the range. Anything else denotes no port.
pub open spec fn port_value(s: Seq<u8>) -> Option<u16> {
    let digits = without_sign(s);
    if digits.len() > 0 && all_digits(digits) && decimal_value(digits) <= u16::MAX {
        Some(decimal_value(digits) as u16)
    } else {
        None
    }
}

/// A number written in digits is at least the number that any of its
/// prefixes writes.
pub proof fn lemma_decimal_value_prefix(s: Seq<u8>, k: int)
    requires
        all_digits(s),
        0 <= k <= s.len(),
    ensures
        decimal_value(s.take(k)) <= decimal_value(s),
    decreases s.len(),
{
    if k == s.len() {
        assert(s.take(k) =~= s);
    } else {
        let shorter = s.drop_last();
        assert(shorter.take(k) =~= s.take(k));
        assert(is_digit(s[s.len() - 1]));
        lemma_decimal_value_prefix(shorter, k);
    }
}

/// Reads a port number from the value of a reply entry.
///
/// The value is the port in decimal: `9000` denotes port 9000. A value that
/// is empty, holds anything but digits after an optional plus sign, or
/// denotes a number above 65535 yields `None`; no value is clamped or
/// wrapped.
pub fn parse_port(value: &[u8]) -> (port: Option<u16>)
    ensures
        port == port_value(value@),
{
    let n: usize = value.len();
    let start: usize = if n > 0 && value[0] == 0x2b {
        1
    } else {
        0
    };
    let ghost digits = without_sign(value@);
    assert(digits =~= value@.subrange(start as int, n as int));
    if start == n {
        return None;
    }
    let mut acc: u32 = 0;
    let mut i: usize = start;
    while i < n
        invariant
            n == value.len(),
            start <= i <= n,
            digits == without_sign(value@),
            digits == value@.subrange(start as int, n as int),
            all_digits(digits.take(i - start)),
            acc == decimal_value(digits.take(i - start)),
            acc <= u16::MAX,
        decreases n - i,
    {
        let b: u8 = value[i];
        let ghost before = digits.take(i - start);
        let ghost after = digits.take(i - start + 1);
        assert(after.drop_last() =~= before);
        assert(after.last() == b);
        if b < 0x30 || b > 0x39 {
            assert(!is_digit(digits[i - start]));
            return None;
        }
        acc = acc * 10 + (b - 0x30) as u32;
        if acc > 0xffff {
            proof {
                if all_digits(digits) {
                    lemma_decimal_value_prefix(digits, i - start + 1);
                }
            }
            return None;
        }
        i = i + 1;
    }
    assert(digits.take(i - start) =~= digits);
    Some(acc as u16)
}

} // verus!
