//! Reading an unsigned decimal number from bytes.

use vstd::prelude::*;

verus! {

/// Whether `b` is one of the ASCII digits `0` to `9`.
pub open spec fn is_digit(b: u8) -> bool {
    0x30 <= b <= 0x39
}

/// Whether every byte of `s` is an ASCII digit.
pub open spec fn all_digits(s: Seq<u8>) -> bool {
    forall|i: int| 0 <= i < s.len() ==> is_digit(#[trigger] s[i])
}

/// The number that the digits of `s` write in base ten.
pub open spec fn decimal_value(s: Seq<u8>) -> nat
    decreases s.len(),
{
    if s.len() == 0 {
        0
    } else {
        decimal_value(s.drop_last()) * 10 + (s.last() - 0x30) as nat
    }
}

/// The digits of a number: the text without a plus sign in front of it.
pub open spec fn unsigned_digits(s: Seq<u8>) -> Seq<u8> {
    if s.len() > 0 && s[0] == 0x2b {
        s.drop_first()
    } else {
        s
    }
}

/// The number that `s` writes: an optional plus sign, then one or more
/// digits whose value fits in 64 bits. Any other text writes none.
pub open spec fn spec_parse_u64(s: Seq<u8>) -> Option<u64> {
    let digits = unsigned_digits(s);
    if digits.len() > 0 && all_digits(digits) && decimal_value(digits) <= u64::MAX {
        Some(decimal_value(digits) as u64)
    } else {
        None
    }
}

/// A number is at least as large as the number written by fewer of its
/// leading digits.
pub proof fn lemma_decimal_value_grows(s: Seq<u8>, k: int)
    requires
        all_digits(s),
        0 <= k <= s.len(),
    ensures
        decimal_value(s.subrange(0, k)) <= decimal_value(s),
    decreases s.len() - k,
{
    if k == s.len() {
        assert(s.subrange(0, k) =~= s);
    } else {
        lemma_decimal_value_grows(s, k + 1);
        let longer = s.subrange(0, k + 1);
        assert(longer.drop_last() =~= s.subrange(0, k));
        assert(is_digit(s[k]));
        assert(longer.last() == s[k]);
    }
}

/// Reads an unsigned decimal number.
pub fn parse_u64(s: &[u8]) -> (number: Option<u64>)
    ensures
        number == spec_parse_u64(s@),
{
    let n = s.len();
    let start: usize = if n > 0 && s[0] == 0x2b {
        1
    } else {
        0
    };
    if start == n {
        return None;
    }
    let ghost digits = unsigned_digits(s@);
    assert(digits =~= s@.subrange(start as int, n as int));
    let mut value: u64 = 0;
    let mut i: usize = start;
    while i < n
        invariant
            start <= i <= n,
            n == s.len(),
            digits == unsigned_digits(s@),
            digits == s@.subrange(start as int, n as int),
            all_digits(digits.subrange(0, i - start)),
            value == decimal_value(digits.subrange(0, i - start)),
        decreases n - i,
    {
        let b = s[i];
        if b < 0x30 || b > 0x39 {
            assert(!is_digit(digits[i - start]));
            return None;
        }
        let d: u64 = (b - 0x30) as u64;
        let ghost longer = digits.subrange(0, i + 1 - start);
        assert(longer.drop_last() =~= digits.subrange(0, i - start));
        assert(longer.last() == b);
        assert(decimal_value(longer) == value * 10 + d);
        if value > (u64::MAX - d) / 10 {
            proof {
                if all_digits(digits) {
                    lemma_decimal_value_grows(digits, i + 1 - start);
                }
            }
            return None;
        }
        value = value * 10 + d;
        i = i + 1;
    }
    assert(digits.subrange(0, i - start) =~= digits);
    Some(value)
}

/// The digits that write `n` in base ten, without leading zeros.
pub open spec fn spec_decimal(n: nat) -> Seq<u8>
    decreases n,
{
    if n < 10 {
        seq![(0x30 + n) as u8]
    } else {
        spec_decimal(n / 10).push((0x30 + n % 10) as u8)
    }
}

/// What `spec_decimal` writes is read back as the same number.
pub proof fn lemma_decimal_round_trip(n: nat)
    ensures
        spec_decimal(n).len() > 0,
        all_digits(spec_decimal(n)),
        decimal_value(spec_decimal(n)) == n,
        spec_decimal(n)[0] != 0x2b,
        n <= u64::MAX ==> spec_parse_u64(spec_decimal(n)) == Some(n as u64),
    decreases n,
{
    let digits = spec_decimal(n);
    if n < 10 {
        assert(digits.drop_last() =~= Seq::<u8>::empty());
        assert(decimal_value(digits.drop_last()) == 0);
    } else {
        lemma_decimal_round_trip(n / 10);
        assert(digits.drop_last() =~= spec_decimal(n / 10));
        assert(digits[0] == spec_decimal(n / 10)[0]);
    }
}

/// Appends to `dest` the digits that write `n` in base ten.
pub fn push_decimal(n: usize, dest: &mut Vec<u8>)
    ensures
        final(dest)@ == old(dest)@ + spec_decimal(n as nat),
    decreases n,
{
    if n >= 10 {
        push_decimal(n / 10, dest);
    }
    let digit: u8 = (n % 10) as u8;
    dest.push(0x30 + digit);
    assert(dest@ =~= old(dest)@ + spec_decimal(n as nat));
}

} // verus!
