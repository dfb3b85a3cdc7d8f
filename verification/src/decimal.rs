//! Unsigned decimal numbers as ASCII text: what a job id looks like on the
//! wire, in both directions.
use vstd::prelude::*;

verus! {

/// `b` is one of the ASCII digits `0` to `9`.
pub open spec fn is_digit(b: u8) -> bool {
    '0' as u8 <= b <= '9' as u8
}

/// The number that the digit `b` stands for; 0 where `b` is no digit.
pub open spec fn digit_value(b: u8) -> nat {
    if is_digit(b) {
        (b - '0' as u8) as nat
    } else {
        0
    }
}

/// Every byte of `s` is a digit.
pub open spec fn all_digits(s: Seq<u8>) -> bool {
    forall|i: int| 0 <= i < s.len() ==> is_digit(#[trigger] s[i])
}

/// The number that a run of digits denotes, most significant digit first.
/// Leading zeros count for nothing, and the empty run denotes 0.
pub open spec fn decimal_value(s: Seq<u8>) -> nat
    decreases s.len(),
{
    if s.len() == 0 {
        0
    } else {
        decimal_value(s.drop_last()) * 10 + digit_value(s.last())
    }
}

/// `s` is the text of a number that fits in 64 bits.
pub open spec fn is_u64_text(s: Seq<u8>) -> bool {
    all_digits(s) && decimal_value(s) <= u64::MAX
}

/// The shortest decimal text of `n`: no leading zeros, and `0` for zero.
pub open spec fn decimal_text(n: nat) -> Seq<u8>
    decreases n,
{
    if n < 10 {
        seq![('0' as u8 + n) as u8]
    } else {
        decimal_text(n / 10).push(('0' as u8 + n % 10) as u8)
    }
}

/// A longer run of digits denotes no smaller number than any of its prefixes.
pub proof fn lemma_value_grows_with_length(s: Seq<u8>, i: int)
    requires
        0 <= i <= s.len(),
    ensures
        decimal_value(s.take(i)) <= decimal_value(s),
    decreases s.len(),
{
    if i == s.len() {
        assert(s.take(i) =~= s);
    } else {
        lemma_value_grows_with_length(s.drop_last(), i);
        assert(s.drop_last().take(i) =~= s.take(i));
    }
}

/// Text written by `decimal_text` is read back by `decimal_value` as the same
/// number; it is made of digits, is not empty, and starts with `0` only for
/// zero itself.
pub proof fn lemma_text_round_trip(n: nat)
    ensures
        all_digits(decimal_text(n)),
        decimal_value(decimal_text(n)) == n,
        decimal_text(n).len() >= 1,
        n > 0 ==> decimal_text(n)[0] != '0' as u8,
    decreases n,
{
    if n < 10 {
        let s = decimal_text(n);
        assert(s.drop_last() =~= Seq::<u8>::empty());
        assert(decimal_value(s.drop_last()) == 0);
    } else {
        lemma_text_round_trip(n / 10);
        let s = decimal_text(n);
        assert(s.drop_last() =~= decimal_text(n / 10));
        assert(s[0] == decimal_text(n / 10)[0]);
    }
}

/// Reads a run of digits as a `u64`. The answer is `None` where some byte is
/// no digit or the number does not fit.
pub fn parse_decimal(text: &[u8]) -> (r: Option<u64>)
    ensures
        r is Some <==> is_u64_text(text@),
        r matches Some(v) ==> v == decimal_value(text@),
{
    let mut value: u64 = 0;
    let mut i: usize = 0;
    while i < text.len()
        invariant
            i <= text@.len(),
            all_digits(text@.take(i as int)),
            value == decimal_value(text@.take(i as int)),
        decreases text@.len() - i,
    {
        let b: u8 = text[i];
        if b < 0x30 || b > 0x39 {
            assert(!is_digit(text@[i as int]));
            return None;
        }
        let digit: u64 = (b - 0x30) as u64;
        assert(text@.take(i + 1).drop_last() =~= text@.take(i as int));
        if value > (u64::MAX - digit) / 10 {
            proof {
                lemma_value_grows_with_length(text@, i + 1);
            }
            return None;
        }
        value = value * 10 + digit;
        i += 1;
    }
    assert(text@.take(i as int) =~= text@);
    Some(value)
}

/// Appends the decimal text of `n` to `out`.
pub fn push_decimal(out: &mut Vec<u8>, n: u64)
    ensures
        final(out)@ == old(out)@ + decimal_text(n as nat),
    decreases n,
{
    if n >= 10 {
        push_decimal(out, n / 10);
    }
    out.push(0x30 + (n % 10) as u8);
    assert(final(out)@ =~= old(out)@ + decimal_text(n as nat));
}

} // verus!
