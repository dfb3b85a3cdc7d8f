//! The two recognisers that the decoder is built from. Both are nom's
//! streaming recognisers on byte slices; this module gives each a contract
//! and hands its outcome on as a [`Scan`].
use vstd::prelude::*;

verus! {

/// `b` is an ASCII letter or digit.
pub open spec fn is_alphanumeric(b: u8) -> bool {
    ||| 'A' as u8 <= b <= 'Z' as u8
    ||| 'a' as u8 <= b <= 'z' as u8
    ||| '0' as u8 <= b <= '9' as u8
}

/// Every byte of `s` is an ASCII letter or digit.
pub open spec fn all_alphanumeric(s: Seq<u8>) -> bool {
    forall|i: int| 0 <= i < s.len() ==> is_alphanumeric(#[trigger] s[i])
}

/// The length of the run of letters and digits that `s` starts with.
pub open spec fn token_len(s: Seq<u8>) -> nat
    decreases s.len(),
{
    if s.len() > 0 && is_alphanumeric(s[0]) {
        1 + token_len(s.skip(1))
    } else {
        0
    }
}

/// What a recogniser found at the start of its input.
pub(crate) enum Scan<'a> {
    /// The input starts with `token`, and `rest` follows it.
    Matched { token: &'a [u8], rest: &'a [u8] },
    /// The input ended before the recogniser could decide.
    Incomplete,
    /// The input does not start with what the recogniser looks for.
    Mismatch,
}

/// `nom::bytes::streaming::tag` on byte slices. Trusted: the contract restates
/// how nom compares the input with the pattern byte by byte. Where the pattern
/// begins the input, it is split off; where the input ends before the pattern
/// does and agrees with it that far, more input is needed; anything else is a
/// mismatch.
#[verifier::external_body]
pub(crate) fn tag<'a>(pattern: &[u8], input: &'a [u8]) -> (r: Scan<'a>)
    ensures
        match r {
            Scan::Matched { token, rest } => {
                &&& pattern@.is_prefix_of(input@)
                &&& token@ == pattern@
                &&& rest@ == input@.skip(pattern@.len() as int)
            },
            Scan::Incomplete => input@.len() < pattern@.len() && input@.is_prefix_of(pattern@),
            Scan::Mismatch => !pattern@.is_prefix_of(input@) && !input@.is_prefix_of(pattern@),
        },
{
    match nom::bytes::streaming::tag::<_, _, nom::error::Error<&[u8]>>(pattern)(input) {
        Ok((rest, token)) => Scan::Matched { token, rest },
        Err(nom::Err::Incomplete(_)) => Scan::Incomplete,
        Err(_) => Scan::Mismatch,
    }
}

/// `nom::character::streaming::alphanumeric1` on a byte slice. Trusted: the
/// contract restates nom's search for the first byte that is no ASCII letter
/// or digit. Where there is none (the empty input included), more input is
/// needed; where it is the first byte, the input is a mismatch; otherwise the
/// input is split in front of it.
#[verifier::external_body]
pub(crate) fn alphanumeric<'a>(input: &'a [u8]) -> (r: Scan<'a>)
    ensures
        match r {
            Scan::Matched { token, rest } => {
                &&& token@ + rest@ == input@
                &&& token@.len() > 0
                &&& all_alphanumeric(token@)
                &&& rest@.len() > 0
                &&& !is_alphanumeric(rest@[0])
            },
            Scan::Incomplete => all_alphanumeric(input@),
            Scan::Mismatch => input@.len() > 0 && !is_alphanumeric(input@[0]),
        },
{
    match nom::character::streaming::alphanumeric1::<_, nom::error::Error<&[u8]>>(input) {
        Ok((rest, token)) => Scan::Matched { token, rest },
        Err(nom::Err::Incomplete(_)) => Scan::Incomplete,
        Err(_) => Scan::Mismatch,
    }
}

/// A run of letters and digits that ends the sequence, or is followed by a byte
/// of another kind, is the whole token.
pub proof fn lemma_token_len(s: Seq<u8>, n: int)
    requires
        0 <= n <= s.len(),
        all_alphanumeric(s.take(n)),
        n < s.len() ==> !is_alphanumeric(s[n]),
    ensures
        token_len(s) == n,
    decreases n,
{
    if n > 0 {
        assert(s[0] == s.take(n)[0]);
        let t = s.skip(1);
        assert forall|i: int| 0 <= i < t.take(n - 1).len() implies is_alphanumeric(
            #[trigger] t.take(n - 1)[i],
        ) by {
            assert(t.take(n - 1)[i] == s.take(n)[i + 1]);
        }
        lemma_token_len(t, n - 1);
    }
}

/// The token is a run of letters and digits, no longer than the sequence, and
/// what follows it is a byte of another kind.
pub proof fn lemma_token_len_bounds(s: Seq<u8>)
    ensures
        token_len(s) <= s.len(),
        all_alphanumeric(s.take(token_len(s) as int)),
        token_len(s) < s.len() ==> !is_alphanumeric(s[token_len(s) as int]),
    decreases s.len(),
{
    if s.len() > 0 && is_alphanumeric(s[0]) {
        let t = s.skip(1);
        lemma_token_len_bounds(t);
        let n = token_len(s) as int;
        assert forall|i: int| 0 <= i < s.take(n).len() implies is_alphanumeric(
            #[trigger] s.take(n)[i],
        ) by {
            if i > 0 {
                assert(s.take(n)[i] == t.take(n - 1)[i - 1]);
            }
        }
        if n < s.len() {
            assert(s[n] == t[n - 1]);
        }
    }
}

} // verus!
