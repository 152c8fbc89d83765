//! ASCII decimal numerals: the value of a digit string, the canonical
//! digit string of a value, and verified parsing and formatting.

use vstd::prelude::*;

verus! {

/// True when `b` is an ASCII decimal digit (`'0'` to `'9'`).
pub open spec fn is_digit(b: u8) -> bool {
    0x30 <= b <= 0x39
}

/// True when every byte of `s` is an ASCII decimal digit.
pub open spec fn all_digits(s: Seq<u8>) -> bool {
    forall|i: int| 0 <= i < s.len() ==> is_digit(#[trigger] s[i])
}

/// The non-negative integer denoted by a digit string, most significant
/// digit first. Empty strings denote zero; leading zeros are allowed.
pub open spec fn digits_value(s: Seq<u8>) -> int
    decreases s.len(),
{
    if s.len() == 0 {
        0
    } else {
        digits_value(s.drop_last()) * 10 + (s.last() - 0x30)
    }
}

/// What parsing a header token as a non-negative decimal integer yields:
/// the token's value when the token is non-empty, consists of digits only,
/// and denotes a value that fits in `usize`; nothing otherwise.
pub open spec fn parse_decimal(s: Seq<u8>) -> Option<usize> {
    if s.len() > 0 && all_digits(s) && digits_value(s) <= usize::MAX {
        Some(digits_value(s) as usize)
    } else {
        None
    }
}

/// The canonical decimal digit string of `n`: no sign, no leading zeros,
/// a single `'0'` for zero.
pub open spec fn decimal_digits(n: int) -> Seq<u8>
    recommends
        n >= 0,
    decreases n,
{
    if n < 10 {
        seq![(0x30 + n) as u8]
    } else {
        decimal_digits(n / 10).push((0x30 + n % 10) as u8)
    }
}

/// A digit string denotes a non-negative value.
pub proof fn lemma_digits_value_nonneg(s: Seq<u8>)
    requires
        all_digits(s),
    ensures
        digits_value(s) >= 0,
    decreases s.len(),
{
    if s.len() > 0 {
        assert(all_digits(s.drop_last()));
        lemma_digits_value_nonneg(s.drop_last());
    }
}

/// Reading one more digit multiplies the value so far by ten and adds the
/// digit.
pub proof fn lemma_digits_value_extend(s: Seq<u8>, i: int)
    requires
        0 <= i < s.len(),
    ensures
        digits_value(s.subrange(0, i + 1)) == digits_value(s.subrange(0, i)) * 10 + (s[i] - 0x30),
{
    assert(s.subrange(0, i + 1).drop_last() =~= s.subrange(0, i));
    assert(s.subrange(0, i + 1).last() == s[i]);
}

/// The value of a digit string is at least the value of any of its
/// prefixes.
pub proof fn lemma_digits_value_monotonic(s: Seq<u8>, i: int)
    requires
        all_digits(s),
        0 <= i <= s.len(),
    ensures
        digits_value(s) >= digits_value(s.subrange(0, i)),
    decreases s.len() - i,
{
    if i == s.len() {
        assert(s.subrange(0, i) =~= s);
    } else {
        assert(all_digits(s.subrange(0, i)));
        lemma_digits_value_nonneg(s.subrange(0, i));
        lemma_digits_value_extend(s, i);
        lemma_digits_value_monotonic(s, i + 1);
    }
}

/// The canonical digit string of `n` is non-empty, consists of digits
/// only, and denotes `n` itself.
pub proof fn lemma_decimal_digits(n: int)
    requires
        n >= 0,
    ensures
        decimal_digits(n).len() >= 1,
        all_digits(decimal_digits(n)),
        digits_value(decimal_digits(n)) == n,
    decreases n,
{
    if n < 10 {
        let s = decimal_digits(n);
        assert(digits_value(Seq::<u8>::empty()) == 0);
        assert(s.drop_last() =~= Seq::<u8>::empty());
        assert(digits_value(s) == digits_value(s.drop_last()) * 10 + (s.last() - 0x30));
    } else {
        lemma_decimal_digits(n / 10);
        let s = decimal_digits(n);
        let prefix = decimal_digits(n / 10);
        assert(s.drop_last() =~= prefix);
        assert(digits_value(s) == digits_value(prefix) * 10 + (n % 10));
        assert(n / 10 * 10 + n % 10 == n) by (nonlinear_arith);
        assert forall|i: int| 0 <= i < s.len() implies is_digit(#[trigger] s[i]) by {
            if i < prefix.len() {
                assert(s[i] == prefix[i]);
            }
        }
    }
}

/// Parses `bytes[start..end]` as a non-negative decimal integer, exactly
/// as [`parse_decimal`] describes.
pub fn parse_decimal_token(bytes: &[u8], start: usize, end: usize) -> (r: Option<usize>)
    requires
        start <= end <= bytes@.len(),
    ensures
        r == parse_decimal(bytes@.subrange(start as int, end as int)),
{
    let ghost s = bytes@.subrange(start as int, end as int);
    if start == end {
        return None;
    }
    let mut acc: usize = 0;
    let mut i: usize = start;
    while i < end
        invariant
            start <= i <= end <= bytes@.len(),
            s == bytes@.subrange(start as int, end as int),
            s.len() == end - start,
            all_digits(s.subrange(0, i - start)),
            acc == digits_value(s.subrange(0, i - start)),
        decreases end - i,
    {
        let b = bytes[i];
        let ghost k = i - start;
        proof {
            assert(s[k] == bytes@[i as int]);
        }
        if b < 0x30 || b > 0x39 {
            proof {
                assert(!is_digit(s[k]));
                assert(!all_digits(s));
            }
            return None;
        }
        let d = (b - 0x30) as usize;
        proof {
            assert(all_digits(s.subrange(0, k + 1))) by {
                assert forall|j: int| 0 <= j < k + 1 implies is_digit(
                    #[trigger] s.subrange(0, k + 1)[j],
                ) by {
                    assert(s.subrange(0, k + 1)[j] == s[j]);
                    if j < k {
                        assert(s.subrange(0, k)[j] == s[j]);
                    }
                }
            }
            lemma_digits_value_extend(s, k);
        }
        let next = match acc.checked_mul(10) {
            Some(m) => m.checked_add(d),
            None => None,
        };
        match next {
            Some(v) => {
                acc = v;
            },
            None => {
                proof {
                    assert(digits_value(s.subrange(0, k + 1)) > usize::MAX);
                    if all_digits(s) {
                        lemma_digits_value_monotonic(s, k + 1);
                    }
                }
                return None;
            },
        }
        i = i + 1;
    }
    proof {
        assert(s.subrange(0, i - start) =~= s);
    }
    Some(acc)
}

/// Appends the canonical decimal digit string of `n` to `out`, exactly as
/// [`decimal_digits`] describes.
pub fn push_decimal_digits(out: &mut Vec<u8>, n: usize)
    ensures
        final(out)@ == old(out)@ + decimal_digits(n as int),
    decreases n,
{
    if n < 10 {
        out.push(0x30 + n as u8);
        proof {
            assert(out@ =~= old(out)@ + decimal_digits(n as int));
        }
    } else {
        push_decimal_digits(out, n / 10);
        out.push(0x30 + (n % 10) as u8);
        proof {
            assert(out@ =~= old(out)@ + decimal_digits(n as int));
        }
    }
}

} // verus!
