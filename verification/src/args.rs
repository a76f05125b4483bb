//! Parsing of the frame-interval argument.

use vstd::prelude::*;
use vstd::slice::slice_index_get;
use vstd::string::StringSliceAdditionalSpecFns;

verus! {

/// The byte is an ASCII decimal digit.
pub open spec fn is_digit_byte(b: u8) -> bool {
    0x30 <= b <= 0x39
}

/// Every byte of the sequence is an ASCII decimal digit.
pub open spec fn all_digit_bytes(s: Seq<u8>) -> bool {
    forall|i: int| 0 <= i < s.len() ==> is_digit_byte(#[trigger] s[i])
}

/// Value of a sequence of ASCII decimal digits, most significant first.
pub open spec fn digits_value(s: Seq<u8>) -> int
    decreases s.len(),
{
    if s.len() == 0 {
        0
    } else {
        digits_value(s.drop_last()) * 10 + (s.last() - 0x30)
    }
}

/// The digit part of a numeral: everything after one optional leading plus
/// sign.
pub open spec fn numeral_digits(s: Seq<u8>) -> Seq<u8> {
    if s.len() > 0 && s[0] == 0x2b {
        s.subrange(1, s.len() as int)
    } else {
        s
    }
}

/// The byte sequence is a decimal numeral whose value fits a `u64`: an
/// optional leading plus sign, then at least one digit, and no overflow.
pub open spec fn is_u64_numeral(s: Seq<u8>) -> bool {
    let d = numeral_digits(s);
    &&& d.len() >= 1
    &&& all_digit_bytes(d)
    &&& digits_value(d) <= u64::MAX
}

/// A digit prefix that already exceeds `u64::MAX` cannot be completed into
/// a value that fits: appending digits only grows the value.
proof fn lemma_digits_value_grows(s: Seq<u8>, n: int)
    requires
        0 <= n <= s.len(),
        all_digit_bytes(s),
        digits_value(s.subrange(0, n)) > u64::MAX,
    ensures
        digits_value(s) > u64::MAX,
    decreases s.len() - n,
{
    if n < s.len() {
        let p = s.subrange(0, n);
        let q = s.subrange(0, n + 1);
        assert(q.drop_last() =~= p);
        assert(is_digit_byte(s[n]));
        assert(digits_value(q) == digits_value(p) * 10 + (s[n] - 0x30));
        lemma_digits_value_grows(s, n + 1);
    } else {
        assert(s.subrange(0, n) =~= s);
    }
}

/// Digit values never go negative.
proof fn lemma_digits_value_nonneg(s: Seq<u8>)
    requires
        all_digit_bytes(s),
    ensures
        digits_value(s) >= 0,
    decreases s.len(),
{
    if s.len() > 0 {
        assert(all_digit_bytes(s.drop_last())) by {
            assert(forall|i: int|
                0 <= i < s.len() - 1 ==> s.drop_last()[i] == #[trigger] s[i]);
        }
        lemma_digits_value_nonneg(s.drop_last());
    }
}

/// Parses the interval argument: a decimal numeral, optionally preceded by
/// a plus sign, whose value fits a `u64`.  Anything else is rejected as
/// "not a number".
pub fn parse_interval(s: &str) -> (r: Result<u64, &'static str>)
    ensures
        match r {
            Ok(n) => is_u64_numeral(s.spec_bytes()) && n == digits_value(
                numeral_digits(s.spec_bytes()),
            ),
            Err(m) => !is_u64_numeral(s.spec_bytes()) && m@ == "not a number"@,
        },
{
    let bytes: &[u8] = s.as_bytes();
    let len: usize = bytes.len();
    let ghost whole: Seq<u8> = s.spec_bytes();
    let start: usize = if len > 0 && *slice_index_get(bytes, 0) == 0x2b {
        1
    } else {
        0
    };
    let ghost digits: Seq<u8> = numeral_digits(whole);
    assert(digits =~= whole.subrange(start as int, len as int));
    if start >= len {
        return Err("not a number");
    }
    let mut i: usize = start;
    let mut acc: u64 = 0;
    while i < len
        invariant
            start <= i <= len,
            len == whole.len(),
            bytes@ == whole,
            whole == s.spec_bytes(),
            digits == numeral_digits(whole),
            digits == whole.subrange(start as int, len as int),
            start <= 1,
            all_digit_bytes(whole.subrange(start as int, i as int)),
            acc == digits_value(whole.subrange(start as int, i as int)),
        decreases len - i,
    {
        let b = *slice_index_get(bytes, i);
        if b < 0x30 || b > 0x39 {
            assert(digits[i - start] == b);
            assert(!all_digit_bytes(digits));
            return Err("not a number");
        }
        let d = (b - 0x30) as u64;
        let ghost pre = whole.subrange(start as int, i as int);
        let ghost cur = whole.subrange(start as int, i as int + 1);
        assert(cur.drop_last() =~= pre);
        assert(cur.last() == b);
        let next = match acc.checked_mul(10) {
            Some(m) => m.checked_add(d),
            None => None,
        };
        match next {
            Some(v) => {
                acc = v;
            },
            None => {
                proof {
                    assert(all_digit_bytes(cur));
                    assert(digits_value(cur) == acc * 10 + d > u64::MAX);
                    assert(cur =~= digits.subrange(0, i - start + 1));
                    if all_digit_bytes(digits) {
                        lemma_digits_value_grows(digits, i - start + 1);
                    }
                }
                return Err("not a number");
            },
        }
        i += 1;
    }
    assert(whole.subrange(start as int, len as int) =~= digits);
    Ok(acc)
}

} // verus!
