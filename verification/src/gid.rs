//! Numeric ids carried by global identifiers.
//!
//! A location's global identifier is a slash-delimited string whose final
//! segment is a decimal number; only that suffix is meaningful here. A
//! location handle may itself be such a number. This module gives the
//! mathematical reading of both and the verified functions that perform it.

use vstd::prelude::*;

verus! {

/// The ten ASCII decimal digit characters.
pub open spec fn is_digit_char(c: char) -> bool {
    48 <= c as u32 <= 57
}

/// Numeric value of one digit character.
pub open spec fn digit_val(c: char) -> int {
    c as u32 - 48
}

/// Every character of `s` is a decimal digit.
pub open spec fn all_digits(s: Seq<char>) -> bool {
    forall|i: int| 0 <= i < s.len() ==> is_digit_char(s[i])
}

/// The value of a digit string read in base 10.
pub open spec fn digits_value(s: Seq<char>) -> int
    decreases s.len(),
{
    if s.len() == 0 {
        0
    } else {
        digits_value(s.drop_last()) * 10 + digit_val(s.last())
    }
}

/// What parsing a whole string as a `u64` yields: after an optional leading
/// `+`, at least one digit and nothing else, with a value that fits.
pub open spec fn parse_u64_spec(s: Seq<char>) -> Option<u64> {
    let digits = if s.len() >= 1 && s[0] == '+' {
        s.skip(1)
    } else {
        s
    };
    if digits.len() >= 1 && all_digits(digits) && digits_value(digits) <= u64::MAX {
        Some(digits_value(digits) as u64)
    } else {
        None
    }
}

/// The suffix of `s` after its last `/`; all of `s` when it has none.
pub open spec fn last_segment(s: Seq<char>) -> Seq<char>
    decreases s.len(),
{
    if s.len() == 0 {
        s
    } else if s.last() == '/' {
        Seq::empty()
    } else {
        last_segment(s.drop_last()).push(s.last())
    }
}

/// The numeric id a global identifier carries: its final slash-delimited
/// segment read as a decimal `u64`.
pub open spec fn gid_numeric_id(s: Seq<char>) -> Option<u64> {
    parse_u64_spec(last_segment(s))
}

proof fn lemma_digits_value_nonneg(s: Seq<char>)
    requires
        all_digits(s),
    ensures
        digits_value(s) >= 0,
    decreases s.len(),
{
    if s.len() > 0 {
        assert(all_digits(s.drop_last())) by {
            assert(forall|i: int|
                0 <= i < s.len() - 1 ==> s.drop_last()[i] == s[i] && is_digit_char(s[i]));
        }
        lemma_digits_value_nonneg(s.drop_last());
        assert(is_digit_char(s.last()));
    }
}

/// A digit string is worth at least any of its prefixes.
proof fn lemma_digits_value_take_le(s: Seq<char>, k: int)
    requires
        all_digits(s),
        0 <= k <= s.len(),
    ensures
        digits_value(s.take(k)) <= digits_value(s),
    decreases s.len(),
{
    if k == s.len() {
        assert(s.take(k) =~= s);
    } else {
        assert(all_digits(s.drop_last())) by {
            assert(forall|i: int|
                0 <= i < s.len() - 1 ==> s.drop_last()[i] == s[i] && is_digit_char(s[i]));
        }
        lemma_digits_value_take_le(s.drop_last(), k);
        assert(s.drop_last().take(k) =~= s.take(k));
        lemma_digits_value_nonneg(s.drop_last());
        assert(is_digit_char(s.last()));
    }
}

/// Parse a whole string as a decimal `u64`: an optional leading `+`, then at
/// least one digit, rejecting anything else or a value that overflows.
#[verifier::loop_isolation(false)]
pub fn parse_u64(s: &str) -> (r: Option<u64>)
    ensures
        r == parse_u64_spec(s@),
{
    let n = s.unicode_len();
    let start: usize = if n >= 1 && s.get_char(0) == '+' {
        1
    } else {
        0
    };
    let ghost digits = if s@.len() >= 1 && s@[0] == '+' {
        s@.skip(1)
    } else {
        s@
    };
    proof {
        assert(digits =~= s@.skip(start as int));
    }
    if start == n {
        return None;
    }
    let mut acc: u64 = 0;
    let mut i: usize = start;
    while i < n
        invariant
            start <= i <= n,
            all_digits(digits.take(i - start)),
            acc == digits_value(digits.take(i - start)),
        decreases n - i,
    {
        let c = s.get_char(i);
        let u = c as u32;
        let ghost j = i - start;
        proof {
            assert(digits[j] == s@[i as int]);
        }
        if u < 48 || u > 57 {
            proof {
                assert(!is_digit_char(digits[j]));
                assert(!all_digits(digits));
            }
            return None;
        }
        let dv: u64 = (u - 48) as u64;
        proof {
            assert(digits.take(j + 1).drop_last() =~= digits.take(j));
            assert(digits.take(j + 1).last() == digits[j]);
            assert(all_digits(digits.take(j + 1))) by {
                assert(forall|l: int|
                    0 <= l < j ==> digits.take(j + 1)[l] == digits.take(j)[l]);
            }
            assert(digits_value(digits.take(j + 1)) == acc * 10 + dv);
        }
        if acc > 1844674407370955161u64 || (acc == 1844674407370955161u64 && dv > 5) {
            proof {
                assert(digits_value(digits.take(j + 1)) > u64::MAX);
                if all_digits(digits) {
                    lemma_digits_value_take_le(digits, j + 1);
                    assert(digits_value(digits) > u64::MAX);
                }
            }
            return None;
        }
        acc = acc * 10 + dv;
        i = i + 1;
    }
    proof {
        assert(digits.take(n - start) =~= digits);
    }
    Some(acc)
}

/// The last segment begins right after the last `/`; with none before
/// position `k`, it is the suffix from `k` on.
proof fn lemma_last_segment_at(s: Seq<char>, k: int)
    requires
        0 <= k <= s.len(),
        k == 0 || s[k - 1] == '/',
        forall|l: int| k <= l < s.len() ==> s[l] != '/',
    ensures
        last_segment(s) =~= s.subrange(k, s.len() as int),
    decreases s.len(),
{
    if k == s.len() {
        if s.len() > 0 {
            assert(s.last() == '/');
        }
    } else {
        assert(s.last() != '/');
        assert(forall|l: int| k <= l < s.len() - 1 ==> s.drop_last()[l] == s[l] && s[l] != '/');
        if k > 0 {
            assert(s.drop_last()[k - 1] == s[k - 1]);
        }
        lemma_last_segment_at(s.drop_last(), k);
        assert(last_segment(s) =~= s.subrange(k, s.len() as int));
    }
}

/// The numeric id at the end of a slash-delimited global identifier, if its
/// final segment is a decimal number.
pub fn extract_numeric_id_from_gid(gid: &str) -> (r: Option<u64>)
    ensures
        r == gid_numeric_id(gid@),
{
    let n = gid.unicode_len();
    let mut start: usize = n;
    loop
        invariant_except_break
            n == gid@.len(),
            start <= n,
            forall|l: int| start <= l < n ==> gid@[l] != '/',
        ensures
            n == gid@.len(),
            start <= n,
            start == 0 || gid@[start - 1] == '/',
            forall|l: int| start <= l < n ==> gid@[l] != '/',
        decreases start,
    {
        if start == 0 {
            break;
        }
        if gid.get_char(start - 1) == '/' {
            break;
        }
        start = start - 1;
    }
    proof {
        lemma_last_segment_at(gid@, start as int);
    }
    let seg = gid.substring_char(start, n);
    parse_u64(seg)
}

} // verus!
