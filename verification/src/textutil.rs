use vstd::prelude::*;
use vstd::string::StrSliceExecFns;

verus! {

pub open spec fn is_digit(c: char) -> bool {
    '0' <= c && c <= '9'
}

pub open spec fn digit_val(c: char) -> int {
    c as int - '0' as int
}

pub open spec fn all_digits(s: Seq<char>) -> bool {
    forall|i: int| 0 <= i < s.len() ==> is_digit(#[trigger] s[i])
}

/// The number denoted by a sequence of decimal digits, most significant
/// first.
pub open spec fn digits_val(s: Seq<char>) -> int
    decreases s.len(),
{
    if s.len() == 0 {
        0
    } else {
        digits_val(s.drop_last()) * 10 + digit_val(s.last())
    }
}

pub proof fn lemma_digits_val_nonneg(s: Seq<char>)
    requires
        all_digits(s),
    ensures
        digits_val(s) >= 0,
    decreases s.len(),
{
    if s.len() > 0 {
        assert(all_digits(s.drop_last()));
        lemma_digits_val_nonneg(s.drop_last());
    }
}

/// Appending digits never makes the denoted number smaller.
pub proof fn lemma_digits_val_prefix_le(s: Seq<char>, k: int)
    requires
        all_digits(s),
        0 <= k <= s.len(),
    ensures
        digits_val(s.take(k)) <= digits_val(s),
    decreases s.len(),
{
    if k == s.len() {
        assert(s.take(k) =~= s);
    } else {
        assert(all_digits(s.drop_last()));
        lemma_digits_val_prefix_le(s.drop_last(), k);
        assert(s.take(k) =~= s.drop_last().take(k));
        lemma_digits_val_nonneg(s.drop_last());
        assert(digit_val(s.last()) >= 0);
        assert(digits_val(s) >= digits_val(s.drop_last())) by (nonlinear_arith)
            requires
                digits_val(s) == digits_val(s.drop_last()) * 10 + digit_val(s.last()),
                digits_val(s.drop_last()) >= 0,
                digit_val(s.last()) >= 0,
        ;
    }
}

/// What `str::parse::<u32>` accepts of a trimmed line: an optional leading
/// `'+'`, then one or more decimal digits whose value fits in a `u32`;
/// anything else (empty input, other signs, trailing whitespace, overflow)
/// is rejected.
pub open spec fn parse_u32_spec(s: Seq<char>) -> Option<u32> {
    let body = if s.len() > 0 && s[0] == '+' {
        s.skip(1)
    } else {
        s
    };
    if body.len() > 0 && all_digits(body) && digits_val(body) <= u32::MAX {
        Some(digits_val(body) as u32)
    } else {
        None
    }
}

/// Parses a decimal id exactly as `str::parse::<u32>` would.
pub fn parse_u32(s: &str) -> (r: Option<u32>)
    ensures
        r == parse_u32_spec(s@),
{
    let n = s.unicode_len();
    let start: usize = if n > 0 && s.get_char(0) == '+' {
        1
    } else {
        0
    };
    let ghost body = if s@.len() > 0 && s@[0] == '+' {
        s@.skip(1)
    } else {
        s@
    };
    if start >= n {
        return None;
    }
    let mut acc: u32 = 0;
    let mut i: usize = start;
    while i < n
        invariant
            start <= i <= n,
            start < n,
            n == s@.len(),
            start == 1 ==> s@.len() > 0 && s@[0] == '+',
            body == (if s@.len() > 0 && s@[0] == '+' {
                s@.skip(1)
            } else {
                s@
            }),
            body.len() == n - start,
            forall|j: int| 0 <= j < body.len() ==> body[j] == s@[j + start],
            all_digits(body.take(i - start)),
            acc == digits_val(body.take(i - start)),
        decreases n - i,
    {
        let c = s.get_char(i);
        let u = c as u32;
        if u < 48 || u > 57 {
            proof {
                assert(body[i - start] == c);
                assert(!is_digit(c));
            }
            return None;
        }
        let d = u - 48;
        proof {
            assert(body[i - start] == c);
            assert(is_digit(c));
            assert(d == digit_val(c));
            assert(body.take(i - start + 1).drop_last() =~= body.take(i - start));
            assert(body.take(i - start + 1).last() == c);
            assert(all_digits(body.take(i - start + 1)));
        }
        if acc > (u32::MAX - d) / 10 {
            proof {
                assert(digits_val(body.take(i - start + 1)) > u32::MAX) by (nonlinear_arith)
                    requires
                        digits_val(body.take(i - start + 1)) == acc * 10 + d,
                        acc > (u32::MAX - d) / 10,
                        0 <= d <= 9,
                        acc >= 0,
                ;
                if all_digits(body) && digits_val(body) <= u32::MAX {
                    lemma_digits_val_prefix_le(body, i - start + 1);
                    assert(false);
                }
            }
            return None;
        }
        proof {
            assert(acc * 10 + d <= u32::MAX) by (nonlinear_arith)
                requires
                    acc <= (u32::MAX - d) / 10,
                    0 <= d <= 9,
                    acc >= 0,
            ;
        }
        acc = acc * 10 + d;
        i = i + 1;
    }
    proof {
        assert(body.take(i - start) =~= body);
    }
    Some(acc)
}

} // verus!
