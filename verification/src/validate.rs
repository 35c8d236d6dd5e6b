//! Ready-made validation predicates for argument and field filters.
//!
//! All predicates work over arabic numerals and the english alphabet, in
//! plain decimal notation: an optional leading sign, digits, and at most one
//! decimal point. Exponent notation and named values are not numbers here.

use vstd::prelude::*;

verus! {

/// Whether the character is an ascii letter or digit.
pub open spec fn is_alnum_char(c: char) -> bool {
    ('a' as u32 <= c as u32 && c as u32 <= 'z' as u32) || ('A' as u32 <= c as u32 && c as u32
        <= 'Z' as u32) || ('0' as u32 <= c as u32 && c as u32 <= '9' as u32)
}

/// Whether the character is an ascii digit.
pub open spec fn is_digit(c: char) -> bool {
    '0' as u32 <= c as u32 && c as u32 <= '9' as u32
}

/// The numeric value of an ascii digit.
pub open spec fn digit_val(c: char) -> int {
    c as u32 - '0' as u32
}

/// Whether every character of the sequence is an ascii digit.
pub open spec fn all_digits(s: Seq<char>) -> bool {
    forall|i: int| 0 <= i < s.len() ==> is_digit(#[trigger] s[i])
}

/// The value of a sequence of ascii digits read in base ten.
pub open spec fn digits_value(s: Seq<char>) -> int
    decreases s.len(),
{
    if s.len() == 0 {
        0
    } else {
        digits_value(s.drop_last()) * 10 + digit_val(s.last())
    }
}

/// The sequence with one leading sign character removed, if there is one.
pub open spec fn unsigned_body(s: Seq<char>) -> Seq<char> {
    if s.len() > 0 && (s[0] == '+' || s[0] == '-') {
        s.skip(1)
    } else {
        s
    }
}

/// Whether the sequence is an optionally signed run of ascii digits.
pub open spec fn is_integer_format(s: Seq<char>) -> bool {
    unsigned_body(s).len() > 0 && all_digits(unsigned_body(s))
}

/// The signed value of an optionally signed run of ascii digits.
pub open spec fn integer_value(s: Seq<char>) -> int {
    if s.len() > 0 && s[0] == '-' {
        -digits_value(unsigned_body(s))
    } else {
        digits_value(unsigned_body(s))
    }
}

/// The number of decimal points in the sequence.
pub open spec fn count_dots(s: Seq<char>) -> int
    decreases s.len(),
{
    if s.len() == 0 {
        0
    } else {
        count_dots(s.drop_last()) + if s.last() == '.' {
            1int
        } else {
            0int
        }
    }
}

/// Whether the sequence holds at least one ascii digit.
pub open spec fn has_digit(s: Seq<char>) -> bool {
    exists|i: int| 0 <= i < s.len() && is_digit(#[trigger] s[i])
}

/// Whether the sequence holds at least one ascii digit other than zero.
pub open spec fn has_nonzero_digit(s: Seq<char>) -> bool {
    exists|i: int| 0 <= i < s.len() && is_digit(#[trigger] s[i]) && s[i] != '0'
}

/// Whether the sequence is a plain decimal number: an optional sign, then
/// digits with at most one decimal point among them, and at least one digit.
pub open spec fn is_decimal_format(s: Seq<char>) -> bool {
    let body = unsigned_body(s);
    body.len() > 0 && (forall|i: int|
        0 <= i < body.len() ==> is_digit(#[trigger] body[i]) || body[i] == '.') && count_dots(body)
        <= 1 && has_digit(body)
}

/// The value of a digit sequence never shrinks when a digit is appended.
proof fn lemma_digits_value_nonneg(s: Seq<char>)
    requires
        all_digits(s),
    ensures
        digits_value(s) >= 0,
    decreases s.len(),
{
    if s.len() > 0 {
        assert(all_digits(s.drop_last()));
        lemma_digits_value_nonneg(s.drop_last());
    }
}

/// Determine whether the provided value contains only alphanumeric
/// characters, defined as ascii letters and digits.
pub fn is_alphanumeric(value: &str) -> (r: bool)
    ensures
        r == (forall|i: int| 0 <= i < value@.len() ==> is_alnum_char(#[trigger] value@[i])),
{
    let n: usize = value.unicode_len();
    let mut i: usize = 0;
    while i < n
        invariant
            n == value@.len(),
            i <= n,
            forall|j: int| 0 <= j < i ==> is_alnum_char(#[trigger] value@[j]),
        decreases n - i,
    {
        let c = value.get_char(i);
        let u = c as u32;
        if !(('a' as u32 <= u && u <= 'z' as u32) || ('A' as u32 <= u && u <= 'Z' as u32) || ('0'
            as u32 <= u && u <= '9' as u32)) {
            return false;
        }
        i = i + 1;
    }
    true
}

/// Determine whether the provided value is an integer that fits a 32-bit
/// signed machine word: an optional sign followed by ascii digits.
pub fn is_integer(value: &str) -> (r: bool)
    ensures
        r == (is_integer_format(value@) && -2147483648 <= integer_value(value@)
            <= 2147483647),
{
    let n: usize = value.unicode_len();
    if n == 0 {
        return false;
    }
    let first = value.get_char(0);
    let negative = first == '-';
    let start: usize = if first == '-' || first == '+' {
        1
    } else {
        0
    };
    if start == n {
        return false;
    }
    let ghost body = unsigned_body(value@);
    proof {
        assert(body =~= value@.skip(start as int));
    }
    let mut acc: u64 = 0;
    let mut big = false;
    let mut i: usize = start;
    proof {
        assert(value@.subrange(start as int, start as int) =~= Seq::<char>::empty());
    }
    while i < n
        invariant
            n == value@.len(),
            start <= i <= n,
            body == value@.skip(start as int),
            body == unsigned_body(value@),
            all_digits(value@.subrange(start as int, i as int)),
            !big ==> acc <= 42949672959 && acc == digits_value(
                value@.subrange(start as int, i as int),
            ),
            big ==> digits_value(value@.subrange(start as int, i as int)) > 0xFFFF_FFFF,
        decreases n - i,
    {
        let c = value.get_char(i);
        let u = c as u32;
        if !('0' as u32 <= u && u <= '9' as u32) {
            proof {
                assert(body[i - start] == value@[i as int]);
                assert(!is_integer_format(value@)) by {
                    assert(unsigned_body(value@) == body);
                    assert(!is_digit(unsigned_body(value@)[i - start]));
                }
            }
            return false;
        }
        let d: u64 = (u - '0' as u32) as u64;
        let ghost pre = value@.subrange(start as int, i as int);
        let ghost post = value@.subrange(start as int, i + 1);
        proof {
            assert(post.drop_last() =~= pre);
            assert(post.last() == value@[i as int]);
            assert(digits_value(post) == digits_value(pre) * 10 + digit_val(value@[i as int]));
            lemma_digits_value_nonneg(pre);
        }
        if big {
            proof {
                assert(digits_value(post) > 0xFFFF_FFFF);
            }
        } else if acc > 0xFFFF_FFFF {
            big = true;
            proof {
                assert(digits_value(post) > 0xFFFF_FFFF);
            }
        } else {
            acc = acc * 10 + d;
        }
        i = i + 1;
    }
    proof {
        assert(value@.subrange(start as int, n as int) =~= body);
        assert(is_integer_format(value@));
    }
    if big {
        proof {
            assert(integer_value(value@) > 2147483647 || integer_value(value@) < -2147483648);
        }
        false
    } else if negative {
        acc <= 2147483648
    } else {
        acc <= 2147483647
    }
}

/// Appending a character extends digit-presence facts in the obvious way.
proof fn lemma_digit_facts_push(pre: Seq<char>, post: Seq<char>, c: char)
    requires
        post == pre.push(c),
    ensures
        has_digit(post) == (has_digit(pre) || is_digit(c)),
        has_nonzero_digit(post) == (has_nonzero_digit(pre) || (is_digit(c) && c != '0')),
{
    assert(post.len() == pre.len() + 1);
    assert(forall|j: int| 0 <= j < pre.len() ==> post[j] == pre[j]);
    assert(post[post.len() - 1] == c);
    if has_digit(pre) {
        let w = choose|w: int| 0 <= w < pre.len() && is_digit(pre[w]);
        assert(is_digit(post[w]));
    }
    if is_digit(c) {
        assert(is_digit(post[post.len() - 1]));
    }
    if has_digit(post) {
        let w = choose|w: int| 0 <= w < post.len() && is_digit(post[w]);
        if w < pre.len() {
            assert(is_digit(pre[w]));
        }
    }
    if has_nonzero_digit(pre) {
        let w = choose|w: int| 0 <= w < pre.len() && is_digit(pre[w]) && pre[w] != '0';
        assert(is_digit(post[w]) && post[w] != '0');
    }
    if is_digit(c) && c != '0' {
        assert(is_digit(post[post.len() - 1]) && post[post.len() - 1] != '0');
    }
    if has_nonzero_digit(post) {
        let w = choose|w: int| 0 <= w < post.len() && is_digit(post[w]) && post[w] != '0';
        if w < pre.len() {
            assert(is_digit(pre[w]) && pre[w] != '0');
        }
    }
}

/// A prefix never holds more decimal points than the whole.
proof fn lemma_count_dots_prefix_le(s: Seq<char>, k: int)
    requires
        0 <= k <= s.len(),
    ensures
        count_dots(s.subrange(0, k)) <= count_dots(s),
        count_dots(s) >= 0,
    decreases s.len(),
{
    if s.len() == 0 {
        assert(s.subrange(0, k) =~= s);
    } else if k == s.len() {
        assert(s.subrange(0, k) =~= s);
        lemma_count_dots_prefix_le(s.drop_last(), s.len() - 1);
    } else {
        assert(s.subrange(0, k) =~= s.drop_last().subrange(0, k));
        lemma_count_dots_prefix_le(s.drop_last(), k);
    }
}

/// Shared scan for the decimal predicates: reports whether the value is a
/// plain decimal number and, when it is, whether some digit in it is not
/// zero.
fn decimal_scan(value: &str) -> (r: (bool, bool))
    ensures
        r.0 == is_decimal_format(value@),
        r.0 ==> r.1 == has_nonzero_digit(unsigned_body(value@)),
{
    let n: usize = value.unicode_len();
    if n == 0 {
        return (false, false);
    }
    let first = value.get_char(0);
    let start: usize = if first == '-' || first == '+' {
        1
    } else {
        0
    };
    let ghost body = unsigned_body(value@);
    proof {
        assert(body =~= value@.skip(start as int));
    }
    if start == n {
        proof {
            assert(body.len() == 0);
        }
        return (false, false);
    }
    let mut dots: usize = 0;
    let mut seen_digit = false;
    let mut seen_nonzero = false;
    let mut i: usize = start;
    proof {
        assert(value@.subrange(start as int, start as int) =~= Seq::<char>::empty());
    }
    while i < n
        invariant
            n == value@.len(),
            start <= i <= n,
            body == value@.skip(start as int),
            body == unsigned_body(value@),
            forall|j: int| 0 <= j < i - start ==> is_digit(#[trigger] body[j]) || body[j] == '.',
            dots <= i,
            dots == count_dots(value@.subrange(start as int, i as int)),
            dots <= 1,
            seen_digit == has_digit(value@.subrange(start as int, i as int)),
            seen_nonzero == has_nonzero_digit(value@.subrange(start as int, i as int)),
        decreases n - i,
    {
        let c = value.get_char(i);
        let u = c as u32;
        let ghost pre = value@.subrange(start as int, i as int);
        let ghost post = value@.subrange(start as int, i + 1);
        proof {
            assert(post =~= pre.push(value@[i as int]));
            assert(post.drop_last() =~= pre);
            assert(body[i - start] == value@[i as int]);
            lemma_digit_facts_push(pre, post, value@[i as int]);
        }
        if '0' as u32 <= u && u <= '9' as u32 {
            seen_digit = true;
            if c != '0' {
                seen_nonzero = true;
            }
        } else if c == '.' {
            if dots >= 1 {
                proof {
                    assert(count_dots(post) >= 2);
                    assert(body.subrange(0, i + 1 - start) =~= post);
                    lemma_count_dots_prefix_le(body, i + 1 - start);
                    assert(!is_decimal_format(value@)) by {
                        assert(unsigned_body(value@) == body);
                        assert(count_dots(unsigned_body(value@)) >= 2);
                    }
                }
                return (false, false);
            }
            dots = dots + 1;
        } else {
            proof {
                assert(!is_decimal_format(value@)) by {
                    assert(unsigned_body(value@) == body);
                    assert(0 <= i - start < unsigned_body(value@).len());
                    assert(!(is_digit(unsigned_body(value@)[i - start]) || unsigned_body(
                        value@,
                    )[i - start] == '.'));
                }
            }
            return (false, false);
        }
        i = i + 1;
    }
    proof {
        assert(value@.subrange(start as int, n as int) =~= body);
    }
    (seen_digit, seen_nonzero)
}

/// Determine whether the provided value is a number, written as an optional
/// sign, digits and at most one decimal point.
pub fn is_numeric(value: &str) -> (r: bool)
    ensures
        r == is_decimal_format(value@),
{
    let (ok, _) = decimal_scan(value);
    ok
}

/// Determine whether the provided value is a negative number: a number with
/// a leading minus sign and a digit other than zero.
pub fn is_negative(value: &str) -> (r: bool)
    ensures
        r == (is_decimal_format(value@) && value@.len() > 0 && value@[0] == '-'
            && has_nonzero_digit(unsigned_body(value@))),
{
    let n: usize = value.unicode_len();
    if n == 0 {
        return false;
    }
    let first = value.get_char(0);
    if first != '-' {
        return false;
    }
    let (ok, nonzero) = decimal_scan(value);
    ok && nonzero
}

/// Determine whether the provided value is a positive number: a number with
/// no minus sign and a digit other than zero.
pub fn is_positive(value: &str) -> (r: bool)
    ensures
        r == (is_decimal_format(value@) && value@.len() > 0 && value@[0] != '-'
            && has_nonzero_digit(unsigned_body(value@))),
{
    let n: usize = value.unicode_len();
    if n == 0 {
        return false;
    }
    let first = value.get_char(0);
    if first == '-' {
        return false;
    }
    let (ok, nonzero) = decimal_scan(value);
    ok && nonzero
}

} // verus!
