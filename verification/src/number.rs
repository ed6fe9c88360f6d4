//! Integers as decimal text.

use crate::text::chars_of;
use vstd::prelude::*;

verus! {

/// The character of a decimal digit.
pub open spec fn digit(d: int) -> char {
    ('0' as int + d) as char
}

/// The decimal digits of a natural number, without leading zeros.
pub open spec fn digits(n: nat) -> Seq<char>
    decreases n,
{
    if n < 10 {
        seq![digit(n as int)]
    } else {
        digits(n / 10).push(digit((n % 10) as int))
    }
}

/// An integer in decimal, with a minus sign where it is negative.
pub open spec fn decimal(n: int) -> Seq<char> {
    if n < 0 {
        seq!['-'] + digits((-n) as nat)
    } else {
        digits(n as nat)
    }
}

fn push_digits(out: &mut String, n: u64)
    ensures
        final(out)@ == old(out)@ + digits(n as nat),
    decreases n,
{
    if n >= 10 {
        push_digits(out, n / 10);
    }
    let d: u8 = (n % 10) as u8;
    let c: char = (48u8 + d) as char;
    assert(c == digit(d as int));
    out.push(c);
    assert(out@ == old(out)@ + digits(n as nat));
}

/// The decimal text of `n`.
pub fn i32_to_string(n: i32) -> (r: String)
    ensures
        r@ == decimal(n as int),
{
    let mut out = String::new();
    let wide: i64 = n as i64;
    if wide < 0 {
        out.push('-');
        push_digits(&mut out, (-wide) as u64);
    } else {
        push_digits(&mut out, wide as u64);
    }
    assert(out@ == decimal(n as int));
    out
}

/// The decimal text of `n`.
pub fn u32_to_string(n: u32) -> (r: String)
    ensures
        r@ == decimal(n as int),
{
    let mut out = String::new();
    push_digits(&mut out, n as u64);
    assert(out@ == decimal(n as int));
    out
}

/// A decimal digit.
pub open spec fn is_digit(c: char) -> bool {
    c >= '0' && c <= '9'
}

/// A text of decimal digits only.
pub open spec fn all_digits(s: Seq<char>) -> bool {
    forall|i: int| 0 <= i < s.len() ==> is_digit(#[trigger] s[i])
}

/// The number that a text of decimal digits stands for.
pub open spec fn value(s: Seq<char>) -> int
    decreases s.len(),
{
    if s.len() == 0 {
        0
    } else {
        10 * value(s.drop_last()) + (s.last() as int - '0' as int)
    }
}

/// A text without its sign.
pub open spec fn unsigned(s: Seq<char>) -> Seq<char> {
    if s.len() > 0 && (s[0] == '-' || s[0] == '+') {
        s.skip(1)
    } else {
        s
    }
}

/// The number that a text stands for: an optional sign and at least one decimal digit.
pub open spec fn signed_value(s: Seq<char>) -> Option<int> {
    if unsigned(s).len() == 0 || !all_digits(unsigned(s)) {
        None
    } else if s[0] == '-' {
        Some(-value(unsigned(s)))
    } else {
        Some(value(unsigned(s)))
    }
}

/// The number that a text stands for, where it fits 32 bits.
pub open spec fn parsed(s: Seq<char>) -> Option<i32> {
    match signed_value(s) {
        Some(n) => if i32::MIN <= n <= i32::MAX {
            Some(n as i32)
        } else {
            None
        },
        None => None,
    }
}

proof fn lemma_value_grows(s: Seq<char>, k: int)
    requires
        all_digits(s),
        0 <= k <= s.len(),
    ensures
        0 <= value(s.take(k)) <= value(s),
    decreases s.len(),
{
    if s.len() == 0 {
        assert(s.take(k) == s);
    } else if k == s.len() {
        assert(s.take(k) == s);
        lemma_value_grows(s.drop_last(), k - 1);
        assert(is_digit(s.last()));
    } else {
        lemma_value_grows(s.drop_last(), k);
        assert(s.drop_last().take(k) == s.take(k));
        assert(is_digit(s.last()));
    }
}

/// The number that `s` stands for; `None` where it is no number or does not fit 32 bits.
pub fn parse_i32(s: &str) -> (r: Option<i32>)
    ensures
        r == parsed(s@),
{
    let chars = chars_of(s);
    let n: usize = chars.len();
    let signed = n > 0 && (chars[0] == '-' || chars[0] == '+');
    let negative = n > 0 && chars[0] == '-';
    let start: usize = if signed {
        1
    } else {
        0
    };
    let ghost body = unsigned(s@);
    assert(body == chars@.skip(start as int));
    if start == n {
        return None;
    }
    let mut total: i64 = 0;
    let mut i: usize = start;
    assert(body.take(0).len() == 0);
    while i < n
        invariant
            chars@ == s@,
            n == chars@.len(),
            start <= i <= n,
            start < n,
            body == unsigned(s@),
            body == chars@.skip(start as int),
            forall|j: int| 0 <= j < i - start ==> is_digit(#[trigger] body[j]),
            total == value(body.take(i - start)),
            0 <= total <= 2147483648,
            negative == (s@[0] == '-'),
        decreases n - i,
    {
        let c: char = chars[i];
        assert(body[i - start] == c);
        if !(c >= '0' && c <= '9') {
            assert(!all_digits(body));
            return None;
        }
        let d: i64 = (c as u32 - 48) as i64;
        total = total * 10 + d;
        assert(body.take(i + 1 - start) == body.take(i - start).push(c));
        assert(body.take(i + 1 - start).drop_last() == body.take(i - start));
        i = i + 1;
        if total > 2147483648 {
            proof {
                if all_digits(body) {
                    lemma_value_grows(body, i - start);
                }
            }
            return None;
        }
    }
    assert(body.take(n - start) == body);
    if negative {
        Some((-total) as i32)
    } else if total > 2147483647 {
        None
    } else {
        Some(total as i32)
    }
}

proof fn lemma_digits(n: nat)
    ensures
        digits(n).len() > 0,
        all_digits(digits(n)),
        value(digits(n)) == n,
    decreases n,
{
    if n < 10 {
        let s = digits(n);
        assert(s.drop_last().len() == 0);
        assert(value(s.drop_last()) == 0);
        assert(s.last() as int == '0' as int + n);
    } else {
        lemma_digits(n / 10);
        let s = digits(n);
        assert(s.drop_last() == digits(n / 10));
        assert(s.last() as int == '0' as int + n % 10);
    }
}

/// An integer is read back from its decimal text.
pub proof fn law_decimal_read_back(n: int)
    ensures
        signed_value(decimal(n)) == Some(n),
        i32::MIN <= n <= i32::MAX ==> parsed(decimal(n)) == Some(n as i32),
{
    if n < 0 {
        lemma_digits((-n) as nat);
        assert(unsigned(decimal(n)) == digits((-n) as nat));
    } else {
        lemma_digits(n as nat);
        assert(is_digit(digits(n as nat)[0]));
        assert(unsigned(decimal(n)) == digits(n as nat));
    }
}

/// A decimal text is never empty and holds nothing but digits and a minus sign.
pub proof fn lemma_decimal_chars(n: int)
    ensures
        decimal(n).len() > 0,
        forall|i: int|
            0 <= i < decimal(n).len() ==> is_digit(#[trigger] decimal(n)[i]) || decimal(n)[i]
                == '-',
{
    if n < 0 {
        lemma_digits((-n) as nat);
        assert forall|i: int| 0 <= i < decimal(n).len() implies is_digit(#[trigger] decimal(n)[i])
            || decimal(n)[i] == '-' by {
            if i > 0 {
                assert(decimal(n)[i] == digits((-n) as nat)[i - 1]);
            }
        }
    } else {
        lemma_digits(n as nat);
    }
}

/// Two integers with the same decimal text are equal.
pub proof fn lemma_decimal_injective(m: int, n: int)
    requires
        decimal(m) == decimal(n),
    ensures
        m == n,
{
    law_decimal_read_back(m);
    law_decimal_read_back(n);
}

/// Ten to the power of `k`.
pub open spec fn power_of_ten(k: nat) -> nat
    decreases k,
{
    if k == 0 {
        1
    } else {
        10 * power_of_ten((k - 1) as nat)
    }
}

proof fn lemma_digits_len(n: nat, k: nat)
    requires
        k > 0,
        n < power_of_ten(k),
    ensures
        digits(n).len() <= k,
    decreases k,
{
    if n >= 10 {
        assert(k > 1) by {
            reveal_with_fuel(power_of_ten, 2);
        }
        lemma_digits_len(n / 10, (k - 1) as nat);
    }
}

/// The decimal text of a 32-bit number has at most ten digits.
pub proof fn lemma_short_decimal(n: u32)
    ensures
        decimal(n as int).len() <= 10,
{
    reveal_with_fuel(power_of_ten, 11);
    lemma_digits_len(n as nat, 10);
}

/// Decimal text is written digit by digit: ten times a number and a digit more is its text with
/// that digit behind it, and a negative number has a minus sign before it.
pub proof fn law_decimal(n: int, d: int)
    requires
        0 <= d <= 9,
    ensures
        decimal(d) == seq![(48 + d) as char],
        n > 0 ==> decimal(10 * n + d) == decimal(n).push((48 + d) as char),
        n > 0 ==> decimal(-n) == seq!['-'] + decimal(n),
{
    if n > 0 {
        let m = (10 * n + d) as nat;
        assert(m / 10 == n);
        assert(m % 10 == d);
    }
}

/// Numbers are read digit by digit: a digit behind a number adds it to ten times the number.
/// A plus sign changes nothing, and a minus sign the sign.
pub proof fn law_reading_digits(t: Seq<char>, c: char)
    requires
        48 <= c as int <= 57,
        forall|i: int| 0 <= i < t.len() ==> 48 <= #[trigger] t[i] as int <= 57,
    ensures
        signed_value(seq![c]) == Some(c as int - 48),
        t.len() > 0 ==> {
            &&& signed_value(t) is Some
            &&& signed_value(t.push(c)) == Some(10 * signed_value(t)->0 + (c as int - 48))
            &&& signed_value(seq!['+'] + t) == signed_value(t)
            &&& signed_value(seq!['-'] + t) == Some(-(signed_value(t)->0))
        },
{
    assert(seq![c].drop_last() == Seq::<char>::empty());
    assert(value(Seq::empty()) == 0);
    assert(value(seq![c]) == c as int - 48);
    assert(all_digits(seq![c]));
    if t.len() > 0 {
        assert(48 <= t[0] as int <= 57);
        assert(all_digits(t)) by {
            assert forall|i: int| 0 <= i < t.len() implies is_digit(#[trigger] t[i]) by {
                assert(48 <= t[i] as int <= 57);
            }
        }
        let longer = t.push(c);
        assert(longer[0] == t[0]);
        assert(longer.drop_last() == t);
        assert(all_digits(longer)) by {
            assert forall|i: int| 0 <= i < longer.len() implies is_digit(#[trigger] longer[i]) by {
                if i < t.len() {
                    assert(is_digit(t[i]));
                }
            }
        }
        assert((seq!['+'] + t).skip(1) == t);
        assert((seq!['-'] + t).skip(1) == t);
    }
}

/// A text is no number where it is empty, a sign alone, or holds anything else than digits
/// behind a sign at its beginning.
pub proof fn law_no_number(s: Seq<char>)
    ensures
        s.len() == 0 ==> signed_value(s) is None,
        s.len() == 1 && !(48 <= s[0] as int <= 57) ==> signed_value(s) is None,
        s.len() > 0 && s[0] != '-' && s[0] != '+' && !(48 <= s[0] as int <= 57) ==> signed_value(
            s,
        ) is None,
        forall|i: int|
            1 <= i < s.len() && !(48 <= #[trigger] s[i] as int <= 57) ==> signed_value(s) is None,
{
    let body = unsigned(s);
    if s.len() > 0 {
        if s[0] != '-' && s[0] != '+' {
            assert(!is_digit(s[0]) ==> !is_digit(body[0]));
        }
        assert forall|i: int|
            1 <= i < s.len() && !(48 <= #[trigger] s[i] as int <= 57) implies signed_value(
            s,
        ) is None by {
            if s[0] == '-' || s[0] == '+' {
                assert(body[i - 1] == s[i]);
                assert(!is_digit(body[i - 1]));
            } else {
                assert(!is_digit(body[i]));
            }
        }
    }
}

/// A number is taken where it fits 32 bits, as it is, and in no other case.
pub proof fn law_parsed(s: Seq<char>, n: i32)
    ensures
        parsed(s) == Some(n) <==> signed_value(s) == Some(n as int),
        parsed(s) is Some ==> signed_value(s) == Some(parsed(s)->0 as int),
        signed_value(s) matches Some(m) ==> (parsed(s) is Some <==> -2147483648 <= m <= 2147483647),
{
}

} // verus!
