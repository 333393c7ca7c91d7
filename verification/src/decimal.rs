//! Integers as decimal text.
//!
//! Writing is canonical: a minus sign for a negative number, no plus sign, no
//! leading zero. Reading is more generous: one optional sign, then one or more
//! digits, leading zeros included, as long as the value fits in an `i32`.

use vstd::prelude::*;
use vstd::string::StringExecFns;

verus! {

/// Whether `c` is one of the ten digits.
pub open spec fn is_digit(c: char) -> bool {
    '0' <= c && c <= '9'
}

/// The digit that `c` writes.
pub open spec fn digit_value(c: char) -> int
    recommends
        is_digit(c),
{
    c as int - '0' as int
}

/// The character that writes the digit `d`.
pub open spec fn digit_char(d: int) -> char
    recommends
        0 <= d <= 9,
{
    (d + '0' as int) as char
}

/// The digits of `n`, most significant first, without a leading zero.
pub open spec fn digits(n: nat) -> Seq<char>
    decreases n,
{
    if n < 10 {
        seq![digit_char(n as int)]
    } else {
        digits(n / 10).push(digit_char((n % 10) as int))
    }
}

/// `n` in canonical decimal text.
pub open spec fn decimal(n: int) -> Seq<char> {
    if n < 0 {
        seq!['-'] + digits((-n) as nat)
    } else {
        digits(n as nat)
    }
}

/// Whether every character of `s` is a digit.
pub open spec fn all_digits(s: Seq<char>) -> bool {
    forall|i: int| 0 <= i < s.len() ==> is_digit(#[trigger] s[i])
}

/// The number that the digit string `s` writes; 0 for the empty string.
pub open spec fn number(s: Seq<char>) -> nat
    recommends
        all_digits(s),
    decreases s.len(),
{
    if s.len() == 0 {
        0
    } else {
        (10 * number(s.drop_last()) + digit_value(s.last())) as nat
    }
}

/// Whether `s` opens with a plus or a minus sign.
pub open spec fn is_signed(s: Seq<char>) -> bool {
    s.len() > 0 && (s[0] == '-' || s[0] == '+')
}

/// What stands behind the sign of `s`, or all of `s` where it has none.
pub open spec fn unsigned_part(s: Seq<char>) -> Seq<char> {
    if is_signed(s) {
        s.skip(1)
    } else {
        s
    }
}

/// The integer that `s` writes, if it writes one that an `i32` holds: an
/// optional sign followed by at least one digit and nothing else.
pub open spec fn parse_decimal(s: Seq<char>) -> Option<int> {
    let body = unsigned_part(s);
    let value = if is_signed(s) && s[0] == '-' {
        -(number(body) as int)
    } else {
        number(body) as int
    };
    if body.len() > 0 && all_digits(body) && i32::MIN <= value <= i32::MAX {
        Some(value)
    } else {
        None
    }
}

/// Every character of `digits(n)` is a digit, and together they write `n`.
pub proof fn lemma_digits(n: nat)
    ensures
        digits(n).len() > 0,
        all_digits(digits(n)),
        number(digits(n)) == n,
    decreases n,
{
    if n < 10 {
        let s = digits(n);
        assert(s.drop_last() =~= Seq::<char>::empty());
        assert(number(s.drop_last()) == 0);
    } else {
        lemma_digits(n / 10);
        let s = digits(n);
        assert(s.drop_last() =~= digits(n / 10));
        assert(s.last() == digit_char((n % 10) as int));
    }
}

/// Reading what was written gives the number back.
pub proof fn lemma_parse_decimal_of_decimal(n: int)
    requires
        i32::MIN <= n <= i32::MAX,
    ensures
        parse_decimal(decimal(n)) == Some(n),
{
    let s = decimal(n);
    if n < 0 {
        let m = (-n) as nat;
        lemma_digits(m);
        assert(s[0] == '-');
        assert(s.skip(1) =~= digits(m));
    } else {
        lemma_digits(n as nat);
        assert(is_digit(s[0]));
    }
}

/// Different numbers are written differently.
pub proof fn lemma_decimal_is_injective(a: int, b: int)
    requires
        decimal(a) == decimal(b),
    ensures
        a == b,
{
    if a < 0 {
        lemma_digits((-a) as nat);
        assert(decimal(a)[0] == '-');
        assert(decimal(a).skip(1) =~= digits((-a) as nat));
        if b < 0 {
            lemma_digits((-b) as nat);
            assert(decimal(b).skip(1) =~= digits((-b) as nat));
        } else {
            lemma_digits(b as nat);
            assert(is_digit(decimal(b)[0]));
        }
    } else {
        lemma_digits(a as nat);
        if b < 0 {
            lemma_digits((-b) as nat);
            assert(decimal(b)[0] == '-');
            assert(is_digit(decimal(a)[0]));
        } else {
            lemma_digits(b as nat);
        }
    }
}

/// Canonical text holds digits and at most a minus sign, so none of the
/// characters that separate the parts of a file name.
pub proof fn lemma_decimal_chars(n: int)
    ensures
        decimal(n).len() > 0,
        forall|i: int| 0 <= i < decimal(n).len() ==> is_digit(#[trigger] decimal(n)[i]) || decimal(n)[i] == '-',
{
    if n < 0 {
        lemma_digits((-n) as nat);
        assert forall|i: int| 0 <= i < decimal(n).len() implies is_digit(#[trigger] decimal(n)[i])
            || decimal(n)[i] == '-' by {
            if i > 0 {
                assert(decimal(n)[i] == digits((-n) as nat)[i - 1]);
            }
        }
    } else {
        lemma_digits(n as nat);
    }
}

/// A digit string writes at least what any of its prefixes writes.
pub proof fn lemma_number_of_prefix(s: Seq<char>, k: int)
    requires
        all_digits(s),
        0 <= k <= s.len(),
    ensures
        number(s.take(k)) <= number(s),
    decreases s.len(),
{
    if k == s.len() {
        assert(s.take(k) =~= s);
    } else {
        assert(s.drop_last().take(k) =~= s.take(k));
        lemma_number_of_prefix(s.drop_last(), k);
        assert(is_digit(s.last()));
    }
}

/// The one-character text of a digit.
fn digit_text(d: u128) -> (text: &'static str)
    requires
        d <= 9,
    ensures
        text@ == seq![digit_char(d as int)],
{
    proof {
        reveal_strlit("0");
        reveal_strlit("1");
        reveal_strlit("2");
        reveal_strlit("3");
        reveal_strlit("4");
        reveal_strlit("5");
        reveal_strlit("6");
        reveal_strlit("7");
        reveal_strlit("8");
        reveal_strlit("9");
    }
    let text = if d == 0 {
        "0"
    } else if d == 1 {
        "1"
    } else if d == 2 {
        "2"
    } else if d == 3 {
        "3"
    } else if d == 4 {
        "4"
    } else if d == 5 {
        "5"
    } else if d == 6 {
        "6"
    } else if d == 7 {
        "7"
    } else if d == 8 {
        "8"
    } else {
        "9"
    };
    assert(text@ =~= seq![digit_char(d as int)]);
    text
}

/// Appends the digits of `n` to `text`.
fn push_digits(text: &mut String, n: u128)
    ensures
        final(text)@ == old(text)@ + digits(n as nat),
    decreases n,
{
    if n >= 10 {
        push_digits(text, n / 10);
    }
    text.append(digit_text(n % 10));
    assert(text@ =~= old(text)@ + digits(n as nat));
}

/// Writes `n` in canonical decimal text.
pub fn to_decimal(n: i128) -> (text: String)
    ensures
        text@ == decimal(n as int),
{
    let mut text = String::new();
    if n < 0 {
        proof {
            reveal_strlit("-");
        }
        text.append("-");
        assert(text@ =~= seq!['-']);
        let magnitude: u128 = if n == i128::MIN {
            0x8000_0000_0000_0000_0000_0000_0000_0000u128
        } else {
            (-n) as u128
        };
        push_digits(&mut text, magnitude);
    } else {
        push_digits(&mut text, n as u128);
        assert(text@ =~= decimal(n as int));
    }
    text
}

/// Reads the integer that `text` writes. `None` where it writes none: where it
/// is empty or only a sign, holds anything but digits behind the sign, or
/// writes a number outside the range of `i32`.
pub fn from_decimal(text: &Vec<char>) -> (value: Option<i32>)
    ensures
        match value {
            Some(v) => parse_decimal(text@) == Some(v as int),
            None => parse_decimal(text@) is None,
        },
{
    let len = text.len();
    let negative = len > 0 && text[0] == '-';
    let start: usize = if len > 0 && (text[0] == '-' || text[0] == '+') {
        1
    } else {
        0
    };
    let ghost body = unsigned_part(text@);
    assert(body =~= text@.skip(start as int));
    if start == len {
        return None;
    }
    let limit: u64 = if negative {
        2147483648
    } else {
        2147483647
    };
    let mut total: u64 = 0;
    let mut i: usize = start;
    while i < len
        invariant
            start <= i <= len,
            len == text.len(),
            body == unsigned_part(text@),
            body == text@.skip(start as int),
            negative == (is_signed(text@) && text@[0] == '-'),
            limit == if negative { 2147483648u64 } else { 2147483647u64 },
            all_digits(body.take(i - start)),
            total == number(body.take(i - start)),
            total <= limit,
        decreases len - i,
    {
        let c = text[i];
        let ghost before = body.take(i - start);
        let ghost after = body.take(i - start + 1);
        assert(after.drop_last() =~= before);
        assert(after.last() == c);
        if !('0' <= c && c <= '9') {
            assert(!is_digit(body[i - start]));
            return None;
        }
        let next: u64 = total * 10 + (c as u64 - '0' as u64);
        assert(next == number(after));
        assert(all_digits(after)) by {
            assert forall|j: int| 0 <= j < after.len() implies is_digit(#[trigger] after[j]) by {
                if j < before.len() {
                    assert(after[j] == before[j]);
                }
            }
        }
        if next > limit {
            proof {
                if all_digits(body) {
                    lemma_number_of_prefix(body, i - start + 1);
                }
            }
            return None;
        }
        total = next;
        i = i + 1;
    }
    assert(body.take(i - start) =~= body);
    if negative {
        Some((0 - total as i64) as i32)
    } else {
        Some(total as i32)
    }
}

} // verus!
