//! Text helpers: comparing strings by content and reading decimal numbers.

use vstd::prelude::*;
use vstd::string::*;

verus! {

/// Whether `a` and `b` hold the same characters.
pub fn same_text(a: &str, b: &str) -> (r: bool)
    ensures
        r == (a@ == b@),
{
    a.to_owned() == b.to_owned()
}

/// Whether `c` is one of the ten ASCII digits.
pub open spec fn is_digit(c: char) -> bool {
    '0' <= c && c <= '9'
}

/// The number that the digit `c` stands for.
pub open spec fn digit_value(c: char) -> int {
    c as int - '0' as int
}

/// Whether every character of `s` is an ASCII digit.
pub open spec fn all_digits(s: Seq<char>) -> bool {
    forall|i: int| 0 <= i < s.len() ==> is_digit(#[trigger] s[i])
}

/// The number that a run of digits denotes in base ten; the empty run denotes zero.
pub open spec fn digits_value(s: Seq<char>) -> int
    decreases s.len(),
{
    if s.len() == 0 {
        0
    } else {
        10 * digits_value(s.drop_last()) + digit_value(s.last())
    }
}

/// What is left of `s` once a leading `+` is taken off, or a leading `-` where
/// `minus_allowed`.
pub open spec fn after_sign(s: Seq<char>, minus_allowed: bool) -> Seq<char> {
    if s.len() > 0 && (s[0] == '+' || (minus_allowed && s[0] == '-')) {
        s.skip(1)
    } else {
        s
    }
}

/// The integer written in `s`: an optional sign (`+`, and `-` where `minus_allowed`),
/// then one or more ASCII digits and nothing else. `None` for any other text.
pub open spec fn integer_text(s: Seq<char>, minus_allowed: bool) -> Option<int> {
    let body = after_sign(s, minus_allowed);
    if body.len() > 0 && all_digits(body) {
        if minus_allowed && s[0] == '-' {
            Some(-digits_value(body))
        } else {
            Some(digits_value(body))
        }
    } else {
        None
    }
}

/// The `u32` written in `s`: an optional `+` and decimal digits, no larger than `u32::MAX`.
pub open spec fn spec_parse_u32(s: Seq<char>) -> Option<u32> {
    match integer_text(s, false) {
        Some(v) => if v <= u32::MAX {
            Some(v as u32)
        } else {
            None
        },
        None => None,
    }
}

/// The `i64` written in `s`: an optional `+` or `-` and decimal digits, within `i64`'s range.
pub open spec fn spec_parse_i64(s: Seq<char>) -> Option<i64> {
    match integer_text(s, true) {
        Some(v) => if i64::MIN <= v <= i64::MAX {
            Some(v as i64)
        } else {
            None
        },
        None => None,
    }
}

/// A run of digits denotes a number that is not negative.
pub proof fn lemma_digits_value_nonnegative(s: Seq<char>)
    requires
        all_digits(s),
    ensures
        digits_value(s) >= 0,
    decreases s.len(),
{
    if s.len() > 0 {
        assert(is_digit(s[s.len() - 1]));
        lemma_digits_value_nonnegative(s.drop_last());
    }
}

/// Reading more digits never gives a smaller number.
pub proof fn lemma_digits_value_prefix(s: Seq<char>, n: int)
    requires
        all_digits(s),
        0 <= n <= s.len(),
    ensures
        digits_value(s.take(n)) <= digits_value(s),
    decreases s.len() - n,
{
    if n == s.len() {
        assert(s.take(n) =~= s);
    } else {
        let longer = s.take(n + 1);
        assert(longer.drop_last() =~= s.take(n));
        assert(longer.last() == s[n]);
        assert(is_digit(s[n]));
        assert(all_digits(s.take(n))) by {
            assert forall|i: int| 0 <= i < s.take(n).len() implies is_digit(
                #[trigger] s.take(n)[i],
            ) by {
                assert(s.take(n)[i] == s[i]);
            }
        }
        lemma_digits_value_nonnegative(s.take(n));
        lemma_digits_value_prefix(s, n + 1);
    }
}

/// Text that holds a character outside ASCII is no integer.
proof fn lemma_not_ascii_no_integer(s: Seq<char>, minus_allowed: bool)
    requires
        !vstd::utf8::is_ascii_chars(s),
    ensures
        integer_text(s, minus_allowed) is None,
{
    let i = choose|i: int| 0 <= i < s.len() && !('\0' <= #[trigger] s[i] <= '\u{7f}');
    let body = after_sign(s, minus_allowed);
    if body.len() == s.len() {
        assert(body =~= s);
        assert(!is_digit(body[i]));
    } else {
        assert(i > 0);
        assert(body[i - 1] == s[i]);
        assert(!is_digit(body[i - 1]));
    }
}

/// Reads the magnitude written in the ASCII text `s` from position `start` on, as long as
/// it stays at or under `limit`.
pub fn parse_digits(s: &str, start: usize, limit: u128) -> (r: Option<u128>)
    requires
        s.is_ascii(),
        start <= s@.len(),
        limit <= u64::MAX,
    ensures
        r == (if start < s@.len() && all_digits(s@.skip(start as int)) && digits_value(
            s@.skip(start as int),
        ) <= limit {
            Some(digits_value(s@.skip(start as int)) as u128)
        } else {
            None
        }),
{
    let n = s.unicode_len();
    let ghost body = s@.skip(start as int);
    proof {
        is_ascii_spec_bytes(s);
    }
    assert(n == s@.len());
    if start >= n {
        return None;
    }
    let mut acc: u128 = 0;
    let mut i: usize = start;
    while i < n
        invariant
            s.is_ascii(),
            n == s@.len(),
            start <= i <= n,
            body == s@.skip(start as int),
            limit <= u64::MAX,
            all_digits(body.take(i - start)),
            acc == digits_value(body.take(i - start)),
            acc <= limit,
        decreases n - i,
    {
        let b = s.get_ascii(i);
        let ghost c = s@[i as int];
        assert(body[i - start] == c);
        assert(b == c as u8);
        assert('\0' <= c <= '\u{7f}');
        if b < 48 || b > 57 {
            proof {
                assert(!is_digit(body[i - start]));
            }
            return None;
        }
        let ghost longer = body.take(i - start + 1);
        proof {
            assert(is_digit(c));
            assert(longer.drop_last() =~= body.take(i - start));
            assert(longer.last() == c);
            assert(all_digits(longer)) by {
                assert forall|k: int| 0 <= k < longer.len() implies is_digit(
                    #[trigger] longer[k],
                ) by {
                    if k < i - start {
                        assert(longer[k] == body.take(i - start)[k]);
                    }
                }
            }
        }
        let next: u128 = acc * 10 + (b - 48) as u128;
        assert(next == digits_value(longer));
        if next > limit {
            proof {
                if all_digits(body) {
                    lemma_digits_value_prefix(body, i - start + 1);
                }
            }
            return None;
        }
        acc = next;
        i = i + 1;
    }
    proof {
        assert(body.take(i - start) =~= body);
    }
    Some(acc)
}

/// Reads a `u32` written in decimal, as `str::parse` does: an optional `+`, then digits.
pub fn parse_u32(s: &str) -> (r: Option<u32>)
    ensures
        r == spec_parse_u32(s@),
{
    if !s.is_ascii() {
        proof {
            lemma_not_ascii_no_integer(s@, false);
        }
        return None;
    }
    let n = s.unicode_len();
    let start: usize = if n > 0 && s.get_ascii(0) == 43 {
        1
    } else {
        0
    };
    assert(s@.skip(start as int) =~= after_sign(s@, false)) by {
        is_ascii_spec_bytes(s);
        if n > 0 {
            assert('\0' <= s@[0] <= '\u{7f}');
        }
        assert(s@.skip(0) =~= s@);
    }
    proof {
        if all_digits(after_sign(s@, false)) {
            lemma_digits_value_nonnegative(after_sign(s@, false));
        }
    }
    match parse_digits(s, start, 4294967295) {
        Some(v) => Some(v as u32),
        None => None,
    }
}

/// Reads an `i64` written in decimal, as `str::parse` does: an optional `+` or `-`, then
/// digits.
pub fn parse_i64(s: &str) -> (r: Option<i64>)
    ensures
        r == spec_parse_i64(s@),
{
    if !s.is_ascii() {
        proof {
            lemma_not_ascii_no_integer(s@, true);
        }
        return None;
    }
    let n = s.unicode_len();
    let first: u8 = if n > 0 {
        s.get_ascii(0)
    } else {
        0
    };
    let negative = first == 45;
    let start: usize = if first == 43 || first == 45 {
        1
    } else {
        0
    };
    assert(s@.skip(start as int) =~= after_sign(s@, true) && negative == (n > 0 && s@[0] == '-'))
        by {
        is_ascii_spec_bytes(s);
        if n > 0 {
            assert('\0' <= s@[0] <= '\u{7f}');
        }
        assert(s@.skip(0) =~= s@);
    }
    proof {
        if all_digits(after_sign(s@, true)) {
            lemma_digits_value_nonnegative(after_sign(s@, true));
        }
    }
    let limit: u128 = if negative {
        9223372036854775808
    } else {
        9223372036854775807
    };
    match parse_digits(s, start, limit) {
        Some(v) => {
            if negative {
                Some((-(v as i128)) as i64)
            } else {
                Some(v as i64)
            }
        },
        None => None,
    }
}

/// The `i32` written in `s`: an optional `+` or `-` and decimal digits, within `i32`'s range.
pub open spec fn spec_parse_i32(s: Seq<char>) -> Option<i32> {
    match integer_text(s, true) {
        Some(v) => if i32::MIN <= v <= i32::MAX {
            Some(v as i32)
        } else {
            None
        },
        None => None,
    }
}

/// Reads an `i32` written in decimal, as `str::parse` does: an optional `+` or `-`, then
/// digits.
pub fn parse_i32(s: &str) -> (r: Option<i32>)
    ensures
        r == spec_parse_i32(s@),
{
    match parse_i64(s) {
        Some(v) => if -2147483648 <= v && v <= 2147483647 {
            Some(v as i32)
        } else {
            None
        },
        None => None,
    }
}

/// The digit `d` as text.
pub fn digit_str(d: u64) -> (text: &'static str)
    requires
        d < 10,
    ensures
        text@ == seq![digit_char(d as int)],
{
    proof {
        reveal_strlit("0");
        reveal_strlit("1");
        reveal_strlit("2");
        reveal_strlit("3");
        reveal_strlit("4");
        reveal_strlit("5");
        reveal_strlit("6");
        reveal_strlit("7");
        reveal_strlit("8");
        reveal_strlit("9");
    }
    let text = if d == 0 {
        "0"
    } else if d == 1 {
        "1"
    } else if d == 2 {
        "2"
    } else if d == 3 {
        "3"
    } else if d == 4 {
        "4"
    } else if d == 5 {
        "5"
    } else if d == 6 {
        "6"
    } else if d == 7 {
        "7"
    } else if d == 8 {
        "8"
    } else {
        "9"
    };
    assert(text@ =~= seq![digit_char(d as int)]);
    text
}

/// The character that stands for the digit `d`.
pub open spec fn digit_char(d: int) -> char {
    if d == 0 {
        '0'
    } else if d == 1 {
        '1'
    } else if d == 2 {
        '2'
    } else if d == 3 {
        '3'
    } else if d == 4 {
        '4'
    } else if d == 5 {
        '5'
    } else if d == 6 {
        '6'
    } else if d == 7 {
        '7'
    } else if d == 8 {
        '8'
    } else {
        '9'
    }
}

/// The natural number `n` in base ten, without leading zeros.
pub open spec fn natural_text(n: nat) -> Seq<char>
    decreases n,
{
    if n < 10 {
        seq![digit_char(n as int)]
    } else {
        natural_text(n / 10).push(digit_char((n % 10) as int))
    }
}

/// The integer `v` in base ten, with `-` before a negative number.
pub open spec fn decimal_text(v: int) -> Seq<char> {
    if v < 0 {
        seq!['-'] + natural_text((-v) as nat)
    } else {
        natural_text(v as nat)
    }
}

/// Writes `n` in base ten.
pub fn format_u64(n: u64) -> (text: String)
    ensures
        text@ == natural_text(n as nat),
{
    let mut text = digit_str(n % 10).to_owned();
    let mut rest = n / 10;
    while rest > 0
        invariant
            natural_text(n as nat) == (if rest > 0 {
                natural_text(rest as nat) + text@
            } else {
                text@
            }),
        decreases rest,
    {
        let ghost old_text = text@;
        let digit = digit_str(rest % 10);
        text = digit.to_owned().concat(text.as_str());
        proof {
            if rest >= 10 {
                assert(natural_text(rest as nat) + old_text =~= natural_text((rest / 10) as nat)
                    + text@);
            } else {
                assert(natural_text(rest as nat) + old_text =~= text@);
            }
        }
        rest = rest / 10;
    }
    text
}

/// Writes `v` in base ten, with `-` before a negative number.
pub fn format_i64(v: i64) -> (text: String)
    ensures
        text@ == decimal_text(v as int),
{
    if v < 0 {
        proof {
            reveal_strlit("-");
        }
        let magnitude: u64 = if v == i64::MIN {
            9223372036854775808
        } else {
            (-v) as u64
        };
        let text = "-".to_owned().concat(format_u64(magnitude).as_str());
        assert(text@ =~= decimal_text(v as int));
        text
    } else {
        format_u64(v as u64)
    }
}

/// A number written in base ten is made of digits, and reads as the number.
pub proof fn lemma_natural_text(n: nat)
    ensures
        natural_text(n).len() > 0,
        all_digits(natural_text(n)),
        digits_value(natural_text(n)) == n,
    decreases n,
{
    let text = natural_text(n);
    if n < 10 {
        assert(text.drop_last() =~= Seq::<char>::empty());
        assert(text.last() == digit_char(n as int));
        assert(digits_value(text.drop_last()) == 0);
    } else {
        lemma_natural_text(n / 10);
        let front = natural_text(n / 10);
        assert(text.drop_last() =~= front);
        assert(text.last() == digit_char((n % 10) as int));
        assert forall|i: int| 0 <= i < text.len() implies is_digit(#[trigger] text[i]) by {
            if i < front.len() {
                assert(text[i] == front[i]);
            }
        }
    }
}

/// What [`format_i64`] writes, [`parse_i64`] reads back.
pub proof fn lemma_decimal_text_round_trip(v: i64)
    ensures
        spec_parse_i64(decimal_text(v as int)) == Some(v),
{
    let text = decimal_text(v as int);
    if v < 0 {
        let digits = natural_text((-v) as nat);
        lemma_natural_text((-v) as nat);
        assert(text[0] == '-');
        assert(text.skip(1) =~= digits);
    } else {
        lemma_natural_text(v as nat);
        assert(is_digit(text[0]));
    }
}

} // verus!
