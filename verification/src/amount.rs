//! Amounts of money: diamonds, counted in thousandths.
//!
//! An amount is held as a whole number of thousandths of a diamond, so that sums are
//! exact. In text an amount is a decimal number with up to three digits behind the
//! point: `2.5` is 2500 thousandths.

use vstd::prelude::*;
use vstd::string::*;
use crate::text::{
    after_sign, all_digits, digit_char, digit_str, digits_value, format_u64, is_digit,
    lemma_digits_value_nonnegative, lemma_natural_text, natural_text, parse_digits,
};

verus! {

/// How many units of account make a diamond.
pub const UNITS_PER_DIAMOND: i64 = 1000;

/// Whether `p` is where the whole part of `body` ends: the place of its first point, or
/// its length where it has none.
pub open spec fn is_point_at(body: Seq<char>, p: int) -> bool {
    &&& 0 <= p <= body.len()
    &&& forall|j: int| 0 <= j < p ==> body[j] != '.'
    &&& p < body.len() ==> body[p] == '.'
}

/// Where the whole part of `body` ends.
pub open spec fn point_of(body: Seq<char>) -> int {
    choose|p: int| is_point_at(body, p)
}

/// Ten to the power of `n`.
pub open spec fn pow10(n: nat) -> int
    decreases n,
{
    if n == 0 {
        1
    } else {
        10 * pow10((n - 1) as nat)
    }
}

/// The amount written in `s`, in thousandths: an optional `+` or `-`, one or more
/// digits, and then nothing or a point and one to three digits. `None` for any other
/// text.
pub open spec fn amount_value(s: Seq<char>) -> Option<int> {
    let body = after_sign(s, true);
    let p = point_of(body);
    let whole = body.take(p);
    let sign: int = if s.len() > 0 && s[0] == '-' {
        -1
    } else {
        1
    };
    if !(whole.len() > 0 && all_digits(whole)) {
        None
    } else if p == body.len() {
        Some(sign * (digits_value(whole) * 1000))
    } else {
        let thousandths = body.skip(p + 1);
        if 1 <= thousandths.len() <= 3 && all_digits(thousandths) {
            Some(
                sign * (digits_value(whole) * 1000 + digits_value(thousandths) * pow10(
                    (3 - thousandths.len()) as nat,
                )),
            )
        } else {
            None
        }
    }
}

/// The amount written in `s`, where it is one that an `i64` can hold.
pub open spec fn spec_parse_amount(s: Seq<char>) -> Option<i64> {
    match amount_value(s) {
        Some(v) => if i64::MIN <= v <= i64::MAX {
            Some(v as i64)
        } else {
            None
        },
        None => None,
    }
}

/// The thousandths `f`, from 0 to 999, as they are written behind the whole diamonds:
/// nothing for none, and else a point and the digits up to the last that is not zero.
pub open spec fn thousandths_text(f: int) -> Seq<char> {
    if f == 0 {
        Seq::<char>::empty()
    } else if f % 100 == 0 {
        seq!['.', digit_char(f / 100)]
    } else if f % 10 == 0 {
        seq!['.', digit_char(f / 100), digit_char((f / 10) % 10)]
    } else {
        seq!['.', digit_char(f / 100), digit_char((f / 10) % 10), digit_char(f % 10)]
    }
}

/// The amount of `v` thousandths in diamonds: `-` before a negative amount, the whole
/// diamonds in base ten, and the thousandths behind a point where there are any.
pub open spec fn amount_text(v: int) -> Seq<char> {
    let m = if v < 0 {
        -v
    } else {
        v
    };
    let sign = if v < 0 {
        seq!['-']
    } else {
        Seq::<char>::empty()
    };
    sign + natural_text((m / 1000) as nat) + thousandths_text(m % 1000)
}

/// The whole part of a text ends at one place only.
pub proof fn lemma_point_of(body: Seq<char>, p: int)
    requires
        is_point_at(body, p),
    ensures
        point_of(body) == p,
{
    let q = point_of(body);
    if q < p {
        assert(body[q] != '.');
    } else if p < q {
        assert(body[p] != '.');
    }
}

/// A run of `n` digits denotes a number under ten to the `n`.
pub proof fn lemma_digits_value_bound(s: Seq<char>)
    requires
        all_digits(s),
    ensures
        0 <= digits_value(s) < pow10(s.len()),
    decreases s.len(),
{
    if s.len() > 0 {
        assert(is_digit(s[s.len() - 1]));
        assert forall|i: int| 0 <= i < s.drop_last().len() implies is_digit(
            #[trigger] s.drop_last()[i],
        ) by {
            assert(s.drop_last()[i] == s[i]);
        }
        lemma_digits_value_bound(s.drop_last());
    }
}

/// Reads an amount written in diamonds: see [`amount_value`].
pub fn parse_amount(s: &str) -> (r: Option<i64>)
    ensures
        r == spec_parse_amount(s@),
{
    let ghost body = after_sign(s@, true);
    if !s.is_ascii() {
        proof {
            let i = choose|i: int| 0 <= i < s@.len() && !('\0' <= #[trigger] s@[i] <= '\u{7f}');
            let p = point_of(body);
            let off = s@.len() - body.len();
            assert(is_point_at(body, p)) by {
                lemma_some_point(body);
            }
            assert(off == 0 || off == 1);
            if off == 1 {
                assert(i >= 1);
            } else {
                assert(body =~= s@);
            }
            assert(body[i - off] == s@[i]);
            if i - off < p {
                assert(body.take(p)[i - off] == s@[i]);
                assert(!is_digit(body.take(p)[i - off]));
            } else {
                assert(i - off > p);
                assert(body.skip(p + 1)[i - off - p - 1] == s@[i]);
                assert(!is_digit(body.skip(p + 1)[i - off - p - 1]));
            }
        }
        return None;
    }
    proof {
        is_ascii_spec_bytes(s);
    }
    let n = s.unicode_len();
    let first: u8 = if n > 0 {
        s.get_ascii(0)
    } else {
        0
    };
    let negative = first == 45;
    let start: usize = if first == 43 || first == 45 {
        1
    } else {
        0
    };
    assert(s@.skip(start as int) =~= body && negative == (n > 0 && s@[0] == '-')) by {
        if n > 0 {
            assert('\0' <= s@[0] <= '\u{7f}');
        }
        assert(s@.skip(0) =~= s@);
    }
    let mut at: usize = start;
    while at < n && s.get_ascii(at) != 46
        invariant
            s.is_ascii(),
            n == s@.len(),
            start <= at <= n,
            body == s@.skip(start as int),
            forall|j: int| 0 <= j < at - start ==> body[j] != '.',
        decreases n - at,
    {
        proof {
            is_ascii_spec_bytes(s);
            assert('\0' <= s@[at as int] <= '\u{7f}');
            assert(body[at - start] == s@[at as int]);
        }
        at = at + 1;
    }
    let ghost p = at - start;
    proof {
        if at < n {
            assert('\0' <= s@[at as int] <= '\u{7f}');
            assert(body[p] == s@[at as int]);
        }
        assert(is_point_at(body, p));
        lemma_point_of(body, p);
    }
    let whole_text = s.substring_ascii(start, at);
    assert(whole_text@ =~= body.take(p));
    assert(whole_text@.skip(0) =~= whole_text@);
    let parsed_whole = parse_digits(whole_text, 0, 9223372036854776);
    proof {
        pow10_values();
        if whole_text@.len() > 0 && all_digits(whole_text@) {
            lemma_digits_value_nonnegative(whole_text@);
            if p < body.len() && all_digits(body.skip(p + 1)) {
                lemma_digits_value_nonnegative(body.skip(p + 1));
            }
        }
    }
    let whole = match parsed_whole {
        Some(v) => v,
        None => {
            proof {
                if whole_text@.len() > 0 && all_digits(whole_text@) {
                    let dv = digits_value(whole_text@);
                    assert(dv * 1000 > 9223372036854775808);
                    if amount_value(s@) is Some {
                        let extra = if p == body.len() {
                            0
                        } else {
                            digits_value(body.skip(p + 1)) * pow10(
                                (3 - body.skip(p + 1).len()) as nat,
                            )
                        };
                        assert(extra >= 0) by (nonlinear_arith)
                            requires
                                p == body.len() || (digits_value(body.skip(p + 1)) >= 0 && pow10(
                                    (3 - body.skip(p + 1).len()) as nat,
                                ) >= 1),
                                extra == if p == body.len() {
                                    0
                                } else {
                                    digits_value(body.skip(p + 1)) * pow10(
                                        (3 - body.skip(p + 1).len()) as nat,
                                    )
                                },
                        ;
                        let v = amount_value(s@)->0;
                        assert(v == dv * 1000 + extra || v == -1 * (dv * 1000 + extra));
                    }
                }
            }
            return None;
        },
    };
    assert(whole == digits_value(whole_text@) && whole <= 9223372036854776);
    let thousandths: u128 = if at == n {
        0
    } else {
        let rest = s.substring_ascii(at + 1, n);
        assert(rest@ =~= body.skip(p + 1));
        assert(rest@.skip(0) =~= rest@);
        let digits = n - at - 1;
        if digits < 1 || digits > 3 {
            return None;
        }
        proof {
            if all_digits(rest@) {
                lemma_digits_value_bound(rest@);
            }
        }
        match parse_digits(rest, 0, 999) {
            Some(v) => {
                assert(v == digits_value(rest@) && v <= 999);
                if digits == 1 {
                    v * 100
                } else if digits == 2 {
                    v * 10
                } else {
                    v
                }
            },
            None => {
                return None;
            },
        }
    };
    assert(thousandths <= 99900);
    assert(at < n ==> thousandths == digits_value(body.skip(p + 1)) * pow10(
        (3 - body.skip(p + 1).len()) as nat,
    ));
    let total: u128 = whole * 1000 + thousandths;
    if negative {
        if total > 9223372036854775808 {
            None
        } else {
            Some((-(total as i128)) as i64)
        }
    } else {
        if total > 9223372036854775807 {
            None
        } else {
            Some(total as i64)
        }
    }
}

/// Every text has a place where its whole part ends.
pub proof fn lemma_some_point(body: Seq<char>)
    ensures
        is_point_at(body, point_of(body)),
    decreases body.len(),
{
    if body.len() == 0 {
        assert(is_point_at(body, 0));
    } else if body[0] == '.' {
        assert(is_point_at(body, 0));
    } else {
        lemma_some_point(body.skip(1));
        let q = point_of(body.skip(1));
        assert(is_point_at(body, q + 1)) by {
            assert forall|j: int| 0 <= j < q + 1 implies body[j] != '.' by {
                if j > 0 {
                    assert(body.skip(1)[j - 1] == body[j]);
                }
            }
            if q + 1 < body.len() {
                assert(body.skip(1)[q] == body[q + 1]);
            }
        }
    }
}

/// The first powers of ten.
pub proof fn pow10_values()
    ensures
        pow10(0) == 1,
        pow10(1) == 10,
        pow10(2) == 100,
        pow10(3) == 1000,
{
    reveal_with_fuel(pow10, 5);
}

/// Powers of ten are positive.
pub proof fn lemma_pow10_positive(n: nat)
    ensures
        pow10(n) > 0,
    decreases n,
{
    if n > 0 {
        lemma_pow10_positive((n - 1) as nat);
    }
}

/// Writes the amount of `v` thousandths in diamonds: see [`amount_text`].
pub fn format_amount(v: i64) -> (text: String)
    ensures
        text@ == amount_text(v as int),
{
    let magnitude: u64 = if v == i64::MIN {
        9223372036854775808
    } else if v < 0 {
        (-v) as u64
    } else {
        v as u64
    };
    let mut text = if v < 0 {
        proof {
            reveal_strlit("-");
        }
        "-".to_owned()
    } else {
        String::new()
    };
    assert(text@ =~= if v < 0 {
        seq!['-']
    } else {
        Seq::<char>::empty()
    });
    text.append(format_u64(magnitude / 1000).as_str());
    let f = magnitude % 1000;
    if f != 0 {
        proof {
            reveal_strlit(".");
        }
        text.append(".");
        text.append(digit_str(f / 100));
        if f % 100 != 0 {
            text.append(digit_str((f / 10) % 10));
            if f % 10 != 0 {
                text.append(digit_str(f % 10));
            }
        }
    }
    assert(text@ =~= amount_text(v as int));
    text
}

/// The digits behind the point denote the thousandths that they were written for.
pub proof fn lemma_thousandths_text(f: int)
    requires
        1 <= f <= 999,
    ensures
        thousandths_text(f).len() >= 2,
        thousandths_text(f)[0] == '.',
        1 <= thousandths_text(f).skip(1).len() <= 3,
        all_digits(thousandths_text(f).skip(1)),
        digits_value(thousandths_text(f).skip(1)) * pow10(
            (3 - thousandths_text(f).skip(1).len()) as nat,
        ) == f,
{
    pow10_values();
    let digits = thousandths_text(f).skip(1);
    let a = f / 100;
    let b = (f / 10) % 10;
    let c = f % 10;
    assert(f == 100 * a + 10 * b + c);
    assert(is_digit(digit_char(a)) && is_digit(digit_char(b)) && is_digit(digit_char(c)));
    assert(crate::text::digit_value(digit_char(a)) == a);
    assert(crate::text::digit_value(digit_char(b)) == b);
    assert(crate::text::digit_value(digit_char(c)) == c);
    let one = seq![digit_char(a)];
    let two = seq![digit_char(a), digit_char(b)];
    let three = seq![digit_char(a), digit_char(b), digit_char(c)];
    assert(one.drop_last() =~= Seq::<char>::empty());
    assert(digits_value(one.drop_last()) == 0);
    assert(digits_value(one) == a);
    assert(two.drop_last() =~= one);
    assert(digits_value(two) == 10 * a + b);
    assert(three.drop_last() =~= two);
    assert(digits_value(three) == 100 * a + 10 * b + c);
    if f % 100 == 0 {
        assert(digits =~= one);
    } else if f % 10 == 0 {
        assert(digits =~= two);
    } else {
        assert(digits =~= three);
    }
}

/// What [`format_amount`] writes, [`parse_amount`] reads back.
pub proof fn lemma_amount_text_round_trip(v: i64)
    ensures
        spec_parse_amount(amount_text(v as int)) == Some(v),
{
    let m: int = if v < 0 {
        -v
    } else {
        v as int
    };
    let f = m % 1000;
    let whole = natural_text((m / 1000) as nat);
    let behind = thousandths_text(f);
    let text = amount_text(v as int);
    lemma_natural_text((m / 1000) as nat);
    assert(is_digit(whole[0]));
    let body = after_sign(text, true);
    if v < 0 {
        assert(text[0] == '-');
        assert(body =~= whole + behind);
    } else {
        assert(text =~= whole + behind);
        assert(text[0] == whole[0]);
        assert(body =~= whole + behind);
    }
    let p = whole.len() as int;
    if f != 0 {
        lemma_thousandths_text(f);
        assert(body[p] == behind[0]);
        assert(body.skip(p + 1) =~= behind.skip(1));
    } else {
        assert(behind.len() == 0);
    }
    assert(is_point_at(body, p)) by {
        assert forall|j: int| 0 <= j < p implies body[j] != '.' by {
            assert(body[j] == whole[j]);
            assert(is_digit(whole[j]));
        }
    }
    lemma_point_of(body, p);
    assert(body.take(p) =~= whole);
}

} // verus!
