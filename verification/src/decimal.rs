//! Integers as decimal text, in both directions.

use vstd::prelude::*;
use vstd::std_specs::iter::IteratorSpec;

verus! {

/// The character that stands for the digit `d`.
pub open spec fn digit_char(d: int) -> char {
    if d == 0 {
        '0'
    } else if d == 1 {
        '1'
    } else if d == 2 {
        '2'
    } else if d == 3 {
        '3'
    } else if d == 4 {
        '4'
    } else if d == 5 {
        '5'
    } else if d == 6 {
        '6'
    } else if d == 7 {
        '7'
    } else if d == 8 {
        '8'
    } else {
        '9'
    }
}

/// The digit that `c` stands for, if it is one of the ten decimal digits.
pub open spec fn digit_of(c: char) -> Option<int> {
    if c == '0' {
        Some(0)
    } else if c == '1' {
        Some(1)
    } else if c == '2' {
        Some(2)
    } else if c == '3' {
        Some(3)
    } else if c == '4' {
        Some(4)
    } else if c == '5' {
        Some(5)
    } else if c == '6' {
        Some(6)
    } else if c == '7' {
        Some(7)
    } else if c == '8' {
        Some(8)
    } else if c == '9' {
        Some(9)
    } else {
        None
    }
}

/// The digits of a natural number, most significant first, without padding.
pub open spec fn digits(n: nat) -> Seq<char>
    decreases n,
{
    if n < 10 {
        seq![digit_char(n as int)]
    } else {
        digits(n / 10).push(digit_char((n % 10) as int))
    }
}

/// Decimal text of an integer: a minus sign for a negative number, then its digits.
pub open spec fn decimal(n: int) -> Seq<char> {
    if n < 0 {
        seq!['-'] + digits((-n) as nat)
    } else {
        digits(n as nat)
    }
}

/// The number that a run of digits denotes, leading zeros allowed.
pub open spec fn digits_value(text: Seq<char>) -> int
    decreases text.len(),
{
    if text.len() == 0 {
        0
    } else {
        digits_value(text.drop_last()) * 10 + match digit_of(text.last()) {
            Some(d) => d,
            None => 0,
        }
    }
}

/// Whether `text` is a non-empty run of decimal digits.
pub open spec fn is_digits(text: Seq<char>) -> bool {
    text.len() > 0 && forall|i: int| 0 <= i < text.len() ==> digit_of(#[trigger] text[i]) is Some
}

/// The integer that `text` denotes, if it denotes one that fits in 64 bits:
/// an optional `+` or `-`, then one or more digits, and nothing else.
pub open spec fn integer_of(text: Seq<char>) -> Option<i64> {
    let signed = text.len() > 0 && (text[0] == '-' || text[0] == '+');
    let body = if signed { text.skip(1) } else { text };
    let magnitude = digits_value(body);
    let value = if text.len() > 0 && text[0] == '-' { -magnitude } else { magnitude };
    if is_digits(body) && i64::MIN <= value <= i64::MAX {
        Some(value as i64)
    } else {
        None
    }
}

fn digit_text(d: u64) -> (text: &'static str)
    requires
        d < 10,
    ensures
        text@ == seq![digit_char(d as int)],
{
    if d == 0 {
        proof {
            reveal_strlit("0");
            assert("0"@ =~= seq![digit_char(0)]);
        }
        "0"
    } else if d == 1 {
        proof {
            reveal_strlit("1");
            assert("1"@ =~= seq![digit_char(1)]);
        }
        "1"
    } else if d == 2 {
        proof {
            reveal_strlit("2");
            assert("2"@ =~= seq![digit_char(2)]);
        }
        "2"
    } else if d == 3 {
        proof {
            reveal_strlit("3");
            assert("3"@ =~= seq![digit_char(3)]);
        }
        "3"
    } else if d == 4 {
        proof {
            reveal_strlit("4");
            assert("4"@ =~= seq![digit_char(4)]);
        }
        "4"
    } else if d == 5 {
        proof {
            reveal_strlit("5");
            assert("5"@ =~= seq![digit_char(5)]);
        }
        "5"
    } else if d == 6 {
        proof {
            reveal_strlit("6");
            assert("6"@ =~= seq![digit_char(6)]);
        }
        "6"
    } else if d == 7 {
        proof {
            reveal_strlit("7");
            assert("7"@ =~= seq![digit_char(7)]);
        }
        "7"
    } else if d == 8 {
        proof {
            reveal_strlit("8");
            assert("8"@ =~= seq![digit_char(8)]);
        }
        "8"
    } else {
        proof {
            reveal_strlit("9");
            assert("9"@ =~= seq![digit_char(9)]);
        }
        "9"
    }
}

fn digits_string(n: u64) -> (text: String)
    ensures
        text@ == digits(n as nat),
    decreases n,
{
    if n < 10 {
        digit_text(n).to_owned()
    } else {
        let mut text = digits_string(n / 10);
        let last = digit_text(n % 10);
        text.append(last);
        proof {
            assert(text@ =~= digits((n / 10) as nat).push(digit_char((n % 10) as int)));
        }
        text
    }
}

/// The decimal text of `n`: a minus sign for a negative number, then its
/// digits without padding.
pub fn decimal_string(n: i64) -> (text: String)
    ensures
        text@ == decimal(n as int),
{
    if n < 0 {
        let magnitude: u64 = (-(n + 1)) as u64 + 1;
        let mut text = "-".to_owned();
        text.append(digits_string(magnitude).as_str());
        proof {
            reveal_strlit("-");
            assert(text@ =~= seq!['-'] + digits((-n) as nat));
        }
        text
    } else {
        digits_string(n as u64)
    }
}

/// The digits of a number are digits, and denote the number.
pub proof fn lemma_digits_denote(n: nat)
    ensures
        is_digits(digits(n)),
        digits_value(digits(n)) == n,
    decreases n,
{
    if n < 10 {
        let text = digits(n);
        assert(text.drop_last() =~= Seq::<char>::empty());
        assert(digits_value(text.drop_last()) == 0);
        assert(digit_of(digit_char(n as int)) == Some(n as int));
        assert(text[0] == digit_char(n as int));
    } else {
        lemma_digits_denote(n / 10);
        let front = digits(n / 10);
        let text = digits(n);
        assert(text.drop_last() =~= front);
        assert(text.last() == digit_char((n % 10) as int));
        assert(digit_of(digit_char((n % 10) as int)) == Some((n % 10) as int));
        assert forall|i: int| 0 <= i < text.len() implies digit_of(#[trigger] text[i]) is Some by {
            if i < front.len() {
                assert(text[i] == front[i]);
            }
        }
    }
}

/// Reading the decimal text of an integer gives the integer back.
pub proof fn lemma_decimal_is_read_back(n: i64)
    ensures
        integer_of(decimal(n as int)) == Some(n),
{
    let text = decimal(n as int);
    if n < 0 {
        let magnitude = (-n) as nat;
        lemma_digits_denote(magnitude);
        assert(text[0] == '-');
        assert(text.skip(1) =~= digits(magnitude));
    } else {
        lemma_digits_denote(n as nat);
        assert(digit_of(text[0]) is Some);
    }
}

fn digit_value(c: char) -> (d: Option<u64>)
    ensures
        match digit_of(c) {
            Some(value) => d == Some(value as u64),
            None => d is None,
        },
{
    if c == '0' {
        Some(0)
    } else if c == '1' {
        Some(1)
    } else if c == '2' {
        Some(2)
    } else if c == '3' {
        Some(3)
    } else if c == '4' {
        Some(4)
    } else if c == '5' {
        Some(5)
    } else if c == '6' {
        Some(6)
    } else if c == '7' {
        Some(7)
    } else if c == '8' {
        Some(8)
    } else if c == '9' {
        Some(9)
    } else {
        None
    }
}

/// A run of characters denotes no less than any of its prefixes, and a
/// prefix denotes no less than zero.
pub proof fn lemma_digits_value_grows(text: Seq<char>, k: int)
    requires
        0 <= k <= text.len(),
    ensures
        0 <= digits_value(text.take(k)) <= digits_value(text),
    decreases text.len(),
{
    if text.len() == 0 {
        assert(text.take(k) =~= text);
    } else if k == text.len() {
        assert(text.take(k) =~= text);
        lemma_digits_value_grows(text.drop_last(), k - 1);
    } else {
        lemma_digits_value_grows(text.drop_last(), k);
        assert(text.drop_last().take(k) =~= text.take(k));
    }
}

/// Reads a signed decimal integer of 64 bits: an optional `+` or `-`, then
/// one or more digits, and nothing else. Leading zeros are read; a value
/// out of range is none.
pub fn parse_integer(text: &str) -> (parsed: Option<i64>)
    ensures
        parsed == integer_of(text@),
{
    let mut chars = text.chars();
    let first = chars.next();
    let mut negative = false;
    let mut magnitude: u64 = 0;
    let mut seen = false;
    let ghost signed = text@.len() > 0 && (text@[0] == '-' || text@[0] == '+');
    let ghost body = if signed {
        text@.skip(1)
    } else {
        text@
    };
    let ghost mut k: int = 0;
    match first {
        None => {
            return None;
        },
        Some(c) => {
            if c == '-' {
                negative = true;
            } else if c != '+' {
                match digit_value(c) {
                    None => {
                        proof {
                            assert(digit_of(body[0]) is None);
                        }
                        return None;
                    },
                    Some(d) => {
                        magnitude = d;
                        seen = true;
                        proof {
                            k = 1;
                            assert(body.take(1).drop_last() =~= Seq::<char>::empty());
                            assert(body.take(1).last() == c);
                            assert(digits_value(body.take(1).drop_last()) == 0);
                            assert(digits_value(body.take(1)) == d);
                            assert(body.skip(1) =~= text@.drop_first());
                        }
                    },
                }
            }
        },
    }
    proof {
        if signed {
            assert(body.skip(0) =~= text@.drop_first());
        }
        if k == 0 {
            assert(body.take(0) =~= Seq::<char>::empty());
            assert(digits_value(body.take(0)) == 0);
        }
    }
    loop
        invariant
            0 <= k <= body.len(),
            chars.remaining() == body.skip(k),
            seen == (k > 0),
            forall|i: int| 0 <= i < k ==> digit_of(#[trigger] body[i]) is Some,
            magnitude == digits_value(body.take(k)),
            magnitude <= 9223372036854775808u64,
            body == if signed {
                text@.skip(1)
            } else {
                text@
            },
            signed == (text@.len() > 0 && (text@[0] == '-' || text@[0] == '+')),
            negative == (text@.len() > 0 && text@[0] == '-'),
        ensures
            k == body.len(),
        decreases body.len() - k,
    {
        let next = chars.next();
        match next {
            None => {
                proof {
                    assert(body.skip(k).len() == 0);
                }
                break ;
            },
            Some(c) => {
                proof {
                    assert(body.skip(k)[0] == body[k]);
                    assert(body.skip(k).drop_first() =~= body.skip(k + 1));
                    assert(body.take(k + 1).drop_last() =~= body.take(k));
                    assert(body.take(k + 1).last() == c);
                    lemma_digits_value_grows(body, k + 1);
                }
                match digit_value(c) {
                    None => {
                        return None;
                    },
                    Some(d) => {
                        let longer: u128 = magnitude as u128 * 10 + d as u128;
                        if longer > 9223372036854775808u128 {
                            return None;
                        }
                        magnitude = longer as u64;
                        seen = true;
                        proof {
                            k = k + 1;
                        }
                    },
                }
            },
        }
    }
    proof {
        assert(body.take(k) =~= body);
    }
    if !seen {
        None
    } else if negative {
        if magnitude == 9223372036854775808u64 {
            Some(i64::MIN)
        } else {
            Some(-(magnitude as i64))
        }
    } else if magnitude > 9223372036854775807u64 {
        None
    } else {
        Some(magnitude as i64)
    }
}

} // verus!
