//! Unsigned decimal numbers in settings.
use vstd::prelude::*;

use crate::text::{opt_text, to_chars};

verus! {

/// Why a text is not a number of the wanted range.
#[derive(Clone, Copy, Debug, PartialEq, Eq, Structural)]
pub enum NumberError {
    Empty,
    InvalidDigit,
    TooLarge,
}

impl NumberError {
    /// The error in words.
    pub open spec fn spec_message(self) -> Seq<char> {
        match self {
            NumberError::Empty => "cannot parse integer from empty string"@,
            NumberError::InvalidDigit => "invalid digit found in string"@,
            NumberError::TooLarge => "number too large to fit in target type"@,
        }
    }

    /// The error in words.
    pub fn message(&self) -> (r: &'static str)
        ensures
            r@ == self.spec_message(),
    {
        match self {
            NumberError::Empty => "cannot parse integer from empty string",
            NumberError::InvalidDigit => "invalid digit found in string",
            NumberError::TooLarge => "number too large to fit in target type",
        }
    }
}

/// Whether the character is one of `0` to `9`.
pub open spec fn is_digit(c: char) -> bool {
    '0' as int <= c as int <= '9' as int
}

/// The value of a digit.
pub open spec fn digit_value(c: char) -> nat {
    (c as int - '0' as int) as nat
}

/// The value of `acc` followed by the digits of `s`, read from left to right: the first
/// character that is no digit, or that takes the value past `max`, decides.
pub open spec fn digits_value(s: Seq<char>, acc: nat, max: nat) -> Result<nat, NumberError>
    decreases s.len(),
{
    if s.len() == 0 {
        Ok(acc)
    } else if !is_digit(s[0]) {
        Err(NumberError::InvalidDigit)
    } else if acc * 10 + digit_value(s[0]) > max {
        Err(NumberError::TooLarge)
    } else {
        digits_value(s.drop_first(), acc * 10 + digit_value(s[0]), max)
    }
}

/// The number that a text says in decimal digits, with at most one `+` before them.
pub open spec fn number_in(s: Seq<char>, max: nat) -> Result<nat, NumberError> {
    if s.len() == 0 {
        Err(NumberError::Empty)
    } else if s.len() > 1 && s[0] == '+' {
        digits_value(s.drop_first(), 0, max)
    } else {
        digits_value(s, 0, max)
    }
}

/// The value of a digit character.
fn digit(c: char) -> (r: Option<u128>)
    ensures
        match r {
            Some(n) => is_digit(c) && n == digit_value(c) && n <= 9,
            None => !is_digit(c),
        },
{
    if '0' <= c && c <= '9' {
        let n: u32 = c as u32;
        Some((n - 48) as u128)
    } else {
        None
    }
}

/// Reads an unsigned decimal number of at most `max`.
pub fn parse_wide(s: &str, max: u128) -> (r: Result<u128, NumberError>)
    ensures
        match r {
            Ok(n) => n <= max && number_in(s@, max as nat) == Ok::<nat, NumberError>(n as nat),
            Err(e) => number_in(s@, max as nat) == Err::<nat, NumberError>(e),
        },
{
    let v = to_chars(s);
    if v.len() == 0 {
        return Err(NumberError::Empty);
    }
    let mut i: usize = if v.len() > 1 && v[0] == '+' {
        1
    } else {
        0
    };
    let mut acc: u128 = 0;
    assert(v@.skip(0) =~= v@);
    assert(v@.skip(1) =~= v@.drop_first());
    while i < v.len()
        invariant
            i <= v@.len(),
            acc <= max,
            number_in(s@, max as nat) == digits_value(v@.skip(i as int), acc as nat, max as nat),
        decreases v@.len() - i,
    {
        let ghost rest = v@.skip(i as int);
        assert(rest.drop_first() =~= v@.skip(i + 1));
        assert(rest[0] == v@[i as int]);
        match digit(v[i]) {
            None => {
                return Err(NumberError::InvalidDigit);
            },
            Some(d) => {
                if d > max || acc > (max - d) / 10 {
                    return Err(NumberError::TooLarge);
                }
                acc = acc * 10 + d;
            },
        }
        i = i + 1;
    }
    Ok(acc)
}

/// Reads an unsigned decimal number of at most `max`.
pub fn parse_up_to(s: &str, max: u64) -> (r: Result<u64, NumberError>)
    ensures
        match r {
            Ok(n) => n <= max && number_in(s@, max as nat) == Ok::<nat, NumberError>(n as nat),
            Err(e) => number_in(s@, max as nat) == Err::<nat, NumberError>(e),
        },
{
    match parse_wide(s, max as u128) {
        Ok(n) => Ok(n as u64),
        Err(e) => Err(e),
    }
}

/// The number that a setting says, or the default where it is not given or says none.
pub open spec fn setting_or(raw: Option<Seq<char>>, max: nat, default: nat) -> nat {
    match raw {
        Some(s) => match number_in(s, max) {
            Ok(n) => n,
            Err(_) => default,
        },
        None => default,
    }
}

/// The number that a setting says, or the default where it is not given or says none.
pub fn setting(raw: &Option<String>, max: u64, default: u64) -> (r: u64)
    requires
        default <= max,
    ensures
        r == setting_or(opt_text(*raw), max as nat, default as nat),
        r <= max,
{
    match raw {
        Some(s) => match parse_up_to(s.as_str(), max) {
            Ok(n) => n,
            Err(_) => default,
        },
        None => default,
    }
}

/// The character of a digit.
pub open spec fn digit_char(n: nat) -> char {
    ('0' as int + n) as char
}

/// A number in decimal digits.
pub open spec fn decimal(n: nat) -> Seq<char>
    decreases n,
{
    if n < 10 {
        seq![digit_char(n)]
    } else {
        decimal(n / 10).push(digit_char(n % 10))
    }
}

/// A number in decimal digits.
pub fn decimal_text(n: u128) -> (r: String)
    ensures
        r@ == decimal(n as nat),
    decreases n,
{
    let d: u8 = (n % 10) as u8;
    let c: char = (48 + d) as char;
    assert(c == digit_char((n % 10) as nat));
    let mut r = if n < 10 {
        String::new()
    } else {
        decimal_text(n / 10)
    };
    r.push(c);
    assert(n < 10 ==> r@ =~= decimal(n as nat));
    r
}

/// Reading one more digit at the end.
proof fn lemma_digits_value_push(s: Seq<char>, c: char, acc: nat, max: nat)
    requires
        acc <= max,
    ensures
        digits_value(s.push(c), acc, max) == match digits_value(s, acc, max) {
            Err(e) => Err(e),
            Ok(v) => if !is_digit(c) {
                Err(NumberError::InvalidDigit)
            } else if v * 10 + digit_value(c) > max {
                Err(NumberError::TooLarge)
            } else {
                Ok((v * 10 + digit_value(c)) as nat)
            },
        },
    decreases s.len(),
{
    let t = s.push(c);
    reveal_with_fuel(digits_value, 2);
    if s.len() == 0 {
        assert(t.drop_first() =~= Seq::<char>::empty());
        assert(t[0] == c);
    } else {
        assert(t[0] == s[0]);
        assert(t.drop_first() =~= s.drop_first().push(c));
        if is_digit(s[0]) && acc * 10 + digit_value(s[0]) <= max {
            lemma_digits_value_push(s.drop_first(), c, acc * 10 + digit_value(s[0]), max);
        }
    }
}

/// A decimal number is digits only, and begins with no sign.
pub proof fn lemma_decimal_digits(n: nat)
    ensures
        decimal(n).len() > 0,
        forall|i: int| 0 <= i < decimal(n).len() ==> is_digit(#[trigger] decimal(n)[i]),
    decreases n,
{
    if n >= 10 {
        lemma_decimal_digits(n / 10);
    }
}

/// A number that is written in decimal digits is read back.
pub proof fn law_decimal_round_trip(n: nat, max: nat)
    requires
        n <= max,
    ensures
        number_in(decimal(n), max) == Ok::<nat, NumberError>(n),
{
    lemma_decimal_value(n, max);
    lemma_decimal_digits(n);
    assert(is_digit(decimal(n)[0]));
}

proof fn lemma_decimal_value(n: nat, max: nat)
    requires
        n <= max,
    ensures
        digits_value(decimal(n), 0, max) == Ok::<nat, NumberError>(n),
    decreases n,
{
    let c = digit_char(n % 10);
    assert(is_digit(c) && digit_value(c) == n % 10);
    if n < 10 {
        assert(decimal(n) =~= Seq::<char>::empty().push(c));
        lemma_digits_value_push(Seq::empty(), c, 0, max);
    } else {
        lemma_decimal_value(n / 10, max);
        lemma_digits_value_push(decimal(n / 10), c, 0, max);
    }
}

/// A number is read digit by digit: one digit is its value, one more digit makes ten times as
/// much and its value, as long as that is within the limit, and what is beyond it is an error.
pub proof fn law_number_by_digits(s: Seq<char>, c: char, max: nat)
    requires
        is_digit(c),
    ensures
        c as int - 0x30 <= max ==> number_in(seq![c], max) == Ok::<nat, NumberError>(
            (c as int - 0x30) as nat,
        ),
        number_in(s, max) is Ok ==> ({
            let n = 10 * number_in(s, max)->Ok_0 + (c as int - 0x30);
            &&& n <= max ==> number_in(s.push(c), max) == Ok::<nat, NumberError>(n as nat)
            &&& n > max ==> number_in(s.push(c), max) == Err::<nat, NumberError>(
                NumberError::TooLarge,
            )
        }),
{
    let one = seq![c];
    assert(one.drop_first() =~= Seq::<char>::empty());
    assert(digits_value(one.drop_first(), digit_value(c), max) == Ok::<nat, NumberError>(
        digit_value(c),
    ));
    if number_in(s, max) is Ok {
        if s.len() > 1 && s[0] == '+' {
            lemma_digit_behind(s.drop_first(), c, 0, max);
            assert(s.push(c).drop_first() =~= s.drop_first().push(c));
        } else {
            lemma_digit_behind(s, c, 0, max);
            assert(s[0] != '+') by {
                if s[0] == '+' {
                    assert(!is_digit(s[0]));
                }
            }
        }
    }
}

proof fn lemma_digit_behind(s: Seq<char>, c: char, acc: nat, max: nat)
    requires
        is_digit(c),
        digits_value(s, acc, max) is Ok,
    ensures
        digits_value(s.push(c), acc, max) == ({
            let n = digits_value(s, acc, max)->Ok_0 * 10 + digit_value(c);
            if n > max {
                Err::<nat, NumberError>(NumberError::TooLarge)
            } else {
                Ok(n)
            }
        }),
    decreases s.len(),
{
    let whole = s.push(c);
    if s.len() == 0 {
        assert(whole.drop_first() =~= Seq::<char>::empty());
        assert(whole[0] == c);
        let n = acc * 10 + digit_value(c);
        assert(digits_value(whole.drop_first(), n, max) == Ok::<nat, NumberError>(n));
    } else {
        assert(whole[0] == s[0]);
        assert(whole.drop_first() =~= s.drop_first().push(c));
        lemma_digit_behind(s.drop_first(), c, acc * 10 + digit_value(s[0]), max);
    }
}

/// Only digits are a number, but for a plus sign before them; nothing at all is none.
pub proof fn law_only_digits_are_a_number(s: Seq<char>, max: nat, i: int)
    requires
        number_in(s, max) is Ok,
        0 <= i < s.len(),
    ensures
        is_digit(s[i]) || (i == 0 && s[0] == '+' && s.len() > 1),
        number_in(Seq::empty(), max) is Err,
        number_in(s, max)->Ok_0 <= max,
{
    if s.len() > 1 && s[0] == '+' {
        if i > 0 {
            lemma_all_digits(s.drop_first(), 0, max, i - 1);
            assert(s.drop_first()[i - 1] == s[i]);
        }
        lemma_all_digits(s.drop_first(), 0, max, 0);
    } else {
        lemma_all_digits(s, 0, max, i);
    }
}

proof fn lemma_all_digits(s: Seq<char>, acc: nat, max: nat, i: int)
    requires
        digits_value(s, acc, max) is Ok,
        0 <= i < s.len(),
    ensures
        is_digit(s[i]),
        digits_value(s, acc, max)->Ok_0 <= max,
    decreases s.len(),
{
    let rest = s.drop_first();
    let n = acc * 10 + digit_value(s[0]);
    if rest.len() == 0 {
        assert(digits_value(rest, n, max) == Ok::<nat, NumberError>(n));
    } else if i == 0 {
        lemma_all_digits(rest, n, max, 0);
    } else {
        lemma_all_digits(rest, n, max, i - 1);
        assert(rest[i - 1] == s[i]);
    }
}

/// A setting is the number that is given, and its default where none is or it is no number.
pub proof fn law_setting(s: Seq<char>, max: nat, default: nat)
    ensures
        setting_or(None, max, default) == default,
        number_in(s, max) is Ok ==> setting_or(Some(s), max, default) == number_in(s, max)->Ok_0,
        number_in(s, max) is Err ==> setting_or(Some(s), max, default) == default,
{
}

/// The digits are the ten of ASCII. One plus sign before a number changes nothing, one alone is
/// no number, a number with anything else behind it is none, and nothing is told apart from
/// both.
pub proof fn law_what_is_no_number(s: Seq<char>, c: char, max: nat)
    ensures
        is_digit(c) <==> 0x30 <= c as int <= 0x39,
        number_in(Seq::empty(), max) == Err::<nat, NumberError>(NumberError::Empty),
        number_in(seq!['+'], max) == Err::<nat, NumberError>(NumberError::InvalidDigit),
        s.len() > 0 && s[0] != '+' ==> number_in(seq!['+'] + s, max) == number_in(s, max),
        number_in(s, max) is Ok && !is_digit(c) ==> number_in(s.push(c), max) == Err::<
            nat,
            NumberError,
        >(NumberError::InvalidDigit),
{
    assert((seq!['+'] + s).drop_first() =~= s);
    if number_in(s, max) is Ok && !is_digit(c) {
        if s.len() > 1 && s[0] == '+' {
            lemma_other_behind(s.drop_first(), c, 0, max);
            assert(s.push(c).drop_first() =~= s.drop_first().push(c));
        } else {
            lemma_other_behind(s, c, 0, max);
            assert(s[0] != '+') by {
                if s[0] == '+' {
                    assert(!is_digit(s[0]));
                }
            }
        }
    }
}

proof fn lemma_other_behind(s: Seq<char>, c: char, acc: nat, max: nat)
    requires
        !is_digit(c),
        digits_value(s, acc, max) is Ok,
    ensures
        digits_value(s.push(c), acc, max) == Err::<nat, NumberError>(NumberError::InvalidDigit),
    decreases s.len(),
{
    let whole = s.push(c);
    if s.len() > 0 {
        assert(whole[0] == s[0]);
        assert(whole.drop_first() =~= s.drop_first().push(c));
        lemma_other_behind(s.drop_first(), c, acc * 10 + digit_value(s[0]), max);
    }
}

} // verus!
