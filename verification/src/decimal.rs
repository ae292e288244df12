//! Numbers as text: writing them in decimal, reading them in decimal and in
//! hexadecimal.

use vstd::prelude::*;

verus! {

/// The decimal digit of a number below ten.
pub open spec fn digit(n: int) -> char {
    if n == 0 {
        '0'
    } else if n == 1 {
        '1'
    } else if n == 2 {
        '2'
    } else if n == 3 {
        '3'
    } else if n == 4 {
        '4'
    } else if n == 5 {
        '5'
    } else if n == 6 {
        '6'
    } else if n == 7 {
        '7'
    } else if n == 8 {
        '8'
    } else {
        '9'
    }
}

/// The decimal digits of `n`, without leading zeros.
pub open spec fn decimal(n: nat) -> Seq<char>
    decreases n,
{
    if n < 10 {
        seq![digit(n as int)]
    } else {
        decimal(n / 10).push(digit((n % 10) as int))
    }
}

/// The value of one digit in bases up to sixteen; upper and lower case
/// letters mean the same.
pub open spec fn digit_value(c: char) -> Option<int> {
    if '0' <= c <= '9' {
        Some(c as int - '0' as int)
    } else if 'a' <= c <= 'f' {
        Some(c as int - 'a' as int + 10)
    } else if 'A' <= c <= 'F' {
        Some(c as int - 'A' as int + 10)
    } else {
        None
    }
}

/// `c` is a digit in base `radix`.
pub open spec fn is_digit(c: char, radix: int) -> bool {
    digit_value(c) is Some && digit_value(c)->0 < radix
}

/// Every character of `text` is a digit in base `radix`.
pub open spec fn all_digits(text: Seq<char>, radix: int) -> bool {
    forall|i: int| 0 <= i < text.len() ==> is_digit(#[trigger] text[i], radix)
}

/// The number that digits spell in base `radix`.
pub open spec fn value_of(text: Seq<char>, radix: int) -> int
    decreases text.len(),
{
    if text.len() == 0 {
        0
    } else {
        value_of(text.drop_last(), radix) * radix + digit_value(text.last())->0
    }
}

/// `text` behind the plus sign that a number may carry.
pub open spec fn without_plus(text: Seq<char>) -> Seq<char> {
    if text.len() > 0 && text[0] == '+' {
        text.skip(1)
    } else {
        text
    }
}

/// The number not above `max` that `text` stands for: digits, at least one,
/// with or without a plus sign before them.
pub open spec fn parsed(text: Seq<char>, radix: int, max: int) -> Option<int> {
    let body = without_plus(text);
    if body.len() > 0 && all_digits(body, radix) && value_of(body, radix) <= max {
        Some(value_of(body, radix))
    } else {
        None
    }
}

proof fn value_of_push(text: Seq<char>, c: char, radix: int)
    ensures
        value_of(text.push(c), radix) == value_of(text, radix) * radix + digit_value(c)->0,
{
    assert(text.push(c).drop_last() =~= text);
}

proof fn value_of_grows(text: Seq<char>, size: int, radix: int)
    requires
        2 <= radix,
        0 <= size <= text.len(),
        all_digits(text, radix),
    ensures
        0 <= value_of(text.take(size), radix) <= value_of(text, radix),
    decreases text.len(),
{
    if size == text.len() {
        assert(text.take(size) =~= text);
        if text.len() > 0 {
            assert(all_digits(text.drop_last(), radix)) by {
                assert forall|i: int| 0 <= i < text.drop_last().len() implies is_digit(
                    #[trigger] text.drop_last()[i],
                    radix,
                ) by {
                    assert(is_digit(text[i], radix));
                }
            }
            value_of_grows(text.drop_last(), size - 1, radix);
            let front = value_of(text.drop_last(), radix);
            assert(is_digit(text[text.len() - 1], radix));
            assert(0 <= front * radix) by (nonlinear_arith)
                requires
                    0 <= front,
                    2 <= radix,
            ;
        }
    } else {
        let front = text.drop_last();
        assert forall|i: int| 0 <= i < front.len() implies is_digit(#[trigger] front[i], radix) by {
            assert(is_digit(text[i], radix));
        }
        value_of_grows(front, size, radix);
        assert(front.take(size) =~= text.take(size));
        assert(is_digit(text[text.len() - 1], radix));
        let f = value_of(front, radix);
        assert(f <= f * radix) by (nonlinear_arith)
            requires
                0 <= f,
                2 <= radix,
        ;
    }
}

/// What `decimal` writes: at least one character, and digits only.
pub proof fn decimal_is_digits(n: nat)
    ensures
        decimal(n).len() > 0,
        all_digits(decimal(n), 10),
        forall|i: int| 0 <= i < decimal(n).len() ==> '0' <= #[trigger] decimal(n)[i] <= '9',
    decreases n,
{
    if n >= 10 {
        decimal_is_digits(n / 10);
        assert forall|i: int| 0 <= i < decimal(n).len() implies is_digit(
            #[trigger] decimal(n)[i],
            10,
        ) && '0' <= decimal(n)[i] <= '9' by {
            if i < decimal(n / 10).len() {
                assert(decimal(n)[i] == decimal(n / 10)[i]);
                assert(is_digit(decimal(n / 10)[i], 10));
            }
        }
    }
}

/// Reading back what `decimal` wrote gives the number.
pub proof fn decimal_reads_back(n: nat)
    ensures
        value_of(decimal(n), 10) == n,
    decreases n,
{
    if n < 10 {
        assert(decimal(n).drop_last() =~= Seq::empty());
        reveal_with_fuel(value_of, 2);
    } else {
        decimal_reads_back(n / 10);
        value_of_push(decimal(n / 10), digit((n % 10) as int), 10);
    }
}

/// A number not above `max` survives writing and parsing.
pub proof fn decimal_parses(n: nat, max: int)
    requires
        n <= max,
    ensures
        parsed(decimal(n), 10, max) == Some(n as int),
{
    decimal_is_digits(n);
    decimal_reads_back(n);
    assert(is_digit(decimal(n)[0], 10));
    assert(without_plus(decimal(n)) == decimal(n));
}

/// Two numbers with the same digits are the same number.
pub proof fn decimal_tells_apart(a: nat, b: nat)
    requires
        decimal(a) == decimal(b),
    ensures
        a == b,
{
    decimal_reads_back(a);
    decimal_reads_back(b);
}

fn digit_char(n: u64) -> (c: char)
    requires
        n < 10,
    ensures
        c == digit(n as int),
{
    match n {
        0 => '0',
        1 => '1',
        2 => '2',
        3 => '3',
        4 => '4',
        5 => '5',
        6 => '6',
        7 => '7',
        8 => '8',
        _ => '9',
    }
}

/// Writes `n` in decimal behind `text`.
pub fn append_decimal(text: &mut String, n: u64)
    ensures
        final(text)@ == old(text)@ + decimal(n as nat),
    decreases n,
{
    if n >= 10 {
        append_decimal(text, n / 10);
    }
    let ghost front = text@;
    text.push(digit_char(n % 10));
    assert(text@ =~= old(text)@ + decimal(n as nat));
}

/// `n` in decimal.
pub fn decimal_text(n: u64) -> (text: String)
    ensures
        text@ == decimal(n as nat),
{
    let mut text = String::new();
    append_decimal(&mut text, n);
    assert(text@ =~= decimal(n as nat));
    text
}

fn value_of_digit(c: char) -> (value: Option<u64>)
    ensures
        match value {
            Some(v) => digit_value(c) == Some(v as int),
            None => digit_value(c) is None,
        },
{
    if '0' <= c && c <= '9' {
        Some(c as u64 - '0' as u64)
    } else if 'a' <= c && c <= 'f' {
        Some(c as u64 - 'a' as u64 + 10)
    } else if 'A' <= c && c <= 'F' {
        Some(c as u64 - 'A' as u64 + 10)
    } else {
        None
    }
}

/// The number not above `max` that `text` stands for in base `radix`.
pub fn parse_number(text: &Vec<char>, radix: u64, max: u64) -> (number: Option<u64>)
    requires
        2 <= radix <= 16,
    ensures
        match number {
            Some(n) => parsed(text@, radix as int, max as int) == Some(n as int),
            None => parsed(text@, radix as int, max as int) is None,
        },
{
    let mut i: usize = 0;
    if text.len() > 0 && text[0] == '+' {
        i = 1;
    }
    let ghost body = without_plus(text@);
    let ghost shift = i as int;
    if i == text.len() {
        return None;
    }
    let mut sum: u64 = 0;
    assert(body.take(0) =~= Seq::empty());
    while i < text.len()
        invariant
            shift <= i <= text@.len(),
            0 <= shift <= 1,
            body == text@.skip(shift),
            body == without_plus(text@),
            body.len() > 0,
            2 <= radix <= 16,
            all_digits(body.take(i - shift), radix as int),
            sum == value_of(body.take(i - shift), radix as int),
            sum <= max,
        decreases text@.len() - i,
    {
        let ghost done = body.take(i - shift);
        proof {
            assert(body[i - shift] == text@[i as int]);
            assert(body.take(i + 1 - shift) =~= done.push(text@[i as int]));
            value_of_push(done, text@[i as int], radix as int);
        }
        match value_of_digit(text[i]) {
            Some(v) if v < radix => {
                assert(sum as u128 * radix as u128 <= 0xffff_ffff_ffff_ffff * 16) by (nonlinear_arith)
                    requires
                        sum <= 0xffff_ffff_ffff_ffff,
                        radix <= 16,
                ;
                let next: u128 = sum as u128 * radix as u128 + v as u128;
                proof {
                    assert forall|k: int| 0 <= k < i + 1 - shift implies is_digit(
                        #[trigger] body.take(i + 1 - shift)[k],
                        radix as int,
                    ) by {
                        if k < i - shift {
                            assert(is_digit(done[k], radix as int));
                        }
                    }
                }
                if next > max as u128 {
                    proof {
                        if all_digits(body, radix as int) {
                            value_of_grows(body, i + 1 - shift, radix as int);
                        }
                    }
                    return None;
                }
                sum = next as u64;
            },
            _ => {
                assert(!is_digit(body[i - shift], radix as int));
                return None;
            },
        }
        i += 1;
    }
    assert(body.take(i - shift) =~= body);
    Some(sum)
}

/// A number above `max` is refused, though it is one.
pub proof fn larger_numbers_are_refused(n: nat, max: int)
    requires
        n > max,
    ensures
        parsed(decimal(n), 10, max) is None,
{
    decimal_is_digits(n);
    decimal_reads_back(n);
    assert(is_digit(decimal(n)[0], 10));
    assert(without_plus(decimal(n)) == decimal(n));
}

/// A text with any other character than digits, but for a plus sign in front,
/// is no number, and neither is one without digits.
pub proof fn other_texts_are_no_numbers(text: Seq<char>, radix: int, max: int, i: int)
    requires
        text.len() == 0 || {
            &&& 0 <= i < text.len()
            &&& digit_value(text[i]) is None || digit_value(text[i])->0 >= radix
            &&& text[i] == '+' ==> i > 0
        },
    ensures
        parsed(text, radix, max) is None,
{
    if text.len() > 0 {
        let body = without_plus(text);
        if text[0] == '+' && i == 0 {
            assert(body.len() == 0);
        } else if text[0] == '+' {
            assert(body[i - 1] == text[i]);
            assert(!is_digit(body[i - 1], radix));
        } else {
            assert(!is_digit(body[i], radix));
        }
    }
}

/// What is read as a number lies between nothing and `max`, and one more digit
/// makes it `radix` times as much and the digit.
pub proof fn digits_count_by_place(text: Seq<char>, c: char, radix: int, max: int)
    requires
        2 <= radix <= 16,
        parsed(text, radix, max) is Some,
        is_digit(c, radix),
    ensures
        0 <= parsed(text, radix, max)->0 <= max,
        ({
            let more = parsed(text, radix, max)->0 * radix + digit_value(c)->0;
            parsed(text.push(c), radix, max) == if more <= max {
                Some(more)
            } else {
                None
            }
        }),
{
    let body = without_plus(text);
    value_of_grows(body, body.len() as int, radix);
    assert(body.take(body.len() as int) =~= body);
    value_of_push(body, c, radix);
    let longer = text.push(c);
    assert(without_plus(longer) =~= body.push(c));
    assert forall|i: int| 0 <= i < body.push(c).len() implies is_digit(
        #[trigger] body.push(c)[i],
        radix,
    ) by {
        if i < body.len() {
            assert(is_digit(body[i], radix));
        }
    }
}

/// One digit stands for its value: the ten figures for nothing to nine, and
/// the letters, large or small, for what follows.
pub proof fn digits_have_their_value(n: int)
    requires
        0 <= n < 16,
    ensures
        n < 10 ==> parsed(seq![('0' as int + n) as char], 16, 0xffff) == Some(n),
        n >= 10 ==> parsed(seq![('a' as int + n - 10) as char], 16, 0xffff) == Some(n),
        n >= 10 ==> parsed(seq![('A' as int + n - 10) as char], 16, 0xffff) == Some(n),
{
    if n < 10 {
        one_digit_parses(('0' as int + n) as char);
    } else {
        one_digit_parses(('a' as int + n - 10) as char);
        one_digit_parses(('A' as int + n - 10) as char);
    }
}

proof fn one_digit_parses(c: char)
    requires
        is_digit(c, 16),
    ensures
        parsed(seq![c], 16, 0xffff) == digit_value(c),
{
    let text = seq![c];
    assert(text =~= Seq::empty().push(c));
    value_of_push(Seq::empty(), c, 16);
    assert(without_plus(text) =~= text);
    assert(all_digits(text, 16));
}

/// What digits spell is never below zero.
pub proof fn values_are_not_negative(text: Seq<char>, radix: int)
    requires
        2 <= radix,
    ensures
        all_digits(text, radix) ==> 0 <= value_of(text, radix),
{
    if all_digits(text, radix) {
        value_of_grows(text, text.len() as int, radix);
    }
}

} // verus!
