//! Numbers as decimal text.

use crate::text::{chars_of, push_char};
use vstd::prelude::*;

verus! {

/// The decimal digit with the value `d`.
pub open spec fn digit(d: int) -> char {
    if d <= 0 {
        '0'
    } else if d == 1 {
        '1'
    } else if d == 2 {
        '2'
    } else if d == 3 {
        '3'
    } else if d == 4 {
        '4'
    } else if d == 5 {
        '5'
    } else if d == 6 {
        '6'
    } else if d == 7 {
        '7'
    } else if d == 8 {
        '8'
    } else {
        '9'
    }
}

/// The value of a decimal digit.
pub open spec fn digit_value(c: char) -> Option<int> {
    if c == '0' {
        Some(0)
    } else if c == '1' {
        Some(1)
    } else if c == '2' {
        Some(2)
    } else if c == '3' {
        Some(3)
    } else if c == '4' {
        Some(4)
    } else if c == '5' {
        Some(5)
    } else if c == '6' {
        Some(6)
    } else if c == '7' {
        Some(7)
    } else if c == '8' {
        Some(8)
    } else if c == '9' {
        Some(9)
    } else {
        None
    }
}

/// A number in decimal, without leading zeros.
pub open spec fn decimal(n: nat) -> Seq<char>
    decreases n,
{
    if n < 10 {
        seq![digit(n as int)]
    } else {
        decimal(n / 10).push(digit((n % 10) as int))
    }
}

fn digit_text(d: u64) -> (text: &'static str)
    requires
        d < 10,
    ensures
        text@ == seq![digit(d as int)],
{
    proof {
        reveal_strlit("0");
        reveal_strlit("1");
        reveal_strlit("2");
        reveal_strlit("3");
        reveal_strlit("4");
        reveal_strlit("5");
        reveal_strlit("6");
        reveal_strlit("7");
        reveal_strlit("8");
        reveal_strlit("9");
    }
    let text = if d == 0 {
        "0"
    } else if d == 1 {
        "1"
    } else if d == 2 {
        "2"
    } else if d == 3 {
        "3"
    } else if d == 4 {
        "4"
    } else if d == 5 {
        "5"
    } else if d == 6 {
        "6"
    } else if d == 7 {
        "7"
    } else if d == 8 {
        "8"
    } else {
        "9"
    };
    assert(text@ =~= seq![digit(d as int)]);
    text
}

/// The number in decimal.
pub fn decimal_text(n: u64) -> (text: String)
    ensures
        text@ == decimal(n as nat),
{
    wide_decimal_text(n as u128)
}

/// The number in decimal.
pub fn wide_decimal_text(n: u128) -> (text: String)
    ensures
        text@ == decimal(n as nat),
    decreases n,
{
    let mut text = if n < 10 {
        String::new()
    } else {
        wide_decimal_text(n / 10)
    };
    text.append(digit_text((n % 10) as u64));
    assert(text@ =~= decimal(n as nat));
    text
}

/// The number in decimal, with zeros in front to `width` digits.
pub open spec fn padded_decimal(n: nat, width: nat) -> Seq<char>
    decreases width,
{
    if width == 0 {
        Seq::empty()
    } else {
        padded_decimal(n / 10, (width - 1) as nat).push(digit((n % 10) as int))
    }
}

/// The last `width` digits of the number, with zeros in front.
pub fn padded_decimal_text(n: u64, width: u64) -> (text: String)
    ensures
        text@ == padded_decimal(n as nat, width as nat),
    decreases width,
{
    if width == 0 {
        return String::new();
    }
    let mut text = padded_decimal_text(n / 10, width - 1);
    text.append(digit_text(n % 10));
    assert(text@ =~= padded_decimal(n as nat, width as nat));
    text
}

/// The value of a run of digits, if it holds nothing else.
pub open spec fn digits_value(digits: Seq<char>) -> Option<nat>
    decreases digits.len(),
{
    if digits.len() == 0 {
        Some(0)
    } else {
        match (digits_value(digits.drop_last()), digit_value(digits.last())) {
            (Some(high), Some(low)) => Some((high * 10 + low) as nat),
            _ => None,
        }
    }
}

/// The digits of a number: what follows an optional plus sign.
pub open spec fn unsigned_digits(text: Seq<char>) -> Seq<char> {
    if text.len() > 0 && text[0] == '+' {
        text.skip(1)
    } else {
        text
    }
}

/// The number that a text spells: an optional plus sign, then one or more
/// digits, of a value that `usize` can hold.
pub open spec fn parsed(text: Seq<char>) -> Option<usize> {
    let digits = unsigned_digits(text);
    match digits_value(digits) {
        Some(value) => if digits.len() > 0 && value <= usize::MAX {
            Some(value as usize)
        } else {
            None
        },
        None => None,
    }
}

fn digit_of(c: char) -> (value: Option<usize>)
    ensures
        match value {
            Some(value) => digit_value(c) == Some(value as int) && value < 10,
            None => digit_value(c) is None,
        },
{
    match c {
        '0' => Some(0),
        '1' => Some(1),
        '2' => Some(2),
        '3' => Some(3),
        '4' => Some(4),
        '5' => Some(5),
        '6' => Some(6),
        '7' => Some(7),
        '8' => Some(8),
        '9' => Some(9),
        _ => None,
    }
}

proof fn lemma_digits_value_prefix(digits: Seq<char>, n: int)
    requires
        0 <= n <= digits.len(),
    ensures
        digits_value(digits.take(n)) is None ==> digits_value(digits) is None,
        digits_value(digits) matches Some(whole) ==> digits_value(digits.take(n)) matches Some(part)
            && part <= whole,
    decreases digits.len() - n,
{
    if n < digits.len() {
        lemma_digits_value_prefix(digits, n + 1);
        assert(digits.take(n + 1).drop_last() =~= digits.take(n));
    } else {
        assert(digits.take(n) =~= digits);
    }
}

/// Reads the number that characters `from` and on spell, as [`parsed`] says.
pub fn parse_usize(chars: &Vec<char>, from: usize) -> (number: Option<usize>)
    requires
        from <= chars@.len(),
    ensures
        number == parsed(chars@.skip(from as int)),
{
    let ghost text = chars@.skip(from as int);
    let mut start: usize = from;
    if from < chars.len() && chars[from] == '+' {
        start = from + 1;
    }
    let ghost digits = unsigned_digits(text);
    assert(digits =~= chars@.skip(start as int));
    if start == chars.len() {
        return None;
    }
    let mut value: usize = 0;
    let mut i: usize = start;
    assert(digits.take(0) =~= Seq::<char>::empty());
    while i < chars.len()
        invariant
            start <= i <= chars@.len(),
            start < chars@.len(),
            digits == chars@.skip(start as int),
            digits == unsigned_digits(text),
            text == chars@.skip(from as int),
            digits_value(digits.take(i - start)) == Some(value as nat),
        decreases chars@.len() - i,
    {
        proof {
            lemma_digits_value_prefix(digits, i - start + 1);
            assert(digits.take(i - start + 1).drop_last() =~= digits.take(i - start));
            assert(digits[i - start] == chars@[i as int]);
        }
        let low: usize = match digit_of(chars[i]) {
            Some(low) => low,
            None => {
                return None;
            },
        };
        if value > usize::MAX / 10 || (value == usize::MAX / 10 && low > usize::MAX % 10) {
            assert(value * 10 + low > usize::MAX);
            return None;
        }
        value = value * 10 + low;
        i = i + 1;
    }
    assert(digits.take(i - start) =~= digits);
    Some(value)
}

/// The part of a text after its last space, if it has one.
pub open spec fn after_last_space(text: Seq<char>) -> Option<Seq<char>>
    decreases text.len(),
{
    if text.len() == 0 {
        None
    } else if text.last() == ' ' {
        Some(Seq::empty())
    } else {
        match after_last_space(text.drop_last()) {
            Some(tail) => Some(tail.push(text.last())),
            None => None,
        }
    }
}

/// The number at the end of a default tab name such as `"Tab 7"`: what
/// follows the last space, where that spells a number.
pub open spec fn tab_number(name: Seq<char>) -> Option<usize> {
    match after_last_space(name) {
        Some(tail) => parsed(tail),
        None => None,
    }
}

proof fn lemma_after_last_space(text: Seq<char>, k: int)
    requires
        -1 <= k < text.len(),
        k >= 0 ==> text[k] == ' ',
        forall|i: int| k < i < text.len() ==> text[i] != ' ',
    ensures
        after_last_space(text) == if k >= 0 {
            Some(text.skip(k + 1))
        } else {
            None
        },
    decreases text.len(),
{
    if text.len() > 0 {
        if k == text.len() - 1 {
            assert(text.skip(k + 1) =~= Seq::<char>::empty());
        } else {
            let shorter = text.drop_last();
            lemma_after_last_space(shorter, k);
            if k >= 0 {
                assert(shorter.skip(k + 1).push(text.last()) =~= text.skip(k + 1));
            }
        }
    }
}

/// Extracts the trailing integer from a default-shaped tab name like
/// `"Tab 7"` or `"Summary 12"`, and nothing from any other name.
pub fn parse_tab_number(name: &str) -> (number: Option<usize>)
    ensures
        number == tab_number(name@),
{
    let chars = chars_of(name);
    let mut i: usize = chars.len();
    while i > 0
        invariant
            i <= chars@.len(),
            chars@ == name@,
            forall|k: int| i <= k < chars@.len() ==> chars@[k] != ' ',
        decreases i,
    {
        if chars[i - 1] == ' ' {
            proof {
                lemma_after_last_space(chars@, i - 1);
            }
            return parse_usize(&chars, i);
        }
        i = i - 1;
    }
    proof {
        lemma_after_last_space(chars@, -1);
    }
    None
}

/// A number written in decimal reads back as that number.
pub proof fn law_decimal_reads_back(n: nat)
    ensures
        digits_value(decimal(n)) == Some(n),
        decimal(n).len() > 0,
        n <= usize::MAX ==> parsed(decimal(n)) == Some(n as usize),
    decreases n,
{
    lemma_decimal_digits(n);
    if n < 10 {
        assert(decimal(n).drop_last() =~= Seq::<char>::empty());
        assert(digits_value(decimal(n).drop_last()) == Some(0nat));
    } else {
        law_decimal_reads_back(n / 10);
        assert(decimal(n).drop_last() =~= decimal(n / 10));
    }
    assert(unsigned_digits(decimal(n)) =~= decimal(n));
}

/// A decimal number holds digits only.
proof fn lemma_decimal_digits(n: nat)
    ensures
        decimal(n).len() > 0,
        forall|i: int|
            0 <= i < decimal(n).len() ==> digit_value(#[trigger] decimal(n)[i]) is Some
                && decimal(n)[i] != ' ',
    decreases n,
{
    if n >= 10 {
        lemma_decimal_digits(n / 10);
    }
}

/// The number of a default tab name is read back from the name, whatever
/// word stands in front of it.
pub proof fn law_default_tab_name_numbers(word: Seq<char>, n: nat)
    requires
        n <= usize::MAX,
    ensures
        tab_number(word.push(' ') + decimal(n)) == Some(n as usize),
{
    let name = word.push(' ') + decimal(n);
    lemma_decimal_digits(n);
    law_decimal_reads_back(n);
    lemma_after_last_space(name, word.len() as int);
    assert(name.skip(word.len() as int + 1) =~= decimal(n));
}

/// The hexadecimal digit with the value `d`.
pub open spec fn hex_digit(d: int) -> char {
    if d < 10 {
        digit(d)
    } else if d == 10 {
        'a'
    } else if d == 11 {
        'b'
    } else if d == 12 {
        'c'
    } else if d == 13 {
        'd'
    } else if d == 14 {
        'e'
    } else {
        'f'
    }
}

/// The value of a hexadecimal digit, in either case.
pub open spec fn hex_digit_value(c: char) -> Option<int> {
    if c == 'a' || c == 'A' {
        Some(10)
    } else if c == 'b' || c == 'B' {
        Some(11)
    } else if c == 'c' || c == 'C' {
        Some(12)
    } else if c == 'd' || c == 'D' {
        Some(13)
    } else if c == 'e' || c == 'E' {
        Some(14)
    } else if c == 'f' || c == 'F' {
        Some(15)
    } else {
        digit_value(c)
    }
}

/// The last `width` hexadecimal digits of a number, with zeros in front.
pub open spec fn hex(n: nat, width: nat) -> Seq<char>
    decreases width,
{
    if width == 0 {
        Seq::empty()
    } else {
        hex(n / 16, (width - 1) as nat).push(hex_digit((n % 16) as int))
    }
}

/// The value of a run of hexadecimal digits, if it holds nothing else.
pub open spec fn hex_value(digits: Seq<char>) -> Option<nat>
    decreases digits.len(),
{
    if digits.len() == 0 {
        Some(0)
    } else {
        match (hex_value(digits.drop_last()), hex_digit_value(digits.last())) {
            (Some(high), Some(low)) => Some((high * 16 + low) as nat),
            _ => None,
        }
    }
}

pub(crate) proof fn lemma_powers_of_16()
    ensures
        vstd::arithmetic::power::pow(16, 8) == 0x1_0000_0000int,
        vstd::arithmetic::power::pow(16, 16) == 0x1_0000_0000_0000_0000int,
{
    reveal_with_fuel(vstd::arithmetic::power::pow, 9);
    assert(vstd::arithmetic::power::pow(16, 8) == 0x1_0000_0000int);
    vstd::arithmetic::power::lemma_pow_adds(16, 8, 8);
}

pub(crate) proof fn lemma_hex_len(n: nat, width: nat)
    ensures
        hex(n, width).len() == width,
    decreases width,
{
    if width > 0 {
        lemma_hex_len(n / 16, (width - 1) as nat);
    }
}

pub(crate) proof fn lemma_hex_value_bound(digits: Seq<char>)
    ensures
        hex_value(digits) matches Some(n) ==> n < vstd::arithmetic::power::pow(
            16,
            digits.len(),
        ),
    decreases digits.len(),
{
    reveal(vstd::arithmetic::power::pow);
    if digits.len() > 0 {
        lemma_hex_value_bound(digits.drop_last());
    }
}

pub(crate) proof fn lemma_hex_reads_back(n: nat, width: nat)
    requires
        n < vstd::arithmetic::power::pow(16, width),
    ensures
        hex(n, width).len() == width,
        hex_value(hex(n, width)) == Some(n),
    decreases width,
{
    reveal(vstd::arithmetic::power::pow);
    if width > 0 {
        lemma_hex_reads_back(n / 16, (width - 1) as nat);
        assert(hex(n, width).drop_last() =~= hex(n / 16, (width - 1) as nat));
    }
}

fn push_hex_digit(text: &mut String, d: u128)
    requires
        d < 16,
    ensures
        final(text)@ == old(text)@.push(hex_digit(d as int)),
{
    if d < 10 {
        text.append(digit_text(d as u64));
        assert(text@ =~= old(text)@.push(hex_digit(d as int)));
    } else if d == 10 {
        push_char(text, 'a');
    } else if d == 11 {
        push_char(text, 'b');
    } else if d == 12 {
        push_char(text, 'c');
    } else if d == 13 {
        push_char(text, 'd');
    } else if d == 14 {
        push_char(text, 'e');
    } else {
        push_char(text, 'f');
    }
}

/// The last `width` hexadecimal digits of the number, with zeros in front.
pub fn hex_text(n: u128, width: u64) -> (text: String)
    ensures
        text@ == hex(n as nat, width as nat),
    decreases width,
{
    if width == 0 {
        return String::new();
    }
    let mut text = hex_text(n / 16, width - 1);
    push_hex_digit(&mut text, n % 16);
    text
}

fn hex_digit_of(c: char) -> (value: Option<u128>)
    ensures
        match value {
            Some(d) => hex_digit_value(c) == Some(d as int) && d < 16,
            None => hex_digit_value(c) is None,
        },
{
    if c == 'a' || c == 'A' {
        Some(10)
    } else if c == 'b' || c == 'B' {
        Some(11)
    } else if c == 'c' || c == 'C' {
        Some(12)
    } else if c == 'd' || c == 'D' {
        Some(13)
    } else if c == 'e' || c == 'E' {
        Some(14)
    } else if c == 'f' || c == 'F' {
        Some(15)
    } else if c == '0' {
        Some(0)
    } else if c == '1' {
        Some(1)
    } else if c == '2' {
        Some(2)
    } else if c == '3' {
        Some(3)
    } else if c == '4' {
        Some(4)
    } else if c == '5' {
        Some(5)
    } else if c == '6' {
        Some(6)
    } else if c == '7' {
        Some(7)
    } else if c == '8' {
        Some(8)
    } else if c == '9' {
        Some(9)
    } else {
        None
    }
}

/// The number that hexadecimal digits spell.
pub fn parse_hex(chars: &Vec<char>) -> (number: Option<u128>)
    requires
        chars@.len() <= 16,
    ensures
        match number {
            Some(n) => hex_value(chars@) == Some(n as nat),
            None => hex_value(chars@) is None,
        },
{
    let mut number: u128 = 0;
    let mut i: usize = 0;
    proof {
        lemma_powers_of_16();
    }
    while i < chars.len()
        invariant
            i <= chars@.len() <= 16,
            hex_value(chars@.take(i as int)) == Some(number as nat),
            vstd::arithmetic::power::pow(16, 16) == 0x1_0000_0000_0000_0000,
        decreases chars@.len() - i,
    {
        proof {
            lemma_hex_value_bound(chars@.take(i as int));
            vstd::arithmetic::power::lemma_pow_increases(16, i as nat, 16);
            assert(chars@.take(i + 1).drop_last() =~= chars@.take(i as int));
        }
        match hex_digit_of(chars[i]) {
            Some(d) => {
                number = number * 16 + d;
            },
            None => {
                proof {
                    lemma_bad_hex_digit(chars@, i as int);
                }
                return None;
            },
        }
        i = i + 1;
    }
    assert(chars@.take(i as int) =~= chars@);
    Some(number)
}

proof fn lemma_bad_hex_digit(digits: Seq<char>, i: int)
    requires
        0 <= i < digits.len(),
        hex_digit_value(digits[i]) is None,
    ensures
        hex_value(digits) is None,
    decreases digits.len(),
{
    if i < digits.len() - 1 {
        lemma_bad_hex_digit(digits.drop_last(), i);
    }
}

/// Numbers are written in tens, the last digit the ones.
pub proof fn law_numbers_are_written_in_tens(n: nat)
    ensures
        n < 10 ==> decimal(n) == seq![('0' as int + n) as char],
        n >= 10 ==> decimal(n) == decimal(n / 10).push(('0' as int + n % 10) as char),
{
    let d = (if n < 10 {
        n
    } else {
        n % 10
    }) as int;
    assert(digit(d) == ('0' as int + d) as char);
}

/// A number padded to a width has that many digits, the last the ones.
pub proof fn law_padded_numbers_have_their_width(n: nat, width: nat)
    ensures
        padded_decimal(n, width).len() == width,
        width > 0 ==> padded_decimal(n, width).last() == ('0' as int + n % 10) as char,
        width > 0 ==> padded_decimal(n, width).drop_last() == padded_decimal(
            n / 10,
            (width - 1) as nat,
        ),
    decreases width,
{
    if width > 0 {
        law_padded_numbers_have_their_width(n / 10, (width - 1) as nat);
        let rest = padded_decimal(n / 10, (width - 1) as nat);
        assert(padded_decimal(n, width).drop_last() =~= rest);
        assert(digit((n % 10) as int) == ('0' as int + n % 10) as char);
    }
}

/// Numbers in hexadecimal have small letters and the width asked for, the last
/// digit the ones.
pub proof fn law_hexadecimal_is_written_in_sixteens(n: nat, width: nat)
    ensures
        hex(n, width).len() == width,
        width > 0 ==> hex(n, width).last() == (if n % 16 < 10 {
            '0' as int + n % 16
        } else {
            'a' as int + n % 16 - 10
        }) as char,
        width > 0 ==> hex(n, width).drop_last() == hex(n / 16, (width - 1) as nat),
{
    lemma_hex_len(n, width);
    if width > 0 {
        assert(hex(n, width).drop_last() =~= hex(n / 16, (width - 1) as nat));
        let d = (n % 16) as int;
        assert(hex_digit(d) == (if d < 10 {
            '0' as int + d
        } else {
            'a' as int + d - 10
        }) as char);
    }
}

proof fn lemma_digits_only(digits: Seq<char>)
    ensures
        digits_value(digits) is Some <==> forall|i: int|
            0 <= i < digits.len() ==> '0' <= #[trigger] digits[i] <= '9',
    decreases digits.len(),
{
    if digits.len() > 0 {
        let shorter = digits.drop_last();
        lemma_digits_only(shorter);
        let last = digits.len() - 1;
        assert(digit_value(digits[last]) is Some <==> '0' <= digits[last] <= '9');
        if digits_value(digits) is Some {
            assert forall|i: int| 0 <= i < digits.len() implies '0' <= #[trigger] digits[i]
                <= '9' by {
                if i < last {
                    assert(digits[i] == shorter[i]);
                }
            }
        }
        if forall|i: int| 0 <= i < digits.len() ==> '0' <= #[trigger] digits[i] <= '9' {
            assert forall|i: int| 0 <= i < shorter.len() implies '0' <= #[trigger] shorter[i]
                <= '9' by {
                assert(digits[i] == shorter[i]);
            }
        }
    }
}

/// What reads as a number is digits, at least one, perhaps with a plus sign in
/// front.
pub proof fn law_numbers_are_digits(text: Seq<char>)
    ensures
        parsed(text) is Some ==> text.len() > 0 && '0' <= text.last() <= '9',
        parsed(text) is Some ==> forall|i: int|
            0 <= i < text.len() ==> '0' <= #[trigger] text[i] <= '9' || (i == 0 && text[i] == '+'),
{
    lemma_digits_only(unsigned_digits(text));
    if parsed(text) is Some {
        let digits = unsigned_digits(text);
        assert(digits[digits.len() - 1] == text.last());
        assert forall|i: int| 0 <= i < text.len() implies '0' <= #[trigger] text[i] <= '9' || (i
            == 0 && text[i] == '+') by {
            if text[0] != '+' {
                assert(digits[i] == text[i]);
            } else if i > 0 {
                assert(digits[i - 1] == text[i]);
            }
        }
    }
}

} // verus!
