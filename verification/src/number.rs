//! Numbers in text: the numerals that the command line takes, and decimal
//! numerals for output.

use vstd::prelude::*;

verus! {

/// Why a text is no number.
#[derive(Clone, Copy, Debug, PartialEq, Eq, Structural)]
pub enum NumberError {
    /// There is nothing in it.
    Empty,
    /// It holds a character that is no digit.
    InvalidDigit,
    /// The number is larger than the target can hold.
    Overflow,
}

impl NumberError {
    /// The words for the error.
    pub open spec fn words(self) -> Seq<char> {
        match self {
            NumberError::Empty => "cannot parse integer from empty string"@,
            NumberError::InvalidDigit => "invalid digit found in string"@,
            NumberError::Overflow => "number too large to fit in target type"@,
        }
    }

    /// The words for the error.
    pub fn message(self) -> (text: &'static str)
        ensures
            text@ == self.words(),
    {
        match self {
            NumberError::Empty => "cannot parse integer from empty string",
            NumberError::InvalidDigit => "invalid digit found in string",
            NumberError::Overflow => "number too large to fit in target type",
        }
    }
}

/// The digit that a character stands for, upper and lower case alike.
pub open spec fn digit_of(c: char, radix: int) -> Option<int> {
    let code = c as int;
    let digit = if '0' <= c <= '9' {
        code - '0' as int
    } else if 'a' <= c <= 'z' {
        code - 'a' as int + 10
    } else if 'A' <= c <= 'Z' {
        code - 'A' as int + 10
    } else {
        radix
    };
    if digit < radix {
        Some(digit)
    } else {
        None
    }
}

/// Reading digits from the left, as far as the first fault.
pub open spec fn read_digits(text: Seq<char>, radix: int, max: int) -> Result<int, NumberError>
    decreases text.len(),
{
    if text.len() == 0 {
        Ok(0)
    } else {
        match read_digits(text.drop_last(), radix, max) {
            Err(e) => Err(e),
            Ok(value) => match digit_of(text.last(), radix) {
                None => Err(NumberError::InvalidDigit),
                Some(digit) => if value * radix + digit > max {
                    Err(NumberError::Overflow)
                } else {
                    Ok(value * radix + digit)
                },
            },
        }
    }
}

/// Reading a number of at most `max`: digits, which one plus sign may precede.
pub open spec fn read_number(text: Seq<char>, radix: int, max: int) -> Result<int, NumberError> {
    if text.len() == 0 {
        Err(NumberError::Empty)
    } else if text[0] == '+' {
        if text.len() == 1 {
            Err(NumberError::InvalidDigit)
        } else {
            read_digits(text.skip(1), radix, max)
        }
    } else {
        read_digits(text, radix, max)
    }
}

/// The characters of a string.
pub fn chars_of(s: &str) -> (text: Vec<char>)
    ensures
        text@ == s@,
{
    let mut text: Vec<char> = Vec::new();
    for c in it: s.chars()
        invariant
            it.seq() == s@,
            text@ == it.seq().take(it.index() as int),
    {
        text.push(c);
    }
    text
}

fn digit(c: char, radix: u64) -> (d: Option<u64>)
    requires
        radix <= 36,
    ensures
        match d {
            Some(value) => digit_of(c, radix as int) == Some(value as int),
            None => digit_of(c, radix as int) is None,
        },
{
    let code: u64 = c as u64;
    let value: u64 = if '0' <= c && c <= '9' {
        code - 48
    } else if 'a' <= c && c <= 'z' {
        code - 97 + 10
    } else if 'A' <= c && c <= 'Z' {
        code - 65 + 10
    } else {
        radix
    };
    if value < radix {
        Some(value)
    } else {
        None
    }
}

/// A fault in the first digits is the fault of the whole.
proof fn lemma_fault_stays(text: Seq<char>, radix: int, max: int, k: int)
    requires
        0 <= k <= text.len(),
        read_digits(text.take(k), radix, max) is Err,
    ensures
        read_digits(text, radix, max) == read_digits(text.take(k), radix, max),
    decreases text.len() - k,
{
    if k == text.len() {
        assert(text.take(k) =~= text);
    } else {
        assert(text.take(k + 1).drop_last() =~= text.take(k));
        lemma_fault_stays(text, radix, max, k + 1);
    }
}

fn parse_digits(text: &[char], radix: u64, max: u64) -> (result: Result<u64, NumberError>)
    requires
        radix <= 36,
    ensures
        match result {
            Ok(value) => value <= max && read_digits(text@, radix as int, max as int) == Ok::<
                int,
                NumberError,
            >(value as int),
            Err(e) => read_digits(text@, radix as int, max as int) == Err::<int, NumberError>(e),
        },
{
    let n: usize = text.len();
    let mut value: u64 = 0;
    let mut i: usize = 0;
    while i < n
        invariant
            i <= n == text@.len(),
            radix <= 36,
            value <= max,
            read_digits(text@.take(i as int), radix as int, max as int) == Ok::<int, NumberError>(
                value as int,
            ),
        decreases n - i,
    {
        proof {
            assert(text@.take(i + 1).drop_last() =~= text@.take(i as int));
            assert(value * radix <= u64::MAX * 36) by (nonlinear_arith)
                requires
                    value <= u64::MAX,
                    radix <= 36,
            ;
        }
        match digit(text[i], radix) {
            None => {
                proof {
                    lemma_fault_stays(text@, radix as int, max as int, i + 1);
                }
                return Err(NumberError::InvalidDigit);
            },
            Some(d) => {
                let wide: u128 = value as u128 * radix as u128 + d as u128;
                if wide > max as u128 {
                    proof {
                        lemma_fault_stays(text@, radix as int, max as int, i + 1);
                    }
                    return Err(NumberError::Overflow);
                }
                value = wide as u64;
            },
        }
        i += 1;
    }
    proof {
        assert(text@.take(n as int) =~= text@);
    }
    Ok(value)
}

/// Read an unsigned number of at most `max`.
pub fn parse_number(text: &[char], radix: u64, max: u64) -> (result: Result<u64, NumberError>)
    requires
        radix <= 36,
    ensures
        match result {
            Ok(value) => value <= max && read_number(text@, radix as int, max as int) == Ok::<
                int,
                NumberError,
            >(value as int),
            Err(e) => read_number(text@, radix as int, max as int) == Err::<int, NumberError>(e),
        },
{
    let n: usize = text.len();
    if n == 0 {
        return Err(NumberError::Empty);
    }
    if text[0] == '+' {
        if n == 1 {
            return Err(NumberError::InvalidDigit);
        }
        proof {
            assert(text@.subrange(1, n as int) =~= text@.skip(1));
        }
        return parse_digits(vstd::slice::slice_subrange(text, 1, n), radix, max);
    }
    parse_digits(text, radix, max)
}

/// A hexadecimal numeral without the `0x` or `0X` that may precede it.
pub open spec fn without_prefix(text: Seq<char>) -> Seq<char> {
    if text.len() >= 2 && text[0] == '0' && (text[1] == 'x' || text[1] == 'X') {
        text.skip(2)
    } else {
        text
    }
}

/// What a text says as a 32-bit hexadecimal number.
pub open spec fn read_u32_hex(text: Seq<char>) -> Result<int, NumberError> {
    read_number(without_prefix(text), 16, u32::MAX as int)
}

/// Read a 32-bit number in hexadecimal, with or without `0x` in front.
pub fn parse_u32_hex(s: &str) -> (result: Result<u32, String>)
    ensures
        match result {
            Ok(value) => read_u32_hex(s@) == Ok::<int, NumberError>(value as int),
            Err(message) => read_u32_hex(s@) matches Err(e) && message@ == "expected hex u32: "@
                + e.words(),
        },
{
    let text: Vec<char> = chars_of(s);
    let n: usize = text.len();
    let from: usize = if n >= 2 && text[0] == '0' && (text[1] == 'x' || text[1] == 'X') {
        2
    } else {
        0
    };
    proof {
        assert(text@.subrange(from as int, n as int) =~= without_prefix(text@));
    }
    match parse_number(
        vstd::slice::slice_subrange(text.as_slice(), from, n),
        16,
        u32::MAX as u64,
    ) {
        Ok(value) => Ok(value as u32),
        Err(e) => Err("expected hex u32: ".to_string().concat(e.message())),
    }
}

/// The character of a decimal digit.
pub open spec fn digit_char(d: int) -> char {
    ('0' as int + d) as char
}

/// The decimal numeral of `n`, without leading zeros.
pub open spec fn decimal(n: nat) -> Seq<char>
    decreases n,
{
    if n < 10 {
        seq![digit_char(n as int)]
    } else {
        decimal(n / 10).push(digit_char((n % 10) as int))
    }
}

fn digit_text(d: u64) -> (text: &'static str)
    requires
        d < 10,
    ensures
        text@ == seq![digit_char(d as int)],
{
    proof {
        reveal_strlit("0");
        reveal_strlit("1");
        reveal_strlit("2");
        reveal_strlit("3");
        reveal_strlit("4");
        reveal_strlit("5");
        reveal_strlit("6");
        reveal_strlit("7");
        reveal_strlit("8");
        reveal_strlit("9");
    }
    match d {
        0 => "0",
        1 => "1",
        2 => "2",
        3 => "3",
        4 => "4",
        5 => "5",
        6 => "6",
        7 => "7",
        8 => "8",
        _ => "9",
    }
}

/// Write `n` in decimal.
pub fn to_decimal(n: u64) -> (text: String)
    ensures
        text@ == decimal(n as nat),
    decreases n,
{
    let mut text: String = if n < 10 { String::new() } else { to_decimal(n / 10) };
    text.append(digit_text(n % 10));
    assert(text@ =~= decimal(n as nat));
    text
}

/// Whether every character is a digit.
pub open spec fn all_digits(text: Seq<char>, radix: int) -> bool {
    forall|i: int| 0 <= i < text.len() ==> digit_of(#[trigger] text[i], radix) is Some
}

/// The number that digits spell in their positions.
pub open spec fn numeral(text: Seq<char>, radix: int) -> int
    decreases text.len(),
{
    if text.len() == 0 {
        0
    } else {
        numeral(text.drop_last(), radix) * radix + digit_of(text.last(), radix)->0
    }
}

proof fn lemma_digits_read(text: Seq<char>, radix: int, max: int)
    requires
        radix >= 1,
        max >= 0,
    ensures
        read_digits(text, radix, max) is Ok <==> all_digits(text, radix) && numeral(text, radix)
            <= max,
        read_digits(text, radix, max) matches Ok(value) ==> value == numeral(text, radix),
        all_digits(text, radix) ==> numeral(text, radix) >= 0,
    decreases text.len(),
{
    if text.len() > 0 {
        let before = text.drop_last();
        lemma_digits_read(before, radix, max);
        if all_digits(text, radix) {
            assert forall|i: int| 0 <= i < before.len() implies digit_of(
                #[trigger] before[i],
                radix,
            ) is Some by {
                assert(before[i] == text[i]);
            }
            let high = numeral(before, radix);
            assert(digit_of(text[text.len() - 1], radix) is Some);
            assert(high * radix >= high) by (nonlinear_arith)
                requires
                    high >= 0,
                    radix >= 1,
            ;
        } else if all_digits(before, radix) {
            if digit_of(text.last(), radix) is Some {
                assert forall|i: int| 0 <= i < text.len() implies digit_of(
                    #[trigger] text[i],
                    radix,
                ) is Some by {
                    if i < before.len() {
                        assert(before[i] == text[i]);
                    }
                }
            }
        }
    }
}

/// A text is accepted exactly when it is one or more digits, after one
/// optional plus sign, that spell a number within the limit, and that number
/// is what is read.
pub proof fn law_numbers_accepted(text: Seq<char>, radix: int, max: int)
    requires
        1 <= radix <= 36,
        max >= 0,
    ensures
        ({
            let digits = if text.len() > 0 && text[0] == '+' { text.skip(1) } else { text };
            let accepted = digits.len() > 0 && all_digits(digits, radix) && numeral(digits, radix)
                <= max;
            &&& read_number(text, radix, max) is Ok <==> accepted
            &&& accepted ==> read_number(text, radix, max) == Ok::<int, NumberError>(
                numeral(digits, radix),
            )
        }),
{
    let digits = if text.len() > 0 && text[0] == '+' { text.skip(1) } else { text };
    lemma_digits_read(digits, radix, max);
}

/// The digits are `0` to `9` and then the letters of the alphabet in either
/// case, as far as the radix goes, and nothing else is one.
pub proof fn law_digits(c: char, radix: int)
    requires
        0 <= radix <= 36,
    ensures
        48 <= c as int <= 57 && c as int - 48 < radix ==> digit_of(c, radix) == Some(c as int - 48),
        65 <= c as int <= 90 && c as int - 55 < radix ==> digit_of(c, radix) == Some(c as int - 55),
        97 <= c as int <= 122 && c as int - 87 < radix ==> digit_of(c, radix) == Some(
            c as int - 87,
        ),
        digit_of(c, radix) is Some ==> {
            ||| 48 <= c as int <= 57 && c as int - 48 < radix
            ||| 65 <= c as int <= 90 && c as int - 55 < radix
            ||| 97 <= c as int <= 122 && c as int - 87 < radix
        },
{
}

/// The shortest texts: nothing is no number, a sign alone is none, and one
/// character is a number where it is a digit within the limit. A plus sign in
/// front of it changes nothing.
pub proof fn law_short_numbers(c: char, radix: int, max: int)
    requires
        1 <= radix <= 36,
        max >= 0,
    ensures
        read_number(Seq::empty(), radix, max) == Err::<int, NumberError>(NumberError::Empty),
        read_number(seq!['+'], radix, max) == Err::<int, NumberError>(NumberError::InvalidDigit),
        read_number(seq!['+', c], radix, max) == match digit_of(c, radix) {
            None => Err(NumberError::InvalidDigit),
            Some(d) => if d <= max {
                Ok(d)
            } else {
                Err(NumberError::Overflow)
            },
        },
        c != '+' ==> read_number(seq![c], radix, max) == read_number(seq!['+', c], radix, max),
{
    reveal_with_fuel(read_digits, 2);
    assert(0 * radix == 0) by (nonlinear_arith);
    assert(seq!['+', c].skip(1) =~= seq![c]);
    assert(seq![c].drop_last() =~= Seq::<char>::empty());
}

/// One more digit at the end of a number multiplies it by the radix and adds
/// the digit. Any other character, or a number beyond the limit, is a fault,
/// and whatever follows a fault does not change it.
pub proof fn law_one_more_digit(text: Seq<char>, c: char, radix: int, max: int)
    requires
        text.len() > 0,
        text != seq!['+'],
    ensures
        read_number(text.push(c), radix, max) == match read_number(text, radix, max) {
            Err(e) => Err(e),
            Ok(value) => match digit_of(c, radix) {
                None => Err(NumberError::InvalidDigit),
                Some(d) => if value * radix + d <= max {
                    Ok(value * radix + d)
                } else {
                    Err(NumberError::Overflow)
                },
            },
        },
{
    let more = text.push(c);
    if text[0] == '+' {
        if text.len() == 1 {
            assert(text =~= seq!['+']);
        }
        assert(more.skip(1).drop_last() =~= text.skip(1));
    } else {
        assert(more.drop_last() =~= text);
    }
}

/// What the laws say of reading numbers holds of the function that reads them,
/// which takes any text.
pub proof fn law_number_called(
    text: &[char],
    radix: u64,
    max: u64,
    result: Result<u64, NumberError>,
)
    requires
        call_ensures(parse_number, (text, radix, max), result),
    ensures
        radix <= 36 ==> call_requires(parse_number, (text, radix, max)),
        read_number(text@, radix as int, max as int) == match result {
            Ok(value) => Ok(value as int),
            Err(e) => Err(e),
        },
{
}

/// Upper and lower case digits may be mixed: texts that differ in nothing else
/// are read alike.
pub proof fn law_case_ignored(a: Seq<char>, b: Seq<char>, radix: int, max: int)
    requires
        a.len() == b.len(),
        forall|i: int|
            0 <= i < a.len() ==> digit_of(#[trigger] a[i], radix) == digit_of(b[i], radix),
    ensures
        read_digits(a, radix, max) == read_digits(b, radix, max),
    decreases a.len(),
{
    if a.len() > 0 {
        assert forall|i: int| 0 <= i < a.len() - 1 implies digit_of(
            #[trigger] a.drop_last()[i],
            radix,
        ) == digit_of(b.drop_last()[i], radix) by {
            assert(a[i] == a.drop_last()[i]);
        }
        law_case_ignored(a.drop_last(), b.drop_last(), radix, max);
        assert(digit_of(a[a.len() - 1], radix) == digit_of(b[b.len() - 1], radix));
    }
}

/// A hexadecimal number reads the same with `0x` or `0X` in front as without,
/// unless it has such a prefix already.
pub proof fn law_prefix_optional(text: Seq<char>, x: char)
    requires
        x == 'x' || x == 'X',
        without_prefix(text) == text,
    ensures
        read_u32_hex(seq!['0', x] + text) == read_u32_hex(text),
{
    assert((seq!['0', x] + text).skip(2) =~= text);
}

/// The words for the faults, and the characters of a text as they stand in it.
pub proof fn law_words_called(e: NumberError, words: &'static str, s: &str, chars: Vec<char>)
    requires
        call_ensures(NumberError::message, (e,), words),
        call_ensures(chars_of, (s,), chars),
    ensures
        call_requires(NumberError::message, (e,)),
        call_requires(chars_of, (s,)),
        words@ == match e {
            NumberError::Empty => "cannot parse integer from empty string"@,
            NumberError::InvalidDigit => "invalid digit found in string"@,
            NumberError::Overflow => "number too large to fit in target type"@,
        },
        chars@ == s@,
{
}

/// With `0x` or `0X` in front, what follows is read as a hexadecimal number of
/// up to 32 bits, and without it the whole text is.
pub proof fn law_hex_prefix(text: Seq<char>, x: char)
    requires
        x == 'x' || x == 'X',
    ensures
        read_u32_hex(seq!['0', x] + text) == read_number(text, 16, 0xffff_ffff),
        !(text.len() >= 2 && text[0] == '0' && (text[1] == 'x' || text[1] == 'X'))
            ==> read_u32_hex(text) == read_number(text, 16, 0xffff_ffff),
{
    assert((seq!['0', x] + text).skip(2) =~= text);
}

/// What the laws say of hexadecimal numbers holds of the function that reads
/// them. It takes any text, and tells a fault in words.
pub proof fn law_hex_called(s: &str, result: Result<u32, String>)
    requires
        call_ensures(parse_u32_hex, (s,), result),
    ensures
        call_requires(parse_u32_hex, (s,)),
        match read_u32_hex(s@) {
            Ok(value) => result matches Ok(v) && v == value,
            Err(e) => result matches Err(message) && message@ == "expected hex u32: "@ + match e {
                NumberError::Empty => "cannot parse integer from empty string"@,
                NumberError::InvalidDigit => "invalid digit found in string"@,
                NumberError::Overflow => "number too large to fit in target type"@,
            },
        },
{
}

proof fn lemma_decimal_digits(n: nat)
    ensures
        decimal(n).len() > 0,
        all_digits(decimal(n), 10),
        numeral(decimal(n), 10) == n,
        decimal(n)[0] != '+',
    decreases n,
{
    let text = decimal(n);
    let d = digit_char((n % 10) as int);
    assert(digit_of(d, 10) == Some((n % 10) as int));
    if n < 10 {
        reveal_with_fuel(numeral, 2);
    } else {
        lemma_decimal_digits(n / 10);
        assert(text.drop_last() =~= decimal(n / 10));
        assert forall|i: int| 0 <= i < text.len() implies digit_of(
            #[trigger] text[i],
            10,
        ) is Some by {
            if i < text.len() - 1 {
                assert(decimal(n / 10)[i] == text[i]);
            }
        }
        assert(text[0] == decimal(n / 10)[0]);
    }
}

/// A number that is written in decimal reads back as itself.
pub proof fn law_decimal_reads_back(n: nat, max: int)
    requires
        n <= max,
    ensures
        read_number(decimal(n), 10, max) == Ok::<int, NumberError>(n as int),
{
    lemma_decimal_digits(n);
    law_numbers_accepted(decimal(n), 10, max);
}

/// A number is written in decimal with the characters `0` to `9` alone, and
/// with no zero in front but for zero itself.
pub proof fn law_decimal_form(n: nat)
    ensures
        decimal(n).len() > 0,
        forall|i: int| 0 <= i < decimal(n).len() ==> '0' <= #[trigger] decimal(n)[i] <= '9',
        decimal(n)[0] == '0' ==> n == 0 && decimal(n) == seq!['0'],
    decreases n,
{
    if n >= 10 {
        law_decimal_form(n / 10);
        let high = decimal(n / 10);
        assert forall|i: int| 0 <= i < decimal(n).len() implies '0' <= #[trigger] decimal(n)[i]
            <= '9' by {
            if i < high.len() {
                assert(decimal(n)[i] == high[i]);
            }
        }
        assert(decimal(n)[0] == high[0]);
    }
}

/// What the laws say of decimal numerals holds of the function that writes
/// them, which takes any number.
pub proof fn law_decimal_called(n: u64, text: String)
    requires
        call_ensures(to_decimal, (n,), text),
    ensures
        call_requires(to_decimal, (n,)),
        text@ == decimal(n as nat),
        read_number(text@, 10, n as int) == Ok::<int, NumberError>(n as int),
{
    law_decimal_reads_back(n as nat, n as int);
}

} // verus!
