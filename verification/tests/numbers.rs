use aegis_harness::number::{chars_of, parse_number, parse_u32_hex, to_decimal, NumberError};

const TEXTS: [&str; 30] = [
    "", "+", "-", "++1", "+-1", "-1", "0", "+0", "7", "9", "a", "F", "fF", "g", "G", "z", " 1",
    "1 ", "1_0", "00000000000000000000000000012", "4294967295", "4294967296", "ffffffff",
    "100000000", "fffffffffz", "ffffffffz", "18446744073709551615", "18446744073709551616",
    "99999999999999999999x", "\u{e9}5",
];

fn words(radix: u32, text: &str) -> Result<u32, String> {
    u32::from_str_radix(text, radix).map_err(|e| e.to_string())
}

#[test]
fn numbers_read_as_the_standard_library_reads_them() {
    for text in TEXTS {
        for radix in [10u32, 16] {
            let got = parse_number(&chars_of(text), radix as u64, u32::MAX as u64)
                .map(|value| value as u32)
                .map_err(|e| e.message().to_string());
            assert_eq!(got, words(radix, text));
        }
        let got = parse_number(&chars_of(text), 10, u64::MAX).map_err(|e| e.message().to_string());
        assert_eq!(got, text.parse::<u64>().map_err(|e| e.to_string()));
        let got = parse_number(&chars_of(text), 10, usize::MAX as u64)
            .map(|value| value as usize)
            .map_err(|e| e.message().to_string());
        assert_eq!(got, text.parse::<usize>().map_err(|e| e.to_string()));
    }
}

#[test]
fn hex_numbers_with_and_without_prefix() {
    assert_eq!(parse_u32_hex("0x00000001"), Ok(1));
    assert_eq!(parse_u32_hex("0XdeadBEEF"), Ok(0xdead_beef));
    assert_eq!(parse_u32_hex("deadbeef"), Ok(0xdead_beef));
    assert_eq!(parse_u32_hex("ffffffff"), Ok(u32::MAX));
    assert_eq!(parse_u32_hex("0x+10"), Ok(16));
    assert_eq!(parse_u32_hex("0"), Ok(0));
}

#[test]
fn hex_errors_have_their_words() {
    let empty = "expected hex u32: cannot parse integer from empty string";
    let digit = "expected hex u32: invalid digit found in string";
    let large = "expected hex u32: number too large to fit in target type";
    assert_eq!(parse_u32_hex(""), Err(empty.to_string()));
    assert_eq!(parse_u32_hex("0x"), Err(empty.to_string()));
    assert_eq!(parse_u32_hex("0x0x1"), Err(digit.to_string()));
    assert_eq!(parse_u32_hex("x1"), Err(digit.to_string()));
    assert_eq!(parse_u32_hex("+"), Err(digit.to_string()));
    assert_eq!(parse_u32_hex("0x100000000"), Err(large.to_string()));
}

#[test]
fn each_kind_of_error() {
    assert_eq!(parse_number(&[], 10, 9), Err(NumberError::Empty));
    assert_eq!(parse_number(&['x'], 10, 9), Err(NumberError::InvalidDigit));
    assert_eq!(parse_number(&['1', '0'], 10, 9), Err(NumberError::Overflow));
    assert_eq!(parse_number(&['9'], 10, 9), Ok(9));
}

#[test]
fn decimal_reads_back() {
    for n in [0u64, 1, 9, 10, 99, 100, 65535, 1234567890, u64::MAX] {
        assert_eq!(to_decimal(n), n.to_string());
        assert_eq!(parse_number(&chars_of(&to_decimal(n)), 10, u64::MAX), Ok(n));
    }
}

#[test]
fn case_of_digits_does_not_matter() {
    assert_eq!(parse_u32_hex("0xAbCdEf"), parse_u32_hex("0XaBcDeF"));
    assert_eq!(parse_u32_hex("0xAbCdEf"), Ok(0x00ab_cdef));
}
