use rasterizer::args::{
    parse_unsigned, read_args, read_dimensions, read_fsaa, FsaaError, ParseError, MAX_FSAA,
};

#[test]
fn reads_every_field() {
    assert_eq!(read_args(&vec!["0", "12", "+3", "007"]), Ok(vec![0, 12, 3, 7]));
    assert_eq!(read_args(&Vec::new()), Ok(Vec::new()));
}

#[test]
fn reads_the_largest_index() {
    let max = usize::MAX.to_string();
    assert_eq!(read_args(&vec![max.as_str()]), Ok(vec![usize::MAX]));
}

#[test]
fn reports_the_first_field_that_is_no_number() {
    assert_eq!(read_args(&vec!["1", "", "x"]), Err(ParseError::Empty));
    assert_eq!(read_args(&vec!["1", "x", ""]), Err(ParseError::InvalidDigit));
    assert_eq!(read_args(&vec!["1", "2", "3x"]), Err(ParseError::InvalidDigit));
}

#[test]
fn rejects_signs_without_digits_and_negative_numbers() {
    assert_eq!(read_args(&vec!["+"]), Err(ParseError::InvalidDigit));
    assert_eq!(read_args(&vec!["-"]), Err(ParseError::InvalidDigit));
    assert_eq!(read_args(&vec!["-1"]), Err(ParseError::InvalidDigit));
    assert_eq!(read_args(&vec!["++1"]), Err(ParseError::InvalidDigit));
    assert_eq!(read_args(&vec!["1.5"]), Err(ParseError::InvalidDigit));
    assert_eq!(read_args(&vec!["１"]), Err(ParseError::InvalidDigit));
}

#[test]
fn rejects_numbers_that_do_not_fit() {
    assert_eq!(
        read_args(&vec!["340282366920938463463374607431768211456"]),
        Err(ParseError::Overflow)
    );
    assert_eq!(parse_unsigned("256", 255), Err(ParseError::Overflow));
    assert_eq!(parse_unsigned("255", 255), Ok(255));
    assert_eq!(parse_unsigned("9", 8), Err(ParseError::Overflow));
    assert_eq!(parse_unsigned("1", 0), Err(ParseError::Overflow));
    assert_eq!(parse_unsigned("0", 0), Ok(0));
    assert_eq!(parse_unsigned("18446744073709551615", u64::MAX), Ok(u64::MAX));
    assert_eq!(parse_unsigned("18446744073709551616", u64::MAX), Err(ParseError::Overflow));
}

#[test]
fn a_wrong_character_outweighs_the_size() {
    assert_eq!(parse_unsigned("999999999999999999999999x", 10), Err(ParseError::InvalidDigit));
    assert_eq!(parse_unsigned("", 10), Err(ParseError::Empty));
}

#[test]
fn supersampling_factor_is_one_to_eight() {
    assert_eq!(MAX_FSAA, 8);
    assert_eq!(read_fsaa("1"), Ok(1));
    assert_eq!(read_fsaa("8"), Ok(8));
    assert_eq!(read_fsaa("+4"), Ok(4));
    assert_eq!(read_fsaa("0"), Err(FsaaError::OutOfRange));
    assert_eq!(read_fsaa("9"), Err(FsaaError::OutOfRange));
    assert_eq!(read_fsaa("4294967295"), Err(FsaaError::OutOfRange));
    assert_eq!(read_fsaa("4294967296"), Err(FsaaError::NotAnInteger));
    assert_eq!(read_fsaa("2.0"), Err(FsaaError::NotAnInteger));
    assert_eq!(read_fsaa("-2"), Err(FsaaError::NotAnInteger));
    assert_eq!(read_fsaa(""), Err(FsaaError::NotAnInteger));
}

#[test]
fn dimensions_need_two_numbers() {
    assert_eq!(read_dimensions("640", "480"), Some((640, 480)));
    assert_eq!(read_dimensions("0", "4294967295"), Some((0, u32::MAX)));
    assert_eq!(read_dimensions("640", "4294967296"), None);
    assert_eq!(read_dimensions("x", "480"), None);
    assert_eq!(read_dimensions("640", "y"), None);
    assert_eq!(read_dimensions("", ""), None);
}
