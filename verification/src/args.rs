//! Reading the unsigned integer arguments of a scene command: indices,
//! image dimensions and the supersampling factor.

use vstd::prelude::*;

verus! {

/// Why a field is not an unsigned integer.
#[derive(Clone, Copy, Debug, PartialEq, Eq, Structural)]
pub enum ParseError {
    /// The field is empty.
    Empty,
    /// The field holds a character that is not a decimal digit, or no digit
    /// at all.
    InvalidDigit,
    /// The number does not fit.
    Overflow,
}

/// Whether `c` is one of the digits `0` to `9`.
pub open spec fn is_digit(c: char) -> bool {
    '0' <= c && c <= '9'
}

/// Whether every character of `s` is a digit.
pub open spec fn all_digits(s: Seq<char>) -> bool {
    forall|i: int| 0 <= i < s.len() ==> is_digit(#[trigger] s[i])
}

/// The number that the digits `s` spell in base ten.
pub open spec fn decimal(s: Seq<char>) -> nat
    decreases s.len(),
{
    if s.len() == 0 {
        0
    } else {
        (decimal(s.drop_last()) * 10 + (s.last() as int - '0' as int)) as nat
    }
}

/// The digits of a field: the field without a leading plus sign.
pub open spec fn digits_of(s: Seq<char>) -> Seq<char> {
    if s.len() > 0 && s[0] == '+' {
        s.skip(1)
    } else {
        s
    }
}

/// The unsigned integer up to `max` that the field `s` spells: decimal
/// digits, with a plus sign in front of them or none.
pub open spec fn parse_spec(s: Seq<char>, max: nat) -> Result<nat, ParseError> {
    if s.len() == 0 {
        Err(ParseError::Empty)
    } else if digits_of(s).len() == 0 || !all_digits(digits_of(s)) {
        Err(ParseError::InvalidDigit)
    } else if decimal(digits_of(s)) > max {
        Err(ParseError::Overflow)
    } else {
        Ok(decimal(digits_of(s)))
    }
}

/// The result of reading every field of `fields` as an index: the numbers
/// in order, or the error of the first field that is no number.
pub open spec fn read_spec(fields: Seq<&str>) -> Result<Seq<usize>, ParseError>
    decreases fields.len(),
{
    if fields.len() == 0 {
        Ok(Seq::empty())
    } else {
        match read_spec(fields.drop_last()) {
            Err(e) => Err(e),
            Ok(values) => match parse_spec(fields.last()@, usize::MAX as nat) {
                Err(e) => Err(e),
                Ok(value) => Ok(values.push(value as usize)),
            },
        }
    }
}

/// Reads the unsigned integer up to `max` that `field` spells.
pub fn parse_unsigned(field: &str, max: u64) -> (r: Result<u64, ParseError>)
    ensures
        match parse_spec(field@, max as nat) {
            Ok(value) => r == Ok::<u64, ParseError>(value as u64),
            Err(e) => r == Err::<u64, ParseError>(e),
        },
{
    let len = field.unicode_len();
    if len == 0 {
        return Err(ParseError::Empty);
    }
    let start: usize = if field.get_char(0) == '+' {
        1
    } else {
        0
    };
    if start == len {
        return Err(ParseError::InvalidDigit);
    }
    let ghost digits = digits_of(field@);
    let mut value: u64 = 0;
    let mut overflow = false;
    let mut i: usize = start;
    while i < len
        invariant
            len == field@.len(),
            digits == digits_of(field@),
            digits == field@.skip(start as int),
            start <= i <= len,
            all_digits(digits.take(i - start)),
            !overflow ==> value == decimal(digits.take(i - start)) && value <= max,
            overflow ==> decimal(digits.take(i - start)) > max,
        decreases len - i,
    {
        let c = field.get_char(i);
        if c < '0' || c > '9' {
            proof {
                assert(digits[i - start] == c);
                assert(!is_digit(digits[i - start]));
            }
            return Err(ParseError::InvalidDigit);
        }
        let d: u64 = (c as u32 - '0' as u32) as u64;
        proof {
            let before = digits.take(i - start);
            let after = digits.take(i - start + 1);
            assert(after.drop_last() =~= before);
            assert(after.last() == c);
            assert(decimal(after) == decimal(before) * 10 + d);
            assert forall|j: int| 0 <= j < after.len() implies is_digit(#[trigger] after[j]) by {
                if j < before.len() {
                    assert(after[j] == before[j]);
                }
            }
        }
        if !overflow {
            if d > max || value > (max - d) / 10 {
                overflow = true;
            } else {
                value = value * 10 + d;
            }
        }
        i += 1;
    }
    proof {
        assert(digits.take(len - start) =~= digits);
    }
    if overflow {
        Err(ParseError::Overflow)
    } else {
        Ok(value)
    }
}

/// Why a field is no supersampling factor.
#[derive(Clone, Copy, Debug, PartialEq, Eq, Structural)]
pub enum FsaaError {
    /// The field is not an unsigned integer of 32 bits.
    NotAnInteger,
    /// The number is not one of 1 to 8.
    OutOfRange,
}

/// The largest supersampling factor: a pixel has at most 8 by 8 subsamples.
pub const MAX_FSAA: u32 = 8;

/// The supersampling factor that the field `s` spells: an integer from 1 to
/// `MAX_FSAA`.
pub open spec fn fsaa_spec(s: Seq<char>) -> Result<u32, FsaaError> {
    match parse_spec(s, u32::MAX as nat) {
        Err(_) => Err(FsaaError::NotAnInteger),
        Ok(value) => if 1 <= value <= MAX_FSAA {
            Ok(value as u32)
        } else {
            Err(FsaaError::OutOfRange)
        },
    }
}

/// The image dimensions that the two fields spell, where both are unsigned
/// integers of 32 bits.
pub open spec fn dimensions_spec(width: Seq<char>, height: Seq<char>) -> Option<(u32, u32)> {
    match (parse_spec(width, u32::MAX as nat), parse_spec(height, u32::MAX as nat)) {
        (Ok(w), Ok(h)) => Some((w as u32, h as u32)),
        _ => None,
    }
}

/// Reads a supersampling factor: an integer from 1 to `MAX_FSAA`.
pub fn read_fsaa(field: &str) -> (r: Result<u32, FsaaError>)
    ensures
        r == fsaa_spec(field@),
{
    match parse_unsigned(field, u32::MAX as u64) {
        Err(_) => Err(FsaaError::NotAnInteger),
        Ok(value) => {
            if 1 <= value && value <= MAX_FSAA as u64 {
                Ok(value as u32)
            } else {
                Err(FsaaError::OutOfRange)
            }
        },
    }
}

/// Reads the width and the height of an image; `None` where one of the two
/// fields is no unsigned integer of 32 bits.
pub fn read_dimensions(width: &str, height: &str) -> (r: Option<(u32, u32)>)
    ensures
        r == dimensions_spec(width@, height@),
{
    match parse_unsigned(width, u32::MAX as u64) {
        Err(_) => None,
        Ok(w) => match parse_unsigned(height, u32::MAX as u64) {
            Err(_) => None,
            Ok(h) => Some((w as u32, h as u32)),
        },
    }
}

/// Reads every field as an index: the numbers in the order of the fields,
/// or the error of the first field that is no number.
pub fn read_args(fields: &Vec<&str>) -> (r: Result<Vec<usize>, ParseError>)
    ensures
        match read_spec(fields@) {
            Ok(values) => r is Ok && r.unwrap()@ == values,
            Err(e) => r == Err::<Vec<usize>, ParseError>(e),
        },
{
    let mut result: Vec<usize> = Vec::new();
    let mut i: usize = 0;
    while i < fields.len()
        invariant
            i <= fields.len(),
            read_spec(fields@.take(i as int)) == Ok::<Seq<usize>, ParseError>(result@),
        decreases fields.len() - i,
    {
        proof {
            assert(fields@.take(i + 1).drop_last() =~= fields@.take(i as int));
            assert(fields@.take(i + 1).last() == fields@[i as int]);
        }
        match parse_unsigned(fields[i], usize::MAX as u64) {
            Err(e) => {
                proof {
                    lemma_read_fails(fields@, i as int + 1);
                }
                return Err(e);
            },
            Ok(value) => {
                result.push(value as usize);
            },
        }
        i += 1;
    }
    proof {
        assert(fields@.take(i as int) =~= fields@);
    }
    Ok(result)
}

/// Once a field is no number, reading more fields gives the same error.
proof fn lemma_read_fails(fields: Seq<&str>, n: int)
    requires
        0 <= n <= fields.len(),
        read_spec(fields.take(n)) is Err,
    ensures
        read_spec(fields) == read_spec(fields.take(n)),
    decreases fields.len() - n,
{
    if n < fields.len() {
        assert(fields.take(n + 1).drop_last() =~= fields.take(n));
        lemma_read_fails(fields, n + 1);
    } else {
        assert(fields.take(n) =~= fields);
    }
}

} // verus!
