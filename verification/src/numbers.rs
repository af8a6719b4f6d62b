//! Numbers in text.

use vstd::prelude::*;
use crate::params::{find_digits_end, usize_from_digits};
use crate::text::{chars_of, push_signed_decimal, signed_decimal};
use crate::url_grammar::{digits_end, is_digit, number};

verus! {

/// Only digits, and at least one.
pub open spec fn is_number(s: Seq<char>) -> bool {
    s.len() > 0 && forall|i: int| 0 <= i < s.len() ==> is_digit(#[trigger] s[i])
}

/// The number that a text spells: digits, with a plus sign in front or without one.
pub open spec fn unsigned_value(s: Seq<char>) -> Option<nat> {
    let digits = if s.len() > 0 && s[0] == '+' {
        s.skip(1)
    } else {
        s
    };
    if is_number(digits) {
        Some(number(digits))
    } else {
        None
    }
}

/// The integer that a text spells: digits, with a sign in front or without one.
pub open spec fn signed_value(s: Seq<char>) -> Option<int> {
    if s.len() > 0 && s[0] == '-' {
        if is_number(s.skip(1)) {
            Some(-(number(s.skip(1)) as int))
        } else {
            None
        }
    } else {
        match unsigned_value(s) {
            Some(n) => Some(n as int),
            None => None,
        }
    }
}

/// What the digits from `from` on spell: no number, one that fits, or one that is too large.
fn read_digits(s: &[char], from: usize) -> (r: Option<Option<usize>>)
    requires
        from <= s@.len(),
    ensures
        match r {
            None => !is_number(s@.skip(from as int)),
            Some(n) => is_number(s@.skip(from as int)) && match n {
                Some(v) => number(s@.skip(from as int)) == v,
                None => number(s@.skip(from as int)) > usize::MAX,
            },
        },
{
    let end: usize = find_digits_end(s, from);
    let ghost rest = s@.skip(from as int);
    assert(s@.subrange(from as int, s@.len() as int) =~= rest);
    if end < s.len() || end == from {
        proof {
            lemma_digits_end_stops(s@, from as int);
            if end < s@.len() {
                assert(rest[end - from] == s@[end as int]);
            }
        }
        return None;
    }
    assert forall|i: int| 0 <= i < rest.len() implies is_digit(#[trigger] rest[i]) by {
        assert(rest[i] == s@[from + i]);
    }
    Some(usize_from_digits(s, from, end))
}

proof fn lemma_digits_end_stops(s: Seq<char>, pos: int)
    requires
        0 <= pos <= s.len(),
    ensures
        digits_end(s, pos) < s.len() ==> !is_digit(s[digits_end(s, pos)]),
        pos <= digits_end(s, pos),
    decreases s.len() - pos,
{
    if pos < s.len() && is_digit(s[pos]) {
        lemma_digits_end_stops(s, pos + 1);
    }
}

/// Reads a number that fits a `usize`.
pub fn parse_usize(s: &str) -> (n: Option<usize>)
    ensures
        match n {
            Some(v) => unsigned_value(s@) == Some(v as nat),
            None => match unsigned_value(s@) {
                Some(v) => v > usize::MAX,
                None => true,
            },
        },
{
    let text: Vec<char> = chars_of(s);
    let from: usize = if text.len() > 0 && text[0] == '+' {
        1
    } else {
        0
    };
    assert(text@.skip(0) =~= text@);
    match read_digits(text.as_slice(), from) {
        Some(n) => n,
        None => None,
    }
}

/// Reads a number that fits a `u16`.
pub fn parse_u16(s: &str) -> (n: Option<u16>)
    ensures
        match n {
            Some(v) => unsigned_value(s@) == Some(v as nat),
            None => match unsigned_value(s@) {
                Some(v) => v > u16::MAX,
                None => true,
            },
        },
{
    match parse_usize(s) {
        Some(v) => if v <= u16::MAX as usize {
            Some(v as u16)
        } else {
            None
        },
        None => None,
    }
}

/// Reads an integer that fits an `i32`.
pub fn parse_i32(s: &str) -> (n: Option<i32>)
    ensures
        match n {
            Some(v) => signed_value(s@) == Some(v as int),
            None => match signed_value(s@) {
                Some(v) => v > i32::MAX || v < i32::MIN,
                None => true,
            },
        },
{
    let text: Vec<char> = chars_of(s);
    if text.len() > 0 && text[0] == '-' {
        match read_digits(text.as_slice(), 1) {
            Some(Some(v)) => if v <= 0x8000_0000 {
                Some((-(v as i64)) as i32)
            } else {
                None
            },
            _ => None,
        }
    } else {
        match parse_usize(s) {
            Some(v) => if v <= i32::MAX as usize {
                Some(v as i32)
            } else {
                None
            },
            None => None,
        }
    }
}

/// A field that comes as a text or as a number.
#[derive(Debug, Clone)]
pub enum StringOrNumber {
    Text(String),
    Number(i32),
}

/// A field holds a text that is no number.
#[derive(Debug, Clone, Copy, PartialEq, Eq, Structural)]
pub struct NotANumber;

/// Reads a field that comes as a text or as a number; an empty text stands for nothing.
pub fn string_or_number(field: Option<StringOrNumber>) -> (r: Result<Option<i32>, NotANumber>)
    ensures
        match field {
            None => r == Ok::<Option<i32>, NotANumber>(None),
            Some(StringOrNumber::Number(n)) => r == Ok::<Option<i32>, NotANumber>(Some(n)),
            Some(StringOrNumber::Text(s)) => if s@.len() == 0 {
                r == Ok::<Option<i32>, NotANumber>(None)
            } else {
                match signed_value(s@) {
                    Some(v) if i32::MIN <= v <= i32::MAX => r
                        == Ok::<Option<i32>, NotANumber>(Some(v as i32)),
                    _ => r is Err,
                }
            },
        },
{
    match field {
        None => Ok(None),
        Some(StringOrNumber::Number(n)) => Ok(Some(n)),
        Some(StringOrNumber::Text(s)) => if s.as_str().is_empty() {
            Ok(None)
        } else {
            match parse_i32(s.as_str()) {
                Some(n) => Ok(Some(n)),
                None => Err(NotANumber),
            }
        },
    }
}

/// Writes a field as a text; nothing is written as 0.
pub fn number_to_string(number: Option<i32>) -> (s: String)
    ensures
        s@ == match number {
            Some(n) => signed_decimal(n as int),
            None => "0"@,
        },
{
    match number {
        Some(n) => {
            let mut s: String = String::new();
            push_signed_decimal(&mut s, n as i64);
            assert(s@ =~= signed_decimal(n as int));
            s
        },
        None => "0".to_owned(),
    }
}

/// A written integer reads back.
pub proof fn law_integer_reads_back(n: int)
    ensures
        signed_value(signed_decimal(n)) == Some(n),
{
    let m = if n < 0 {
        (-n) as nat
    } else {
        n as nat
    };
    crate::url_laws::law_decimal_reads_back(m);
    let d = crate::text::decimal(m);
    assert(is_digit(d[0]));
    if n < 0 {
        assert(signed_decimal(n).skip(1) =~= d);
    }
}

} // verus!
