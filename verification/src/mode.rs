//! Deploy types and permission modes of deployment entries.

use vstd::prelude::*;
use crate::text::{chars_of, push_char};

verus! {

/// How an entry is placed into the target directory.
#[derive(Debug, Clone, Copy, PartialEq, Eq, Structural)]
pub enum DeployType {
    Symlink,
    Copy,
    Template,
}

/// A permission mode of at most `0o777`.
#[derive(Debug, Clone, Copy, PartialEq, Eq, Structural)]
pub struct DeployMode(pub u32);

/// Why a mode was refused: the text or the number that was given.
#[derive(Debug, Clone, PartialEq, Eq)]
pub enum InvalidMode {
    Text(String),
    Number(i64),
}

/// Whether `c` is one of the octal digits `0` to `7`.
pub open spec fn is_octal_digit(c: char) -> bool {
    '0' <= c && c <= '7'
}

/// The value of an octal digit.
pub open spec fn octal_value(c: char) -> int {
    (c as int) - ('0' as int)
}

/// Whether `s` is exactly three octal digits.
pub open spec fn is_mode_text(s: Seq<char>) -> bool {
    s.len() == 3 && is_octal_digit(s[0]) && is_octal_digit(s[1]) && is_octal_digit(s[2])
}

/// The number that three octal digits spell.
pub open spec fn mode_text_value(s: Seq<char>) -> int {
    octal_value(s[0]) * 64 + octal_value(s[1]) * 8 + octal_value(s[2])
}

impl DeployMode {
    /// Parses a mode written as exactly three octal digits, such as `644`.
    pub fn parse_text(value: &str) -> (res: Result<DeployMode, InvalidMode>)
        ensures
            res is Ok <==> is_mode_text(value@),
            res matches Ok(m) ==> m.0 == mode_text_value(value@),
            res matches Err(InvalidMode::Text(t)) ==> t@ == value@,
            !(res matches Err(InvalidMode::Number(_))),
    {
        let chars = chars_of(value);
        if chars.len() != 3 {
            return Err(InvalidMode::Text(value.to_string()));
        }
        let mut mode: u32 = 0;
        let mut i: usize = 0;
        while i < 3
            invariant
                chars@ == value@,
                chars@.len() == 3,
                i <= 3,
                forall|j: int| 0 <= j < i ==> is_octal_digit(#[trigger] chars@[j]),
                i == 0 ==> mode == 0,
                i == 1 ==> mode == octal_value(chars@[0]),
                i == 2 ==> mode == octal_value(chars@[0]) * 8 + octal_value(chars@[1]),
                i == 3 ==> mode == mode_text_value(chars@),
            decreases 3 - i,
        {
            let c = chars[i];
            if !('0' <= c && c <= '7') {
                return Err(InvalidMode::Text(value.to_string()));
            }
            let d: u32 = (c as u32) - ('0' as u32);
            mode = mode * 8 + d;
            i += 1;
        }
        Ok(DeployMode(mode))
    }

    /// Accepts an integer mode in `0..=0o777`.
    pub fn from_int(value: i64) -> (res: Result<DeployMode, InvalidMode>)
        ensures
            res is Ok <==> 0 <= value <= 511,
            res matches Ok(m) ==> m.0 == value,
            res matches Err(e) ==> e == InvalidMode::Number(value),
    {
        if value < 0 || value > 511 {
            return Err(InvalidMode::Number(value));
        }
        Ok(DeployMode(value as u32))
    }

    /// Accepts an unsigned mode of at most `0o777`.
    pub fn from_u32(value: u32) -> (res: Result<DeployMode, InvalidMode>)
        ensures
            res is Ok <==> value <= 511,
            res matches Ok(m) ==> m.0 == value,
            res matches Err(e) ==> e == InvalidMode::Number(value as i64),
    {
        if value > 511 {
            return Err(InvalidMode::Number(value as i64));
        }
        Ok(DeployMode(value))
    }

    /// The mode as a plain number.
    pub fn bits(self) -> (res: u32)
        ensures
            res == self.0,
    {
        self.0
    }

    /// The mode as exactly three octal digits, as `{:03o}` writes it.
    pub fn octal_text(self) -> (res: String)
        requires
            self.0 <= 511,
        ensures
            res@ == mode_digits(self.0 as int),
    {
        let m = self.0;
        let a = digit_char(m / 64);
        let b = digit_char((m / 8) % 8);
        let c = digit_char(m % 8);
        let mut res = String::new();
        push_char(&mut res, a);
        push_char(&mut res, b);
        push_char(&mut res, c);
        res
    }
}

/// The octal digit for `d`.
pub open spec fn octal_char(d: int) -> char {
    (('0' as int) + d) as char
}

/// The three octal digits of a mode below `0o1000`.
pub open spec fn mode_digits(m: int) -> Seq<char> {
    seq![octal_char(m / 64), octal_char((m / 8) % 8), octal_char(m % 8)]
}

fn digit_char(d: u32) -> (c: char)
    requires
        d < 8,
    ensures
        c == octal_char(d as int),
{
    match d {
        0 => '0',
        1 => '1',
        2 => '2',
        3 => '3',
        4 => '4',
        5 => '5',
        6 => '6',
        _ => '7',
    }
}

/// Writing a mode as three octal digits and parsing the text back gives the
/// same mode.
pub proof fn lemma_mode_text_round_trip(m: int)
    requires
        0 <= m <= 511,
    ensures
        is_mode_text(mode_digits(m)),
        mode_text_value(mode_digits(m)) == m,
{
    let s = mode_digits(m);
    assert(octal_value(s[0]) == m / 64);
    assert(octal_value(s[1]) == (m / 8) % 8);
    assert(octal_value(s[2]) == m % 8);
}

/// Parsing accepts exactly the texts that the formatter can write: every
/// three-octal-digit text is the octal text of the mode it parses to.
pub proof fn lemma_mode_text_is_canonical(s: Seq<char>)
    requires
        is_mode_text(s),
    ensures
        0 <= mode_text_value(s) <= 511,
        mode_digits(mode_text_value(s)) == s,
{
    let m = mode_text_value(s);
    assert(m / 64 == octal_value(s[0]));
    assert((m / 8) % 8 == octal_value(s[1]));
    assert(m % 8 == octal_value(s[2]));
    assert(mode_digits(m) =~= s);
}

} // verus!
