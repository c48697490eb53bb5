//! The accounts that share purchases.
use vstd::prelude::*;
use crate::keyed::StrMap;

verus! {

/// The name of an account.
pub type AccountRef = String;

/// A color given by its red, green and blue components.
#[derive(Debug, Copy, Clone, PartialEq, Eq, Structural)]
pub struct RGBColor {
    pub r: u8,
    pub g: u8,
    pub b: u8,
}

/// The value of a hexadecimal digit, either case.
pub open spec fn hex_value(c: char) -> Option<nat> {
    if '0' <= c && c <= '9' {
        Some((c as u32 - '0' as u32) as nat)
    } else if 'a' <= c && c <= 'f' {
        Some((c as u32 - 'a' as u32 + 10) as nat)
    } else if 'A' <= c && c <= 'F' {
        Some((c as u32 - 'A' as u32 + 10) as nat)
    } else {
        None
    }
}

/// The byte written by two characters: two hexadecimal digits, or a plus
/// sign and one digit.
pub open spec fn hex_pair(a: char, b: char) -> Option<nat> {
    match hex_value(b) {
        Some(low) => if a == '+' {
            Some(low)
        } else {
            match hex_value(a) {
                Some(high) => Some(high * 16 + low),
                None => None,
            }
        },
        None => None,
    }
}

/// The lowercase hexadecimal digit of `d`.
pub open spec fn hex_digit(d: nat) -> char {
    if d < 10 {
        (('0' as u32) + d) as char
    } else {
        (('a' as u32) + d - 10) as char
    }
}

fn hex_value_of(c: char) -> (r: Option<u8>)
    ensures
        match r {
            Some(v) => hex_value(c) == Some(v as nat) && v < 16,
            None => hex_value(c).is_none(),
        },
{
    if '0' <= c && c <= '9' {
        Some((c as u32 - '0' as u32) as u8)
    } else if 'a' <= c && c <= 'f' {
        Some((c as u32 - 'a' as u32 + 10) as u8)
    } else if 'A' <= c && c <= 'F' {
        Some((c as u32 - 'A' as u32 + 10) as u8)
    } else {
        None
    }
}

fn hex_pair_of(a: char, b: char) -> (r: Option<u8>)
    ensures
        match r {
            Some(v) => hex_pair(a, b) == Some(v as nat),
            None => hex_pair(a, b).is_none(),
        },
{
    match hex_value_of(b) {
        Some(low) => if a == '+' {
            Some(low)
        } else {
            match hex_value_of(a) {
                Some(high) => Some(high * 16 + low),
                None => None,
            }
        },
        None => None,
    }
}

fn hex_char(d: u8) -> (c: char)
    requires
        d < 16,
    ensures
        c == hex_digit(d as nat),
{
    if d < 10 {
        (('0' as u8) + d) as char
    } else {
        (('a' as u8) + d - 10) as char
    }
}

impl RGBColor {
    pub fn new(r: u8, g: u8, b: u8) -> (c: Self)
        ensures
            c.r == r && c.g == g && c.b == b,
    {
        RGBColor { r, g, b }
    }

    /// The color written as six hexadecimal digits, if `text` is that (each
    /// component may also be written as a plus sign and one digit).
    pub fn from_hex(text: &String) -> (r: Option<Self>)
        ensures
            match r {
                Some(c) => text@.len() == 6 && hex_pair(text@[0], text@[1]) == Some(c.r as nat)
                    && hex_pair(text@[2], text@[3]) == Some(c.g as nat) && hex_pair(text@[4], text@[5])
                    == Some(c.b as nat),
                None => !(text@.len() == 6 && hex_pair(text@[0], text@[1]).is_some() && hex_pair(
                    text@[2],
                    text@[3],
                ).is_some() && hex_pair(text@[4], text@[5]).is_some()),
            },
    {
        let s = text.as_str();
        if s.unicode_len() != 6 {
            return None;
        }
        let r = hex_pair_of(s.get_char(0), s.get_char(1));
        let g = hex_pair_of(s.get_char(2), s.get_char(3));
        let b = hex_pair_of(s.get_char(4), s.get_char(5));
        match (r, g, b) {
            (Some(r), Some(g), Some(b)) => Some(RGBColor { r, g, b }),
            _ => None,
        }
    }

    /// The color as six lowercase hexadecimal digits.
    pub fn to_hex(&self) -> (r: String)
        ensures
            r@ == seq![
                hex_digit(self.r as nat / 16),
                hex_digit(self.r as nat % 16),
                hex_digit(self.g as nat / 16),
                hex_digit(self.g as nat % 16),
                hex_digit(self.b as nat / 16),
                hex_digit(self.b as nat % 16),
            ],
    {
        let mut chars: Vec<char> = Vec::new();
        chars.push(hex_char(self.r / 16));
        chars.push(hex_char(self.r % 16));
        chars.push(hex_char(self.g / 16));
        chars.push(hex_char(self.g % 16));
        chars.push(hex_char(self.b / 16));
        chars.push(hex_char(self.b % 16));
        assert(chars@ =~= seq![
            hex_digit(self.r as nat / 16),
            hex_digit(self.r as nat % 16),
            hex_digit(self.g as nat / 16),
            hex_digit(self.g as nat % 16),
            hex_digit(self.b as nat / 16),
            hex_digit(self.b as nat % 16),
        ]);
        crate::money::string_of(chars)
    }
}

/// An account's settings.
#[derive(Debug, Copy, Clone)]
pub struct AccountData {
    color: RGBColor,
}

impl AccountData {
    /// An account shown in `color`.
    pub fn new(color: RGBColor) -> (r: Self)
        ensures
            r.spec_color() == color,
    {
        AccountData { color }
    }

    /// The color the account is shown in.
    pub closed spec fn spec_color(&self) -> RGBColor {
        self.color
    }

    /// The color the account is shown in.
    pub fn color(&self) -> (r: RGBColor)
        ensures
            r == self.spec_color(),
    {
        self.color
    }
}

/// The known accounts.
#[derive(Debug, Clone)]
pub struct Accounts(pub StrMap<AccountData>);

} // verus!
