//! Character classes of the language, and the standard-library functions
//! that decide them.
//!
//! Which characters are alphabetic, numeric or white space is decided by the
//! Unicode tables of the standard library. Those tables are not restated
//! here: each class is a named predicate, and the specification of the
//! library function says that the function computes it.

use vstd::prelude::*;
use vstd::utf8::encode_scalar;

verus! {

/// Whether `c` has the Unicode property `Alphabetic`.
pub uninterp spec fn alphabetic(c: char) -> bool;

/// Whether `c` belongs to one of the Unicode general categories for numbers
/// (`Nd`, `Nl`, `No`).
pub uninterp spec fn numeric(c: char) -> bool;

/// Whether `c` has the Unicode property `White_Space`.
pub uninterp spec fn whitespace(c: char) -> bool;

/// Not proved: `char::is_alphabetic` is taken to compute [`alphabetic`], a
/// function of the character alone.
pub assume_specification[ char::is_alphabetic ](c: char) -> (b: bool)
    ensures
        b == alphabetic(c),
;

/// Not proved: `char::is_numeric` is taken to compute [`numeric`], a function
/// of the character alone.
pub assume_specification[ char::is_numeric ](c: char) -> (b: bool)
    ensures
        b == numeric(c),
;

/// Not proved: `char::is_whitespace` is taken to compute [`whitespace`], a
/// function of the character alone.
pub assume_specification[ char::is_whitespace ](c: char) -> (b: bool)
    ensures
        b == whitespace(c),
;

/// Not proved: `char::len_utf8` is taken to return the number of bytes of the
/// UTF-8 encoding of the character.
pub assume_specification[ char::len_utf8 ](c: char) -> (n: usize)
    ensures
        n == utf8_width(c),
;

/// Not proved: `String::push` is taken to append the character to the end of
/// the string.
pub assume_specification[ String::push ](s: &mut String, c: char)
    ensures
        final(s)@ == old(s)@.push(c),
;

/// The number of bytes of the UTF-8 encoding of `c`: between one and four.
pub open spec fn utf8_width(c: char) -> nat {
    encode_scalar(c as u32).len()
}

/// A set of characters that the lexer may be asked to accept next.
#[derive(Clone, Copy, Debug, PartialEq, Eq, Structural)]
pub enum CharClass {
    /// Every character.
    Any,
    /// The given character and no other.
    Exactly(char),
    /// What may continue an identifier: alphabetic, numeric, or `_`.
    Word,
    /// Numeric characters.
    Numeric,
    /// White space.
    Blank,
}

impl CharClass {
    /// Whether `c` belongs to the class.
    pub open spec fn admits(self, c: char) -> bool {
        match self {
            CharClass::Any => true,
            CharClass::Exactly(x) => c == x,
            CharClass::Word => alphabetic(c) || numeric(c) || c == '_',
            CharClass::Numeric => numeric(c),
            CharClass::Blank => whitespace(c),
        }
    }

    /// Decides whether `c` belongs to the class.
    pub fn accepts(&self, c: char) -> (b: bool)
        ensures
            b == self.admits(c),
    {
        match self {
            CharClass::Any => true,
            CharClass::Exactly(x) => c == *x,
            CharClass::Word => c.is_alphabetic() || c.is_numeric() || c == '_',
            CharClass::Numeric => c.is_numeric(),
            CharClass::Blank => c.is_whitespace(),
        }
    }
}

/// The width of a character is fixed by the range its code point lies in.
pub proof fn lemma_utf8_width(c: char)
    ensures
        1 <= utf8_width(c) <= 4,
        utf8_width(c) == if (c as u32) < 0x80 {
            1nat
        } else if (c as u32) < 0x800 {
            2nat
        } else if (c as u32) < 0x10000 {
            3nat
        } else {
            4nat
        },
{
    vstd::utf8::char_is_scalar(c);
}

} // verus!
