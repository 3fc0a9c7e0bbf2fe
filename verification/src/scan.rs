//! What the lexer computes, stated as functions of the source text.
//!
//! The text is a sequence of characters. A token occupies a range of
//! character indices; its span is the range of byte offsets that those
//! characters have in the UTF-8 encoding of the text.

use vstd::prelude::*;
use vstd::utf8::{encode_scalar, encode_utf8};
use crate::classes::{alphabetic, numeric, whitespace, utf8_width, CharClass};
use crate::span::Span;
use crate::token::{Lexeme, TokenKind};

verus! {

/// The byte offset of the character with index `index`: the length of the
/// encoding of all characters before it.
pub open spec fn offset(source: Seq<char>, index: int) -> nat {
    encode_utf8(source.take(index)).len()
}

/// Where the maximal run of characters of `class` that starts at `from`
/// ends: the first index at or after `from` whose character is not in the
/// class, or the length of the text.
pub open spec fn run_end(source: Seq<char>, from: int, class: CharClass) -> int
    decreases source.len() - from,
{
    if 0 <= from < source.len() && class.admits(source[from]) {
        run_end(source, from + 1, class)
    } else {
        from
    }
}

/// The token that a character forms on its own, if it is one of the ten
/// delimiters and arithmetic operators.
pub open spec fn symbol(c: char) -> Option<TokenKind> {
    if c == '(' {
        Some(TokenKind::LParen)
    } else if c == ')' {
        Some(TokenKind::RParen)
    } else if c == '{' {
        Some(TokenKind::LBrace)
    } else if c == '}' {
        Some(TokenKind::RBrace)
    } else if c == ',' {
        Some(TokenKind::Comma)
    } else if c == ';' {
        Some(TokenKind::Semicolon)
    } else if c == '+' {
        Some(TokenKind::Plus)
    } else if c == '-' {
        Some(TokenKind::Minus)
    } else if c == '*' {
        Some(TokenKind::Asterisk)
    } else if c == '/' {
        Some(TokenKind::Slash)
    } else {
        None
    }
}

/// The keyword that `text` spells, if any.
pub open spec fn keyword(text: Seq<char>) -> Option<TokenKind> {
    if text == seq!['f', 'n'] {
        Some(TokenKind::Fn)
    } else if text == seq!['l', 'e', 't'] {
        Some(TokenKind::Let)
    } else if text == seq!['i', 'f'] {
        Some(TokenKind::If)
    } else if text == seq!['e', 'l', 's', 'e'] {
        Some(TokenKind::Else)
    } else if text == seq!['w', 'h', 'i', 'l', 'e'] {
        Some(TokenKind::While)
    } else if text == seq!['r', 'e', 't', 'u', 'r', 'n'] {
        Some(TokenKind::Return)
    } else if text == seq!['t', 'r', 'u', 'e'] {
        Some(TokenKind::True)
    } else if text == seq!['f', 'a', 'l', 's', 'e'] {
        Some(TokenKind::False)
    } else {
        None
    }
}

/// The lexeme of a word: its keyword, or an identifier with the word as name.
pub open spec fn word(text: Seq<char>) -> Lexeme {
    match keyword(text) {
        Some(kind) => Lexeme::plain(kind),
        None => Lexeme::identifier(text),
    }
}

/// A keyword with one more character is no keyword: the word is an
/// identifier whose name is the whole word.
pub proof fn lemma_keyword_extended(text: Seq<char>, c: char)
    requires
        keyword(text) is Some,
    ensures
        keyword(text.push(c)) is None,
        word(text.push(c)) == Lexeme::identifier(text.push(c)),
{
    let longer = text.push(c);
    assert(longer.len() == text.len() + 1);
    assert(longer[0] == text[0]);
}

/// The value of a decimal digit `0` to `9`.
pub open spec fn digit(c: char) -> Option<int> {
    if 0x30 <= c as u32 <= 0x39 {
        Some(c as u32 - 0x30)
    } else {
        None
    }
}

/// The number that `text` denotes in base ten, if all of it is decimal
/// digits. The empty text denotes zero.
pub open spec fn decimal(text: Seq<char>) -> Option<int>
    decreases text.len(),
{
    if text.len() == 0 {
        Some(0)
    } else {
        match (decimal(text.drop_last()), digit(text.last())) {
            (Some(high), Some(low)) => Some(10 * high + low),
            _ => None,
        }
    }
}

/// The value of an integer literal: the number that `text` denotes in base
/// ten, if it is one and fits in 64 bits with sign.
pub open spec fn literal_value(text: Seq<char>) -> Option<i64> {
    match decimal(text) {
        Some(value) => if value <= i64::MAX {
            Some(value as i64)
        } else {
            None
        },
        None => None,
    }
}

/// A token in the text: its lexeme and the character indices `[start, end)`
/// that it occupies.
pub ghost struct Lexed {
    pub lexeme: Lexeme,
    pub start: int,
    pub end: int,
}

/// What lies ahead of a position of the text.
pub ghost enum Scan {
    /// Nothing but white space up to the end of the text.
    End,
    /// A token, after white space that is skipped.
    Found(Lexed),
    /// A run of numeric characters `[start, end)` that is no integer literal:
    /// one of them is no decimal digit, or the number does not fit in 64
    /// bits with sign.
    BadLiteral { start: int, end: int },
}

pub open spec fn found(lexeme: Lexeme, start: int, end: int) -> Scan {
    Scan::Found(Lexed { lexeme, start, end })
}

/// Whether the character after index `at` is `c`.
pub open spec fn followed_by(source: Seq<char>, at: int, c: char) -> bool {
    at + 1 < source.len() && source[at + 1] == c
}

/// Maximal munch for an operator of one or two characters: `double` if the
/// character after `at` is `second`, else `single`.
pub open spec fn paired(source: Seq<char>, at: int, second: char, double: Lexeme, single: Lexeme) -> Scan {
    if followed_by(source, at, second) {
        found(double, at, at + 2)
    } else {
        found(single, at, at + 1)
    }
}

/// What lies ahead of index `at`.
///
/// The first character decides. A delimiter or arithmetic operator is a
/// token. `!`, `=`, `<`, `>` form a token of two characters with a following
/// `=`, and a token of one character without; `&` and `|` form a token when
/// doubled and are unexpected characters when not. An alphabetic character
/// starts a word, which goes on while characters are alphabetic, numeric or
/// `_`. A numeric character starts an integer literal, which goes on while
/// characters are numeric. White space is skipped, as far as it goes. Any
/// other character is an unexpected character.
pub open spec fn scan(source: Seq<char>, at: int) -> Scan
    decreases source.len() - at,
{
    if at < 0 || at >= source.len() {
        Scan::End
    } else {
        let c = source[at];
        if symbol(c) is Some {
            found(Lexeme::plain(symbol(c)->0), at, at + 1)
        } else if c == '!' {
            paired(source, at, '=', Lexeme::plain(TokenKind::BangEqual), Lexeme::plain(TokenKind::Bang))
        } else if c == '=' {
            paired(source, at, '=', Lexeme::plain(TokenKind::EqualEqual), Lexeme::plain(TokenKind::Equal))
        } else if c == '<' {
            paired(source, at, '=', Lexeme::plain(TokenKind::LessEqual), Lexeme::plain(TokenKind::Less))
        } else if c == '>' {
            paired(source, at, '=', Lexeme::plain(TokenKind::GreaterEqual), Lexeme::plain(TokenKind::Greater))
        } else if c == '&' {
            paired(source, at, '&', Lexeme::plain(TokenKind::AndAnd), Lexeme::unexpected('&'))
        } else if c == '|' {
            paired(source, at, '|', Lexeme::plain(TokenKind::OrOr), Lexeme::unexpected('|'))
        } else if alphabetic(c) {
            let end = run_end(source, at + 1, CharClass::Word);
            found(word(source.subrange(at, end)), at, end)
        } else if numeric(c) {
            let end = run_end(source, at + 1, CharClass::Numeric);
            match literal_value(source.subrange(at, end)) {
                Some(value) => found(Lexeme::integer(value), at, end),
                None => Scan::BadLiteral { start: at, end },
            }
        } else if whitespace(c) {
            proof {
                lemma_run_end(source, at + 1, CharClass::Blank);
            }
            scan(source, run_end(source, at + 1, CharClass::Blank))
        } else {
            found(Lexeme::unexpected(c), at, at + 1)
        }
    }
}

/// The span of a token: the byte offsets of its first character and of the
/// character after its last.
pub open spec fn span_of(source: Seq<char>, lexed: Lexed) -> Span {
    Span { start: offset(source, lexed.start) as usize, end: offset(source, lexed.end) as usize }
}

/// The tokens from index `at` on, in order, each with its span. The sequence
/// ends at the end of the text, or before a run of numeric characters that
/// is no integer literal.
pub open spec fn stream(source: Seq<char>, at: int) -> Seq<(Lexeme, Span)>
    decreases source.len() - at,
{
    match scan(source, at) {
        Scan::Found(lexed) => {
            proof {
                lemma_scan(source, at);
            }
            if 0 <= at {
                seq![(lexed.lexeme, span_of(source, lexed))] + stream(source, lexed.end)
            } else {
                Seq::empty()
            }
        },
        _ => Seq::empty(),
    }
}

/// Whether every run of numeric characters from index `at` on is an integer
/// literal: then [`stream`] holds all tokens up to the end of the text.
pub open spec fn lexable(source: Seq<char>, at: int) -> bool
    decreases source.len() - at,
{
    match scan(source, at) {
        Scan::End => true,
        Scan::Found(lexed) => {
            proof {
                lemma_scan(source, at);
            }
            0 <= at && lexable(source, lexed.end)
        },
        Scan::BadLiteral { .. } => false,
    }
}

/// A run lies within the text, holds only characters of its class, and is
/// maximal.
pub proof fn lemma_run_end(source: Seq<char>, from: int, class: CharClass)
    requires
        0 <= from <= source.len(),
    ensures
        from <= run_end(source, from, class) <= source.len(),
        forall|i: int| from <= i < run_end(source, from, class) ==> class.admits(#[trigger] source[i]),
        run_end(source, from, class) < source.len() ==> !class.admits(
            source[run_end(source, from, class)],
        ),
    decreases source.len() - from,
{
    if from < source.len() && class.admits(source[from]) {
        lemma_run_end(source, from + 1, class);
    }
}

/// What is found ahead of `at` lies at or after `at`, within the text, and is
/// not empty; the characters before it are white space.
pub proof fn lemma_scan(source: Seq<char>, at: int)
    requires
        0 <= at,
    ensures
        match scan(source, at) {
            Scan::End => forall|i: int| at <= i < source.len() ==> whitespace(#[trigger] source[i]),
            Scan::Found(lexed) => {
                &&& at <= lexed.start < lexed.end <= source.len()
                &&& forall|i: int| at <= i < lexed.start ==> whitespace(#[trigger] source[i])
            },
            Scan::BadLiteral { start, end } => {
                &&& at <= start < end <= source.len()
                &&& forall|i: int| at <= i < start ==> whitespace(#[trigger] source[i])
            },
        },
    decreases source.len() - at,
{
    if at < source.len() {
        let c = source[at];
        lemma_run_end(source, at + 1, CharClass::Word);
        lemma_run_end(source, at + 1, CharClass::Numeric);
        lemma_run_end(source, at + 1, CharClass::Blank);
        if symbol(c) is None && c != '!' && c != '=' && c != '<' && c != '>' && c != '&' && c != '|'
            && !alphabetic(c) && !numeric(c) && whitespace(c) {
            lemma_scan(source, run_end(source, at + 1, CharClass::Blank));
        }
    }
}

/// Appending a character to a text appends its encoding.
pub proof fn lemma_encode_push(text: Seq<char>, c: char)
    ensures
        encode_utf8(text.push(c)) == encode_utf8(text) + encode_scalar(c as u32),
    decreases text.len(),
{
    let longer = text.push(c);
    if text.len() == 0 {
        assert(longer.drop_first() == Seq::<char>::empty());
        assert(encode_utf8(longer.drop_first()) == Seq::<u8>::empty());
    } else {
        lemma_encode_push(text.drop_first(), c);
        assert(longer.drop_first() == text.drop_first().push(c));
    }
}

/// The offset of the next character is the offset of this one plus its width.
pub proof fn lemma_offset_step(source: Seq<char>, index: int)
    requires
        0 <= index < source.len(),
    ensures
        offset(source, index + 1) == offset(source, index) + utf8_width(source[index]),
{
    assert(source.take(index + 1) == source.take(index).push(source[index]));
    lemma_encode_push(source.take(index), source[index]);
}

/// Offsets grow with indices, and the offset of the end of the text is the
/// length of its encoding.
pub proof fn lemma_offset_monotonic(source: Seq<char>, i: int, j: int)
    requires
        0 <= i <= j <= source.len(),
    ensures
        offset(source, i) <= offset(source, j),
        offset(source, 0) == 0,
        offset(source, source.len() as int) == encode_utf8(source).len(),
    decreases j - i,
{
    assert(source.take(source.len() as int) == source);
    assert(source.take(0) == Seq::<char>::empty());
    if i < j {
        lemma_offset_step(source, j - 1);
        lemma_offset_monotonic(source, i, j - 1);
    }
}

/// One more character of an integer literal: the value so far times ten,
/// plus the digit, as long as the character is a digit and the value fits.
pub proof fn lemma_literal_push(text: Seq<char>, c: char)
    ensures
        literal_value(text.push(c)) == match (literal_value(text), digit(c)) {
            (Some(high), Some(low)) => if 10 * high + low <= i64::MAX {
                Some((10 * high + low) as i64)
            } else {
                None
            },
            _ => None,
        },
        literal_value(text) matches Some(v) ==> v >= 0,
    decreases text.len(),
{
    assert(text.push(c).drop_last() == text);
    lemma_decimal_nonnegative(text);
}

/// A decimal number is not negative.
pub proof fn lemma_decimal_nonnegative(text: Seq<char>)
    ensures
        decimal(text) matches Some(v) ==> v >= 0,
    decreases text.len(),
{
    if text.len() > 0 {
        lemma_decimal_nonnegative(text.drop_last());
    }
}

} // verus!
