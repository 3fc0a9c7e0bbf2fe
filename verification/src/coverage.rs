//! What the tokens of a text cover.
//!
//! The tokens of a text lie in it in order and without overlap, and what
//! lies between them is white space. So the pieces of the text that the
//! spans of the tokens denote, joined in order, are the text without its
//! white space.

use vstd::prelude::*;
use vstd::utf8::encode_utf8;
use crate::classes::{alphabetic, numeric, whitespace, CharClass};
use crate::extent::ordered;
use crate::scan::{
    lemma_encode_push, lemma_offset_monotonic, lemma_run_end, lemma_scan, lexable, offset, run_end,
    scan, span_of, stream, symbol, Scan,
};
use crate::span::Span;
use crate::token::{Lexeme, Payload, TokenKind};

verus! {

/// The characters that are no white space.
pub open spec fn shown() -> spec_fn(char) -> bool {
    |c: char| !whitespace(c)
}

/// A text without its white space.
pub open spec fn visible(text: Seq<char>) -> Seq<char> {
    text.filter(shown())
}

/// The characters of the tokens from index `at` on, joined in order.
pub open spec fn token_text(source: Seq<char>, at: int) -> Seq<char>
    decreases source.len() - at,
{
    match scan(source, at) {
        Scan::Found(lexed) => {
            proof {
                lemma_scan(source, at);
            }
            if 0 <= at {
                source.subrange(lexed.start, lexed.end) + token_text(source, lexed.end)
            } else {
                Seq::empty()
            }
        },
        _ => Seq::empty(),
    }
}

/// The pieces of `bytes` that the spans of `tokens` denote, joined in order.
pub open spec fn spanned_bytes(bytes: Seq<u8>, tokens: Seq<(Lexeme, Span)>) -> Seq<u8>
    decreases tokens.len(),
{
    if tokens.len() == 0 {
        Seq::empty()
    } else {
        bytes.subrange(tokens[0].1.start as int, tokens[0].1.end as int) + spanned_bytes(
            bytes,
            tokens.drop_first(),
        )
    }
}

/// Whether `c` can be part of a token that is no unexpected character.
pub open spec fn lexical(c: char) -> bool {
    ||| symbol(c) is Some
    ||| c == '!'
    ||| c == '='
    ||| c == '<'
    ||| c == '>'
    ||| c == '&'
    ||| c == '|'
    ||| c == '_'
    ||| alphabetic(c)
    ||| numeric(c)
}

/// Whether the white space of `source` is nothing but white space: none of
/// its characters is also a character that tokens are made of.
pub open spec fn separated(source: Seq<char>) -> bool {
    forall|i: int| 0 <= i < source.len() && whitespace(#[trigger] source[i]) ==> !lexical(source[i])
}

/// White space alone leaves nothing visible.
pub proof fn lemma_visible_blank(text: Seq<char>)
    requires
        forall|i: int| 0 <= i < text.len() ==> whitespace(#[trigger] text[i]),
    ensures
        visible(text) == Seq::<char>::empty(),
    decreases text.len(),
{
    reveal(Seq::filter);
    if text.len() > 0 {
        lemma_visible_blank(text.drop_last());
    }
}

/// A text without white space is visible as it is.
pub proof fn lemma_visible_solid(text: Seq<char>)
    requires
        forall|i: int| 0 <= i < text.len() ==> !whitespace(#[trigger] text[i]),
    ensures
        visible(text) == text,
    decreases text.len(),
{
    reveal(Seq::filter);
    if text.len() > 0 {
        lemma_visible_solid(text.drop_last());
        assert(text.drop_last().push(text.last()) == text);
    }
}

/// What is visible of two texts joined is what is visible of each, joined.
pub proof fn lemma_visible_add(a: Seq<char>, b: Seq<char>)
    ensures
        visible(a + b) == visible(a) + visible(b),
{
    Seq::filter_distributes_over_add(a, b, shown());
}

/// The encoding of two texts joined is their encodings joined.
pub proof fn lemma_encode_add(a: Seq<char>, b: Seq<char>)
    ensures
        encode_utf8(a + b) == encode_utf8(a) + encode_utf8(b),
    decreases b.len(),
{
    if b.len() == 0 {
        assert(a + b == a);
        assert(encode_utf8(b) == Seq::<u8>::empty());
        assert(encode_utf8(a) + Seq::<u8>::empty() == encode_utf8(a));
    } else {
        let front = b.drop_last();
        let last = b.last();
        lemma_encode_add(a, front);
        lemma_encode_push(a + front, last);
        lemma_encode_push(front, last);
        assert((a + front).push(last) == a + b);
        assert(front.push(last) == b);
        assert((encode_utf8(a) + encode_utf8(front)) + vstd::utf8::encode_scalar(last as u32)
            == encode_utf8(a) + (encode_utf8(front) + vstd::utf8::encode_scalar(last as u32)));
    }
}

/// The bytes between the offsets of two indices are the encoding of the
/// characters between the indices.
pub proof fn lemma_span_bytes(source: Seq<char>, i: int, j: int)
    requires
        0 <= i <= j <= source.len(),
    ensures
        offset(source, i) <= offset(source, j) <= encode_utf8(source).len(),
        encode_utf8(source).subrange(offset(source, i) as int, offset(source, j) as int)
            == encode_utf8(source.subrange(i, j)),
{
    let head = source.take(i);
    let piece = source.subrange(i, j);
    let tail = source.skip(j);
    assert(source.take(j) == head + piece);
    assert(source == (head + piece) + tail);
    lemma_encode_add(head, piece);
    lemma_encode_add(head + piece, tail);
    let bytes = encode_utf8(source);
    assert(bytes == (encode_utf8(head) + encode_utf8(piece)) + encode_utf8(tail));
    assert(bytes.subrange(encode_utf8(head).len() as int, (encode_utf8(head) + encode_utf8(piece)).len() as int)
        == encode_utf8(piece));
}

/// The spans of the tokens of a text are well formed and in the order of
/// the text, and none starts before the offset of the index the tokens are
/// read from.
pub proof fn lemma_stream_ordered(source: Seq<char>, at: int)
    requires
        0 <= at <= source.len(),
        encode_utf8(source).len() <= usize::MAX,
    ensures
        ordered(stream(source, at)),
        forall|k: int|
            0 <= k < stream(source, at).len() ==> offset(source, at) <= (#[trigger] stream(
                source,
                at,
            )[k]).1.start,
    decreases source.len() - at,
{
    reveal(ordered);
    lemma_scan(source, at);
    match scan(source, at) {
        Scan::Found(lexed) => {
            lemma_stream_ordered(source, lexed.end);
            lemma_offset_monotonic(source, at, lexed.start);
            lemma_offset_monotonic(source, lexed.start, lexed.end);
            lemma_offset_monotonic(source, lexed.end, source.len() as int);
            let first = (lexed.lexeme, span_of(source, lexed));
            let rest = stream(source, lexed.end);
            let all = stream(source, at);
            assert(all == seq![first] + rest);
            assert forall|k: int| 0 <= k < all.len() implies (#[trigger] all[k]).1.valid() && offset(
                source,
                at,
            ) <= all[k].1.start by {
                if k > 0 {
                    assert(all[k] == rest[k - 1]);
                }
            }
            assert forall|i: int, j: int| 0 <= i < j < all.len() implies (#[trigger] all[i]).1.precedes(
                (#[trigger] all[j]).1,
            ) by {
                assert(all[j] == rest[j - 1]);
                if i > 0 {
                    assert(all[i] == rest[i - 1]);
                }
            }
        },
        _ => {},
    }
}

/// Where the white space of a text is nothing but white space, a token
/// holds no white space.
pub proof fn lemma_token_solid(source: Seq<char>, at: int)
    requires
        0 <= at,
        separated(source),
    ensures
        scan(source, at) matches Scan::Found(lexed) ==> forall|i: int|
            lexed.start <= i < lexed.end ==> !whitespace(#[trigger] source[i]),
    decreases source.len() - at,
{
    if at < source.len() {
        let c = source[at];
        lemma_run_end(source, at + 1, CharClass::Word);
        lemma_run_end(source, at + 1, CharClass::Numeric);
        lemma_run_end(source, at + 1, CharClass::Blank);
        if symbol(c) is None && c != '!' && c != '=' && c != '<' && c != '>' && c != '&' && c != '|'
            && !alphabetic(c) && !numeric(c) && whitespace(c) {
            lemma_token_solid(source, run_end(source, at + 1, CharClass::Blank));
        }
    }
}

/// The text without its white space is the characters of its tokens without
/// their white space: what lies between tokens is white space.
pub proof fn lemma_visible_tokens(source: Seq<char>, at: int)
    requires
        0 <= at <= source.len(),
        lexable(source, at),
    ensures
        visible(source.subrange(at, source.len() as int)) == visible(token_text(source, at)),
    decreases source.len() - at,
{
    let end = source.len() as int;
    lemma_scan(source, at);
    match scan(source, at) {
        Scan::End => {
            lemma_visible_blank(source.subrange(at, end));
            lemma_visible_blank(Seq::<char>::empty());
        },
        Scan::Found(lexed) => {
            let gap = source.subrange(at, lexed.start);
            let piece = source.subrange(lexed.start, lexed.end);
            let tail = source.subrange(lexed.end, end);
            lemma_visible_tokens(source, lexed.end);
            assert(source.subrange(at, end) == (gap + piece) + tail);
            lemma_visible_add(gap + piece, tail);
            lemma_visible_add(gap, piece);
            lemma_visible_blank(gap);
            lemma_visible_add(piece, token_text(source, lexed.end));
            assert(Seq::<char>::empty() + visible(piece) == visible(piece));
        },
        Scan::BadLiteral { .. } => {},
    }
}

/// Where the white space of a text is nothing but white space, the
/// characters of its tokens hold no white space.
pub proof fn lemma_token_text_solid(source: Seq<char>, at: int)
    requires
        0 <= at <= source.len(),
        separated(source),
    ensures
        visible(token_text(source, at)) == token_text(source, at),
    decreases source.len() - at,
{
    lemma_scan(source, at);
    match scan(source, at) {
        Scan::Found(lexed) => {
            let piece = source.subrange(lexed.start, lexed.end);
            lemma_token_text_solid(source, lexed.end);
            lemma_token_solid(source, at);
            lemma_visible_solid(piece);
            lemma_visible_add(piece, token_text(source, lexed.end));
        },
        _ => {
            lemma_visible_blank(Seq::<char>::empty());
        },
    }
}

/// The pieces of the encoded text that the spans of the tokens denote,
/// joined in order, are the encoding of the characters of the tokens.
pub proof fn lemma_spanned_bytes(source: Seq<char>, at: int)
    requires
        0 <= at <= source.len(),
        encode_utf8(source).len() <= usize::MAX,
    ensures
        spanned_bytes(encode_utf8(source), stream(source, at)) == encode_utf8(
            token_text(source, at),
        ),
    decreases source.len() - at,
{
    lemma_scan(source, at);
    match scan(source, at) {
        Scan::Found(lexed) => {
            let piece = source.subrange(lexed.start, lexed.end);
            let rest = stream(source, lexed.end);
            let all = stream(source, at);
            lemma_spanned_bytes(source, lexed.end);
            lemma_span_bytes(source, lexed.start, lexed.end);
            lemma_encode_add(piece, token_text(source, lexed.end));
            assert(all.drop_first() == rest);
            assert(all[0].1 == span_of(source, lexed));
        },
        _ => {},
    }
}

/// Whether the character `c`, standing directly after a token with lexeme
/// `lexeme`, belongs to a longer token that starts where that token starts.
pub open spec fn extends(lexeme: Lexeme, c: char) -> bool {
    match lexeme.kind {
        TokenKind::Bang | TokenKind::Equal | TokenKind::Less | TokenKind::Greater => c == '=',
        TokenKind::UnexpectedCharacter => lexeme.payload == Payload::Character(c) && (c == '&'
            || c == '|'),
        TokenKind::Identifier
        | TokenKind::Fn
        | TokenKind::Let
        | TokenKind::If
        | TokenKind::Else
        | TokenKind::While
        | TokenKind::Return
        | TokenKind::True
        | TokenKind::False => CharClass::Word.admits(c),
        TokenKind::Int => numeric(c),
        _ => false,
    }
}

/// Tokens are maximal: no token is directly followed by a character that
/// would have made it longer. An operator of one character is not followed
/// by the character that completes an operator of two, a word is not
/// followed by a character of a word, and an integer literal is not followed
/// by a numeric character.
pub proof fn lemma_maximal_munch(source: Seq<char>, at: int)
    requires
        0 <= at,
    ensures
        scan(source, at) matches Scan::Found(lexed) ==> lexed.end < source.len() ==> !extends(
            lexed.lexeme,
            source[lexed.end],
        ),
    decreases source.len() - at,
{
    if at < source.len() {
        let c = source[at];
        lemma_run_end(source, at + 1, CharClass::Word);
        lemma_run_end(source, at + 1, CharClass::Numeric);
        lemma_run_end(source, at + 1, CharClass::Blank);
        if symbol(c) is None && c != '!' && c != '=' && c != '<' && c != '>' && c != '&' && c != '|'
            && !alphabetic(c) && !numeric(c) && whitespace(c) {
            lemma_maximal_munch(source, run_end(source, at + 1, CharClass::Blank));
        }
    }
}

/// The spans of the tokens rebuild the text without its white space.
///
/// Let every integer literal of `source` be representable, and let its
/// white space be nothing but white space. Then the characters of its
/// tokens, joined in order, are `source` without its white space; and the
/// pieces of the encoded text that the spans of the tokens denote, joined in
/// order, are the encoding of `source` without its white space.
pub proof fn lemma_spans_rebuild_source(source: Seq<char>)
    requires
        lexable(source, 0),
        separated(source),
        encode_utf8(source).len() <= usize::MAX,
    ensures
        token_text(source, 0) == visible(source),
        spanned_bytes(encode_utf8(source), stream(source, 0)) == encode_utf8(visible(source)),
{
    lemma_visible_tokens(source, 0);
    lemma_token_text_solid(source, 0);
    lemma_spanned_bytes(source, 0);
    assert(source.subrange(0, source.len() as int) == source);
}

} // verus!
