//! The lexer: a cursor over the source text that yields one token at a time.

use vstd::prelude::*;
use vstd::pervasive::unreached;
use vstd::utf8::encode_utf8;
use crate::classes::{numeric, CharClass};
use crate::coverage::lemma_stream_ordered;
use crate::extent::ordered;
use crate::scan::{
    keyword, lemma_literal_push, lemma_offset_monotonic, lemma_offset_step, lemma_run_end,
    lemma_scan, lexable, literal_value, offset, run_end, scan, span_of, stream, Scan,
};
use crate::span::Span;
use crate::token::{Lexeme, Payload, Token};

verus! {

/// A cursor over a source text.
///
/// The lexer holds the characters of the text, the index of the next
/// character, and the byte offset of that character in the text.
pub struct Lexer {
    chars: Vec<char>,
    index: usize,
    position: usize,
}

/// The views of a sequence of tokens with their spans.
pub open spec fn lexemes(tokens: Seq<(Token, Span)>) -> Seq<(Lexeme, Span)> {
    tokens.map_values(|pair: (Token, Span)| (pair.0@, pair.1))
}

impl Lexer {
    /// The characters of the text.
    pub closed spec fn source(&self) -> Seq<char> {
        self.chars@
    }

    /// The index of the next character.
    pub closed spec fn cursor(&self) -> int {
        self.index as int
    }

    /// The cursor lies within the text, the byte offset is that of the
    /// cursor, and every byte offset of the text fits in `usize`.
    pub closed spec fn wf(&self) -> bool {
        &&& self.index <= self.chars.len()
        &&& self.position == offset(self.chars@, self.index as int)
        &&& encode_utf8(self.chars@).len() <= usize::MAX
    }

    /// What lies ahead of the cursor.
    pub open spec fn upcoming(&self) -> Scan {
        scan(self.source(), self.cursor())
    }

    /// The tokens that lie ahead of the cursor.
    pub open spec fn remaining(&self) -> Seq<(Lexeme, Span)> {
        stream(self.source(), self.cursor())
    }

    /// Whether every integer literal ahead of the cursor is representable.
    pub open spec fn lexable(&self) -> bool {
        lexable(self.source(), self.cursor())
    }

    /// The cursor of a well-formed lexer lies within its text.
    pub proof fn lemma_cursor(&self)
        requires
            self.wf(),
        ensures
            0 <= self.cursor() <= self.source().len(),
    {
    }

    /// The spans of the tokens ahead are well formed and in the order of the
    /// text.
    pub proof fn lemma_remaining_ordered(&self)
        requires
            self.wf(),
        ensures
            ordered(self.remaining()),
    {
        lemma_stream_ordered(self.chars@, self.index as int);
    }

    /// A lexer at the start of `input`.
    pub fn new(input: &str) -> (lexer: Lexer)
        ensures
            lexer.wf(),
            lexer.source() == input@,
            lexer.cursor() == 0,
    {
        let mut chars: Vec<char> = Vec::new();
        for c in it: input.chars()
            invariant
                chars@ == it.seq().take(it.index() as int),
        {
            chars.push(c);
        }
        let bytes = input.as_bytes();
        let size = bytes.len();
        proof {
            assert(chars@ == input@);
            assert(size == encode_utf8(input@).len());
            lemma_offset_monotonic(chars@, 0, 0);
        }
        Lexer { chars, index: 0, position: 0 }
    }

    /// Yields the next token and its span, or `None` at the end of the
    /// text.
    ///
    /// White space before the token is skipped. The integer literal ahead, if
    /// there is one, must be representable: [`Lexer::ready`] tells.
    pub fn next_token(&mut self) -> (next: Option<(Token, Span)>)
        requires
            old(self).wf(),
            !(old(self).upcoming() is BadLiteral),
        ensures
            final(self).wf(),
            final(self).source() == old(self).source(),
            match old(self).upcoming() {
                Scan::End => next is None && final(self).cursor() == old(self).source().len(),
                Scan::Found(lexed) => {
                    &&& next matches Some((token, span))
                    &&& token@ == lexed.lexeme
                    &&& span == span_of(old(self).source(), lexed)
                    &&& final(self).cursor() == lexed.end
                },
                Scan::BadLiteral { .. } => false,
            },
            old(self).remaining() == match next {
                Some((token, span)) => seq![(token@, span)] + final(self).remaining(),
                None => Seq::empty(),
            },
            final(self).lexable() == old(self).lexable(),
        decreases old(self).source().len() - old(self).cursor(),
    {
        let current_position = self.position;
        let begin = self.index;
        let c = match self.next_char() {
            Some(c) => c,
            None => {
                return None;
            },
        };
        proof {
            lemma_run_end(self.chars@, begin + 1, CharClass::Word);
            lemma_run_end(self.chars@, begin + 1, CharClass::Numeric);
            lemma_run_end(self.chars@, begin + 1, CharClass::Blank);
        }
        match c {
            '(' => self.emit_token(current_position, Token::LParen),
            ')' => self.emit_token(current_position, Token::RParen),
            '{' => self.emit_token(current_position, Token::LBrace),
            '}' => self.emit_token(current_position, Token::RBrace),
            ',' => self.emit_token(current_position, Token::Comma),
            ';' => self.emit_token(current_position, Token::Semicolon),
            '+' => self.emit_token(current_position, Token::Plus),
            '-' => self.emit_token(current_position, Token::Minus),
            '*' => self.emit_token(current_position, Token::Asterisk),
            '/' => self.emit_token(current_position, Token::Slash),
            '!' => {
                if let Some(_) = self.next_char_if(CharClass::Exactly('=')) {
                    return self.emit_token(current_position, Token::BangEqual);
                }
                self.emit_token(current_position, Token::Bang)
            },
            '=' => {
                if let Some(_) = self.next_char_if(CharClass::Exactly('=')) {
                    return self.emit_token(current_position, Token::EqualEqual);
                }
                self.emit_token(current_position, Token::Equal)
            },
            '<' => {
                if let Some(_) = self.next_char_if(CharClass::Exactly('=')) {
                    return self.emit_token(current_position, Token::LessEqual);
                }
                self.emit_token(current_position, Token::Less)
            },
            '>' => {
                if let Some(_) = self.next_char_if(CharClass::Exactly('=')) {
                    return self.emit_token(current_position, Token::GreaterEqual);
                }
                self.emit_token(current_position, Token::Greater)
            },
            '&' => {
                if let Some(_) = self.next_char_if(CharClass::Exactly('&')) {
                    return self.emit_token(current_position, Token::AndAnd);
                }
                self.emit_token(current_position, Token::UnexpectedCharacter('&'))
            },
            '|' => {
                if let Some(_) = self.next_char_if(CharClass::Exactly('|')) {
                    return self.emit_token(current_position, Token::OrOr);
                }
                self.emit_token(current_position, Token::UnexpectedCharacter('|'))
            },
            c if c.is_alphabetic() => {
                self.skip_run(CharClass::Word);
                match self.keyword_at(begin, self.index) {
                    Some(token) => self.emit_token(current_position, token),
                    None => {
                        let identifier = self.text(begin, self.index);
                        self.emit_token(current_position, Token::Identifier(identifier))
                    },
                }
            },
            c if c.is_numeric() => {
                let value = self.literal_at(begin);
                self.skip_run(CharClass::Numeric);
                match value {
                    Some(value) => self.emit_token(current_position, Token::Int(value)),
                    None => unreached(),
                }
            },
            c if c.is_whitespace() => {
                self.skip_run(CharClass::Blank);
                self.next_token()
            },
            _ => self.emit_token(current_position, Token::UnexpectedCharacter(c)),
        }
    }

    /// Yields the next token and its span: [`Lexer::next_token`] under the
    /// name that iteration goes by.
    pub fn next(&mut self) -> (next: Option<(Token, Span)>)
        requires
            old(self).wf(),
            !(old(self).upcoming() is BadLiteral),
        ensures
            final(self).wf(),
            final(self).source() == old(self).source(),
            match old(self).upcoming() {
                Scan::End => next is None && final(self).cursor() == old(self).source().len(),
                Scan::Found(lexed) => {
                    &&& next matches Some((token, span))
                    &&& token@ == lexed.lexeme
                    &&& span == span_of(old(self).source(), lexed)
                    &&& final(self).cursor() == lexed.end
                },
                Scan::BadLiteral { .. } => false,
            },
            old(self).remaining() == match next {
                Some((token, span)) => seq![(token@, span)] + final(self).remaining(),
                None => Seq::empty(),
            },
            final(self).lexable() == old(self).lexable(),
    {
        self.next_token()
    }

    /// Tells whether [`Lexer::next_token`] may be called: whether what lies
    /// ahead is a token or the end of the text, and no run of numeric
    /// characters that is no integer literal.
    pub fn ready(&self) -> (ok: bool)
        requires
            self.wf(),
        ensures
            ok == !(self.upcoming() is BadLiteral),
    {
        let mut i = self.index;
        loop
            invariant
                self.wf(),
                self.index <= i <= self.chars.len(),
                scan(self.chars@, i as int) == scan(self.chars@, self.index as int),
            decreases self.chars.len() - i,
        {
            if i >= self.chars.len() {
                return true;
            }
            let c = self.chars[i];
            if c == '(' || c == ')' || c == '{' || c == '}' || c == ',' || c == ';' || c == '+'
                || c == '-' || c == '*' || c == '/' || c == '!' || c == '=' || c == '<' || c == '>'
                || c == '&' || c == '|' {
                return true;
            }
            if c.is_alphabetic() {
                return true;
            }
            if c.is_numeric() {
                return self.literal_at(i).is_some();
            }
            if !c.is_whitespace() {
                return true;
            }
            proof {
                lemma_run_end(self.chars@, i + 1, CharClass::Blank);
            }
            i = self.run_end_at(i + 1, CharClass::Blank);
        }
    }

    /// Takes the next character, whatever it is.
    fn next_char(&mut self) -> (c: Option<char>)
        requires
            old(self).wf(),
        ensures
            final(self).wf(),
            final(self).source() == old(self).source(),
            match c {
                Some(c) => {
                    &&& old(self).cursor() < old(self).source().len()
                    &&& c == old(self).source()[old(self).cursor()]
                    &&& final(self).cursor() == old(self).cursor() + 1
                },
                None => {
                    &&& final(self).cursor() == old(self).cursor()
                    &&& old(self).cursor() == old(self).source().len()
                },
            },
    {
        self.next_char_if(CharClass::Any)
    }

    /// Takes the next character if it belongs to `class`, and advances the
    /// byte offset by the width of its encoding.
    fn next_char_if(&mut self, class: CharClass) -> (c: Option<char>)
        requires
            old(self).wf(),
        ensures
            final(self).wf(),
            final(self).source() == old(self).source(),
            match c {
                Some(c) => {
                    &&& old(self).cursor() < old(self).source().len()
                    &&& c == old(self).source()[old(self).cursor()]
                    &&& class.admits(c)
                    &&& final(self).cursor() == old(self).cursor() + 1
                },
                None => {
                    &&& final(self).cursor() == old(self).cursor()
                    &&& old(self).cursor() < old(self).source().len() ==> !class.admits(
                        old(self).source()[old(self).cursor()],
                    )
                },
            },
    {
        if self.index < self.chars.len() {
            let c = self.chars[self.index];
            if class.accepts(c) {
                proof {
                    lemma_offset_step(self.chars@, self.index as int);
                    lemma_offset_monotonic(
                        self.chars@,
                        self.index + 1,
                        self.chars@.len() as int,
                    );
                }
                self.index = self.index + 1;
                self.position = self.position + c.len_utf8();
                return Some(c);
            }
        }
        None
    }

    /// Pairs a token with the span from `start` to the current byte offset.
    fn emit_token(&self, start: usize, token: Token) -> (emitted: Option<(Token, Span)>)
        ensures
            emitted == Some((token, Span { start, end: self.position })),
    {
        Some((token, Span { start, end: self.position }))
    }

    /// Takes characters as long as they belong to `class`.
    fn skip_run(&mut self, class: CharClass)
        requires
            old(self).wf(),
        ensures
            final(self).wf(),
            final(self).source() == old(self).source(),
            final(self).cursor() == run_end(old(self).source(), old(self).cursor(), class),
    {
        let ghost source = self.chars@;
        let ghost start = self.index as int;
        let mut more = true;
        while more
            invariant
                self.wf(),
                self.chars@ == source,
                0 <= self.index <= source.len(),
                run_end(source, self.index as int, class) == run_end(source, start, class),
                !more ==> self.index == run_end(source, start, class),
            decreases source.len() - self.index + if more { 1int } else { 0int },
        {
            match self.next_char_if(class) {
                Some(_) => {},
                None => {
                    more = false;
                },
            }
        }
    }

    /// Finds the end of the run of characters of `class` that starts at
    /// `from`, without moving the cursor.
    fn run_end_at(&self, from: usize, class: CharClass) -> (end: usize)
        requires
            from <= self.chars.len(),
        ensures
            end == run_end(self.chars@, from as int, class),
    {
        let mut i = from;
        while i < self.chars.len() && class.accepts(self.chars[i])
            invariant
                from <= i <= self.chars.len(),
                run_end(self.chars@, i as int, class) == run_end(self.chars@, from as int, class),
            decreases self.chars.len() - i,
        {
            i = i + 1;
        }
        i
    }

    /// Reads the run of numeric characters that starts at `from` as an
    /// integer literal, without moving the cursor.
    fn literal_at(&self, from: usize) -> (value: Option<i64>)
        requires
            from <= self.chars.len(),
        ensures
            value == literal_value(
                self.chars@.subrange(
                    from as int,
                    run_end(self.chars@, from as int, CharClass::Numeric),
                ),
            ),
    {
        let mut i = from;
        let mut value: Option<i64> = Some(0);
        proof {
            lemma_run_end(self.chars@, from as int, CharClass::Numeric);
            assert(self.chars@.subrange(from as int, from as int) == Seq::<char>::empty());
        }
        while i < self.chars.len() && self.chars[i].is_numeric()
            invariant
                from <= i <= self.chars.len(),
                from <= run_end(self.chars@, from as int, CharClass::Numeric) <= self.chars.len(),
                run_end(self.chars@, i as int, CharClass::Numeric) == run_end(
                    self.chars@,
                    from as int,
                    CharClass::Numeric,
                ),
                value == literal_value(self.chars@.subrange(from as int, i as int)),
            decreases self.chars.len() - i,
        {
            let c = self.chars[i];
            proof {
                lemma_literal_push(self.chars@.subrange(from as int, i as int), c);
                assert(self.chars@.subrange(from as int, i + 1) == self.chars@.subrange(
                    from as int,
                    i as int,
                ).push(c));
            }
            let code = c as u32;
            value = match value {
                Some(high) => {
                    if 0x30 <= code && code <= 0x39 {
                        let wide: i128 = 10 * (high as i128) + ((code - 0x30) as i128);
                        if wide <= i64::MAX as i128 {
                            Some(wide as i64)
                        } else {
                            None
                        }
                    } else {
                        None
                    }
                },
                None => None,
            };
            i = i + 1;
        }
        value
    }

    /// Copies the characters `[begin, end)` of the text into a string.
    fn text(&self, begin: usize, end: usize) -> (text: String)
        requires
            begin <= end <= self.chars.len(),
        ensures
            text@ == self.chars@.subrange(begin as int, end as int),
    {
        let mut text = String::new();
        let mut i = begin;
        while i < end
            invariant
                begin <= i <= end <= self.chars.len(),
                text@ == self.chars@.subrange(begin as int, i as int),
            decreases end - i,
        {
            text.push(self.chars[i]);
            i = i + 1;
        }
        text
    }

    /// Tells which keyword the characters `[begin, end)` of the text spell.
    fn keyword_at(&self, begin: usize, end: usize) -> (token: Option<Token>)
        requires
            begin <= end <= self.chars.len(),
        ensures
            match token {
                Some(token) => keyword(self.chars@.subrange(begin as int, end as int)) == Some(
                    token.tag(),
                ) && token.payload() == Payload::Nothing,
                None => keyword(self.chars@.subrange(begin as int, end as int)) is None,
            },
    {
        let ghost text = self.chars@.subrange(begin as int, end as int);
        let length = end - begin;
        if length == 2 && self.chars[begin] == 'f' && self.chars[begin + 1] == 'n' {
            assert(text == seq!['f', 'n']);
            Some(Token::Fn)
        } else if length == 3 && self.chars[begin] == 'l' && self.chars[begin + 1] == 'e'
            && self.chars[begin + 2] == 't' {
            assert(text == seq!['l', 'e', 't']);
            Some(Token::Let)
        } else if length == 2 && self.chars[begin] == 'i' && self.chars[begin + 1] == 'f' {
            assert(text == seq!['i', 'f']);
            Some(Token::If)
        } else if length == 4 && self.chars[begin] == 'e' && self.chars[begin + 1] == 'l'
            && self.chars[begin + 2] == 's' && self.chars[begin + 3] == 'e' {
            assert(text == seq!['e', 'l', 's', 'e']);
            Some(Token::Else)
        } else if length == 5 && self.chars[begin] == 'w' && self.chars[begin + 1] == 'h'
            && self.chars[begin + 2] == 'i' && self.chars[begin + 3] == 'l' && self.chars[begin
            + 4] == 'e' {
            assert(text == seq!['w', 'h', 'i', 'l', 'e']);
            Some(Token::While)
        } else if length == 6 && self.chars[begin] == 'r' && self.chars[begin + 1] == 'e'
            && self.chars[begin + 2] == 't' && self.chars[begin + 3] == 'u' && self.chars[begin
            + 4] == 'r' && self.chars[begin + 5] == 'n' {
            assert(text == seq!['r', 'e', 't', 'u', 'r', 'n']);
            Some(Token::Return)
        } else if length == 4 && self.chars[begin] == 't' && self.chars[begin + 1] == 'r'
            && self.chars[begin + 2] == 'u' && self.chars[begin + 3] == 'e' {
            assert(text == seq!['t', 'r', 'u', 'e']);
            Some(Token::True)
        } else if length == 5 && self.chars[begin] == 'f' && self.chars[begin + 1] == 'a'
            && self.chars[begin + 2] == 'l' && self.chars[begin + 3] == 's' && self.chars[begin
            + 4] == 'e' {
            assert(text == seq!['f', 'a', 'l', 's', 'e']);
            Some(Token::False)
        } else {
            assert(text.len() == length);
            assert(forall|k: int| 0 <= k < length ==> text[k] == self.chars@[begin + k]);
            None
        }
    }
}

/// Lexes the whole of `input`.
///
/// Returns the tokens in order, each with its span, or `None` if some run of
/// numeric characters in `input` is no integer literal.
pub fn tokenize(input: &str) -> (tokens: Option<Vec<(Token, Span)>>)
    ensures
        match tokens {
            Some(tokens) => lexable(input@, 0) && lexemes(tokens@) == stream(input@, 0),
            None => !lexable(input@, 0),
        },
{
    let mut lexer = Lexer::new(input);
    let mut tokens: Vec<(Token, Span)> = Vec::new();
    loop
        invariant
            lexer.wf(),
            lexer.source() == input@,
            0 <= lexer.cursor() <= input@.len(),
            lexable(input@, 0) == lexable(input@, lexer.cursor()),
            stream(input@, 0) == lexemes(tokens@) + stream(input@, lexer.cursor()),
        decreases input@.len() - lexer.cursor(),
    {
        proof {
            lemma_scan(input@, lexer.cursor());
        }
        if !lexer.ready() {
            return None;
        }
        let ghost before = tokens@;
        match lexer.next_token() {
            Some(pair) => {
                tokens.push(pair);
                assert(lexemes(tokens@) == lexemes(before).push((pair.0@, pair.1)));
            },
            None => {
                return Some(tokens);
            },
        }
    }
}

} // verus!
