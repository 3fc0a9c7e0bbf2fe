use inv_syntax::classes::CharClass;
use inv_syntax::lexer::{tokenize, Lexer};
use inv_syntax::span::Span;
use inv_syntax::token::{Token, TokenKind};

fn lex(input: &str) -> Vec<(Token, Span)> {
    tokenize(input).expect("every integer literal of the input is representable")
}

fn kinds(input: &str) -> Vec<TokenKind> {
    lex(input).iter().map(|(token, _)| token.kind()).collect()
}

fn word(name: &str) -> Token {
    Token::Identifier(name.to_string())
}

fn at(start: usize, end: usize) -> Span {
    Span { start, end }
}

#[test]
fn empty_input_has_no_tokens() {
    assert_eq!(lex(""), vec![]);
    let mut lexer = Lexer::new("");
    assert!(lexer.ready());
    assert_eq!(lexer.next_token(), None);
    assert_eq!(lexer.next_token(), None);
}

#[test]
fn white_space_alone_has_no_tokens() {
    assert_eq!(lex(" \t\r\n  "), vec![]);
    assert_eq!(lex("\u{a0}\u{2003}\u{3000}"), vec![]);
}

#[test]
fn delimiters_and_arithmetic_operators() {
    assert_eq!(
        lex("(){},;+-*/"),
        vec![
            (Token::LParen, at(0, 1)),
            (Token::RParen, at(1, 2)),
            (Token::LBrace, at(2, 3)),
            (Token::RBrace, at(3, 4)),
            (Token::Comma, at(4, 5)),
            (Token::Semicolon, at(5, 6)),
            (Token::Plus, at(6, 7)),
            (Token::Minus, at(7, 8)),
            (Token::Asterisk, at(8, 9)),
            (Token::Slash, at(9, 10)),
        ]
    );
}

#[test]
fn double_equal_is_one_token() {
    assert_eq!(lex("=="), vec![(Token::EqualEqual, at(0, 2))]);
}

#[test]
fn lone_ampersand_is_an_unexpected_character() {
    assert_eq!(lex("&"), vec![(Token::UnexpectedCharacter('&'), at(0, 1))]);
}

#[test]
fn lone_bar_is_an_unexpected_character() {
    assert_eq!(lex("|"), vec![(Token::UnexpectedCharacter('|'), at(0, 1))]);
    assert_eq!(
        lex("| |"),
        vec![(Token::UnexpectedCharacter('|'), at(0, 1)), (Token::UnexpectedCharacter('|'), at(2, 3))]
    );
}

#[test]
fn operators_of_two_characters_are_maximal() {
    assert_eq!(lex("!="), vec![(Token::BangEqual, at(0, 2))]);
    assert_eq!(lex("<="), vec![(Token::LessEqual, at(0, 2))]);
    assert_eq!(lex(">="), vec![(Token::GreaterEqual, at(0, 2))]);
    assert_eq!(lex("&&"), vec![(Token::AndAnd, at(0, 2))]);
    assert_eq!(lex("||"), vec![(Token::OrOr, at(0, 2))]);
}

#[test]
fn operators_of_one_character() {
    assert_eq!(lex("!"), vec![(Token::Bang, at(0, 1))]);
    assert_eq!(lex("="), vec![(Token::Equal, at(0, 1))]);
    assert_eq!(lex("<"), vec![(Token::Less, at(0, 1))]);
    assert_eq!(lex(">"), vec![(Token::Greater, at(0, 1))]);
}

#[test]
fn operators_split_after_two_characters() {
    assert_eq!(lex("==="), vec![(Token::EqualEqual, at(0, 2)), (Token::Equal, at(2, 3))]);
    assert_eq!(lex("!=="), vec![(Token::BangEqual, at(0, 2)), (Token::Equal, at(2, 3))]);
    assert_eq!(
        lex("&&&"),
        vec![(Token::AndAnd, at(0, 2)), (Token::UnexpectedCharacter('&'), at(2, 3))]
    );
    assert_eq!(lex("= ="), vec![(Token::Equal, at(0, 1)), (Token::Equal, at(2, 3))]);
    assert_eq!(lex("<>"), vec![(Token::Less, at(0, 1)), (Token::Greater, at(1, 2))]);
}

#[test]
fn while_is_a_keyword() {
    assert_eq!(lex("while"), vec![(Token::While, at(0, 5))]);
}

#[test]
fn longer_words_are_identifiers() {
    assert_eq!(lex("while1"), vec![(word("while1"), at(0, 6))]);
    assert_eq!(lex("whilex"), vec![(word("whilex"), at(0, 6))]);
    assert_eq!(lex("whil"), vec![(word("whil"), at(0, 4))]);
    assert_eq!(lex("While"), vec![(word("While"), at(0, 5))]);
    assert_eq!(lex("fn_"), vec![(word("fn_"), at(0, 3))]);
}

#[test]
fn every_keyword() {
    assert_eq!(
        kinds("fn let if else while return true false"),
        vec![
            TokenKind::Fn,
            TokenKind::Let,
            TokenKind::If,
            TokenKind::Else,
            TokenKind::While,
            TokenKind::Return,
            TokenKind::True,
            TokenKind::False,
        ]
    );
    assert_eq!(
        lex("fn let if else while return true false"),
        vec![
            (Token::Fn, at(0, 2)),
            (Token::Let, at(3, 6)),
            (Token::If, at(7, 9)),
            (Token::Else, at(10, 14)),
            (Token::While, at(15, 20)),
            (Token::Return, at(21, 27)),
            (Token::True, at(28, 32)),
            (Token::False, at(33, 38)),
        ]
    );
}

#[test]
fn identifiers_hold_letters_digits_and_underscores() {
    assert_eq!(lex("a_b1"), vec![(word("a_b1"), at(0, 4))]);
    assert_eq!(lex("x y"), vec![(word("x"), at(0, 1)), (word("y"), at(2, 3))]);
    assert_eq!(lex("a+b"), vec![(word("a"), at(0, 1)), (Token::Plus, at(1, 2)), (word("b"), at(2, 3))]);
}

#[test]
fn underscore_starts_no_identifier() {
    assert_eq!(
        lex("_a"),
        vec![(Token::UnexpectedCharacter('_'), at(0, 1)), (word("a"), at(1, 2))]
    );
}

#[test]
fn digits_start_no_identifier() {
    assert_eq!(lex("1a"), vec![(Token::Int(1), at(0, 1)), (word("a"), at(1, 2))]);
}

#[test]
fn integer_literals() {
    assert_eq!(lex("0"), vec![(Token::Int(0), at(0, 1))]);
    assert_eq!(lex("42"), vec![(Token::Int(42), at(0, 2))]);
    assert_eq!(lex("007"), vec![(Token::Int(7), at(0, 3))]);
    assert_eq!(lex("12 34"), vec![(Token::Int(12), at(0, 2)), (Token::Int(34), at(3, 5))]);
    assert_eq!(lex("-5"), vec![(Token::Minus, at(0, 1)), (Token::Int(5), at(1, 2))]);
}

#[test]
fn largest_integer_literal() {
    assert_eq!(lex("9223372036854775807"), vec![(Token::Int(i64::MAX), at(0, 19))]);
    assert_eq!(lex("09223372036854775807"), vec![(Token::Int(i64::MAX), at(0, 20))]);
}

#[test]
fn integer_literal_out_of_range() {
    assert_eq!(tokenize("9223372036854775808"), None);
    assert_eq!(tokenize("x = 99999999999999999999;"), None);
    let mut lexer = Lexer::new("x 9223372036854775808");
    assert!(lexer.ready());
    assert_eq!(lexer.next_token(), Some((word("x"), at(0, 1))));
    assert!(!lexer.ready());
}

#[test]
fn numeric_characters_that_are_no_digits() {
    // ARABIC-INDIC DIGIT THREE and SUPERSCRIPT TWO are numeric, and no decimal digits.
    assert_eq!(tokenize("\u{663}"), None);
    assert_eq!(tokenize("1\u{b2}"), None);
    assert!(!Lexer::new("  \u{b2}").ready());
}

#[test]
fn unexpected_characters_are_tokens() {
    assert_eq!(lex("#"), vec![(Token::UnexpectedCharacter('#'), at(0, 1))]);
    assert_eq!(
        lex("a $ b"),
        vec![(word("a"), at(0, 1)), (Token::UnexpectedCharacter('$'), at(2, 3)), (word("b"), at(4, 5))]
    );
    assert_eq!(lex("\u{1f600}"), vec![(Token::UnexpectedCharacter('\u{1f600}'), at(0, 4))]);
}

#[test]
fn spans_are_byte_offsets() {
    // "é" takes two bytes, "日本" six, the ideographic space three.
    assert_eq!(
        lex("é = 日本\u{3000}+ 1"),
        vec![
            (word("é"), at(0, 2)),
            (Token::Equal, at(3, 4)),
            (word("日本"), at(5, 11)),
            (Token::Plus, at(14, 15)),
            (Token::Int(1), at(16, 17)),
        ]
    );
}

#[test]
fn spans_index_the_source_text() {
    let source = "let é = f(汉字, 12) >= 3;";
    for (token, span) in lex(source) {
        let text = &source[span.start..span.end];
        match token {
            Token::Identifier(name) => assert_eq!(name, text),
            Token::Int(value) => assert_eq!(value.to_string(), text),
            Token::GreaterEqual => assert_eq!(text, ">="),
            Token::Let => assert_eq!(text, "let"),
            _ => assert_eq!(text.chars().count(), 1),
        }
    }
}

#[test]
fn token_texts_rebuild_the_source_without_white_space() {
    let source = "fn add(a, b) {\n\treturn a + b;\n}\n\nfn main() { let é = add(1, 2) >= 3 && !true; }";
    let mut rebuilt = String::new();
    let mut end = 0;
    for (_, span) in lex(source) {
        assert!(end <= span.start && span.start < span.end && span.end <= source.len());
        assert!(source[end..span.start].chars().all(|c| c.is_whitespace()));
        rebuilt.push_str(&source[span.start..span.end]);
        end = span.end;
    }
    assert!(source[end..].chars().all(|c| c.is_whitespace()));
    let expected: String = source.chars().filter(|c| !c.is_whitespace()).collect();
    assert_eq!(rebuilt, expected);
}

#[test]
fn lexer_yields_one_token_at_a_time() {
    let mut lexer = Lexer::new("  a <= 10 ");
    assert_eq!(lexer.next_token(), Some((word("a"), at(2, 3))));
    assert_eq!(lexer.next(), Some((Token::LessEqual, at(4, 6))));
    assert!(lexer.ready());
    assert_eq!(lexer.next_token(), Some((Token::Int(10), at(7, 9))));
    assert_eq!(lexer.next_token(), None);
    assert_eq!(lexer.next(), None);
}

#[test]
fn a_whole_function() {
    assert_eq!(
        kinds("fn add(a, b) { return a + b; }"),
        vec![
            TokenKind::Fn,
            TokenKind::Identifier,
            TokenKind::LParen,
            TokenKind::Identifier,
            TokenKind::Comma,
            TokenKind::Identifier,
            TokenKind::RParen,
            TokenKind::LBrace,
            TokenKind::Return,
            TokenKind::Identifier,
            TokenKind::Plus,
            TokenKind::Identifier,
            TokenKind::Semicolon,
            TokenKind::RBrace,
        ]
    );
}

#[test]
fn kind_is_the_tag_of_the_token() {
    assert_eq!(Token::LParen.kind(), TokenKind::LParen);
    assert_eq!(Token::EqualEqual.kind(), TokenKind::EqualEqual);
    assert_eq!(word("x").kind(), TokenKind::Identifier);
    assert_eq!(word("while").kind(), TokenKind::Identifier);
    assert_eq!(Token::Int(-3).kind(), TokenKind::Int);
    assert_eq!(Token::False.kind(), TokenKind::False);
    assert_eq!(Token::UnexpectedCharacter('&').kind(), TokenKind::UnexpectedCharacter);
}

#[test]
fn identifier_gives_its_name() {
    assert_eq!(word("total").as_identifier_unchecked(), "total");
    assert_eq!(word("").as_identifier_unchecked(), "");
}

#[test]
fn merge_is_the_hull() {
    assert_eq!(at(2, 5).merge(&at(7, 9)), at(2, 9));
    assert_eq!(at(7, 9).merge(&at(2, 5)), at(2, 9));
    assert_eq!(at(0, 10).merge(&at(3, 4)), at(0, 10));
    assert_eq!(at(3, 4).merge(&at(3, 4)), at(3, 4));
    assert_eq!(at(1, 6).merge(&at(4, 8)), at(1, 8));
    assert_eq!(Span::new(4, 4).merge(&Span::new(0, 0)), at(0, 4));
}

#[test]
fn character_classes() {
    assert!(CharClass::Any.accepts(' '));
    assert!(CharClass::Any.accepts('x'));
    assert!(CharClass::Exactly('=').accepts('='));
    assert!(!CharClass::Exactly('=').accepts('!'));
    assert!(CharClass::Word.accepts('a'));
    assert!(CharClass::Word.accepts('é'));
    assert!(CharClass::Word.accepts('7'));
    assert!(CharClass::Word.accepts('_'));
    assert!(!CharClass::Word.accepts('-'));
    assert!(!CharClass::Word.accepts(' '));
    assert!(CharClass::Numeric.accepts('0'));
    assert!(CharClass::Numeric.accepts('\u{663}'));
    assert!(!CharClass::Numeric.accepts('a'));
    assert!(CharClass::Blank.accepts(' '));
    assert!(CharClass::Blank.accepts('\n'));
    assert!(CharClass::Blank.accepts('\u{3000}'));
    assert!(!CharClass::Blank.accepts('a'));
    assert!(!CharClass::Blank.accepts('_'));
}

#[test]
fn white_space_is_no_part_of_a_token() {
    for code in 0..=0x10ffffu32 {
        if let Some(c) = char::from_u32(code) {
            if c.is_whitespace() {
                assert!(!c.is_alphabetic() && !c.is_numeric(), "{:?}", c);
                assert!(!"(){},;+-*/!=<>&|_".contains(c), "{:?}", c);
            }
        }
    }
}
