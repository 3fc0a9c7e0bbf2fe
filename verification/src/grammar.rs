//! The grammar of the language, stated as functions from token sequences to
//! views of syntax trees.
//!
//! Each function reads one construct from the front of a token sequence. It
//! gives the view of the tree and the number of tokens the construct is made
//! of, or the error at the first token that fits no production. The span of
//! a tree is the hull of the spans of its first and last token.

use vstd::prelude::*;
use crate::ast::{BinaryOperator, ExpressionView, ItemView, StatementView};
use crate::parser::{Expected, ParseError};
use crate::span::Span;
use crate::token::{Lexeme, TokenKind};

verus! {

/// Tokens with their spans, in the order of the source text.
pub type Tokens = Seq<(Lexeme, Span)>;

/// What is left of `tokens` after the first `count` of them.
pub open spec fn after(tokens: Tokens, count: nat) -> Tokens {
    if count <= tokens.len() {
        tokens.skip(count as int)
    } else {
        Seq::empty()
    }
}

/// Whether the first token is of kind `kind`.
pub open spec fn starts_with(tokens: Tokens, kind: TokenKind) -> bool {
    tokens.len() > 0 && tokens[0].0.kind == kind
}

/// The error of finding the first token of `tokens`, or their end, in place
/// of `expected`.
pub open spec fn unexpected(tokens: Tokens, expected: Expected) -> ParseError {
    if tokens.len() > 0 {
        ParseError::UnexpectedToken { expected, found: tokens[0].0.kind, span: tokens[0].1 }
    } else {
        ParseError::UnexpectedEnd { expected }
    }
}

/// A token of kind `kind`: its span.
pub open spec fn token(tokens: Tokens, kind: TokenKind) -> Result<Span, ParseError> {
    if starts_with(tokens, kind) {
        Ok(tokens[0].1)
    } else {
        Err(unexpected(tokens, Expected::Token(kind)))
    }
}

/// An identifier: its name and its span.
pub open spec fn identifier(tokens: Tokens) -> Result<(Seq<char>, Span), ParseError> {
    if starts_with(tokens, TokenKind::Identifier) {
        Ok((tokens[0].0.name(), tokens[0].1))
    } else {
        Err(unexpected(tokens, Expected::Token(TokenKind::Identifier)))
    }
}

/// The binary operator that a token denotes, and its level of precedence:
/// from 0, which binds loosest, to 5, which binds tightest.
pub open spec fn operator(kind: TokenKind) -> Option<(BinaryOperator, nat)> {
    match kind {
        TokenKind::OrOr => Some((BinaryOperator::Or, 0nat)),
        TokenKind::AndAnd => Some((BinaryOperator::And, 1nat)),
        TokenKind::EqualEqual => Some((BinaryOperator::Equal, 2nat)),
        TokenKind::BangEqual => Some((BinaryOperator::NotEqual, 2nat)),
        TokenKind::Less => Some((BinaryOperator::Less, 3nat)),
        TokenKind::LessEqual => Some((BinaryOperator::LessEqual, 3nat)),
        TokenKind::Greater => Some((BinaryOperator::Greater, 3nat)),
        TokenKind::GreaterEqual => Some((BinaryOperator::GreaterEqual, 3nat)),
        TokenKind::Plus => Some((BinaryOperator::Add, 4nat)),
        TokenKind::Minus => Some((BinaryOperator::Sub, 4nat)),
        TokenKind::Asterisk => Some((BinaryOperator::Mul, 5nat)),
        TokenKind::Slash => Some((BinaryOperator::Div, 5nat)),
        _ => None,
    }
}

/// The binary operator of level `level` that the first token denotes.
pub open spec fn operator_at(tokens: Tokens, level: nat) -> Option<BinaryOperator> {
    if tokens.len() > 0 {
        match operator(tokens[0].0.kind) {
            Some((operator, its_level)) => if its_level == level {
                Some(operator)
            } else {
                None
            },
            None => None,
        }
    } else {
        None
    }
}

/// An expression.
///
/// An assignment is an identifier, `=`, and an expression; it binds loosest
/// and groups to the right. Any other expression is a binary expression of
/// level 0. So `=` is taken only after a binary expression that is a bare
/// identifier: a reference that starts with its identifier, not with a
/// parenthesis.
pub open spec fn expression(tokens: Tokens) -> Result<(ExpressionView, nat), ParseError>
    decreases tokens.len(), 9nat,
{
    match binary(tokens, 0) {
        Err(error) => Err(error),
        Ok((target, count)) => match target {
            ExpressionView::Reference { name, span } => if starts_with(tokens, TokenKind::Identifier)
                && starts_with(after(tokens, count), TokenKind::Equal) {
                match expression(after(tokens, count + 1)) {
                    Err(error) => Err(error),
                    Ok((value, more)) => Ok(
                        (
                            ExpressionView::Assignment {
                                assign_to: name,
                                value: Box::new(value),
                                span: span.hull(value.span()),
                            },
                            count + 1 + more,
                        ),
                    ),
                }
            } else {
                Ok((target, count))
            },
            _ => Ok((target, count)),
        },
    }
}

/// A binary expression of level `level`: operands of the next level, joined
/// by operators of this level, grouped to the left. Level 6 is that of the
/// unary expressions.
pub open spec fn binary(tokens: Tokens, level: nat) -> Result<(ExpressionView, nat), ParseError>
    decreases tokens.len(),
        if level < 6 {
            (8 - level) as nat
        } else {
            2nat
        },
{
    if level >= 6 {
        unary(tokens)
    } else {
        match binary(tokens, level + 1) {
            Err(error) => Err(error),
            Ok((first, count)) => match binary_tail(after(tokens, count), level, first) {
                Err(error) => Err(error),
                Ok((whole, more)) => Ok((whole, count + more)),
            },
        }
    }
}

/// What follows the operand `lhs` in a binary expression of level `level`:
/// as long as an operator of the level comes next, it and the operand after
/// it are joined with all that came before as the left operand.
pub open spec fn binary_tail(tokens: Tokens, level: nat, lhs: ExpressionView) -> Result<
    (ExpressionView, nat),
    ParseError,
>
    decreases tokens.len(), 0nat,
{
    match operator_at(tokens, level) {
        None => Ok((lhs, 0)),
        Some(operator) => match binary(after(tokens, 1), level + 1) {
            Err(error) => Err(error),
            Ok((rhs, count)) => {
                let joined = ExpressionView::Binary {
                    operator,
                    lhs: Box::new(lhs),
                    rhs: Box::new(rhs),
                    span: lhs.span().hull(rhs.span()),
                };
                match binary_tail(after(tokens, 1 + count), level, joined) {
                    Err(error) => Err(error),
                    Ok((whole, more)) => Ok((whole, 1 + count + more)),
                }
            },
        },
    }
}

/// A unary expression: any number of `!`, then a primary expression.
pub open spec fn unary(tokens: Tokens) -> Result<(ExpressionView, nat), ParseError>
    decreases tokens.len(), 1nat,
{
    if starts_with(tokens, TokenKind::Bang) {
        match unary(after(tokens, 1)) {
            Err(error) => Err(error),
            Ok((operand, count)) => Ok(
                (
                    ExpressionView::Not {
                        operand: Box::new(operand),
                        span: tokens[0].1.hull(operand.span()),
                    },
                    1 + count,
                ),
            ),
        }
    } else {
        primary(tokens)
    }
}

/// A primary expression: an integer literal, `true` or `false`, an
/// identifier, a call (an identifier directly followed by `(`), or an
/// expression in parentheses, whose span then covers the parentheses.
pub open spec fn primary(tokens: Tokens) -> Result<(ExpressionView, nat), ParseError>
    decreases tokens.len(), 0nat,
{
    if tokens.len() == 0 {
        Err(unexpected(tokens, Expected::Expression))
    } else {
        let lexeme = tokens[0].0;
        let span = tokens[0].1;
        match lexeme.kind {
            TokenKind::Int => Ok((ExpressionView::Integer { value: lexeme.value(), span }, 1)),
            TokenKind::True => Ok((ExpressionView::Boolean { value: true, span }, 1)),
            TokenKind::False => Ok((ExpressionView::Boolean { value: false, span }, 1)),
            TokenKind::Identifier => if starts_with(after(tokens, 1), TokenKind::LParen) {
                match arguments(after(tokens, 2)) {
                    Err(error) => Err(error),
                    Ok((arguments, count, close)) => Ok(
                        (
                            ExpressionView::Call {
                                name: lexeme.name(),
                                arguments,
                                span: span.hull(close),
                            },
                            2 + count,
                        ),
                    ),
                }
            } else {
                Ok((ExpressionView::Reference { name: lexeme.name(), span }, 1))
            },
            TokenKind::LParen => match expression(after(tokens, 1)) {
                Err(error) => Err(error),
                Ok((inner, count)) => match token(after(tokens, 1 + count), TokenKind::RParen) {
                    Err(error) => Err(error),
                    Ok(close) => Ok((inner.with_span(span.hull(close)), 2 + count)),
                },
            },
            _ => Err(unexpected(tokens, Expected::Expression)),
        }
    }
}

/// The arguments of a call after its `(`, up to and with its `)`: no
/// expression, or expressions separated by commas. Gives the arguments, the
/// number of tokens, and the span of the `)`.
pub open spec fn arguments(tokens: Tokens) -> Result<(Seq<ExpressionView>, nat, Span), ParseError>
    decreases tokens.len(), 10nat,
{
    if starts_with(tokens, TokenKind::RParen) {
        Ok((Seq::empty(), 1, tokens[0].1))
    } else {
        match expression(tokens) {
            Err(error) => Err(error),
            Ok((first, count)) => match arguments_tail(after(tokens, count)) {
                Err(error) => Err(error),
                Ok((others, more, close)) => Ok((seq![first] + others, count + more, close)),
            },
        }
    }
}

/// What follows an argument of a call: a comma and another argument, as
/// often as a comma comes next, then `)`.
pub open spec fn arguments_tail(tokens: Tokens) -> Result<
    (Seq<ExpressionView>, nat, Span),
    ParseError,
>
    decreases tokens.len(), 0nat,
{
    if starts_with(tokens, TokenKind::Comma) {
        match expression(after(tokens, 1)) {
            Err(error) => Err(error),
            Ok((next, count)) => match arguments_tail(after(tokens, 1 + count)) {
                Err(error) => Err(error),
                Ok((others, more, close)) => Ok((seq![next] + others, 1 + count + more, close)),
            },
        }
    } else {
        match token(tokens, TokenKind::RParen) {
            Err(error) => Err(error),
            Ok(close) => Ok((Seq::empty(), 1, close)),
        }
    }
}

/// A statement. The first token decides: `{` starts a block, `let` a
/// binding, `return` a return, `if` a branch, `while` a loop; anything else
/// starts an expression statement.
pub open spec fn statement(tokens: Tokens) -> Result<(StatementView, nat), ParseError>
    decreases tokens.len(), 2nat,
{
    if starts_with(tokens, TokenKind::LBrace) {
        block(tokens)
    } else if starts_with(tokens, TokenKind::Let) {
        binding(tokens)
    } else if starts_with(tokens, TokenKind::Return) {
        returning(tokens)
    } else if starts_with(tokens, TokenKind::If) {
        branch(tokens)
    } else if starts_with(tokens, TokenKind::While) {
        while_loop(tokens)
    } else {
        expression_statement(tokens)
    }
}

/// A block: `{`, statements, `}`.
pub open spec fn block(tokens: Tokens) -> Result<(StatementView, nat), ParseError>
    decreases tokens.len(), 1nat,
{
    match token(tokens, TokenKind::LBrace) {
        Err(error) => Err(error),
        Ok(open) => match statements(after(tokens, 1)) {
            Err(error) => Err(error),
            Ok((body, count, close)) => Ok(
                (StatementView::Block { body, span: open.hull(close) }, 1 + count),
            ),
        },
    }
}

/// The statements of a block after its `{`, up to and with its `}`. Gives
/// the statements, the number of tokens, and the span of the `}`.
///
/// A statement is made of at least one token
/// ([`crate::extent::lemma_statement`]), so the case of a statement without
/// tokens never arises; it is there to show that the definition is well
/// founded.
pub open spec fn statements(tokens: Tokens) -> Result<(Seq<StatementView>, nat, Span), ParseError>
    decreases tokens.len(), 3nat,
{
    if starts_with(tokens, TokenKind::RBrace) {
        Ok((Seq::empty(), 1, tokens[0].1))
    } else if tokens.len() == 0 {
        Err(unexpected(tokens, Expected::Token(TokenKind::RBrace)))
    } else {
        match statement(tokens) {
            Err(error) => Err(error),
            Ok((first, count)) => if count == 0 {
                Err(unexpected(tokens, Expected::Expression))
            } else {
                match statements(after(tokens, count)) {
                    Err(error) => Err(error),
                    Ok((others, more, close)) => Ok((seq![first] + others, count + more, close)),
                }
            },
        }
    }
}

/// A binding: `let`, an identifier, `=`, an expression, `;`.
pub open spec fn binding(tokens: Tokens) -> Result<(StatementView, nat), ParseError> {
    match token(tokens, TokenKind::Let) {
        Err(error) => Err(error),
        Ok(start) => match identifier(after(tokens, 1)) {
            Err(error) => Err(error),
            Ok((name, _)) => match token(after(tokens, 2), TokenKind::Equal) {
                Err(error) => Err(error),
                Ok(_) => match expression(after(tokens, 3)) {
                    Err(error) => Err(error),
                    Ok((value, count)) => match token(
                        after(tokens, 3 + count),
                        TokenKind::Semicolon,
                    ) {
                        Err(error) => Err(error),
                        Ok(end) => Ok(
                            (
                                StatementView::Binding {
                                    bind_to: name,
                                    value,
                                    span: start.hull(end),
                                },
                                4 + count,
                            ),
                        ),
                    },
                },
            },
        },
    }
}

/// A return: `return`, an expression, `;`.
pub open spec fn returning(tokens: Tokens) -> Result<(StatementView, nat), ParseError> {
    match token(tokens, TokenKind::Return) {
        Err(error) => Err(error),
        Ok(start) => match expression(after(tokens, 1)) {
            Err(error) => Err(error),
            Ok((value, count)) => match token(after(tokens, 1 + count), TokenKind::Semicolon) {
                Err(error) => Err(error),
                Ok(end) => Ok(
                    (StatementView::Return { value, span: start.hull(end) }, 2 + count),
                ),
            },
        },
    }
}

/// An expression statement: an expression, `;`.
pub open spec fn expression_statement(tokens: Tokens) -> Result<(StatementView, nat), ParseError> {
    match expression(tokens) {
        Err(error) => Err(error),
        Ok((expression, count)) => match token(after(tokens, count), TokenKind::Semicolon) {
            Err(error) => Err(error),
            Ok(end) => Ok(
                (
                    StatementView::Expression { expression, span: expression.span().hull(end) },
                    1 + count,
                ),
            ),
        },
    }
}

/// A branch: `if`, an expression, a block, and then nothing more, or `else`
/// and a block, or `else` and another branch.
pub open spec fn branch(tokens: Tokens) -> Result<(StatementView, nat), ParseError>
    decreases tokens.len(), 1nat,
{
    match token(tokens, TokenKind::If) {
        Err(error) => Err(error),
        Ok(start) => match expression(after(tokens, 1)) {
            Err(error) => Err(error),
            Ok((condition, count)) => match block(after(tokens, 1 + count)) {
                Err(error) => Err(error),
                Ok((then_branch, more)) => {
                    let taken = 1 + count + more;
                    if starts_with(after(tokens, taken), TokenKind::Else) {
                        let alternative = if starts_with(after(tokens, taken + 1), TokenKind::If) {
                            branch(after(tokens, taken + 1))
                        } else {
                            block(after(tokens, taken + 1))
                        };
                        match alternative {
                            Err(error) => Err(error),
                            Ok((otherwise, last)) => Ok(
                                (
                                    StatementView::Branch {
                                        condition,
                                        then_branch: Box::new(then_branch),
                                        otherwise: Some(Box::new(otherwise)),
                                        span: start.hull(otherwise.span()),
                                    },
                                    taken + 1 + last,
                                ),
                            ),
                        }
                    } else {
                        Ok(
                            (
                                StatementView::Branch {
                                    condition,
                                    then_branch: Box::new(then_branch),
                                    otherwise: None,
                                    span: start.hull(then_branch.span()),
                                },
                                taken,
                            ),
                        )
                    }
                },
            },
        },
    }
}

/// A loop: `while`, an expression, a block.
pub open spec fn while_loop(tokens: Tokens) -> Result<(StatementView, nat), ParseError>
    decreases tokens.len(), 1nat,
{
    match token(tokens, TokenKind::While) {
        Err(error) => Err(error),
        Ok(start) => match expression(after(tokens, 1)) {
            Err(error) => Err(error),
            Ok((condition, count)) => match block(after(tokens, 1 + count)) {
                Err(error) => Err(error),
                Ok((body, more)) => Ok(
                    (
                        StatementView::While {
                            condition,
                            body: Box::new(body),
                            span: start.hull(body.span()),
                        },
                        1 + count + more,
                    ),
                ),
            },
        },
    }
}

/// The parameters of a function after its `(`, up to but without its `)`:
/// no identifier, or identifiers separated by commas.
pub open spec fn parameters(tokens: Tokens) -> Result<(Seq<Seq<char>>, nat), ParseError> {
    if starts_with(tokens, TokenKind::RParen) {
        Ok((Seq::empty(), 0))
    } else {
        match identifier(tokens) {
            Err(error) => Err(error),
            Ok((first, _)) => match parameters_tail(after(tokens, 1)) {
                Err(error) => Err(error),
                Ok((others, count)) => Ok((seq![first] + others, 1 + count)),
            },
        }
    }
}

/// What follows a parameter: a comma and another identifier, as often as a
/// comma comes next.
pub open spec fn parameters_tail(tokens: Tokens) -> Result<(Seq<Seq<char>>, nat), ParseError>
    decreases tokens.len(),
{
    if starts_with(tokens, TokenKind::Comma) {
        match identifier(after(tokens, 1)) {
            Err(error) => Err(error),
            Ok((next, _)) => match parameters_tail(after(tokens, 2)) {
                Err(error) => Err(error),
                Ok((others, count)) => Ok((seq![next] + others, 2 + count)),
            },
        }
    } else {
        Ok((Seq::empty(), 0))
    }
}

/// A function: `fn`, an identifier, `(`, parameters, `)`, a block.
#[verifier::opaque]
pub open spec fn function(tokens: Tokens) -> Result<(ItemView, nat), ParseError> {
    match token(tokens, TokenKind::Fn) {
        Err(error) => Err(error),
        Ok(start) => match identifier(after(tokens, 1)) {
            Err(error) => Err(error),
            Ok((name, _)) => match token(after(tokens, 2), TokenKind::LParen) {
                Err(error) => Err(error),
                Ok(_) => match parameters(after(tokens, 3)) {
                    Err(error) => Err(error),
                    Ok((arguments, count)) => match token(
                        after(tokens, 3 + count),
                        TokenKind::RParen,
                    ) {
                        Err(error) => Err(error),
                        Ok(_) => match block(after(tokens, 4 + count)) {
                            Err(error) => Err(error),
                            Ok((body, more)) => Ok(
                                (
                                    ItemView::Function {
                                        name,
                                        arguments,
                                        body,
                                        span: start.hull(body.span()),
                                    },
                                    4 + count + more,
                                ),
                            ),
                        },
                    },
                },
            },
        },
    }
}

/// An item: a function, which starts with `fn`.
pub open spec fn item(tokens: Tokens) -> Result<(ItemView, nat), ParseError> {
    if starts_with(tokens, TokenKind::Fn) {
        function(tokens)
    } else {
        Err(unexpected(tokens, Expected::Item))
    }
}

/// A program: items, up to the end of the tokens.
pub open spec fn program(tokens: Tokens) -> Result<Seq<ItemView>, ParseError>
    decreases tokens.len(),
{
    if tokens.len() == 0 {
        Ok(Seq::empty())
    } else {
        proof {
            reveal(function);
        }
        match item(tokens) {
            Err(error) => Err(error),
            Ok((first, count)) => match program(after(tokens, count)) {
                Err(error) => Err(error),
                Ok(others) => Ok(seq![first] + others),
            },
        }
    }
}

/// Skipping tokens twice is skipping their sum.
pub proof fn lemma_after_after(tokens: Tokens, first: nat, second: nat)
    ensures
        after(after(tokens, first), second) == after(tokens, first + second),
        after(tokens, 0) == tokens,
        after(tokens, first).len() <= tokens.len(),
{
}

} // verus!
