//! The spans of syntax trees.
//!
//! Where the spans of the tokens are well formed and in the order of the
//! text, each construct of the grammar is made of at least one token, its
//! span reaches from the start of its first token to the end of its last,
//! and its tree is well spanned: the span of every node is well formed and
//! contains the span of each of its children.

use vstd::prelude::*;
use crate::ast::{ExpressionView, ProgramView, StatementView};
use crate::grammar::{
    after, arguments, arguments_tail, binary, binary_tail, binding, block, branch, expression,
    expression_statement, function, item, lemma_after_after, operator_at, parameters, program,
    returning, starts_with, statement, statements, token, unary, primary, while_loop, Tokens,
};
use crate::parser::ParseError;
use crate::span::Span;
use crate::token::TokenKind;

verus! {

/// The span of every token is well formed, and each token ends before the
/// next one starts.
#[verifier::opaque]
pub open spec fn ordered(tokens: Tokens) -> bool {
    &&& forall|i: int| 0 <= i < tokens.len() ==> (#[trigger] tokens[i]).1.valid()
    &&& forall|i: int, j: int|
        0 <= i < j < tokens.len() ==> (#[trigger] tokens[i]).1.precedes((#[trigger] tokens[j]).1)
}

/// The span from the start of the first token to the end of token number
/// `count`.
pub open spec fn extent(tokens: Tokens, count: nat) -> Span {
    Span { start: tokens[0].1.start, end: tokens[count - 1].1.end }
}

/// An expression read from `tokens` is made of at least one token; where
/// the tokens are ordered, it covers its tokens and is well spanned.
pub open spec fn sound_expression(
    tokens: Tokens,
    outcome: Result<(ExpressionView, nat), ParseError>,
) -> bool {
    outcome matches Ok((tree, count)) ==> {
        &&& 1 <= count <= tokens.len()
        &&& ordered(tokens) ==> tree.span() == extent(tokens, count) && tree.well_spanned()
    }
}

/// A statement read from `tokens` is made of at least one token; where the
/// tokens are ordered, it covers its tokens and is well spanned.
pub open spec fn sound_statement(
    tokens: Tokens,
    outcome: Result<(StatementView, nat), ParseError>,
) -> bool {
    outcome matches Ok((tree, count)) ==> {
        &&& 1 <= count <= tokens.len()
        &&& ordered(tokens) ==> tree.span() == extent(tokens, count) && tree.well_spanned()
    }
}

/// A list of expressions read from `tokens` ends with the token `close`;
/// where the tokens are ordered, each expression is well spanned and lies
/// within the tokens of the list.
pub open spec fn sound_expressions(
    tokens: Tokens,
    outcome: Result<(Seq<ExpressionView>, nat, Span), ParseError>,
) -> bool {
    outcome matches Ok((list, count, close)) ==> {
        &&& 1 <= count <= tokens.len()
        &&& close == tokens[count - 1].1
        &&& ordered(tokens) ==> forall|i: int|
            0 <= i < list.len() ==> (#[trigger] list[i]).well_spanned() && extent(
                tokens,
                count,
            ).contains(list[i].span())
    }
}

/// A list of statements read from `tokens` ends with the token `close`;
/// where the tokens are ordered, each statement is well spanned and lies
/// within the tokens of the list.
pub open spec fn sound_statements(
    tokens: Tokens,
    outcome: Result<(Seq<StatementView>, nat, Span), ParseError>,
) -> bool {
    outcome matches Ok((list, count, close)) ==> {
        &&& 1 <= count <= tokens.len()
        &&& close == tokens[count - 1].1
        &&& ordered(tokens) ==> forall|i: int|
            0 <= i < list.len() ==> (#[trigger] list[i]).well_spanned() && extent(
                tokens,
                count,
            ).contains(list[i].span())
    }
}

/// Later tokens start and end later.
pub proof fn lemma_order(tokens: Tokens, i: int, j: int)
    requires
        ordered(tokens),
        0 <= i <= j < tokens.len(),
    ensures
        tokens[i].1.valid(),
        tokens[j].1.valid(),
        tokens[i].1.start <= tokens[j].1.start,
        tokens[i].1.end <= tokens[j].1.end,
        i < j ==> tokens[i].1.end <= tokens[j].1.start,
{
    reveal(ordered);
}

/// What is left of ordered tokens is ordered.
pub proof fn lemma_ordered_after(tokens: Tokens, count: nat)
    ensures
        ordered(tokens) ==> ordered(after(tokens, count)),
{
    reveal(ordered);
    if ordered(tokens) {
        let rest = after(tokens, count);
        assert forall|i: int| 0 <= i < rest.len() implies (#[trigger] rest[i]).1.valid() by {
            assert(rest[i] == tokens[i + count]);
        }
        assert forall|i: int, j: int| 0 <= i < j < rest.len() implies (#[trigger] rest[i]).1.precedes(
            (#[trigger] rest[j]).1,
        ) by {
            assert(rest[i] == tokens[i + count]);
            assert(rest[j] == tokens[j + count]);
        }
    }
}

/// The extent of `more` tokens after the first `skipped` lies within the
/// extent of the first `count` tokens, where these include them.
pub proof fn lemma_within(tokens: Tokens, skipped: nat, more: nat, count: nat)
    requires
        1 <= more,
        skipped + more <= count <= tokens.len(),
    ensures
        extent(after(tokens, skipped), more) == (Span {
            start: tokens[skipped as int].1.start,
            end: tokens[skipped + more - 1].1.end,
        }),
        ordered(tokens) ==> {
            &&& extent(tokens, count).contains(extent(after(tokens, skipped), more))
            &&& extent(tokens, count).valid()
            &&& extent(after(tokens, skipped), more).valid()
        },
{
    let rest = after(tokens, skipped);
    assert(rest[0] == tokens[skipped as int]);
    assert(rest[more - 1] == tokens[more - 1 + skipped]);
    if ordered(tokens) {
        lemma_order(tokens, 0, skipped as int);
        lemma_order(tokens, skipped as int, skipped + more - 1);
        lemma_order(tokens, skipped + more - 1, count - 1);
        lemma_order(tokens, 0, count - 1);
    }
}

/// The hull of the extent of the first `front` tokens and the extent of
/// `more` tokens after the first `skipped` is the extent of all tokens up to
/// the last of these.
pub proof fn lemma_hull(tokens: Tokens, front: nat, skipped: nat, more: nat)
    requires
        1 <= front <= skipped + more,
        1 <= more,
        skipped + more <= tokens.len(),
    ensures
        ordered(tokens) ==> {
            &&& extent(tokens, front).hull(extent(after(tokens, skipped), more)) == extent(
                tokens,
                skipped + more,
            )
            &&& extent(tokens, skipped + more).contains(extent(tokens, front))
            &&& extent(tokens, skipped + more).contains(extent(after(tokens, skipped), more))
            &&& extent(tokens, skipped + more).valid()
        },
{
    lemma_within(tokens, skipped, more, skipped + more);
    if ordered(tokens) {
        lemma_order(tokens, 0, skipped as int);
        lemma_order(tokens, front - 1, skipped + more - 1);
        lemma_order(tokens, 0, front - 1);
    }
}

/// A well-spanned expression stays well spanned under a wider span.
pub proof fn lemma_widen(tree: ExpressionView, wide: Span)
    requires
        tree.well_spanned(),
        wide.contains(tree.span()),
    ensures
        tree.with_span(wide).well_spanned(),
        tree.with_span(wide).span() == wide,
{
    match tree {
        ExpressionView::Call { arguments, span, .. } => {
            assert forall|i: int| 0 <= i < arguments.len() implies (#[trigger] arguments[i]).well_spanned()
                && wide.contains(arguments[i].span()) by {}
        },
        _ => {},
    }
}

/// An expression is made of at least one token; where the tokens are
/// ordered, it covers its tokens and is well spanned.
pub proof fn lemma_expression(tokens: Tokens)
    ensures
        sound_expression(tokens, expression(tokens)),
    decreases tokens.len(), 9nat,
{
    lemma_binary(tokens, 0);
    match binary(tokens, 0) {
        Ok((target, count)) => {
            match target {
                ExpressionView::Reference { name, span } => {
                    if starts_with(tokens, TokenKind::Identifier) && starts_with(
                        after(tokens, count),
                        TokenKind::Equal,
                    ) {
                        lemma_ordered_after(tokens, count + 1);
                        lemma_expression(after(tokens, count + 1));
                        match expression(after(tokens, count + 1)) {
                            Ok((value, more)) => {
                                lemma_hull(tokens, count, count + 1, more);
                            },
                            Err(_) => {},
                        }
                    }
                },
                _ => {},
            }
        },
        Err(_) => {},
    }
}

/// A binary expression covers its tokens and is well spanned.
pub proof fn lemma_binary(tokens: Tokens, level: nat)
    ensures
        sound_expression(tokens, binary(tokens, level)),
    decreases tokens.len(),
        if level < 6 {
            (8 - level) as nat
        } else {
            2nat
        },
{
    if level >= 6 {
        lemma_unary(tokens);
    } else {
        lemma_binary(tokens, level + 1);
        match binary(tokens, level + 1) {
            Ok((first, count)) => {
                lemma_binary_tail(tokens, count, level, first);
            },
            Err(_) => {},
        }
    }
}

/// What follows an operand made of the first `count` tokens lies within the
/// tokens; where the tokens are ordered and the operand covers its tokens
/// and is well spanned, so is the whole.
pub proof fn lemma_binary_tail(tokens: Tokens, count: nat, level: nat, lhs: ExpressionView)
    requires
        1 <= count <= tokens.len(),
    ensures
        binary_tail(after(tokens, count), level, lhs) matches Ok((whole, more)) ==> {
            &&& count + more <= tokens.len()
            &&& ordered(tokens) && lhs.span() == extent(tokens, count) && lhs.well_spanned()
                ==> whole.span() == extent(tokens, count + more) && whole.well_spanned()
        },
    decreases tokens.len() - count, 0nat,
{
    let rest = after(tokens, count);
    match operator_at(rest, level) {
        None => {},
        Some(operator) => {
            lemma_after_after(tokens, count, 1);
            lemma_ordered_after(tokens, count + 1);
            lemma_binary(after(tokens, count + 1), level + 1);
            match binary(after(rest, 1), level + 1) {
                Ok((rhs, taken)) => {
                    lemma_hull(tokens, count, count + 1, taken);
                    lemma_after_after(tokens, count, 1 + taken);
                    let joined = ExpressionView::Binary {
                        operator,
                        lhs: Box::new(lhs),
                        rhs: Box::new(rhs),
                        span: lhs.span().hull(rhs.span()),
                    };
                    lemma_binary_tail(tokens, count + 1 + taken, level, joined);
                },
                Err(_) => {},
            }
        },
    }
}

/// A unary expression covers its tokens and is well spanned.
pub proof fn lemma_unary(tokens: Tokens)
    ensures
        sound_expression(tokens, unary(tokens)),
    decreases tokens.len(), 1nat,
{
    if starts_with(tokens, TokenKind::Bang) {
        lemma_ordered_after(tokens, 1);
        lemma_unary(after(tokens, 1));
        match unary(after(tokens, 1)) {
            Ok((operand, count)) => {
                lemma_hull(tokens, 1, 1, count);
            },
            Err(_) => {},
        }
    } else {
        lemma_primary(tokens);
    }
}

/// A primary expression covers its tokens and is well spanned.
pub proof fn lemma_primary(tokens: Tokens)
    ensures
        sound_expression(tokens, primary(tokens)),
    decreases tokens.len(), 0nat,
{
    if tokens.len() > 0 {
        if ordered(tokens) {
            lemma_order(tokens, 0, 0);
        }
        match tokens[0].0.kind {
            TokenKind::Identifier => {
                if starts_with(after(tokens, 1), TokenKind::LParen) {
                    lemma_call(tokens);
                }
            },
            TokenKind::LParen => {
                lemma_group(tokens);
            },
            _ => {},
        }
    }
}

/// A call covers its tokens, from its name to its `)`, and contains its
/// arguments.
pub proof fn lemma_call(tokens: Tokens)
    requires
        tokens.len() >= 2,
    ensures
        arguments(after(tokens, 2)) matches Ok((list, count, close)) ==> {
            &&& 2 + count <= tokens.len()
            &&& ordered(tokens) ==> {
                &&& tokens[0].1.hull(close) == extent(tokens, 2 + count)
                &&& extent(tokens, 2 + count).valid()
                &&& forall|i: int|
                    0 <= i < list.len() ==> (#[trigger] list[i]).well_spanned() && extent(
                        tokens,
                        2 + count,
                    ).contains(list[i].span())
            }
        },
    decreases tokens.len() - 1, 20nat,
{
    lemma_ordered_after(tokens, 2);
    lemma_arguments(after(tokens, 2));
    match arguments(after(tokens, 2)) {
        Ok((list, count, close)) => {
            lemma_hull(tokens, 1, 2, count);
            lemma_hull(tokens, 1, 1 + count, 1);
            assert(after(tokens, 2)[count - 1] == tokens[count - 1 + 2]);
            assert(after(tokens, 1 + count)[0] == tokens[1 + count as int]);
            if ordered(tokens) {
                let whole = tokens[0].1.hull(close);
                assert(whole == extent(tokens, 2 + count));
                assert forall|i: int| 0 <= i < list.len() implies (#[trigger] list[i]).well_spanned()
                    && whole.contains(list[i].span()) by {}
            }
        },
        Err(_) => {},
    }
}

/// An expression in parentheses covers its tokens, from `(` to `)`, and is
/// well spanned.
pub proof fn lemma_group(tokens: Tokens)
    requires
        tokens.len() >= 1,
    ensures
        expression(after(tokens, 1)) matches Ok((inner, count)) ==> (token(
            after(tokens, 1 + count),
            TokenKind::RParen,
        ) matches Ok(close) ==> {
            &&& 2 + count <= tokens.len()
            &&& ordered(tokens) ==> {
                &&& inner.with_span(tokens[0].1.hull(close)).span() == extent(tokens, 2 + count)
                &&& inner.with_span(tokens[0].1.hull(close)).well_spanned()
            }
        }),
    decreases tokens.len() - 1, 20nat,
{
    lemma_ordered_after(tokens, 1);
    lemma_expression(after(tokens, 1));
    match expression(after(tokens, 1)) {
        Ok((inner, count)) => {
            match token(after(tokens, 1 + count), TokenKind::RParen) {
                Ok(close) => {
                    lemma_hull(tokens, 1, 1 + count, 1);
                    lemma_within(tokens, 1, count, 2 + count);
                    assert(after(tokens, 1 + count)[0] == tokens[1 + count as int]);
                    if ordered(tokens) {
                        lemma_widen(inner, tokens[0].1.hull(close));
                    }
                },
                Err(_) => {},
            }
        },
        Err(_) => {},
    }
}

/// The arguments of a call end with its `)`, are well spanned and lie
/// within their tokens.
pub proof fn lemma_arguments(tokens: Tokens)
    ensures
        sound_expressions(tokens, arguments(tokens)),
    decreases tokens.len(), 10nat,
{
    if starts_with(tokens, TokenKind::RParen) {
    } else {
        lemma_expression(tokens);
        match expression(tokens) {
            Ok((first, count)) => {
                lemma_ordered_after(tokens, count);
                lemma_arguments_tail(after(tokens, count));
                match arguments_tail(after(tokens, count)) {
                    Ok((others, more, close)) => {
                        lemma_within(tokens, 0, count, count + more);
                        lemma_within(tokens, count, more, count + more);
                        assert(after(tokens, 0) == tokens);
                        assert(after(tokens, count)[more - 1] == tokens[more - 1 + count]);
                        if ordered(tokens) {
                            let list = seq![first] + others;
                            assert forall|i: int| 0 <= i < list.len() implies (#[trigger] list[i]).well_spanned()
                                && extent(tokens, count + more).contains(list[i].span()) by {
                                if i > 0 {
                                    assert(list[i] == others[i - 1]);
                                }
                            }
                        }
                    },
                    Err(_) => {},
                }
            },
            Err(_) => {},
        }
    }
}

/// What follows an argument of a call ends with the `)`, is well spanned
/// and lies within its tokens.
pub proof fn lemma_arguments_tail(tokens: Tokens)
    ensures
        sound_expressions(tokens, arguments_tail(tokens)),
    decreases tokens.len(), 0nat,
{
    if starts_with(tokens, TokenKind::Comma) {
        lemma_ordered_after(tokens, 1);
        lemma_expression(after(tokens, 1));
        match expression(after(tokens, 1)) {
            Ok((next, count)) => {
                lemma_ordered_after(tokens, 1 + count);
                lemma_arguments_tail(after(tokens, 1 + count));
                match arguments_tail(after(tokens, 1 + count)) {
                    Ok((others, more, close)) => {
                        lemma_within(tokens, 1, count, 1 + count + more);
                        lemma_within(tokens, 1 + count, more, 1 + count + more);
                        assert(after(tokens, 1 + count)[more - 1] == tokens[more - 1 + (1 + count)]);
                        if ordered(tokens) {
                            let list = seq![next] + others;
                            assert forall|i: int| 0 <= i < list.len() implies (#[trigger] list[i]).well_spanned()
                                && extent(tokens, 1 + count + more).contains(list[i].span()) by {
                                if i > 0 {
                                    assert(list[i] == others[i - 1]);
                                }
                            }
                        }
                    },
                    Err(_) => {},
                }
            },
            Err(_) => {},
        }
    } else {
    }
}

/// A statement is made of at least one token; where the tokens are
/// ordered, it covers its tokens and is well spanned.
pub proof fn lemma_statement(tokens: Tokens)
    ensures
        sound_statement(tokens, statement(tokens)),
    decreases tokens.len(), 2nat,
{
    if starts_with(tokens, TokenKind::LBrace) {
        lemma_block(tokens);
    } else if starts_with(tokens, TokenKind::Let) {
        lemma_binding(tokens);
    } else if starts_with(tokens, TokenKind::Return) {
        lemma_returning(tokens);
    } else if starts_with(tokens, TokenKind::If) {
        lemma_branch(tokens);
    } else if starts_with(tokens, TokenKind::While) {
        lemma_while_loop(tokens);
    } else {
        lemma_expression_statement(tokens);
    }
}

/// A block covers its tokens and is well spanned.
pub proof fn lemma_block(tokens: Tokens)
    ensures
        sound_statement(tokens, block(tokens)),
    decreases tokens.len(), 1nat,
{
    if starts_with(tokens, TokenKind::LBrace) {
        lemma_ordered_after(tokens, 1);
        lemma_statements(after(tokens, 1));
        match statements(after(tokens, 1)) {
            Ok((body, count, close)) => {
                lemma_hull(tokens, 1, count, 1);
                lemma_within(tokens, 1, count, 1 + count);
                assert(after(tokens, 1)[count - 1] == tokens[count - 1 + 1]);
                if ordered(tokens) {
                    let whole = tokens[0].1.hull(close);
                    assert(whole == extent(tokens, 1 + count));
                    assert forall|i: int| 0 <= i < body.len() implies (#[trigger] body[i]).well_spanned()
                        && whole.contains(body[i].span()) by {}
                }
            },
            Err(_) => {},
        }
    }
}

/// The statements of a block end with its `}`, are well spanned and lie
/// within their tokens.
pub proof fn lemma_statements(tokens: Tokens)
    ensures
        sound_statements(tokens, statements(tokens)),
    decreases tokens.len(), 3nat,
{
    if starts_with(tokens, TokenKind::RBrace) {
    } else if tokens.len() == 0 {
    } else {
        lemma_statement(tokens);
        match statement(tokens) {
            Ok((first, count)) => {
                lemma_ordered_after(tokens, count);
                lemma_statements(after(tokens, count));
                match statements(after(tokens, count)) {
                    Ok((others, more, close)) => {
                        lemma_within(tokens, 0, count, count + more);
                        lemma_within(tokens, count, more, count + more);
                        assert(after(tokens, 0) == tokens);
                        assert(after(tokens, count)[more - 1] == tokens[more - 1 + count]);
                        if ordered(tokens) {
                            let list = seq![first] + others;
                            assert forall|i: int| 0 <= i < list.len() implies (#[trigger] list[i]).well_spanned()
                                && extent(tokens, count + more).contains(list[i].span()) by {
                                if i > 0 {
                                    assert(list[i] == others[i - 1]);
                                }
                            }
                        }
                    },
                    Err(_) => {},
                }
            },
            Err(_) => {},
        }
    }
}

/// A binding covers its tokens and is well spanned.
pub proof fn lemma_binding(tokens: Tokens)
    ensures
        sound_statement(tokens, binding(tokens)),
{
    lemma_ordered_after(tokens, 3);
    lemma_expression(after(tokens, 3));
    match expression(after(tokens, 3)) {
        Ok((value, count)) => {
            if tokens.len() >= 4 + count {
                lemma_hull(tokens, 1, 3 + count, 1);
                lemma_within(tokens, 3, count, 4 + count);
            }
        },
        Err(_) => {},
    }
}

/// A return covers its tokens and is well spanned.
pub proof fn lemma_returning(tokens: Tokens)
    ensures
        sound_statement(tokens, returning(tokens)),
{
    lemma_ordered_after(tokens, 1);
    lemma_expression(after(tokens, 1));
    match expression(after(tokens, 1)) {
        Ok((value, count)) => {
            if tokens.len() >= 2 + count {
                lemma_hull(tokens, 1, 1 + count, 1);
                lemma_within(tokens, 1, count, 2 + count);
            }
        },
        Err(_) => {},
    }
}

/// An expression statement covers its tokens and is well spanned.
pub proof fn lemma_expression_statement(tokens: Tokens)
    ensures
        sound_statement(tokens, expression_statement(tokens)),
{
    lemma_expression(tokens);
    match expression(tokens) {
        Ok((value, count)) => {
            if tokens.len() >= 1 + count {
                lemma_hull(tokens, count, count, 1);
            }
        },
        Err(_) => {},
    }
}

/// A branch covers its tokens and is well spanned.
pub proof fn lemma_branch(tokens: Tokens)
    ensures
        sound_statement(tokens, branch(tokens)),
    decreases tokens.len(), 1nat,
{
    if starts_with(tokens, TokenKind::If) {
        lemma_ordered_after(tokens, 1);
        lemma_expression(after(tokens, 1));
        match expression(after(tokens, 1)) {
            Ok((condition, count)) => {
                lemma_ordered_after(tokens, 1 + count);
                lemma_block(after(tokens, 1 + count));
                match block(after(tokens, 1 + count)) {
                    Ok((then_branch, more)) => {
                        let taken = 1 + count + more;
                        lemma_hull(tokens, 1, 1 + count, more);
                        lemma_within(tokens, 1, count, taken);
                        if starts_with(after(tokens, taken), TokenKind::Else) {
                            lemma_ordered_after(tokens, taken + 1);
                            let alternative = if starts_with(
                                after(tokens, taken + 1),
                                TokenKind::If,
                            ) {
                                lemma_branch(after(tokens, taken + 1));
                                branch(after(tokens, taken + 1))
                            } else {
                                lemma_block(after(tokens, taken + 1));
                                block(after(tokens, taken + 1))
                            };
                            match alternative {
                                Ok((otherwise, last)) => {
                                    let whole = taken + 1 + last;
                                    lemma_hull(tokens, 1, taken + 1, last);
                                    lemma_within(tokens, 1, count, whole);
                                    lemma_within(tokens, 1 + count, more, whole);
                                },
                                Err(_) => {},
                            }
                        }
                    },
                    Err(_) => {},
                }
            },
            Err(_) => {},
        }
    }
}

/// A loop covers its tokens and is well spanned.
pub proof fn lemma_while_loop(tokens: Tokens)
    ensures
        sound_statement(tokens, while_loop(tokens)),
    decreases tokens.len(), 1nat,
{
    if starts_with(tokens, TokenKind::While) {
        lemma_ordered_after(tokens, 1);
        lemma_expression(after(tokens, 1));
        match expression(after(tokens, 1)) {
            Ok((condition, count)) => {
                lemma_ordered_after(tokens, 1 + count);
                lemma_block(after(tokens, 1 + count));
                match block(after(tokens, 1 + count)) {
                    Ok((body, more)) => {
                        lemma_hull(tokens, 1, 1 + count, more);
                        lemma_within(tokens, 1, count, 1 + count + more);
                    },
                    Err(_) => {},
                }
            },
            Err(_) => {},
        }
    }
}

/// A function is made of at least one token; where the tokens are ordered,
/// it covers its tokens and is well spanned.
pub proof fn lemma_function(tokens: Tokens)
    ensures
        function(tokens) matches Ok((tree, count)) ==> {
            &&& 1 <= count <= tokens.len()
            &&& ordered(tokens) ==> tree.span() == extent(tokens, count) && tree.well_spanned()
        },
{
    reveal(function);
    match parameters(after(tokens, 3)) {
        Ok((names, count)) => {
            lemma_ordered_after(tokens, 4 + count);
            lemma_block(after(tokens, 4 + count));
            match block(after(tokens, 4 + count)) {
                Ok((body, more)) => {
                    if tokens.len() >= 1 {
                        lemma_hull(tokens, 1, 4 + count, more);
                    }
                },
                Err(_) => {},
            }
        },
        Err(_) => {},
    }
}

/// The spans of a program: every item of a program that is read from
/// ordered tokens is well spanned. So the span of every node of the tree is
/// well formed and contains the span of each of its children.
pub proof fn lemma_program(tokens: Tokens)
    requires
        ordered(tokens),
    ensures
        program(tokens) matches Ok(items) ==> (ProgramView { items }).well_spanned(),
    decreases tokens.len(),
{
    if tokens.len() > 0 {
        lemma_function(tokens);
        match item(tokens) {
            Ok((first, count)) => {
                lemma_ordered_after(tokens, count);
                lemma_program(after(tokens, count));
                match program(after(tokens, count)) {
                    Ok(others) => {
                        let items = seq![first] + others;
                        let rest = ProgramView { items: others };
                        assert(items.len() == others.len() + 1);
                        assert forall|i: int| 0 <= i < items.len() implies (#[trigger] items[i]).well_spanned() by {
                            if i > 0 {
                                assert(items[i] == rest.items[i - 1]);
                                assert(rest.items[i - 1].well_spanned());
                            } else {
                                assert(items[i] == first);
                            }
                        }
                    },
                    Err(_) => {},
                }
            },
            Err(_) => {},
        }
    }
}

} // verus!
