//! The parser: recursive descent over the tokens of a lexer, with one token
//! of lookahead.

use vstd::prelude::*;
use crate::ast::{
    expression_views, item_views, name_views, statement_views, BinaryOperator, Expression,
    ExpressionView, Item, ItemView, Program, ProgramView, Statement, StatementView,
};
use crate::extent::{lemma_ordered_after, lemma_program, ordered};
use crate::grammar::{
    after, arguments, arguments_tail, binary, binary_tail, binding, block, branch, expression,
    expression_statement, function, identifier, item, lemma_after_after, operator, operator_at,
    parameters, parameters_tail, primary, program, returning, starts_with, statement, statements,
    token, unary, unexpected, while_loop, Tokens,
};
use crate::lexer::{tokenize, Lexer};
use crate::scan::lexable;
use crate::span::Span;
use crate::token::{Token, TokenKind};

verus! {

/// What the parser was looking for when it failed.
#[derive(Debug, Clone, Copy, PartialEq, Eq, Structural)]
pub enum Expected {
    /// The start of an item: the keyword `fn`.
    Item,
    /// The start of an expression.
    Expression,
    /// A token of the given kind.
    Token(TokenKind),
}

/// Why a token sequence is no program. Parsing stops at the first token that
/// fits no production.
#[derive(Debug, Clone, Copy, PartialEq, Eq, Structural)]
pub enum ParseError {
    /// The token of kind `found` at `span` stands where `expected` should.
    UnexpectedToken { expected: Expected, found: TokenKind, span: Span },
    /// The tokens end where `expected` should stand.
    UnexpectedEnd { expected: Expected },
}

/// A parser over the tokens of a lexer.
///
/// The parser holds the lexer and the next token, which it has taken from
/// the lexer but not yet used.
pub struct Parser {
    input: Lexer,
    lookahead: Option<(Token, Span)>,
}

/// `result` is the tree that the grammar gives, and `rest` is what the
/// grammar leaves of `before`; or `result` is the error that the grammar
/// gives.
pub open spec fn yields_expression(
    result: Result<Expression, ParseError>,
    outcome: Result<(ExpressionView, nat), ParseError>,
    before: Tokens,
    rest: Tokens,
) -> bool {
    match outcome {
        Ok((view, count)) => {
            &&& result matches Ok(tree)
            &&& tree@ == view
            &&& rest == after(before, count)
        },
        Err(error) => result matches Err(found) && found == error,
    }
}

/// As [`yields_expression`], for statements.
pub open spec fn yields_statement(
    result: Result<Statement, ParseError>,
    outcome: Result<(StatementView, nat), ParseError>,
    before: Tokens,
    rest: Tokens,
) -> bool {
    match outcome {
        Ok((view, count)) => {
            &&& result matches Ok(tree)
            &&& tree@ == view
            &&& rest == after(before, count)
        },
        Err(error) => result matches Err(found) && found == error,
    }
}

/// The outcome of reading a list, with `front` before the elements read and
/// `taken` added to the number of tokens.
pub open spec fn prepend<V>(
    front: Seq<V>,
    taken: nat,
    outcome: Result<(Seq<V>, nat, Span), ParseError>,
) -> Result<(Seq<V>, nat, Span), ParseError> {
    match outcome {
        Ok((others, more, close)) => Ok((front + others, taken + more, close)),
        Err(error) => Err(error),
    }
}

/// The outcome of reading the rest of an expression, with `taken` added to
/// the number of tokens.
pub open spec fn shifted(taken: nat, outcome: Result<(ExpressionView, nat), ParseError>) -> Result<
    (ExpressionView, nat),
    ParseError,
> {
    match outcome {
        Ok((view, more)) => Ok((view, taken + more)),
        Err(error) => Err(error),
    }
}

/// The binary operator that a token of kind `kind` denotes, and its level of
/// precedence.
pub fn binary_operator(kind: TokenKind) -> (found: Option<(BinaryOperator, u8)>)
    ensures
        match found {
            Some((operator, level)) => crate::grammar::operator(kind) == Some(
                (operator, level as nat),
            ),
            None => crate::grammar::operator(kind) is None,
        },
{
    match kind {
        TokenKind::OrOr => Some((BinaryOperator::Or, 0)),
        TokenKind::AndAnd => Some((BinaryOperator::And, 1)),
        TokenKind::EqualEqual => Some((BinaryOperator::Equal, 2)),
        TokenKind::BangEqual => Some((BinaryOperator::NotEqual, 2)),
        TokenKind::Less => Some((BinaryOperator::Less, 3)),
        TokenKind::LessEqual => Some((BinaryOperator::LessEqual, 3)),
        TokenKind::Greater => Some((BinaryOperator::Greater, 3)),
        TokenKind::GreaterEqual => Some((BinaryOperator::GreaterEqual, 3)),
        TokenKind::Plus => Some((BinaryOperator::Add, 4)),
        TokenKind::Minus => Some((BinaryOperator::Sub, 4)),
        TokenKind::Asterisk => Some((BinaryOperator::Mul, 5)),
        TokenKind::Slash => Some((BinaryOperator::Div, 5)),
        _ => None,
    }
}

impl Parser {
    /// The tokens that the parser has not used yet.
    #[verifier::opaque]
    pub closed spec fn remaining(&self) -> Tokens {
        match self.lookahead {
            Some((token, span)) => seq![(token@, span)] + self.input.remaining(),
            None => Seq::empty(),
        }
    }

    /// The lexer is well formed, every integer literal ahead of it is
    /// representable, and the spans of the tokens are in order.
    #[verifier::opaque]
    pub closed spec fn wf(&self) -> bool {
        self.input.wf() && self.input.lexable() && ordered(self.remaining())
    }

    /// The spans of the tokens of a well-formed parser are well formed and
    /// in the order of the text.
    pub proof fn lemma_ordered(&self)
        requires
            self.wf(),
        ensures
            ordered(self.remaining()),
    {
        reveal(Parser::wf);
    }

    /// A parser over the tokens of `input`.
    pub fn new(input: Lexer) -> (parser: Parser)
        requires
            input.wf(),
            input.lexable(),
        ensures
            parser.wf(),
            parser.remaining() == input.remaining(),
    {
        reveal(Parser::remaining);
        reveal(Parser::wf);
        let mut input = input;
        proof {
            input.lemma_cursor();
            input.lemma_remaining_ordered();
        }
        let lookahead = input.next();
        Parser { input, lookahead }
    }

    /// Reads a program: items, up to the end of the tokens.
    pub fn parse(&mut self) -> (result: Result<Program, ParseError>)
        requires
            old(self).wf(),
        ensures
            final(self).wf(),
            match program(old(self).remaining()) {
                Ok(items) => {
                    &&& result matches Ok(tree)
                    &&& tree@.items == items
                    &&& tree@.well_spanned()
                    &&& final(self).remaining().len() == 0
                },
                Err(error) => result matches Err(found) && found == error,
            },
    {
        let ghost tokens = self.remaining();
        proof {
            self.lemma_ordered();
            lemma_program(tokens);
        }
        let mut items: Vec<Item> = Vec::new();
        assert(item_views(items@) + Seq::<ItemView>::empty() =~= Seq::<ItemView>::empty());
        while !self.is_eof()
            invariant
                self.wf(),
                tokens == old(self).remaining(),
                program(tokens) matches Ok(all) ==> (ProgramView { items: all }).well_spanned(),
                program(tokens) == match program(self.remaining()) {
                    Ok(others) => Ok(item_views(items@) + others),
                    Err(error) => Err(error),
                },
            decreases self.remaining().len(),
        {
            let ghost rest = self.remaining();
            let ghost front = item_views(items@);
            let item = match self.expect_item() {
                Ok(item) => item,
                Err(error) => {
                    return Err(error);
                },
            };
            items.push(item);
            proof {
                assert(item_views(items@) =~= front.push(item@));
                match program(self.remaining()) {
                    Ok(others) => {
                        assert(front + (seq![item@] + others) =~= front.push(item@) + others);
                    },
                    Err(_) => {},
                }
            }
        }
        proof {
            assert(item_views(items@) + Seq::<ItemView>::empty() =~= item_views(items@));
        }
        let tree = Program::new(items);
        proof {
            assert(tree@ == (ProgramView { items: tree@.items }));
        }
        Ok(tree)
    }

    /// Reads an item.
    fn expect_item(&mut self) -> (result: Result<Item, ParseError>)
        requires
            old(self).wf(),
        ensures
            final(self).wf(),
            match item(old(self).remaining()) {
                Ok((view, count)) => {
                    &&& result matches Ok(tree)
                    &&& tree@ == view
                    &&& final(self).remaining() == after(old(self).remaining(), count)
                    &&& final(self).remaining().len() < old(self).remaining().len()
                },
                Err(error) => result matches Err(found) && found == error,
            },
    {
        match self.peek() {
            Some(TokenKind::Fn) => self.expect_function(),
            _ => Err(self.failure(Expected::Item)),
        }
    }

    /// Reads a function.
    fn expect_function(&mut self) -> (result: Result<Item, ParseError>)
        requires
            old(self).wf(),
        ensures
            final(self).wf(),
            match function(old(self).remaining()) {
                Ok((view, count)) => {
                    &&& result matches Ok(tree)
                    &&& tree@ == view
                    &&& final(self).remaining() == after(old(self).remaining(), count)
                    &&& final(self).remaining().len() < old(self).remaining().len()
                },
                Err(error) => result matches Err(found) && found == error,
            },
    {
        let ghost tokens = self.remaining();
        reveal(function);
        let (_, start) = match self.expect_token(TokenKind::Fn) {
            Ok(pair) => pair,
            Err(error) => {
                return Err(error);
            },
        };
        let (name, _) = match self.expect_identifier() {
            Ok(pair) => pair,
            Err(error) => {
                return Err(error);
            },
        };
        proof {
            lemma_after_after(tokens, 1, 1);
        }
        match self.expect_token(TokenKind::LParen) {
            Ok(_) => {},
            Err(error) => {
                return Err(error);
            },
        };
        proof {
            lemma_after_after(tokens, 2, 1);
        }
        let arguments = match self.expect_arguments() {
            Ok(arguments) => arguments,
            Err(error) => {
                return Err(error);
            },
        };
        let ghost count = parameters(after(tokens, 3))->Ok_0.1;
        proof {
            lemma_after_after(tokens, 3, count);
        }
        match self.expect_token(TokenKind::RParen) {
            Ok(_) => {},
            Err(error) => {
                return Err(error);
            },
        };
        proof {
            lemma_after_after(tokens, 3 + count, 1);
        }
        let body = match self.expect_block() {
            Ok(body) => body,
            Err(error) => {
                return Err(error);
            },
        };
        proof {
            let more = block(after(tokens, 4 + count))->Ok_0.1;
            lemma_after_after(tokens, 4 + count, more);
        }
        let span = start.merge(&body.span());
        Ok(Item::Function { name, arguments, body, span })
    }

    /// Reads the parameters of a function, up to but without the `)`.
    fn expect_arguments(&mut self) -> (result: Result<Vec<String>, ParseError>)
        requires
            old(self).wf(),
        ensures
            final(self).wf(),
            match parameters(old(self).remaining()) {
                Ok((names, count)) => {
                    &&& result matches Ok(list)
                    &&& name_views(list@) == names
                    &&& final(self).remaining() == after(old(self).remaining(), count)
                },
                Err(error) => result matches Err(found) && found == error,
            },
    {
        let ghost tokens = self.remaining();
        let mut arguments: Vec<String> = Vec::new();
        if self.peek_is(TokenKind::RParen) {
            proof {
                lemma_after_after(tokens, 0, 0);
                assert(name_views(arguments@) =~= Seq::<Seq<char>>::empty());
            }
            return Ok(arguments);
        }
        let (arg, _) = match self.expect_identifier() {
            Ok(pair) => pair,
            Err(error) => {
                return Err(error);
            },
        };
        arguments.push(arg);
        let ghost mut taken: nat = 1;
        proof {
            assert(name_views(arguments@) =~= seq![arg@]);
        }
        while self.peek_is(TokenKind::Comma)
            invariant
                self.wf(),
                tokens == old(self).remaining(),
                self.remaining() == after(tokens, taken),
                parameters(tokens) == match parameters_tail(self.remaining()) {
                    Ok((others, more)) => Ok((name_views(arguments@) + others, taken + more)),
                    Err(error) => Err(error),
                },
            decreases self.remaining().len(),
        {
            let ghost rest = self.remaining();
            let ghost front = name_views(arguments@);
            self.advance();
            let (arg, _) = match self.expect_identifier() {
                Ok(pair) => pair,
                Err(error) => {
                    return Err(error);
                },
            };
            arguments.push(arg);
            proof {
                lemma_after_after(rest, 1, 1);
                lemma_after_after(tokens, taken, 2);
                taken = taken + 2;
                assert(name_views(arguments@) =~= front.push(arg@));
                match parameters_tail(self.remaining()) {
                    Ok((others, more)) => {
                        assert(front + (seq![arg@] + others) =~= front.push(arg@) + others);
                    },
                    Err(_) => {},
                }
            }
        }
        proof {
            assert(name_views(arguments@) + Seq::<Seq<char>>::empty() =~= name_views(arguments@));
        }
        Ok(arguments)
    }

    /// Reads a block: `{`, statements, `}`.
    fn expect_block(&mut self) -> (result: Result<Statement, ParseError>)
        requires
            old(self).wf(),
        ensures
            final(self).wf(),
            yields_statement(
                result,
                block(old(self).remaining()),
                old(self).remaining(),
                final(self).remaining(),
            ),
            result is Ok ==> final(self).remaining().len() < old(self).remaining().len(),
        decreases old(self).remaining().len(), 1nat,
    {
        let ghost tokens = self.remaining();
        let (_, start) = match self.expect_token(TokenKind::LBrace) {
            Ok(pair) => pair,
            Err(error) => {
                return Err(error);
            },
        };
        let ghost inner = self.remaining();
        let ghost mut taken: nat = 0;
        let mut body: Vec<Statement> = Vec::new();
        proof {
            lemma_after_after(inner, 0, 0);
            assert(statement_views(body@) =~= Seq::<StatementView>::empty());
            match statements(inner) {
                Ok((others, more, close)) => {
                    assert(Seq::<StatementView>::empty() + others =~= others);
                },
                Err(_) => {},
            }
        }
        loop
            invariant
                self.wf(),
                tokens == old(self).remaining(),
                inner == after(tokens, 1),
                tokens.len() > 0,
                self.remaining() == after(inner, taken),
                self.remaining().len() <= inner.len(),
                statements(inner) == prepend(
                    statement_views(body@),
                    taken,
                    statements(self.remaining()),
                ),
                token(tokens, TokenKind::LBrace) == Ok::<Span, ParseError>(start),
            decreases self.remaining().len(),
        {
            let ghost rest = self.remaining();
            let ghost front = statement_views(body@);
            match self.peek() {
                Some(TokenKind::RBrace) => {
                    let (_, end) = match self.expect_token(TokenKind::RBrace) {
                        Ok(pair) => pair,
                        Err(error) => {
                            return Err(error);
                        },
                    };
                    proof {
                        assert(front + Seq::<StatementView>::empty() =~= front);
                        lemma_after_after(inner, taken, 1);
                        lemma_after_after(tokens, 1, taken + 1);
                    }
                    return Ok(Statement::Block { body, span: start.merge(&end) });
                },
                None => {
                    return Err(self.failure(Expected::Token(TokenKind::RBrace)));
                },
                _ => {
                    let statement = match self.expect_statement() {
                        Ok(statement) => statement,
                        Err(error) => {
                            return Err(error);
                        },
                    };
                    body.push(statement);
                    proof {
                        let count = crate::grammar::statement(rest)->Ok_0.1;
                        lemma_after_after(rest, 0, 0);
                        assert(count != 0);
                        lemma_after_after(inner, taken, count);
                        taken = taken + count;
                        assert(statement_views(body@) =~= front.push(statement@));
                        match statements(self.remaining()) {
                            Ok((others, more, close)) => {
                                assert(front + (seq![statement@] + others) =~= front.push(
                                    statement@,
                                ) + others);
                            },
                            Err(_) => {},
                        }
                    }
                },
            }
        }
    }

    /// Reads a statement.
    fn expect_statement(&mut self) -> (result: Result<Statement, ParseError>)
        requires
            old(self).wf(),
        ensures
            final(self).wf(),
            yields_statement(
                result,
                statement(old(self).remaining()),
                old(self).remaining(),
                final(self).remaining(),
            ),
            result is Ok ==> final(self).remaining().len() < old(self).remaining().len(),
        decreases old(self).remaining().len(), 2nat,
    {
        match self.peek() {
            Some(TokenKind::LBrace) => self.expect_block(),
            Some(TokenKind::Let) => self.expect_binding(),
            Some(TokenKind::Return) => self.expect_return(),
            Some(TokenKind::If) => self.expect_branching(),
            Some(TokenKind::While) => self.expect_while(),
            _ => self.expect_expression_statement(),
        }
    }

    /// Reads a binding: `let`, an identifier, `=`, an expression, `;`.
    fn expect_binding(&mut self) -> (result: Result<Statement, ParseError>)
        requires
            old(self).wf(),
        ensures
            final(self).wf(),
            yields_statement(
                result,
                binding(old(self).remaining()),
                old(self).remaining(),
                final(self).remaining(),
            ),
            result is Ok ==> final(self).remaining().len() < old(self).remaining().len(),
    {
        let ghost tokens = self.remaining();
        let (_, start) = match self.expect_token(TokenKind::Let) {
            Ok(pair) => pair,
            Err(error) => {
                return Err(error);
            },
        };
        let (bind_to, _) = match self.expect_identifier() {
            Ok(pair) => pair,
            Err(error) => {
                return Err(error);
            },
        };
        proof {
            lemma_after_after(tokens, 1, 1);
        }
        match self.expect_token(TokenKind::Equal) {
            Ok(_) => {},
            Err(error) => {
                return Err(error);
            },
        };
        proof {
            lemma_after_after(tokens, 2, 1);
        }
        let value = match self.expect_expression() {
            Ok(value) => value,
            Err(error) => {
                return Err(error);
            },
        };
        let ghost count = expression(after(tokens, 3))->Ok_0.1;
        proof {
            lemma_after_after(tokens, 3, count);
        }
        let (_, end) = match self.expect_token(TokenKind::Semicolon) {
            Ok(pair) => pair,
            Err(error) => {
                return Err(error);
            },
        };
        proof {
            lemma_after_after(tokens, 3 + count, 1);
        }
        Ok(Statement::Binding { bind_to, value, span: start.merge(&end) })
    }

    /// Reads a return: `return`, an expression, `;`.
    fn expect_return(&mut self) -> (result: Result<Statement, ParseError>)
        requires
            old(self).wf(),
        ensures
            final(self).wf(),
            yields_statement(
                result,
                returning(old(self).remaining()),
                old(self).remaining(),
                final(self).remaining(),
            ),
            result is Ok ==> final(self).remaining().len() < old(self).remaining().len(),
    {
        let ghost tokens = self.remaining();
        let (_, start) = match self.expect_token(TokenKind::Return) {
            Ok(pair) => pair,
            Err(error) => {
                return Err(error);
            },
        };
        let value = match self.expect_expression() {
            Ok(value) => value,
            Err(error) => {
                return Err(error);
            },
        };
        let ghost count = expression(after(tokens, 1))->Ok_0.1;
        proof {
            lemma_after_after(tokens, 1, count);
        }
        let (_, end) = match self.expect_token(TokenKind::Semicolon) {
            Ok(pair) => pair,
            Err(error) => {
                return Err(error);
            },
        };
        proof {
            lemma_after_after(tokens, 1 + count, 1);
        }
        Ok(Statement::Return { value, span: start.merge(&end) })
    }

    /// Reads an expression statement: an expression, `;`.
    fn expect_expression_statement(&mut self) -> (result: Result<Statement, ParseError>)
        requires
            old(self).wf(),
        ensures
            final(self).wf(),
            yields_statement(
                result,
                expression_statement(old(self).remaining()),
                old(self).remaining(),
                final(self).remaining(),
            ),
            result is Ok ==> final(self).remaining().len() < old(self).remaining().len(),
    {
        let ghost tokens = self.remaining();
        let expression = match self.expect_expression() {
            Ok(expression) => expression,
            Err(error) => {
                return Err(error);
            },
        };
        let ghost count = crate::grammar::expression(tokens)->Ok_0.1;
        let (_, end) = match self.expect_token(TokenKind::Semicolon) {
            Ok(pair) => pair,
            Err(error) => {
                return Err(error);
            },
        };
        proof {
            lemma_after_after(tokens, count, 1);
        }
        let span = expression.span().merge(&end);
        Ok(Statement::Expression { expression, span })
    }

    /// Reads a branch: `if`, an expression, a block, and then nothing more,
    /// or `else` and a block, or `else` and another branch.
    fn expect_branching(&mut self) -> (result: Result<Statement, ParseError>)
        requires
            old(self).wf(),
        ensures
            final(self).wf(),
            yields_statement(
                result,
                branch(old(self).remaining()),
                old(self).remaining(),
                final(self).remaining(),
            ),
            result is Ok ==> final(self).remaining().len() < old(self).remaining().len(),
        decreases old(self).remaining().len(), 1nat,
    {
        let ghost tokens = self.remaining();
        let (_, start) = match self.expect_token(TokenKind::If) {
            Ok(pair) => pair,
            Err(error) => {
                return Err(error);
            },
        };
        let condition = match self.expect_expression() {
            Ok(condition) => condition,
            Err(error) => {
                return Err(error);
            },
        };
        let ghost count = expression(after(tokens, 1))->Ok_0.1;
        proof {
            lemma_after_after(tokens, 1, count);
        }
        let then_branch = match self.expect_block() {
            Ok(block) => block,
            Err(error) => {
                return Err(error);
            },
        };
        let ghost more = block(after(tokens, 1 + count))->Ok_0.1;
        let ghost taken = 1 + count + more;
        proof {
            lemma_after_after(tokens, 1 + count, more);
        }
        if self.peek_is(TokenKind::Else) {
            self.advance();
            proof {
                lemma_after_after(tokens, taken, 1);
            }
            let otherwise = match self.expect_alternative() {
                Ok(otherwise) => otherwise,
                Err(error) => {
                    return Err(error);
                },
            };
            proof {
                let last = if starts_with(after(tokens, taken + 1), TokenKind::If) {
                    branch(after(tokens, taken + 1))->Ok_0.1
                } else {
                    block(after(tokens, taken + 1))->Ok_0.1
                };
                lemma_after_after(tokens, taken + 1, last);
            }
            let span = start.merge(&otherwise.span());
            Ok(
                Statement::Branch {
                    condition,
                    then_branch: Box::new(then_branch),
                    otherwise: Some(Box::new(otherwise)),
                    span,
                },
            )
        } else {
            let span = start.merge(&then_branch.span());
            Ok(
                Statement::Branch {
                    condition,
                    then_branch: Box::new(then_branch),
                    otherwise: None,
                    span,
                },
            )
        }
    }

    /// Reads what follows `else`: another branch if `if` comes next, else a
    /// block.
    fn expect_alternative(&mut self) -> (result: Result<Statement, ParseError>)
        requires
            old(self).wf(),
        ensures
            final(self).wf(),
            yields_statement(
                result,
                if starts_with(old(self).remaining(), TokenKind::If) {
                    branch(old(self).remaining())
                } else {
                    block(old(self).remaining())
                },
                old(self).remaining(),
                final(self).remaining(),
            ),
            result is Ok ==> final(self).remaining().len() < old(self).remaining().len(),
        decreases old(self).remaining().len(), 2nat,
    {
        if self.peek_is(TokenKind::If) {
            self.expect_branching()
        } else {
            self.expect_block()
        }
    }

    /// Reads a loop: `while`, an expression, a block.
    fn expect_while(&mut self) -> (result: Result<Statement, ParseError>)
        requires
            old(self).wf(),
        ensures
            final(self).wf(),
            yields_statement(
                result,
                while_loop(old(self).remaining()),
                old(self).remaining(),
                final(self).remaining(),
            ),
            result is Ok ==> final(self).remaining().len() < old(self).remaining().len(),
        decreases old(self).remaining().len(), 1nat,
    {
        let ghost tokens = self.remaining();
        let (_, start) = match self.expect_token(TokenKind::While) {
            Ok(pair) => pair,
            Err(error) => {
                return Err(error);
            },
        };
        let condition = match self.expect_expression() {
            Ok(condition) => condition,
            Err(error) => {
                return Err(error);
            },
        };
        let ghost count = expression(after(tokens, 1))->Ok_0.1;
        proof {
            lemma_after_after(tokens, 1, count);
        }
        let body = match self.expect_block() {
            Ok(body) => body,
            Err(error) => {
                return Err(error);
            },
        };
        proof {
            let more = block(after(tokens, 1 + count))->Ok_0.1;
            lemma_after_after(tokens, 1 + count, more);
        }
        let span = start.merge(&body.span());
        Ok(Statement::While { condition, body: Box::new(body), span })
    }

    /// Reads an expression.
    fn expect_expression(&mut self) -> (result: Result<Expression, ParseError>)
        requires
            old(self).wf(),
        ensures
            final(self).wf(),
            yields_expression(
                result,
                expression(old(self).remaining()),
                old(self).remaining(),
                final(self).remaining(),
            ),
            result is Ok ==> final(self).remaining().len() < old(self).remaining().len(),
        decreases old(self).remaining().len(), 9nat,
    {
        let ghost tokens = self.remaining();
        let bare = self.peek_is(TokenKind::Identifier);
        let target = match self.expect_binary(0) {
            Ok(target) => target,
            Err(error) => {
                return Err(error);
            },
        };
        let ghost count = binary(tokens, 0)->Ok_0.1;
        match target {
            Expression::Reference { name, span } => {
                if bare && self.peek_is(TokenKind::Equal) {
                    self.advance();
                    proof {
                        lemma_after_after(tokens, count, 1);
                    }
                    let value = match self.expect_expression() {
                        Ok(value) => value,
                        Err(error) => {
                            return Err(error);
                        },
                    };
                    proof {
                        let more = expression(after(tokens, count + 1))->Ok_0.1;
                        lemma_after_after(tokens, count + 1, more);
                    }
                    let whole = span.merge(&value.span());
                    Ok(Expression::Assignment { assign_to: name, value: Box::new(value), span: whole })
                } else {
                    Ok(Expression::Reference { name, span })
                }
            },
            other => Ok(other),
        }
    }

    /// Reads a binary expression of level `level`.
    fn expect_binary(&mut self, level: u8) -> (result: Result<Expression, ParseError>)
        requires
            old(self).wf(),
        ensures
            final(self).wf(),
            yields_expression(
                result,
                binary(old(self).remaining(), level as nat),
                old(self).remaining(),
                final(self).remaining(),
            ),
            result is Ok ==> final(self).remaining().len() < old(self).remaining().len(),
        decreases old(self).remaining().len(),
            if level < 6 {
                (8 - level) as nat
            } else {
                2nat
            },
    {
        if level >= 6 {
            return self.expect_unary();
        }
        let ghost tokens = self.remaining();
        let mut lhs = match self.expect_binary(level + 1) {
            Ok(lhs) => lhs,
            Err(error) => {
                return Err(error);
            },
        };
        let ghost mut taken: nat = binary(tokens, level as nat + 1)->Ok_0.1;
        loop
            invariant
                self.wf(),
                level < 6,
                tokens == old(self).remaining(),
                self.remaining() == after(tokens, taken),
                self.remaining().len() < tokens.len(),
                binary(tokens, level as nat) == shifted(
                    taken,
                    binary_tail(self.remaining(), level as nat, lhs@),
                ),
            decreases self.remaining().len(),
        {
            let ghost rest = self.remaining();
            let operator = match self.peek_operator(level) {
                Some(operator) => operator,
                None => {
                    return Ok(lhs);
                },
            };
            self.advance();
            let rhs = match self.expect_binary(level + 1) {
                Ok(rhs) => rhs,
                Err(error) => {
                    return Err(error);
                },
            };
            proof {
                let count = binary(after(rest, 1), level as nat + 1)->Ok_0.1;
                lemma_after_after(rest, 1, count);
                lemma_after_after(tokens, taken, 1 + count);
                taken = taken + 1 + count;
            }
            let span = lhs.span().merge(&rhs.span());
            lhs = Expression::binary(operator, lhs, rhs, span);
        }
    }

    /// Reads a unary expression: any number of `!`, then a primary
    /// expression.
    fn expect_unary(&mut self) -> (result: Result<Expression, ParseError>)
        requires
            old(self).wf(),
        ensures
            final(self).wf(),
            yields_expression(
                result,
                unary(old(self).remaining()),
                old(self).remaining(),
                final(self).remaining(),
            ),
            result is Ok ==> final(self).remaining().len() < old(self).remaining().len(),
        decreases old(self).remaining().len(), 1nat,
    {
        let ghost tokens = self.remaining();
        if self.peek_is(TokenKind::Bang) {
            let (_, start) = match self.expect_token(TokenKind::Bang) {
                Ok(pair) => pair,
                Err(error) => {
                    return Err(error);
                },
            };
            let operand = match self.expect_unary() {
                Ok(operand) => operand,
                Err(error) => {
                    return Err(error);
                },
            };
            proof {
                let count = unary(after(tokens, 1))->Ok_0.1;
                lemma_after_after(tokens, 1, count);
            }
            let span = start.merge(&operand.span());
            Ok(Expression::not(operand, span))
        } else {
            self.expect_primary()
        }
    }

    /// Reads a primary expression.
    #[verifier::rlimit(80)]
    fn expect_primary(&mut self) -> (result: Result<Expression, ParseError>)
        requires
            old(self).wf(),
        ensures
            final(self).wf(),
            yields_expression(
                result,
                primary(old(self).remaining()),
                old(self).remaining(),
                final(self).remaining(),
            ),
            result is Ok ==> final(self).remaining().len() < old(self).remaining().len(),
        decreases old(self).remaining().len(), 0nat,
    {
        let ghost tokens = self.remaining();
        match self.advance() {
            None => Err(ParseError::UnexpectedEnd { expected: Expected::Expression }),
            Some((Token::Int(value), span)) => Ok(Expression::Integer { value, span }),
            Some((Token::True, span)) => Ok(Expression::Boolean { value: true, span }),
            Some((Token::False, span)) => Ok(Expression::Boolean { value: false, span }),
            Some((Token::Identifier(name), span)) => {
                if self.peek_is(TokenKind::LParen) {
                    let call = self.expect_call(name, span);
                    proof {
                        lemma_after_after(tokens, 1, 1);
                        match arguments(after(tokens, 2)) {
                            Ok((views, count, close)) => {
                                lemma_after_after(tokens, 1, 1 + count);
                            },
                            Err(_) => {},
                        }
                    }
                    call
                } else {
                    Ok(Expression::Reference { name, span })
                }
            },
            Some((Token::LParen, span)) => {
                let group = self.expect_group(span);
                proof {
                    match expression(after(tokens, 1)) {
                        Ok((inner, count)) => {
                            lemma_after_after(tokens, 1, count);
                            lemma_after_after(tokens, 1, count + 1);
                        },
                        Err(_) => {},
                    }
                }
                group
            },
            Some((token, span)) => Err(
                ParseError::UnexpectedToken {
                    expected: Expected::Expression,
                    found: token.kind(),
                    span,
                },
            ),
        }
    }

    /// Reads the rest of a call of `name`, from its `(` on. `span` is the span
    /// of the name.
    fn expect_call(&mut self, name: String, span: Span) -> (result: Result<Expression, ParseError>)
        requires
            old(self).wf(),
            starts_with(old(self).remaining(), TokenKind::LParen),
        ensures
            final(self).wf(),
            match arguments(after(old(self).remaining(), 1)) {
                Ok((views, count, close)) => {
                    &&& result matches Ok(tree)
                    &&& tree@ == (ExpressionView::Call {
                        name: name@,
                        arguments: views,
                        span: span.hull(close),
                    })
                    &&& final(self).remaining() == after(old(self).remaining(), 1 + count)
                    &&& final(self).remaining().len() < old(self).remaining().len()
                },
                Err(error) => result matches Err(found) && found == error,
            },
        decreases old(self).remaining().len(), 0nat,
    {
        let ghost tokens = self.remaining();
        self.advance();
        let (arguments, close) = match self.expect_call_arguments() {
            Ok(pair) => pair,
            Err(error) => {
                return Err(error);
            },
        };
        proof {
            let count = crate::grammar::arguments(after(tokens, 1))->Ok_0.1;
            lemma_after_after(tokens, 1, count);
        }
        Ok(Expression::Call { name, arguments, span: span.merge(&close) })
    }

    /// Reads the rest of an expression in parentheses, after its `(`. `open`
    /// is the span of the `(`.
    fn expect_group(&mut self, open: Span) -> (result: Result<Expression, ParseError>)
        requires
            old(self).wf(),
        ensures
            final(self).wf(),
            match expression(old(self).remaining()) {
                Ok((inner, count)) => match token(
                    after(old(self).remaining(), count),
                    TokenKind::RParen,
                ) {
                    Ok(close) => {
                        &&& result matches Ok(tree)
                        &&& tree@ == inner.with_span(open.hull(close))
                        &&& final(self).remaining() == after(old(self).remaining(), count + 1)
                        &&& final(self).remaining().len() < old(self).remaining().len()
                    },
                    Err(error) => result matches Err(found) && found == error,
                },
                Err(error) => result matches Err(found) && found == error,
            },
        decreases old(self).remaining().len(), 10nat,
    {
        let ghost tokens = self.remaining();
        let inner = match self.expect_expression() {
            Ok(inner) => inner,
            Err(error) => {
                return Err(error);
            },
        };
        let ghost count = expression(tokens)->Ok_0.1;
        let (_, close) = match self.expect_token(TokenKind::RParen) {
            Ok(pair) => pair,
            Err(error) => {
                return Err(error);
            },
        };
        proof {
            lemma_after_after(tokens, count, 1);
        }
        Ok(inner.with_span(open.merge(&close)))
    }

    /// Reads the arguments of a call after its `(`, up to and with its `)`.
    /// Gives the arguments and the span of the `)`.
    fn expect_call_arguments(&mut self) -> (result: Result<(Vec<Expression>, Span), ParseError>)
        requires
            old(self).wf(),
        ensures
            final(self).wf(),
            match arguments(old(self).remaining()) {
                Ok((views, count, close)) => {
                    &&& result matches Ok((list, end))
                    &&& expression_views(list@) == views
                    &&& end == close
                    &&& final(self).remaining() == after(old(self).remaining(), count)
                },
                Err(error) => result matches Err(found) && found == error,
            },
        decreases old(self).remaining().len(), 10nat,
    {
        let ghost tokens = self.remaining();
        let mut list: Vec<Expression> = Vec::new();
        if self.peek_is(TokenKind::RParen) {
            let (_, close) = match self.expect_token(TokenKind::RParen) {
                Ok(pair) => pair,
                Err(error) => {
                    return Err(error);
                },
            };
            proof {
                assert(expression_views(list@) =~= Seq::<ExpressionView>::empty());
            }
            return Ok((list, close));
        }
        let first = match self.expect_expression() {
            Ok(first) => first,
            Err(error) => {
                return Err(error);
            },
        };
        let ghost mut taken: nat = expression(tokens)->Ok_0.1;
        list.push(first);
        proof {
            assert(expression_views(list@) =~= seq![first@]);
        }
        loop
            invariant
                self.wf(),
                tokens == old(self).remaining(),
                self.remaining() == after(tokens, taken),
                self.remaining().len() < tokens.len(),
                arguments(tokens) == prepend(
                    expression_views(list@),
                    taken,
                    arguments_tail(self.remaining()),
                ),
            decreases self.remaining().len(),
        {
            let ghost rest = self.remaining();
            let ghost front = expression_views(list@);
            if self.peek_is(TokenKind::Comma) {
                self.advance();
                let next = match self.expect_expression() {
                    Ok(next) => next,
                    Err(error) => {
                        return Err(error);
                    },
                };
                list.push(next);
                proof {
                    let count = expression(after(rest, 1))->Ok_0.1;
                    lemma_after_after(rest, 1, count);
                    lemma_after_after(tokens, taken, 1 + count);
                    taken = taken + 1 + count;
                    assert(expression_views(list@) =~= front.push(next@));
                    match arguments_tail(self.remaining()) {
                        Ok((others, more, close)) => {
                            assert(front + (seq![next@] + others) =~= front.push(next@) + others);
                        },
                        Err(_) => {},
                    }
                }
            } else {
                let (_, close) = match self.expect_token(TokenKind::RParen) {
                    Ok(pair) => pair,
                    Err(error) => {
                        return Err(error);
                    },
                };
                proof {
                    assert(front + Seq::<ExpressionView>::empty() =~= front);
                    lemma_after_after(tokens, taken, 1);
                }
                return Ok((list, close));
            }
        }
    }

    /// Takes an identifier: its name and its span.
    fn expect_identifier(&mut self) -> (result: Result<(String, Span), ParseError>)
        requires
            old(self).wf(),
        ensures
            final(self).wf(),
            match identifier(old(self).remaining()) {
                Ok((name, span)) => {
                    &&& result matches Ok((text, place))
                    &&& text@ == name
                    &&& place == span
                    &&& final(self).remaining() == after(old(self).remaining(), 1)
                    &&& final(self).remaining().len() < old(self).remaining().len()
                },
                Err(error) => result matches Err(found) && found == error,
            },
    {
        match self.advance() {
            Some((Token::Identifier(identifier), span)) => Ok((identifier, span)),
            Some((token, span)) => Err(
                ParseError::UnexpectedToken {
                    expected: Expected::Token(TokenKind::Identifier),
                    found: token.kind(),
                    span,
                },
            ),
            None => Err(
                ParseError::UnexpectedEnd { expected: Expected::Token(TokenKind::Identifier) },
            ),
        }
    }

    /// Takes a token of kind `kind`.
    fn expect_token(&mut self, kind: TokenKind) -> (result: Result<(Token, Span), ParseError>)
        requires
            old(self).wf(),
        ensures
            final(self).wf(),
            match token(old(self).remaining(), kind) {
                Ok(span) => {
                    &&& result matches Ok((found, place))
                    &&& place == span
                    &&& (found@, place) == old(self).remaining()[0]
                    &&& final(self).remaining() == after(old(self).remaining(), 1)
                    &&& final(self).remaining().len() < old(self).remaining().len()
                },
                Err(error) => result matches Err(found) && found == error,
            },
    {
        match self.advance() {
            Some((token, span)) => {
                let found = token.kind();
                if found == kind {
                    Ok((token, span))
                } else {
                    Err(ParseError::UnexpectedToken { expected: Expected::Token(kind), found, span })
                }
            },
            None => Err(ParseError::UnexpectedEnd { expected: Expected::Token(kind) }),
        }
    }

    /// Whether no token is left.
    fn is_eof(&self) -> (end: bool)
        ensures
            end == (self.remaining().len() == 0),
    {
        reveal(Parser::remaining);
        if let None = self.lookahead {
            true
        } else {
            false
        }
    }

    /// The kind of the next token, without taking it.
    fn peek(&self) -> (kind: Option<TokenKind>)
        ensures
            match kind {
                Some(kind) => starts_with(self.remaining(), kind),
                None => self.remaining().len() == 0,
            },
    {
        reveal(Parser::remaining);
        match &self.lookahead {
            Some((token, _)) => Some(token.kind()),
            None => None,
        }
    }

    /// Whether the next token is of kind `kind`.
    fn peek_is(&self, kind: TokenKind) -> (same: bool)
        ensures
            same == starts_with(self.remaining(), kind),
    {
        match self.peek() {
            Some(found) => found == kind,
            None => false,
        }
    }

    /// The binary operator of level `level` that the next token denotes.
    fn peek_operator(&self, level: u8) -> (found: Option<BinaryOperator>)
        ensures
            found == operator_at(self.remaining(), level as nat),
    {
        match self.peek() {
            Some(kind) => match binary_operator(kind) {
                Some((operator, its_level)) => if its_level == level {
                    Some(operator)
                } else {
                    None
                },
                None => None,
            },
            None => None,
        }
    }

    /// The error of finding the next token, or the end of the tokens, in
    /// place of `expected`.
    fn failure(&self, expected: Expected) -> (error: ParseError)
        ensures
            error == unexpected(self.remaining(), expected),
    {
        reveal(Parser::remaining);
        match &self.lookahead {
            Some((token, span)) => ParseError::UnexpectedToken {
                expected,
                found: token.kind(),
                span: *span,
            },
            None => ParseError::UnexpectedEnd { expected },
        }
    }

    /// Takes the next token, and fills the lookahead from the lexer.
    fn advance(&mut self) -> (taken: Option<(Token, Span)>)
        requires
            old(self).wf(),
        ensures
            final(self).wf(),
            match taken {
                Some((token, span)) => {
                    &&& old(self).remaining().len() > 0
                    &&& old(self).remaining()[0] == (token@, span)
                    &&& final(self).remaining() == after(old(self).remaining(), 1)
                },
                None => {
                    &&& old(self).remaining().len() == 0
                    &&& final(self).remaining() == old(self).remaining()
                },
            },
    {
        reveal(Parser::remaining);
        reveal(Parser::wf);
        if self.lookahead.is_none() {
            return None;
        }
        proof {
            self.input.lemma_cursor();
        }
        let next = self.input.next();
        let taken = self.lookahead.take();
        self.lookahead = next;
        proof {
            assert(self.remaining() =~= after(old(self).remaining(), 1));
            lemma_ordered_after(old(self).remaining(), 1);
        }
        taken
    }
}

/// Lexes and parses the whole of `input`.
///
/// Returns the program that `input` denotes or the first parse error, or
/// `None` if some run of numeric characters in `input` is no integer
/// literal.
pub fn parse_source(input: &str) -> (result: Option<Result<Program, ParseError>>)
    ensures
        match result {
            Some(result) => {
                &&& lexable(input@, 0)
                &&& match program(crate::scan::stream(input@, 0)) {
                    Ok(items) => {
                        &&& result matches Ok(tree)
                        &&& tree@.items == items
                        &&& tree@.well_spanned()
                    },
                    Err(error) => result matches Err(found) && found == error,
                }
            },
            None => !lexable(input@, 0),
        },
{
    match tokenize(input) {
        None => None,
        Some(_) => {
            let mut parser = Parser::new(Lexer::new(input));
            Some(parser.parse())
        },
    }
}

} // verus!
