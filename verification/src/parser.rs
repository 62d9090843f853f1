use vstd::prelude::*;

use crate::ast::{
    exprs_model, lemma_exprs_model_push, names_model, lemma_names_model_push, lemma_statements_model_push,
    statements_model, BinaryOperator, Expr, ExprModel, Literal, LiteralModel, Statement,
    StatementModel, TypeName, UnaryOperator,
};
use crate::lexer::{
    describe_kind, kind_debug, kind_tag, lemma_lex_ends_with_eof, lemma_same_variant_simple, same_variant,
    tokenize_model, tokens_model, LexErrorModel, Token, TokenKind, TokenKindModel, TokenModel,
};

verus! {

/// Why the parser stopped: a message and the index of the token it was looking at.
pub struct ParseFailure {
    pub message: Seq<char>,
    pub at: int,
}

pub open spec fn fail<T>(message: Seq<char>, at: int) -> Result<T, ParseFailure> {
    Err(ParseFailure { message, at })
}

/// The kind of the token at index `p`; `Eof` past either end.
pub open spec fn kind_at(ks: Seq<TokenKindModel>, p: int) -> TokenKindModel {
    if 0 <= p < ks.len() {
        ks[p]
    } else {
        TokenKindModel::Eof
    }
}

/// Whether the token at `p` is `k`.
pub open spec fn at_kind(ks: Seq<TokenKindModel>, p: int, k: TokenKindModel) -> bool {
    kind_at(ks, p) == k
}

/// A kind that carries no text.
pub open spec fn is_simple(k: TokenKindModel) -> bool {
    !(k is Identifier) && !(k is Number) && !(k is String)
}

/// `q`, when it lies between `p` and the end of the tokens (every result of the parser does);
/// `p` otherwise. Positions go through it so that the definitions below visibly terminate.
pub open spec fn onward(ks: Seq<TokenKindModel>, p: int, q: int) -> int {
    if p <= q <= ks.len() {
        q
    } else {
        p
    }
}

/// `q`, when it lies strictly after `p` and within the tokens (every result of a statement
/// does); the end of the tokens otherwise.
pub open spec fn beyond(ks: Seq<TokenKindModel>, p: int, q: int) -> int {
    if p < q <= ks.len() {
        q
    } else {
        ks.len() as int
    }
}

/// The position after any newlines and semicolons at `p`.
pub open spec fn skip_separators(ks: Seq<TokenKindModel>, p: int) -> int
    decreases ks.len() - p,
{
    if 0 <= p < ks.len() && (ks[p] == TokenKindModel::Newline || ks[p] == TokenKindModel::Semicolon) {
        skip_separators(ks, p + 1)
    } else {
        p
    }
}

pub proof fn lemma_skip_separators(ks: Seq<TokenKindModel>, p: int)
    requires
        p <= ks.len(),
    ensures
        p <= skip_separators(ks, p) <= ks.len(),
        !at_kind(ks, skip_separators(ks, p), TokenKindModel::Newline),
        !at_kind(ks, skip_separators(ks, p), TokenKindModel::Semicolon),
    decreases ks.len() - p,
{
    if 0 <= p < ks.len() && (ks[p] == TokenKindModel::Newline || ks[p] == TokenKindModel::Semicolon) {
        lemma_skip_separators(ks, p + 1);
    }
}

pub open spec fn expected_message(expected: TokenKindModel, found: TokenKindModel) -> Seq<char> {
    "Expected "@ + kind_debug(expected) + ", found "@ + kind_debug(found)
}

/// The position after a token of the variant of `k` at `p`.
pub open spec fn expect(ks: Seq<TokenKindModel>, p: int, k: TokenKindModel) -> Result<int, ParseFailure> {
    if at_kind(ks, p, k) {
        Ok(p + 1)
    } else {
        fail(expected_message(k, kind_at(ks, p)), p)
    }
}

/// The position after an optional token of the variant of `k` at `p`.
pub open spec fn skip_kind(ks: Seq<TokenKindModel>, p: int, k: TokenKindModel) -> int {
    if at_kind(ks, p, k) {
        p + 1
    } else {
        p
    }
}

/// The name of the identifier at `p`, and the position after it.
pub open spec fn expect_identifier(ks: Seq<TokenKindModel>, p: int, message: Seq<char>) -> Result<(Seq<char>, int), ParseFailure> {
    match kind_at(ks, p) {
        TokenKindModel::Identifier(name) => Ok((name, p + 1)),
        _ => fail(message, p),
    }
}

/// The name a function is defined under, and the position after it: a word, or `add`. A
/// function may be named `add` although the word also starts the `add ... to` statement.
pub open spec fn function_name(ks: Seq<TokenKindModel>, p: int) -> Result<(Seq<char>, int), ParseFailure> {
    match kind_at(ks, p) {
        TokenKindModel::Add => Ok(("add"@, p + 1)),
        _ => expect_identifier(ks, p, "Expected a function name"@),
    }
}

/// The position after the end of a statement at `p`: a semicolon is consumed; a newline, a
/// closing brace or bracket, or the end is left in place.
pub open spec fn finish_statement(ks: Seq<TokenKindModel>, p: int) -> Result<int, ParseFailure> {
    if at_kind(ks, p, TokenKindModel::Semicolon) {
        Ok(p + 1)
    } else if at_kind(ks, p, TokenKindModel::Newline) || at_kind(ks, p, TokenKindModel::RightBrace)
        || at_kind(ks, p, TokenKindModel::RightBracket) || at_kind(ks, p, TokenKindModel::Eof) {
        Ok(p)
    } else {
        fail("Expected the end of the statement"@, p)
    }
}

/// The input type named at `p`.
pub open spec fn type_name_at(ks: Seq<TokenKindModel>, p: int) -> Result<(TypeName, int), ParseFailure> {
    match kind_at(ks, p) {
        TokenKindModel::Text => Ok((TypeName::Text, p + 1)),
        TokenKindModel::NumberType => Ok((TypeName::Number, p + 1)),
        TokenKindModel::Boolean => Ok((TypeName::Boolean, p + 1)),
        _ => fail("Expected 'text', 'number', or 'boolean'"@, p),
    }
}

pub open spec fn binary(left: ExprModel, operator: BinaryOperator, right: ExprModel) -> ExprModel {
    ExprModel::Binary { left: Box::new(left), operator, right: Box::new(right) }
}

pub open spec fn comparison_operator(k: TokenKindModel) -> Option<BinaryOperator> {
    match k {
        TokenKindModel::EqualEqual => Some(BinaryOperator::Equal),
        TokenKindModel::NotEqual => Some(BinaryOperator::NotEqual),
        TokenKindModel::Greater => Some(BinaryOperator::Greater),
        TokenKindModel::Less => Some(BinaryOperator::Less),
        TokenKindModel::GreaterEqual => Some(BinaryOperator::GreaterEqual),
        TokenKindModel::LessEqual => Some(BinaryOperator::LessEqual),
        _ => None,
    }
}

pub open spec fn term_operator(k: TokenKindModel) -> Option<BinaryOperator> {
    match k {
        TokenKindModel::Plus => Some(BinaryOperator::Add),
        TokenKindModel::Minus => Some(BinaryOperator::Subtract),
        _ => None,
    }
}

pub open spec fn factor_operator(k: TokenKindModel) -> Option<BinaryOperator> {
    match k {
        TokenKindModel::Star => Some(BinaryOperator::Multiply),
        TokenKindModel::Slash => Some(BinaryOperator::Divide),
        TokenKindModel::Percent => Some(BinaryOperator::Modulo),
        _ => None,
    }
}

pub open spec fn unary_operator(k: TokenKindModel) -> Option<UnaryOperator> {
    match k {
        TokenKindModel::Not => Some(UnaryOperator::Not),
        TokenKindModel::Minus => Some(UnaryOperator::Negate),
        TokenKindModel::Plus => Some(UnaryOperator::Positive),
        _ => None,
    }
}

// ---------------------------------------------------------------------------
// Expressions. Each function gives the expression that starts at `p` and the position after
// it. Operators of one level associate to the left; `or` binds loosest, then `and`, then the
// comparisons, then `+ -`, then `* / %`, then the prefix operators, then indexing.
// ---------------------------------------------------------------------------

pub open spec fn expression_at(ks: Seq<TokenKindModel>, p: int) -> Result<(ExprModel, int), ParseFailure>
    decreases ks.len() - p, 20nat,
{
    or_at(ks, p)
}

pub open spec fn or_at(ks: Seq<TokenKindModel>, p: int) -> Result<(ExprModel, int), ParseFailure>
    decreases ks.len() - p, 19nat,
{
    match and_at(ks, p) {
        Ok((e, q)) => or_rest(ks, onward(ks, p, q), e),
        Err(f) => Err(f),
    }
}

pub open spec fn or_rest(ks: Seq<TokenKindModel>, p: int, left: ExprModel) -> Result<(ExprModel, int), ParseFailure>
    decreases ks.len() - p, 18nat,
{
    if at_kind(ks, p, TokenKindModel::Or) {
        match and_at(ks, p + 1) {
            Ok((r, q)) => or_rest(ks, onward(ks, p + 1, q), binary(left, BinaryOperator::Or, r)),
            Err(f) => Err(f),
        }
    } else {
        Ok((left, p))
    }
}

pub open spec fn and_at(ks: Seq<TokenKindModel>, p: int) -> Result<(ExprModel, int), ParseFailure>
    decreases ks.len() - p, 17nat,
{
    match comparison_at(ks, p) {
        Ok((e, q)) => and_rest(ks, onward(ks, p, q), e),
        Err(f) => Err(f),
    }
}

pub open spec fn and_rest(ks: Seq<TokenKindModel>, p: int, left: ExprModel) -> Result<(ExprModel, int), ParseFailure>
    decreases ks.len() - p, 16nat,
{
    if at_kind(ks, p, TokenKindModel::And) {
        match comparison_at(ks, p + 1) {
            Ok((r, q)) => and_rest(ks, onward(ks, p + 1, q), binary(left, BinaryOperator::And, r)),
            Err(f) => Err(f),
        }
    } else {
        Ok((left, p))
    }
}

pub open spec fn comparison_at(ks: Seq<TokenKindModel>, p: int) -> Result<(ExprModel, int), ParseFailure>
    decreases ks.len() - p, 15nat,
{
    match term_at(ks, p) {
        Ok((e, q)) => comparison_rest(ks, onward(ks, p, q), e),
        Err(f) => Err(f),
    }
}

pub open spec fn comparison_rest(ks: Seq<TokenKindModel>, p: int, left: ExprModel) -> Result<(ExprModel, int), ParseFailure>
    decreases ks.len() - p, 14nat,
{
    match comparison_operator(kind_at(ks, p)) {
        Some(op) => match term_at(ks, p + 1) {
            Ok((r, q)) => comparison_rest(ks, onward(ks, p + 1, q), binary(left, op, r)),
            Err(f) => Err(f),
        },
        None => Ok((left, p)),
    }
}

pub open spec fn term_at(ks: Seq<TokenKindModel>, p: int) -> Result<(ExprModel, int), ParseFailure>
    decreases ks.len() - p, 13nat,
{
    match factor_at(ks, p) {
        Ok((e, q)) => term_rest(ks, onward(ks, p, q), e),
        Err(f) => Err(f),
    }
}

pub open spec fn term_rest(ks: Seq<TokenKindModel>, p: int, left: ExprModel) -> Result<(ExprModel, int), ParseFailure>
    decreases ks.len() - p, 12nat,
{
    match term_operator(kind_at(ks, p)) {
        Some(op) => match factor_at(ks, p + 1) {
            Ok((r, q)) => term_rest(ks, onward(ks, p + 1, q), binary(left, op, r)),
            Err(f) => Err(f),
        },
        None => Ok((left, p)),
    }
}

pub open spec fn factor_at(ks: Seq<TokenKindModel>, p: int) -> Result<(ExprModel, int), ParseFailure>
    decreases ks.len() - p, 11nat,
{
    match unary_at(ks, p) {
        Ok((e, q)) => factor_rest(ks, onward(ks, p, q), e),
        Err(f) => Err(f),
    }
}

pub open spec fn factor_rest(ks: Seq<TokenKindModel>, p: int, left: ExprModel) -> Result<(ExprModel, int), ParseFailure>
    decreases ks.len() - p, 10nat,
{
    match factor_operator(kind_at(ks, p)) {
        Some(op) => match unary_at(ks, p + 1) {
            Ok((r, q)) => factor_rest(ks, onward(ks, p + 1, q), binary(left, op, r)),
            Err(f) => Err(f),
        },
        None => Ok((left, p)),
    }
}

pub open spec fn unary_at(ks: Seq<TokenKindModel>, p: int) -> Result<(ExprModel, int), ParseFailure>
    decreases ks.len() - p, 9nat,
{
    match unary_operator(kind_at(ks, p)) {
        Some(op) => match unary_at(ks, p + 1) {
            Ok((e, q)) => Ok((ExprModel::Unary { operator: op, expression: Box::new(e) }, q)),
            Err(f) => Err(f),
        },
        None => postfix_at(ks, p),
    }
}

pub open spec fn postfix_at(ks: Seq<TokenKindModel>, p: int) -> Result<(ExprModel, int), ParseFailure>
    decreases ks.len() - p, 8nat,
{
    match primary_at(ks, p) {
        Ok((e, q)) => postfix_rest(ks, onward(ks, p, q), e),
        Err(f) => Err(f),
    }
}

pub open spec fn postfix_rest(ks: Seq<TokenKindModel>, p: int, collection: ExprModel) -> Result<(ExprModel, int), ParseFailure>
    decreases ks.len() - p, 7nat,
{
    if at_kind(ks, p, TokenKindModel::LeftBracket) {
        match expression_at(ks, p + 1) {
            Ok((index, q)) => match expect(ks, onward(ks, p + 1, q), TokenKindModel::RightBracket) {
                Ok(r) => postfix_rest(
                    ks,
                    onward(ks, p + 1, r),
                    ExprModel::Index { collection: Box::new(collection), index: Box::new(index) },
                ),
                Err(f) => Err(f),
            },
            Err(f) => Err(f),
        }
    } else {
        Ok((collection, p))
    }
}

pub open spec fn primary_at(ks: Seq<TokenKindModel>, p: int) -> Result<(ExprModel, int), ParseFailure>
    decreases ks.len() - p, 6nat,
{
    match kind_at(ks, p) {
        TokenKindModel::String(v) => Ok((ExprModel::Literal(LiteralModel::String(v)), p + 1)),
        TokenKindModel::Number(v) => Ok((ExprModel::Literal(LiteralModel::Number(v)), p + 1)),
        TokenKindModel::True => Ok((ExprModel::Literal(LiteralModel::Boolean(true)), p + 1)),
        TokenKindModel::False => Ok((ExprModel::Literal(LiteralModel::Boolean(false)), p + 1)),
        TokenKindModel::Nothing => Ok((ExprModel::Literal(LiteralModel::Nothing), p + 1)),
        TokenKindModel::Identifier(name) => if at_kind(ks, p + 1, TokenKindModel::LeftParen) {
            match arguments_at(ks, p + 2) {
                Ok((arguments, q)) => Ok((ExprModel::Call { name, arguments }, q)),
                Err(f) => Err(f),
            }
        } else {
            Ok((ExprModel::Variable(name), p + 1))
        },
        TokenKindModel::Add => if at_kind(ks, p + 1, TokenKindModel::LeftParen) {
            match arguments_at(ks, p + 2) {
                Ok((arguments, q)) => Ok((ExprModel::Call { name: "add"@, arguments }, q)),
                Err(f) => Err(f),
            }
        } else {
            fail("Expected an expression"@, p)
        },
        TokenKindModel::LeftParen => match expression_at(ks, p + 1) {
            Ok((e, q)) => match expect(ks, onward(ks, p + 1, q), TokenKindModel::RightParen) {
                Ok(r) => Ok((e, r)),
                Err(f) => Err(f),
            },
            Err(f) => Err(f),
        },
        TokenKindModel::LeftBracket => list_at(ks, p),
        _ => fail("Expected an expression"@, p),
    }
}

/// A list in square brackets; newlines may stand after `[`, around commas and before `]`,
/// and a trailing comma is allowed.
pub open spec fn list_at(ks: Seq<TokenKindModel>, p: int) -> Result<(ExprModel, int), ParseFailure>
    decreases ks.len() - p, 5nat,
{
    match expect(ks, p, TokenKindModel::LeftBracket) {
        Ok(q) => {
            let q1 = onward(ks, q, skip_separators(ks, q));
            if at_kind(ks, q1, TokenKindModel::RightBracket) {
                close_list(ks, q1, Seq::empty())
            } else {
                list_items(ks, q1, Seq::empty())
            }
        },
        Err(f) => Err(f),
    }
}

pub open spec fn close_list(ks: Seq<TokenKindModel>, p: int, items: Seq<ExprModel>) -> Result<(ExprModel, int), ParseFailure> {
    match expect(ks, skip_separators(ks, p), TokenKindModel::RightBracket) {
        Ok(q) => Ok((ExprModel::List(items), q)),
        Err(f) => Err(f),
    }
}

pub open spec fn list_items(ks: Seq<TokenKindModel>, p: int, items: Seq<ExprModel>) -> Result<(ExprModel, int), ParseFailure>
    decreases ks.len() - p, 21nat,
{
    match expression_at(ks, p) {
        Ok((e, q)) => {
            let q1 = onward(ks, p, skip_separators(ks, onward(ks, p, q)));
            if at_kind(ks, q1, TokenKindModel::Comma) {
                let q2 = onward(ks, q1 + 1, skip_separators(ks, q1 + 1));
                if at_kind(ks, q2, TokenKindModel::RightBracket) {
                    close_list(ks, q2, items.push(e))
                } else {
                    list_items(ks, q2, items.push(e))
                }
            } else {
                close_list(ks, q1, items.push(e))
            }
        },
        Err(f) => Err(f),
    }
}

/// The arguments of a call, after its `(`, and the position after the closing `)`.
pub open spec fn arguments_at(ks: Seq<TokenKindModel>, p: int) -> Result<(Seq<ExprModel>, int), ParseFailure>
    decreases ks.len() - p, 22nat,
{
    if at_kind(ks, p, TokenKindModel::RightParen) {
        Ok((Seq::empty(), p + 1))
    } else {
        argument_items(ks, p, Seq::empty())
    }
}

pub open spec fn argument_items(ks: Seq<TokenKindModel>, p: int, items: Seq<ExprModel>) -> Result<(Seq<ExprModel>, int), ParseFailure>
    decreases ks.len() - p, 21nat,
{
    match expression_at(ks, p) {
        Ok((e, q)) => {
            let q1 = onward(ks, p, q);
            if at_kind(ks, q1, TokenKindModel::Comma) {
                argument_items(ks, q1 + 1, items.push(e))
            } else {
                match expect(ks, q1, TokenKindModel::RightParen) {
                    Ok(r) => Ok((items.push(e), r)),
                    Err(f) => Err(f),
                }
            }
        },
        Err(f) => Err(f),
    }
}


// ---------------------------------------------------------------------------
// Statements. Each function gives the statement that starts at `p` and the position after it.
// ---------------------------------------------------------------------------

/// The names of a function's parameters, up to its `)`.
pub open spec fn parameters_from(ks: Seq<TokenKindModel>, p: int, names: Seq<Seq<char>>) -> Result<(Seq<Seq<char>>, int), ParseFailure>
    decreases ks.len() - p,
{
    match expect_identifier(ks, p, "Expected a parameter name"@) {
        Ok((n, q)) => if at_kind(ks, q, TokenKindModel::Comma) {
            parameters_from(ks, q + 1, names.push(n))
        } else {
            Ok((names.push(n), q))
        },
        Err(f) => Err(f),
    }
}

pub open spec fn missing_bracket_message(name: Seq<char>) -> Seq<char> {
    "Loop '"@ + name + "' is missing a closing ']'"@
}

pub open spec fn statement_at(ks: Seq<TokenKindModel>, p: int) -> Result<(StatementModel, int), ParseFailure>
    decreases ks.len() - p, 4nat,
{
    match kind_at(ks, p) {
        TokenKindModel::Define => define_at(ks, p),
        TokenKindModel::Get => get_at(ks, p),
        TokenKindModel::Write => write_at(ks, p),
        TokenKindModel::When => when_at(ks, p),
        TokenKindModel::Add => add_at(ks, p),
        TokenKindModel::Function => function_at(ks, p),
        TokenKindModel::Give => give_at(ks, p),
        TokenKindModel::Loop => loop_at(ks, p),
        TokenKindModel::Restart => restart_at(ks, p),
        TokenKindModel::End => end_at(ks, p),
        TokenKindModel::Save => save_at(ks, p),
        TokenKindModel::Identifier(_) => identifier_statement_at(ks, p),
        _ => fail("Expected a statement"@, p),
    }
}

pub open spec fn define_at(ks: Seq<TokenKindModel>, p: int) -> Result<(StatementModel, int), ParseFailure> {
    match expect(ks, p, TokenKindModel::Define) {
        Err(f) => Err(f),
        Ok(p1) => match expect_identifier(ks, p1, "Expected a variable name"@) {
            Err(f) => Err(f),
            Ok((name, p2)) => match expect(ks, p2, TokenKindModel::Equals) {
                Err(f) => Err(f),
                Ok(p3) => match expression_at(ks, p3) {
                    Err(f) => Err(f),
                    Ok((value, p4)) => match finish_statement(ks, p4) {
                        Err(f) => Err(f),
                        Ok(p5) => Ok((StatementModel::Define { name, value }, p5)),
                    },
                },
            },
        },
    }
}

pub open spec fn get_at(ks: Seq<TokenKindModel>, p: int) -> Result<(StatementModel, int), ParseFailure> {
    match expect(ks, p, TokenKindModel::Get) {
        Err(f) => Err(f),
        Ok(p1) => match expect_identifier(ks, p1, "Expected a variable name after 'get'"@) {
            Err(f) => Err(f),
            Ok((name, p2)) => {
                let typed = if at_kind(ks, p2, TokenKindModel::As) {
                    type_name_at(ks, p2 + 1)
                } else {
                    Ok((TypeName::Text, p2))
                };
                match typed {
                    Err(f) => Err(f),
                    Ok((input_type, p3)) => match expect(ks, p3, TokenKindModel::Equals) {
                        Err(f) => Err(f),
                        Ok(p4) => match expression_at(ks, p4) {
                            Err(f) => Err(f),
                            Ok((prompt, p5)) => match finish_statement(ks, p5) {
                                Err(f) => Err(f),
                                Ok(p6) => Ok((StatementModel::Get { name, input_type, prompt }, p6)),
                            },
                        },
                    },
                }
            },
        },
    }
}

pub open spec fn write_at(ks: Seq<TokenKindModel>, p: int) -> Result<(StatementModel, int), ParseFailure> {
    match expect(ks, p, TokenKindModel::Write) {
        Err(f) => Err(f),
        Ok(p1) => match expect(ks, p1, TokenKindModel::LeftParen) {
            Err(f) => Err(f),
            Ok(p2) => match expression_at(ks, p2) {
                Err(f) => Err(f),
                Ok((e, p3)) => match expect(ks, p3, TokenKindModel::RightParen) {
                    Err(f) => Err(f),
                    Ok(p4) => match finish_statement(ks, p4) {
                        Err(f) => Err(f),
                        Ok(p5) => Ok((StatementModel::Write(e), p5)),
                    },
                },
            },
        },
    }
}

pub open spec fn when_at(ks: Seq<TokenKindModel>, p: int) -> Result<(StatementModel, int), ParseFailure>
    decreases ks.len() - p, 3nat,
{
    match expect(ks, p, TokenKindModel::When) {
        Err(f) => Err(f),
        Ok(p1) => match expression_at(ks, p1) {
            Err(f) => Err(f),
            Ok((condition, p2)) => match control_body_at(ks, onward(ks, p1, p2)) {
                Err(f) => Err(f),
                Ok((body, p3)) => {
                    let p4 = onward(ks, p1, skip_separators(ks, onward(ks, p1, p3)));
                    if at_kind(ks, p4, TokenKindModel::Otherwise) {
                        match control_body_at(ks, p4 + 1) {
                            Err(f) => Err(f),
                            Ok((otherwise, p5)) => Ok((StatementModel::When { condition, body, otherwise: Some(otherwise) }, p5)),
                        }
                    } else {
                        Ok((StatementModel::When { condition, body, otherwise: None }, p4))
                    }
                },
            },
        },
    }
}

pub open spec fn add_at(ks: Seq<TokenKindModel>, p: int) -> Result<(StatementModel, int), ParseFailure> {
    match expect(ks, p, TokenKindModel::Add) {
        Err(f) => Err(f),
        Ok(p1) => match expression_at(ks, p1) {
            Err(f) => Err(f),
            Ok((value, p2)) => match expect(ks, p2, TokenKindModel::To) {
                Err(f) => Err(f),
                Ok(p3) => match expect_identifier(ks, p3, "Expected a list name after 'to'"@) {
                    Err(f) => Err(f),
                    Ok((list, p4)) => match finish_statement(ks, p4) {
                        Err(f) => Err(f),
                        Ok(p5) => Ok((StatementModel::AddToList { value, list }, p5)),
                    },
                },
            },
        },
    }
}

pub open spec fn function_at(ks: Seq<TokenKindModel>, p: int) -> Result<(StatementModel, int), ParseFailure>
    decreases ks.len() - p, 3nat,
{
    match expect(ks, p, TokenKindModel::Function) {
        Err(f) => Err(f),
        Ok(p1) => match function_name(ks, p1) {
            Err(f) => Err(f),
            Ok((name, p2)) => match expect(ks, p2, TokenKindModel::LeftParen) {
                Err(f) => Err(f),
                Ok(p3) => {
                    let params = if at_kind(ks, p3, TokenKindModel::RightParen) {
                        Ok((Seq::empty(), p3))
                    } else {
                        parameters_from(ks, p3, Seq::empty())
                    };
                    match params {
                        Err(f) => Err(f),
                        Ok((parameters, p4)) => match expect(ks, p4, TokenKindModel::RightParen) {
                            Err(f) => Err(f),
                            Ok(p5) => match brace_block_at(ks, onward(ks, p1, p5)) {
                                Err(f) => Err(f),
                                Ok((body, p6)) => Ok((StatementModel::Function { name, parameters, body }, p6)),
                            },
                        },
                    }
                },
            },
        },
    }
}

pub open spec fn give_at(ks: Seq<TokenKindModel>, p: int) -> Result<(StatementModel, int), ParseFailure> {
    match expect(ks, p, TokenKindModel::Give) {
        Err(f) => Err(f),
        Ok(p1) => match expression_at(ks, p1) {
            Err(f) => Err(f),
            Ok((e, p2)) => match finish_statement(ks, p2) {
                Err(f) => Err(f),
                Ok(p3) => Ok((StatementModel::Give(e), p3)),
            },
        },
    }
}

pub open spec fn loop_at(ks: Seq<TokenKindModel>, p: int) -> Result<(StatementModel, int), ParseFailure>
    decreases ks.len() - p, 3nat,
{
    match expect(ks, p, TokenKindModel::Loop) {
        Err(f) => Err(f),
        Ok(p1) => match expect_identifier(ks, p1, "Expected a named loop identifier after 'loop'"@) {
            Err(f) => Err(f),
            Ok((name, p2)) => match expect(ks, p2, TokenKindModel::LeftBracket) {
                Err(f) => Err(f),
                Ok(p3) => loop_items(ks, onward(ks, p1, skip_separators(ks, onward(ks, p1, p3))), name, Seq::empty()),
            },
        },
    }
}

/// The statements of a loop's body from `p`, up to and including its `]`.
pub open spec fn loop_items(ks: Seq<TokenKindModel>, p: int, name: Seq<char>, body: Seq<StatementModel>) -> Result<(StatementModel, int), ParseFailure>
    decreases ks.len() - p, 5nat,
{
    if at_kind(ks, p, TokenKindModel::RightBracket) || at_kind(ks, p, TokenKindModel::Eof) {
        if at_kind(ks, p, TokenKindModel::Eof) {
            fail(missing_bracket_message(name), p)
        } else {
            Ok((StatementModel::Loop { name, body }, p + 1))
        }
    } else {
        match statement_at(ks, p) {
            Err(f) => Err(f),
            Ok((st, q)) => {
                proof {
                    lemma_skip_separators(ks, beyond(ks, p, q));
                }
                loop_items(ks, skip_separators(ks, beyond(ks, p, q)), name, body.push(st))
            },
        }
    }
}

pub open spec fn restart_at(ks: Seq<TokenKindModel>, p: int) -> Result<(StatementModel, int), ParseFailure> {
    match expect(ks, p, TokenKindModel::Restart) {
        Err(f) => Err(f),
        Ok(p1) => match expect_identifier(ks, p1, "Expected a loop name after 'restart'"@) {
            Err(f) => Err(f),
            Ok((name, p2)) => match finish_statement(ks, p2) {
                Err(f) => Err(f),
                Ok(p3) => Ok((StatementModel::Restart(name), p3)),
            },
        },
    }
}

pub open spec fn end_at(ks: Seq<TokenKindModel>, p: int) -> Result<(StatementModel, int), ParseFailure> {
    match expect(ks, p, TokenKindModel::End) {
        Err(f) => Err(f),
        Ok(p1) => match expect_identifier(ks, p1, "Expected a loop name after 'end'"@) {
            Err(f) => Err(f),
            Ok((name, p2)) => match finish_statement(ks, p2) {
                Err(f) => Err(f),
                Ok(p3) => Ok((StatementModel::End(name), p3)),
            },
        },
    }
}

pub open spec fn save_at(ks: Seq<TokenKindModel>, p: int) -> Result<(StatementModel, int), ParseFailure> {
    match expect(ks, p, TokenKindModel::Save) {
        Err(f) => Err(f),
        Ok(p1) => match expect_identifier(ks, p1, "Expected a variable name after 'save'"@) {
            Err(f) => Err(f),
            Ok((variable, p2)) => match expect(ks, p2, TokenKindModel::To) {
                Err(f) => Err(f),
                Ok(p3) => match expression_at(ks, p3) {
                    Err(f) => Err(f),
                    Ok((path, p4)) => match finish_statement(ks, p4) {
                        Err(f) => Err(f),
                        Ok(p5) => Ok((StatementModel::Save { variable, path }, p5)),
                    },
                },
            },
        },
    }
}

/// An assignment, when `=` follows the identifier at `p`; an expression statement otherwise.
pub open spec fn identifier_statement_at(ks: Seq<TokenKindModel>, p: int) -> Result<(StatementModel, int), ParseFailure> {
    if p + 1 < ks.len() && at_kind(ks, p + 1, TokenKindModel::Equals) {
        match expect_identifier(ks, p, "Expected a variable name"@) {
            Err(f) => Err(f),
            Ok((name, p1)) => match expect(ks, p1, TokenKindModel::Equals) {
                Err(f) => Err(f),
                Ok(p2) => match expression_at(ks, p2) {
                    Err(f) => Err(f),
                    Ok((value, p3)) => match finish_statement(ks, p3) {
                        Err(f) => Err(f),
                        Ok(p4) => Ok((StatementModel::Assign { name, value }, p4)),
                    },
                },
            },
        }
    } else {
        match expression_at(ks, p) {
            Err(f) => Err(f),
            Ok((e, p1)) => match finish_statement(ks, p1) {
                Err(f) => Err(f),
                Ok(p2) => Ok((StatementModel::Expression(e), p2)),
            },
        }
    }
}

/// The body of a `when` or `otherwise`: one statement after `:`, or a block in braces.
pub open spec fn control_body_at(ks: Seq<TokenKindModel>, p: int) -> Result<(Seq<StatementModel>, int), ParseFailure>
    decreases ks.len() - p, 3nat,
{
    if at_kind(ks, p, TokenKindModel::Colon) {
        match statement_at(ks, onward(ks, p + 1, skip_separators(ks, p + 1))) {
            Err(f) => Err(f),
            Ok((st, q)) => Ok((seq![st], q)),
        }
    } else {
        brace_block_at(ks, p)
    }
}

pub open spec fn brace_block_at(ks: Seq<TokenKindModel>, p: int) -> Result<(Seq<StatementModel>, int), ParseFailure>
    decreases ks.len() - p, 2nat,
{
    match expect(ks, p, TokenKindModel::LeftBrace) {
        Err(f) => Err(f),
        Ok(p1) => block_items(ks, onward(ks, p1, skip_separators(ks, p1)), Seq::empty()),
    }
}

/// The statements of a block from `p`, up to and including its `}`.
pub open spec fn block_items(ks: Seq<TokenKindModel>, p: int, body: Seq<StatementModel>) -> Result<(Seq<StatementModel>, int), ParseFailure>
    decreases ks.len() - p, 5nat,
{
    if at_kind(ks, p, TokenKindModel::RightBrace) || at_kind(ks, p, TokenKindModel::Eof) {
        if at_kind(ks, p, TokenKindModel::Eof) {
            fail("Block is missing a closing '}'"@, p)
        } else {
            Ok((body, p + 1))
        }
    } else {
        match statement_at(ks, p) {
            Err(f) => Err(f),
            Ok((st, q)) => {
                proof {
                    lemma_skip_separators(ks, beyond(ks, p, q));
                }
                block_items(ks, skip_separators(ks, beyond(ks, p, q)), body.push(st))
            },
        }
    }
}

/// The statements of a program from `p` to its end.
pub open spec fn statements_from(ks: Seq<TokenKindModel>, p: int, done: Seq<StatementModel>) -> Result<(Seq<StatementModel>, int), ParseFailure>
    decreases ks.len() - p,
{
    if at_kind(ks, p, TokenKindModel::Eof) {
        Ok((done, p))
    } else {
        match statement_at(ks, p) {
            Err(f) => Err(f),
            Ok((st, q)) => {
                proof {
                    lemma_skip_separators(ks, beyond(ks, p, q));
                }
                statements_from(ks, skip_separators(ks, beyond(ks, p, q)), done.push(st))
            },
        }
    }
}

/// The program that the tokens from `p` on make up, and the position of the `Eof` that ends it.
pub open spec fn program_from(ks: Seq<TokenKindModel>, p: int) -> Result<(Seq<StatementModel>, int), ParseFailure> {
    statements_from(ks, skip_separators(ks, p), Seq::empty())
}


// ---------------------------------------------------------------------------
// The parser.
// ---------------------------------------------------------------------------

/// An error that stops the parser: its message and the place of the token it was looking at.
#[derive(Debug)]
pub struct ParserError {
    pub message: String,
    pub line: usize,
    pub column: usize,
}

/// The kinds of a sequence of tokens.
pub open spec fn kinds_of(ts: Seq<Token>) -> Seq<TokenKindModel> {
    ts.map_values(|t: Token| t.kind@)
}

/// Tokens that the parser accepts: at least one, the last of them `Eof`, as the lexer makes them.
pub open spec fn ends_with_eof(ts: Seq<Token>) -> bool {
    ts.len() > 0 && ts.last().kind is Eof
}

/// `e` reports the failure `f` at the place of the token it names.
pub open spec fn failure_matches(e: ParserError, f: ParseFailure, ts: Seq<Token>) -> bool {
    &&& 0 <= f.at < ts.len()
    &&& e.message@ == f.message
    &&& e.line == ts[f.at].line
    &&& e.column == ts[f.at].column
}

/// `r`, with the parser left at `pos`, is what `s` describes.
pub open spec fn outcome<T: View>(
    r: Result<T, ParserError>,
    ts: Seq<Token>,
    pos: int,
    s: Result<(T::V, int), ParseFailure>,
) -> bool {
    match s {
        Ok((m, q)) => r matches Ok(x) && x@ == m && pos == q,
        Err(f) => r matches Err(e) && failure_matches(e, f, ts) && pos == f.at,
    }
}

pub open spec fn statements_outcome(
    r: Result<Vec<Statement>, ParserError>,
    ts: Seq<Token>,
    pos: int,
    s: Result<(Seq<StatementModel>, int), ParseFailure>,
) -> bool {
    match s {
        Ok((m, q)) => r matches Ok(x) && statements_model(x@) == m && pos == q,
        Err(f) => r matches Err(e) && failure_matches(e, f, ts) && pos == f.at,
    }
}

pub open spec fn exprs_outcome(
    r: Result<Vec<Expr>, ParserError>,
    ts: Seq<Token>,
    pos: int,
    s: Result<(Seq<ExprModel>, int), ParseFailure>,
) -> bool {
    match s {
        Ok((m, q)) => r matches Ok(x) && exprs_model(x@) == m && pos == q,
        Err(f) => r matches Err(e) && failure_matches(e, f, ts) && pos == f.at,
    }
}

pub open spec fn names_outcome(
    r: Result<Vec<String>, ParserError>,
    ts: Seq<Token>,
    pos: int,
    s: Result<(Seq<Seq<char>>, int), ParseFailure>,
) -> bool {
    match s {
        Ok((m, q)) => r matches Ok(x) && names_model(x@) == m && pos == q,
        Err(f) => r matches Err(e) && failure_matches(e, f, ts) && pos == f.at,
    }
}

pub open spec fn step_outcome(
    r: Result<(), ParserError>,
    ts: Seq<Token>,
    pos: int,
    s: Result<int, ParseFailure>,
) -> bool {
    match s {
        Ok(q) => r is Ok && pos == q,
        Err(f) => r matches Err(e) && failure_matches(e, f, ts) && pos == f.at,
    }
}

fn comparison_operator_of(k: &TokenKind) -> (r: Option<BinaryOperator>)
    ensures
        r == comparison_operator(k@),
{
    match k {
        TokenKind::EqualEqual => Some(BinaryOperator::Equal),
        TokenKind::NotEqual => Some(BinaryOperator::NotEqual),
        TokenKind::Greater => Some(BinaryOperator::Greater),
        TokenKind::Less => Some(BinaryOperator::Less),
        TokenKind::GreaterEqual => Some(BinaryOperator::GreaterEqual),
        TokenKind::LessEqual => Some(BinaryOperator::LessEqual),
        _ => None,
    }
}

fn term_operator_of(k: &TokenKind) -> (r: Option<BinaryOperator>)
    ensures
        r == term_operator(k@),
{
    match k {
        TokenKind::Plus => Some(BinaryOperator::Add),
        TokenKind::Minus => Some(BinaryOperator::Subtract),
        _ => None,
    }
}

fn factor_operator_of(k: &TokenKind) -> (r: Option<BinaryOperator>)
    ensures
        r == factor_operator(k@),
{
    match k {
        TokenKind::Star => Some(BinaryOperator::Multiply),
        TokenKind::Slash => Some(BinaryOperator::Divide),
        TokenKind::Percent => Some(BinaryOperator::Modulo),
        _ => None,
    }
}

fn unary_operator_of(k: &TokenKind) -> (r: Option<UnaryOperator>)
    ensures
        r == unary_operator(k@),
{
    match k {
        TokenKind::Not => Some(UnaryOperator::Not),
        TokenKind::Minus => Some(UnaryOperator::Negate),
        TokenKind::Plus => Some(UnaryOperator::Positive),
        _ => None,
    }
}

/// Builds the statements of a program from its tokens.
pub struct Parser {
    tokens: Vec<Token>,
    position: usize,
}

impl Parser {
    /// The tokens being read.
    pub closed spec fn token_list(&self) -> Seq<Token> {
        self.tokens@
    }

    /// The index of the next token to read.
    pub closed spec fn at(&self) -> int {
        self.position as int
    }

    pub closed spec fn wf(&self) -> bool {
        ends_with_eof(self.tokens@) && self.position < self.tokens@.len()
    }

    /// `self` reads the same tokens as `before`, and is no further back.
    pub closed spec fn follows(&self, before: &Self) -> bool {
        &&& self.wf()
        &&& self.tokens@ == before.tokens@
        &&& before.position <= self.position
    }

    spec fn kinds(&self) -> Seq<TokenKindModel> {
        kinds_of(self.tokens@)
    }

    /// A parser at the first of `tokens`.
    pub fn new(tokens: Vec<Token>) -> (parser: Self)
        ensures
            parser.token_list() == tokens@,
            parser.at() == 0,
    {
        Self { tokens, position: 0 }
    }

    /// Reads statements, separated by newlines or semicolons, up to the end of the tokens.
    /// The tokens must end with `Eof`, as the lexer's do.
    pub fn parse(&mut self) -> (r: Result<Vec<Statement>, ParserError>)
        requires
            ends_with_eof(old(self).token_list()),
            old(self).at() < old(self).token_list().len(),
        ensures
            final(self).wf(),
            final(self).token_list() == old(self).token_list(),
            statements_outcome(r, old(self).token_list(), final(self).at(), program_from(kinds_of(old(self).token_list()), old(self).at())),
    {
        let ghost ts = self.tokens@;
        let ghost ks = kinds_of(ts);
        let ghost p0 = self.position as int;
        let mut statements: Vec<Statement> = Vec::new();
        self.skip_separators();
        loop
            invariant
                self.wf(),
                self.tokens@ == ts,
                ts == old(self).tokens@,
                p0 == old(self).position,
                ks == kinds_of(ts),
                program_from(ks, p0) == statements_from(ks, self.position as int, statements_model(statements@)),
            ensures
                self.wf(),
                self.tokens@ == ts,
                at_kind(ks, self.position as int, TokenKindModel::Eof),
                program_from(ks, p0) == statements_from(ks, self.position as int, statements_model(statements@)),
            decreases ts.len() - self.position,
        {
            if self.check(&TokenKind::Eof) {
                break;
            }
            let ghost p = self.position as int;
            let st = self.parse_statement()?;
            proof {
                lemma_statements_model_push(statements@, st);
            }
            statements.push(st);
            self.skip_separators();
        }
        Ok(statements)
    }

    // -----------------------------------------------------------------------
    // Expressions
    // -----------------------------------------------------------------------

    fn parse_expression(&mut self) -> (r: Result<Expr, ParserError>)
        requires
            old(self).wf(),
        ensures
            final(self).follows(old(self)),
            outcome(r, old(self).tokens@, final(self).position as int, expression_at(old(self).kinds(), old(self).position as int)),
        decreases old(self).tokens@.len() - old(self).position, 20nat,
    {
        self.parse_or()
    }

    fn parse_or(&mut self) -> (r: Result<Expr, ParserError>)
        requires
            old(self).wf(),
        ensures
            final(self).follows(old(self)),
            outcome(r, old(self).tokens@, final(self).position as int, or_at(old(self).kinds(), old(self).position as int)),
        decreases old(self).tokens@.len() - old(self).position, 19nat,
    {
        let ghost ts = self.tokens@;
        let ghost ks = self.kinds();
        let ghost p0 = self.position as int;
        let mut expression = self.parse_and()?;
        loop
            invariant
                self.wf(),
                self.tokens@ == ts,
                ts == old(self).tokens@,
                p0 == old(self).position,
                ks == kinds_of(ts),
                p0 <= self.position,
                or_at(ks, p0) == or_rest(ks, self.position as int, expression@),
            ensures
                self.wf(),
                self.tokens@ == ts,
                p0 <= self.position,
                or_at(ks, p0) == Ok::<(ExprModel, int), ParseFailure>((expression@, self.position as int)),
            decreases ts.len() - self.position,
        {
            if !self.match_simple(TokenKind::Or) {
                break;
            }
            let right = self.parse_and()?;
            expression = Expr::Binary { left: Box::new(expression), operator: BinaryOperator::Or, right: Box::new(right) };
        }
        Ok(expression)
    }

    fn parse_and(&mut self) -> (r: Result<Expr, ParserError>)
        requires
            old(self).wf(),
        ensures
            final(self).follows(old(self)),
            outcome(r, old(self).tokens@, final(self).position as int, and_at(old(self).kinds(), old(self).position as int)),
        decreases old(self).tokens@.len() - old(self).position, 17nat,
    {
        let ghost ts = self.tokens@;
        let ghost ks = self.kinds();
        let ghost p0 = self.position as int;
        let mut expression = self.parse_comparison()?;
        loop
            invariant
                self.wf(),
                self.tokens@ == ts,
                ts == old(self).tokens@,
                p0 == old(self).position,
                ks == kinds_of(ts),
                p0 <= self.position,
                and_at(ks, p0) == and_rest(ks, self.position as int, expression@),
            ensures
                self.wf(),
                self.tokens@ == ts,
                p0 <= self.position,
                and_at(ks, p0) == Ok::<(ExprModel, int), ParseFailure>((expression@, self.position as int)),
            decreases ts.len() - self.position,
        {
            if !self.match_simple(TokenKind::And) {
                break;
            }
            let right = self.parse_comparison()?;
            expression = Expr::Binary { left: Box::new(expression), operator: BinaryOperator::And, right: Box::new(right) };
        }
        Ok(expression)
    }

    fn parse_comparison(&mut self) -> (r: Result<Expr, ParserError>)
        requires
            old(self).wf(),
        ensures
            final(self).follows(old(self)),
            outcome(r, old(self).tokens@, final(self).position as int, comparison_at(old(self).kinds(), old(self).position as int)),
        decreases old(self).tokens@.len() - old(self).position, 15nat,
    {
        let ghost ts = self.tokens@;
        let ghost ks = self.kinds();
        let ghost p0 = self.position as int;
        let mut expression = self.parse_term()?;
        loop
            invariant
                self.wf(),
                self.tokens@ == ts,
                ts == old(self).tokens@,
                p0 == old(self).position,
                ks == kinds_of(ts),
                p0 <= self.position,
                comparison_at(ks, p0) == comparison_rest(ks, self.position as int, expression@),
            ensures
                self.wf(),
                self.tokens@ == ts,
                p0 <= self.position,
                comparison_at(ks, p0) == Ok::<(ExprModel, int), ParseFailure>((expression@, self.position as int)),
            decreases ts.len() - self.position,
        {
            let operator = match comparison_operator_of(self.peek_kind()) {
                Some(operator) => operator,
                None => break,
            };
            self.advance();
            let right = self.parse_term()?;
            expression = Expr::Binary { left: Box::new(expression), operator, right: Box::new(right) };
        }
        Ok(expression)
    }

    fn parse_term(&mut self) -> (r: Result<Expr, ParserError>)
        requires
            old(self).wf(),
        ensures
            final(self).follows(old(self)),
            outcome(r, old(self).tokens@, final(self).position as int, term_at(old(self).kinds(), old(self).position as int)),
        decreases old(self).tokens@.len() - old(self).position, 13nat,
    {
        let ghost ts = self.tokens@;
        let ghost ks = self.kinds();
        let ghost p0 = self.position as int;
        let mut expression = self.parse_factor()?;
        loop
            invariant
                self.wf(),
                self.tokens@ == ts,
                ts == old(self).tokens@,
                p0 == old(self).position,
                ks == kinds_of(ts),
                p0 <= self.position,
                term_at(ks, p0) == term_rest(ks, self.position as int, expression@),
            ensures
                self.wf(),
                self.tokens@ == ts,
                p0 <= self.position,
                term_at(ks, p0) == Ok::<(ExprModel, int), ParseFailure>((expression@, self.position as int)),
            decreases ts.len() - self.position,
        {
            let operator = match term_operator_of(self.peek_kind()) {
                Some(operator) => operator,
                None => break,
            };
            self.advance();
            let right = self.parse_factor()?;
            expression = Expr::Binary { left: Box::new(expression), operator, right: Box::new(right) };
        }
        Ok(expression)
    }

    fn parse_factor(&mut self) -> (r: Result<Expr, ParserError>)
        requires
            old(self).wf(),
        ensures
            final(self).follows(old(self)),
            outcome(r, old(self).tokens@, final(self).position as int, factor_at(old(self).kinds(), old(self).position as int)),
        decreases old(self).tokens@.len() - old(self).position, 11nat,
    {
        let ghost ts = self.tokens@;
        let ghost ks = self.kinds();
        let ghost p0 = self.position as int;
        let mut expression = self.parse_unary()?;
        loop
            invariant
                self.wf(),
                self.tokens@ == ts,
                ts == old(self).tokens@,
                p0 == old(self).position,
                ks == kinds_of(ts),
                p0 <= self.position,
                factor_at(ks, p0) == factor_rest(ks, self.position as int, expression@),
            ensures
                self.wf(),
                self.tokens@ == ts,
                p0 <= self.position,
                factor_at(ks, p0) == Ok::<(ExprModel, int), ParseFailure>((expression@, self.position as int)),
            decreases ts.len() - self.position,
        {
            let operator = match factor_operator_of(self.peek_kind()) {
                Some(operator) => operator,
                None => break,
            };
            self.advance();
            let right = self.parse_unary()?;
            expression = Expr::Binary { left: Box::new(expression), operator, right: Box::new(right) };
        }
        Ok(expression)
    }

    fn parse_unary(&mut self) -> (r: Result<Expr, ParserError>)
        requires
            old(self).wf(),
        ensures
            final(self).follows(old(self)),
            outcome(r, old(self).tokens@, final(self).position as int, unary_at(old(self).kinds(), old(self).position as int)),
        decreases old(self).tokens@.len() - old(self).position, 9nat,
    {
        let operator = unary_operator_of(self.peek_kind());
        if let Some(operator) = operator {
            self.advance();
            let expression = self.parse_unary()?;
            return Ok(Expr::Unary { operator, expression: Box::new(expression) });
        }
        self.parse_postfix()
    }

    fn parse_postfix(&mut self) -> (r: Result<Expr, ParserError>)
        requires
            old(self).wf(),
        ensures
            final(self).follows(old(self)),
            outcome(r, old(self).tokens@, final(self).position as int, postfix_at(old(self).kinds(), old(self).position as int)),
        decreases old(self).tokens@.len() - old(self).position, 8nat,
    {
        let ghost ts = self.tokens@;
        let ghost ks = self.kinds();
        let ghost p0 = self.position as int;
        let mut expression = self.parse_primary()?;
        loop
            invariant
                self.wf(),
                self.tokens@ == ts,
                ts == old(self).tokens@,
                p0 == old(self).position,
                ks == kinds_of(ts),
                p0 <= self.position,
                postfix_at(ks, p0) == postfix_rest(ks, self.position as int, expression@),
            ensures
                self.wf(),
                self.tokens@ == ts,
                p0 <= self.position,
                postfix_at(ks, p0) == Ok::<(ExprModel, int), ParseFailure>((expression@, self.position as int)),
            decreases ts.len() - self.position,
        {
            if !self.match_simple(TokenKind::LeftBracket) {
                break;
            }
            let index = self.parse_expression()?;
            self.expect_simple(TokenKind::RightBracket)?;
            expression = Expr::Index { collection: Box::new(expression), index: Box::new(index) };
        }
        Ok(expression)
    }

    fn parse_primary(&mut self) -> (r: Result<Expr, ParserError>)
        requires
            old(self).wf(),
        ensures
            final(self).follows(old(self)),
            outcome(r, old(self).tokens@, final(self).position as int, primary_at(old(self).kinds(), old(self).position as int)),
        decreases old(self).tokens@.len() - old(self).position, 6nat,
    {
        match self.peek_kind() {
            TokenKind::String(value) => {
                let value = value.clone();
                self.advance();
                Ok(Expr::Literal(Literal::String(value)))
            },
            TokenKind::Number(value) => {
                let value = value.clone();
                self.advance();
                Ok(Expr::Literal(Literal::Number(value)))
            },
            TokenKind::True => {
                self.advance();
                Ok(Expr::Literal(Literal::Boolean(true)))
            },
            TokenKind::False => {
                self.advance();
                Ok(Expr::Literal(Literal::Boolean(false)))
            },
            TokenKind::Nothing => {
                self.advance();
                Ok(Expr::Literal(Literal::Nothing))
            },
            TokenKind::Identifier(name) => {
                let name = name.clone();
                self.advance();
                if self.match_simple(TokenKind::LeftParen) {
                    let arguments = self.parse_arguments()?;
                    Ok(Expr::Call { name, arguments })
                } else {
                    Ok(Expr::Variable(name))
                }
            },
            TokenKind::Add => {
                if self.peek_next_is(&TokenKind::LeftParen) {
                    self.advance();
                    self.advance();
                    let arguments = self.parse_arguments()?;
                    Ok(Expr::Call { name: String::from_str("add"), arguments })
                } else {
                    Err(self.error_at(self.peek(), String::from_str("Expected an expression")))
                }
            },
            TokenKind::LeftParen => {
                self.advance();
                let expression = self.parse_expression()?;
                self.expect_simple(TokenKind::RightParen)?;
                Ok(expression)
            },
            TokenKind::LeftBracket => self.parse_list(),
            _ => Err(self.error_at(self.peek(), String::from_str("Expected an expression"))),
        }
    }

    fn parse_list(&mut self) -> (r: Result<Expr, ParserError>)
        requires
            old(self).wf(),
        ensures
            final(self).follows(old(self)),
            outcome(r, old(self).tokens@, final(self).position as int, list_at(old(self).kinds(), old(self).position as int)),
        decreases old(self).tokens@.len() - old(self).position, 5nat,
    {
        let ghost ts = self.tokens@;
        let ghost ks = self.kinds();
        let ghost p0 = self.position as int;
        self.expect_simple(TokenKind::LeftBracket)?;
        self.skip_separators();
        let mut items: Vec<Expr> = Vec::new();
        if !self.check(&TokenKind::RightBracket) {
            loop
                invariant_except_break
                    list_at(ks, p0) == list_items(ks, self.position as int, exprs_model(items@)),
                invariant
                    self.wf(),
                    self.tokens@ == ts,
                    ts == old(self).tokens@,
                    p0 == old(self).position,
                    ks == kinds_of(ts),
                    p0 < self.position,
                ensures
                    list_at(ks, p0) == close_list(ks, self.position as int, exprs_model(items@)),
                decreases ts.len() - self.position,
            {
                let ghost p = self.position as int;
                let item = self.parse_expression()?;
                proof {
                    lemma_exprs_model_push(items@, item);
                }
                items.push(item);
                self.skip_separators();
                if !self.match_simple(TokenKind::Comma) {
                    break;
                }
                self.skip_separators();
                if self.check(&TokenKind::RightBracket) {
                    break;
                }
            }
        }
        self.skip_separators();
        self.expect_simple(TokenKind::RightBracket)?;
        Ok(Expr::List(items))
    }

    /// The arguments of a call, after its `(`, up to and including its `)`.
    fn parse_arguments(&mut self) -> (r: Result<Vec<Expr>, ParserError>)
        requires
            old(self).wf(),
        ensures
            final(self).follows(old(self)),
            exprs_outcome(r, old(self).tokens@, final(self).position as int, arguments_at(old(self).kinds(), old(self).position as int)),
        decreases old(self).tokens@.len() - old(self).position, 22nat,
    {
        let ghost ts = self.tokens@;
        let ghost ks = self.kinds();
        let ghost p0 = self.position as int;
        let mut arguments: Vec<Expr> = Vec::new();
        if !self.check(&TokenKind::RightParen) {
            loop
                invariant_except_break
                    arguments_at(ks, p0) == argument_items(ks, self.position as int, exprs_model(arguments@)),
                invariant
                    self.wf(),
                    self.tokens@ == ts,
                    ts == old(self).tokens@,
                    p0 == old(self).position,
                    ks == kinds_of(ts),
                    p0 <= self.position,
                ensures
                    arguments_at(ks, p0) == (match expect(ks, self.position as int, TokenKindModel::RightParen) {
                        Ok(r) => Ok((exprs_model(arguments@), r)),
                        Err(f) => Err(f),
                    }),
                decreases ts.len() - self.position,
            {
                let argument = self.parse_expression()?;
                proof {
                    lemma_exprs_model_push(arguments@, argument);
                }
                arguments.push(argument);
                if !self.match_simple(TokenKind::Comma) {
                    break;
                }
            }
        }
        self.expect_simple(TokenKind::RightParen)?;
        Ok(arguments)
    }


    // -----------------------------------------------------------------------
    // Statements
    // -----------------------------------------------------------------------

    fn parse_statement(&mut self) -> (r: Result<Statement, ParserError>)
        requires
            old(self).wf(),
        ensures
            final(self).follows(old(self)),
            outcome(r, old(self).tokens@, final(self).position as int, statement_at(old(self).kinds(), old(self).position as int)),
            r is Ok ==> old(self).position < final(self).position,
        decreases old(self).tokens@.len() - old(self).position, 4nat,
    {
        match self.peek_kind() {
            TokenKind::Define => self.parse_define(),
            TokenKind::Get => self.parse_get(),
            TokenKind::Write => self.parse_write(),
            TokenKind::When => self.parse_when(),
            TokenKind::Add => self.parse_add_to_list(),
            TokenKind::Function => self.parse_function(),
            TokenKind::Give => self.parse_give(),
            TokenKind::Loop => self.parse_loop(),
            TokenKind::Restart => self.parse_restart(),
            TokenKind::End => self.parse_end(),
            TokenKind::Save => self.parse_save(),
            TokenKind::Identifier(_) => self.parse_identifier_statement(),
            _ => Err(self.error_at(self.peek(), String::from_str("Expected a statement"))),
        }
    }

    fn parse_define(&mut self) -> (r: Result<Statement, ParserError>)
        requires
            old(self).wf(),
        ensures
            final(self).follows(old(self)),
            outcome(r, old(self).tokens@, final(self).position as int, define_at(old(self).kinds(), old(self).position as int)),
            r is Ok ==> old(self).position < final(self).position,
    {
        self.expect_simple(TokenKind::Define)?;
        let name = self.expect_identifier("Expected a variable name")?;
        self.expect_simple(TokenKind::Equals)?;
        let value = self.parse_expression()?;
        self.finish_statement()?;
        Ok(Statement::Define { name, value })
    }

    fn parse_get(&mut self) -> (r: Result<Statement, ParserError>)
        requires
            old(self).wf(),
        ensures
            final(self).follows(old(self)),
            outcome(r, old(self).tokens@, final(self).position as int, get_at(old(self).kinds(), old(self).position as int)),
            r is Ok ==> old(self).position < final(self).position,
    {
        self.expect_simple(TokenKind::Get)?;
        let name = self.expect_identifier("Expected a variable name after 'get'")?;
        let input_type = if self.match_simple(TokenKind::As) {
            self.parse_type_name()?
        } else {
            // Untyped input defaults to text.
            TypeName::Text
        };
        self.expect_simple(TokenKind::Equals)?;
        let prompt = self.parse_expression()?;
        self.finish_statement()?;
        Ok(Statement::Get { name, input_type, prompt })
    }

    fn parse_write(&mut self) -> (r: Result<Statement, ParserError>)
        requires
            old(self).wf(),
        ensures
            final(self).follows(old(self)),
            outcome(r, old(self).tokens@, final(self).position as int, write_at(old(self).kinds(), old(self).position as int)),
            r is Ok ==> old(self).position < final(self).position,
    {
        self.expect_simple(TokenKind::Write)?;
        self.expect_simple(TokenKind::LeftParen)?;
        let expression = self.parse_expression()?;
        self.expect_simple(TokenKind::RightParen)?;
        self.finish_statement()?;
        Ok(Statement::Write(expression))
    }

    fn parse_when(&mut self) -> (r: Result<Statement, ParserError>)
        requires
            old(self).wf(),
        ensures
            final(self).follows(old(self)),
            outcome(r, old(self).tokens@, final(self).position as int, when_at(old(self).kinds(), old(self).position as int)),
            r is Ok ==> old(self).position < final(self).position,
        decreases old(self).tokens@.len() - old(self).position, 3nat,
    {
        self.expect_simple(TokenKind::When)?;
        let condition = self.parse_expression()?;
        let body = self.parse_control_body()?;
        // A newline or semicolon may stand between the first body and `otherwise`.
        self.skip_separators();
        let otherwise = if self.match_simple(TokenKind::Otherwise) {
            Some(self.parse_control_body()?)
        } else {
            None
        };
        Ok(Statement::When { condition, body, otherwise })
    }

    fn parse_add_to_list(&mut self) -> (r: Result<Statement, ParserError>)
        requires
            old(self).wf(),
        ensures
            final(self).follows(old(self)),
            outcome(r, old(self).tokens@, final(self).position as int, add_at(old(self).kinds(), old(self).position as int)),
            r is Ok ==> old(self).position < final(self).position,
    {
        self.expect_simple(TokenKind::Add)?;
        let value = self.parse_expression()?;
        self.expect_simple(TokenKind::To)?;
        let list = self.expect_identifier("Expected a list name after 'to'")?;
        self.finish_statement()?;
        Ok(Statement::AddToList { value, list })
    }

    fn parse_function(&mut self) -> (r: Result<Statement, ParserError>)
        requires
            old(self).wf(),
        ensures
            final(self).follows(old(self)),
            outcome(r, old(self).tokens@, final(self).position as int, function_at(old(self).kinds(), old(self).position as int)),
            r is Ok ==> old(self).position < final(self).position,
        decreases old(self).tokens@.len() - old(self).position, 3nat,
    {
        let ghost ts = self.tokens@;
        let ghost ks = self.kinds();
        let ghost p0 = self.position as int;
        self.expect_simple(TokenKind::Function)?;
        let name = self.function_name()?;
        self.expect_simple(TokenKind::LeftParen)?;
        let parameters = self.parse_parameters()?;
        self.expect_simple(TokenKind::RightParen)?;
        let body = self.parse_brace_block()?;
        Ok(Statement::Function { name, parameters, body })
    }

    /// The parameter names of a function, up to its `)`.
    fn parse_parameters(&mut self) -> (r: Result<Vec<String>, ParserError>)
        requires
            old(self).wf(),
        ensures
            final(self).follows(old(self)),
            names_outcome(r, old(self).tokens@, final(self).position as int, (if at_kind(old(self).kinds(), old(self).position as int, TokenKindModel::RightParen) {
                Ok((Seq::empty(), old(self).position as int))
            } else {
                parameters_from(old(self).kinds(), old(self).position as int, Seq::empty())
            })),
    {
        let ghost ts = self.tokens@;
        let ghost ks = self.kinds();
        let ghost p0 = self.position as int;
        let mut parameters: Vec<String> = Vec::new();
        assert(names_model(parameters@) =~= Seq::<Seq<char>>::empty());
        if !self.check(&TokenKind::RightParen) {
            loop
                invariant_except_break
                    parameters_from(ks, p0, Seq::empty()) == parameters_from(ks, self.position as int, names_model(parameters@)),
                invariant
                    self.wf(),
                    self.tokens@ == ts,
                    ts == old(self).tokens@,
                    p0 == old(self).position,
                    ks == kinds_of(ts),
                    p0 <= self.position,
                    !at_kind(ks, p0, TokenKindModel::RightParen),
                ensures
                    parameters_from(ks, p0, Seq::empty()) == Ok::<(Seq<Seq<char>>, int), ParseFailure>((names_model(parameters@), self.position as int)),
                decreases ts.len() - self.position,
            {
                let parameter = self.expect_identifier("Expected a parameter name")?;
                proof {
                    lemma_names_model_push(parameters@, parameter);
                }
                parameters.push(parameter);
                if !self.match_simple(TokenKind::Comma) {
                    break;
                }
            }
        }
        Ok(parameters)
    }

    fn parse_give(&mut self) -> (r: Result<Statement, ParserError>)
        requires
            old(self).wf(),
        ensures
            final(self).follows(old(self)),
            outcome(r, old(self).tokens@, final(self).position as int, give_at(old(self).kinds(), old(self).position as int)),
            r is Ok ==> old(self).position < final(self).position,
    {
        self.expect_simple(TokenKind::Give)?;
        let value = self.parse_expression()?;
        self.finish_statement()?;
        Ok(Statement::Give(value))
    }

    fn parse_loop(&mut self) -> (r: Result<Statement, ParserError>)
        requires
            old(self).wf(),
        ensures
            final(self).follows(old(self)),
            outcome(r, old(self).tokens@, final(self).position as int, loop_at(old(self).kinds(), old(self).position as int)),
            r is Ok ==> old(self).position < final(self).position,
        decreases old(self).tokens@.len() - old(self).position, 3nat,
    {
        let ghost ts = self.tokens@;
        let ghost ks = self.kinds();
        let ghost p0 = self.position as int;
        self.expect_simple(TokenKind::Loop)?;
        // A loop is named by an identifier.
        let name = self.expect_identifier("Expected a named loop identifier after 'loop'")?;
        // Loops use square brackets only.
        self.expect_simple(TokenKind::LeftBracket)?;
        self.skip_separators();
        let mut body: Vec<Statement> = Vec::new();
        assert(statements_model(body@) =~= Seq::<StatementModel>::empty());
        loop
            invariant
                self.wf(),
                self.tokens@ == ts,
                ts == old(self).tokens@,
                p0 == old(self).position,
                ks == kinds_of(ts),
                p0 < self.position,
                loop_at(ks, p0) == loop_items(ks, self.position as int, name@, statements_model(body@)),
            ensures
                self.wf(),
                self.tokens@ == ts,
                p0 < self.position,
                at_kind(ks, self.position as int, TokenKindModel::RightBracket) || at_kind(ks, self.position as int, TokenKindModel::Eof),
                loop_at(ks, p0) == loop_items(ks, self.position as int, name@, statements_model(body@)),
            decreases ts.len() - self.position,
        {
            if self.check(&TokenKind::RightBracket) || self.check(&TokenKind::Eof) {
                break;
            }
            let st = self.parse_statement()?;
            proof {
                lemma_statements_model_push(body@, st);
            }
            body.push(st);
            self.skip_separators();
        }
        if self.check(&TokenKind::Eof) {
            let mut message = String::from_str("Loop '");
            message.append(name.as_str());
            message.append("' is missing a closing ']'");
            return Err(self.error_at(self.peek(), message));
        }
        self.expect_simple(TokenKind::RightBracket)?;
        Ok(Statement::Loop { name, body })
    }

    fn parse_restart(&mut self) -> (r: Result<Statement, ParserError>)
        requires
            old(self).wf(),
        ensures
            final(self).follows(old(self)),
            outcome(r, old(self).tokens@, final(self).position as int, restart_at(old(self).kinds(), old(self).position as int)),
            r is Ok ==> old(self).position < final(self).position,
    {
        self.expect_simple(TokenKind::Restart)?;
        let name = self.expect_identifier("Expected a loop name after 'restart'")?;
        self.finish_statement()?;
        Ok(Statement::Restart(name))
    }

    fn parse_end(&mut self) -> (r: Result<Statement, ParserError>)
        requires
            old(self).wf(),
        ensures
            final(self).follows(old(self)),
            outcome(r, old(self).tokens@, final(self).position as int, end_at(old(self).kinds(), old(self).position as int)),
            r is Ok ==> old(self).position < final(self).position,
    {
        self.expect_simple(TokenKind::End)?;
        let name = self.expect_identifier("Expected a loop name after 'end'")?;
        self.finish_statement()?;
        Ok(Statement::End(name))
    }

    fn parse_save(&mut self) -> (r: Result<Statement, ParserError>)
        requires
            old(self).wf(),
        ensures
            final(self).follows(old(self)),
            outcome(r, old(self).tokens@, final(self).position as int, save_at(old(self).kinds(), old(self).position as int)),
            r is Ok ==> old(self).position < final(self).position,
    {
        self.expect_simple(TokenKind::Save)?;
        let variable = self.expect_identifier("Expected a variable name after 'save'")?;
        self.expect_simple(TokenKind::To)?;
        let path = self.parse_expression()?;
        self.finish_statement()?;
        Ok(Statement::Save { variable, path })
    }

    fn parse_identifier_statement(&mut self) -> (r: Result<Statement, ParserError>)
        requires
            old(self).wf(),
            old(self).tokens@[old(self).position as int].kind is Identifier,
        ensures
            final(self).follows(old(self)),
            outcome(r, old(self).tokens@, final(self).position as int, identifier_statement_at(old(self).kinds(), old(self).position as int)),
            r is Ok ==> old(self).position < final(self).position,
    {
        if self.peek_next_is(&TokenKind::Equals) {
            let name = self.expect_identifier("Expected a variable name")?;
            self.expect_simple(TokenKind::Equals)?;
            let value = self.parse_expression()?;
            self.finish_statement()?;
            return Ok(Statement::Assign { name, value });
        }
        let expression = self.parse_expression()?;
        self.finish_statement()?;
        Ok(Statement::Expression(expression))
    }

    fn parse_control_body(&mut self) -> (r: Result<Vec<Statement>, ParserError>)
        requires
            old(self).wf(),
        ensures
            final(self).follows(old(self)),
            statements_outcome(r, old(self).tokens@, final(self).position as int, control_body_at(old(self).kinds(), old(self).position as int)),
            r is Ok ==> old(self).position < final(self).position,
        decreases old(self).tokens@.len() - old(self).position, 3nat,
    {
        if self.match_simple(TokenKind::Colon) {
            self.skip_separators();
            let st = self.parse_statement()?;
            let body = vec![st];
            proof {
                lemma_statements_model_push(Seq::empty(), st);
                assert(body@ =~= Seq::<Statement>::empty().push(st));
            }
            return Ok(body);
        }
        self.parse_brace_block()
    }

    fn parse_brace_block(&mut self) -> (r: Result<Vec<Statement>, ParserError>)
        requires
            old(self).wf(),
        ensures
            final(self).follows(old(self)),
            statements_outcome(r, old(self).tokens@, final(self).position as int, brace_block_at(old(self).kinds(), old(self).position as int)),
            r is Ok ==> old(self).position < final(self).position,
        decreases old(self).tokens@.len() - old(self).position, 2nat,
    {
        let ghost ts = self.tokens@;
        let ghost ks = self.kinds();
        let ghost p0 = self.position as int;
        self.expect_simple(TokenKind::LeftBrace)?;
        self.skip_separators();
        let mut statements: Vec<Statement> = Vec::new();
        assert(statements_model(statements@) =~= Seq::<StatementModel>::empty());
        loop
            invariant
                self.wf(),
                self.tokens@ == ts,
                ts == old(self).tokens@,
                p0 == old(self).position,
                ks == kinds_of(ts),
                p0 < self.position,
                brace_block_at(ks, p0) == block_items(ks, self.position as int, statements_model(statements@)),
            ensures
                self.wf(),
                self.tokens@ == ts,
                p0 < self.position,
                at_kind(ks, self.position as int, TokenKindModel::RightBrace) || at_kind(ks, self.position as int, TokenKindModel::Eof),
                brace_block_at(ks, p0) == block_items(ks, self.position as int, statements_model(statements@)),
            decreases ts.len() - self.position,
        {
            if self.check(&TokenKind::RightBrace) || self.check(&TokenKind::Eof) {
                break;
            }
            let st = self.parse_statement()?;
            proof {
                lemma_statements_model_push(statements@, st);
            }
            statements.push(st);
            self.skip_separators();
        }
        if self.check(&TokenKind::Eof) {
            return Err(self.error_at(self.peek(), String::from_str("Block is missing a closing '}'")));
        }
        self.expect_simple(TokenKind::RightBrace)?;
        Ok(statements)
    }

    fn parse_type_name(&mut self) -> (r: Result<TypeName, ParserError>)
        requires
            old(self).wf(),
        ensures
            final(self).follows(old(self)),
            outcome(r, old(self).tokens@, final(self).position as int, type_name_at(old(self).kinds(), old(self).position as int)),
    {
        match self.peek_kind() {
            TokenKind::Text => {
                self.advance();
                Ok(TypeName::Text)
            },
            TokenKind::NumberType => {
                self.advance();
                Ok(TypeName::Number)
            },
            TokenKind::Boolean => {
                self.advance();
                Ok(TypeName::Boolean)
            },
            _ => Err(self.error_at(self.peek(), String::from_str("Expected 'text', 'number', or 'boolean'"))),
        }
    }

    fn function_name(&mut self) -> (r: Result<String, ParserError>)
        requires
            old(self).wf(),
        ensures
            final(self).follows(old(self)),
            outcome(r, old(self).tokens@, final(self).position as int, function_name(old(self).kinds(), old(self).position as int)),
    {
        if self.check(&TokenKind::Add) {
            self.advance();
            Ok(String::from_str("add"))
        } else {
            self.expect_identifier("Expected a function name")
        }
    }

    fn expect_identifier(&mut self, message: &str) -> (r: Result<String, ParserError>)
        requires
            old(self).wf(),
        ensures
            final(self).follows(old(self)),
            outcome(r, old(self).tokens@, final(self).position as int, expect_identifier(old(self).kinds(), old(self).position as int, message@)),
    {
        match self.peek_kind() {
            TokenKind::Identifier(name) => {
                let name = name.clone();
                self.advance();
                Ok(name)
            },
            _ => Err(self.error_at(self.peek(), String::from_str(message))),
        }
    }

    fn finish_statement(&mut self) -> (r: Result<(), ParserError>)
        requires
            old(self).wf(),
        ensures
            final(self).follows(old(self)),
            step_outcome(r, old(self).tokens@, final(self).position as int, finish_statement(old(self).kinds(), old(self).position as int)),
    {
        if self.match_simple(TokenKind::Semicolon) {
            return Ok(());
        }
        if self.check(&TokenKind::Newline) || self.check(&TokenKind::RightBrace) || self.check(&TokenKind::RightBracket)
            || self.check(&TokenKind::Eof) {
            return Ok(());
        }
        Err(self.error_at(self.peek(), String::from_str("Expected the end of the statement")))
    }

    // -----------------------------------------------------------------------
    // Tokens
    // -----------------------------------------------------------------------

    fn skip_separators(&mut self)
        requires
            old(self).wf(),
        ensures
            final(self).follows(old(self)),
            final(self).position == skip_separators(old(self).kinds(), old(self).position as int),
    {
        let ghost ks = self.kinds();
        let ghost p0 = self.position as int;
        loop
            invariant
                self.wf(),
                self.tokens@ == old(self).tokens@,
                ks == kinds_of(self.tokens@),
                p0 <= self.position,
                skip_separators(ks, p0) == skip_separators(ks, self.position as int),
            ensures
                skip_separators(ks, p0) == self.position,
            decreases self.tokens@.len() - self.position,
        {
            if !(self.check(&TokenKind::Newline) || self.check(&TokenKind::Semicolon)) {
                break;
            }
            self.advance();
        }
    }

    fn expect_simple(&mut self, expected: TokenKind) -> (r: Result<(), ParserError>)
        requires
            old(self).wf(),
            is_simple(expected@),
            !(expected@ is Eof),
        ensures
            final(self).follows(old(self)),
            step_outcome(r, old(self).tokens@, final(self).position as int, expect(old(self).kinds(), old(self).position as int, expected@)),
    {
        if self.check(&expected) {
            self.advance();
            Ok(())
        } else {
            let mut message = String::from_str("Expected ");
            message.append(describe_kind(&expected).as_str());
            message.append(", found ");
            message.append(describe_kind(self.peek_kind()).as_str());
            Err(self.error_at(self.peek(), message))
        }
    }

    fn match_simple(&mut self, expected: TokenKind) -> (r: bool)
        requires
            old(self).wf(),
            is_simple(expected@),
            !(expected@ is Eof),
        ensures
            final(self).follows(old(self)),
            r == at_kind(old(self).kinds(), old(self).position as int, expected@),
            final(self).position == skip_kind(old(self).kinds(), old(self).position as int, expected@),
    {
        if self.check(&expected) {
            self.advance();
            true
        } else {
            false
        }
    }

    fn check(&self, expected: &TokenKind) -> (r: bool)
        requires
            self.wf(),
            is_simple(expected@),
        ensures
            r == at_kind(self.kinds(), self.position as int, expected@),
            r && !(expected@ is Eof) ==> self.position + 1 < self.tokens@.len(),
    {
        let r = same_variant(self.peek_kind(), expected);
        proof {
            lemma_same_variant_simple(kind_at(self.kinds(), self.position as int), expected@);
        }
        r
    }

    fn peek_next_is(&self, expected: &TokenKind) -> (r: bool)
        requires
            self.wf(),
            is_simple(expected@),
        ensures
            r == (self.position + 1 < self.tokens@.len() && at_kind(self.kinds(), self.position + 1, expected@)),
    {
        if self.tokens.len() - self.position <= 1 {
            return false;
        }
        let r = same_variant(&self.tokens[self.position + 1].kind, expected);
        proof {
            lemma_same_variant_simple(kind_at(self.kinds(), self.position + 1), expected@);
        }
        r
    }

    fn peek(&self) -> (t: &Token)
        requires
            self.wf(),
        ensures
            *t == self.tokens@[self.position as int],
    {
        &self.tokens[self.position]
    }

    fn peek_kind(&self) -> (k: &TokenKind)
        requires
            self.wf(),
        ensures
            *k == self.tokens@[self.position as int].kind,
            k@ == kind_at(self.kinds(), self.position as int),
    {
        &self.peek().kind
    }

    /// Moves to the next token; the last token, `Eof`, is never left.
    fn advance(&mut self)
        requires
            old(self).wf(),
        ensures
            final(self).follows(old(self)),
            final(self).position == (if old(self).position + 1 < old(self).tokens@.len() {
                old(self).position + 1
            } else {
                old(self).position as int
            }),
    {
        if self.position < self.tokens.len() - 1 {
            self.position = self.position + 1;
        }
    }

    fn error_at(&self, token: &Token, message: String) -> (e: ParserError)
        ensures
            e.message@ == message@,
            e.line == token.line,
            e.column == token.column,
    {
        ParserError { message, line: token.line, column: token.column }
    }
}


// ---------------------------------------------------------------------------
// Laws
/// `get name as <type> = ...` reads its answer as the type it names: `as boolean` gives a
/// boolean, `as number` a number, `as text` text, and without `as` the answer is text. Any
/// other word after `as` is an error.
pub proof fn law_get_reads_the_named_type(ks: Seq<TokenKindModel>, p: int, name: Seq<char>)
    requires
        kind_at(ks, p) == TokenKindModel::Get,
        kind_at(ks, p + 1) == TokenKindModel::Identifier(name),
    ensures
        at_kind(ks, p + 2, TokenKindModel::As) && at_kind(ks, p + 3, TokenKindModel::Boolean) ==> (
            statement_at(ks, p) matches Ok((st, _)) ==> st matches StatementModel::Get { name: n, input_type, .. }
                && n == name && input_type == TypeName::Boolean),
        at_kind(ks, p + 2, TokenKindModel::As) && at_kind(ks, p + 3, TokenKindModel::NumberType) ==> (
            statement_at(ks, p) matches Ok((st, _)) ==> st matches StatementModel::Get { name: n, input_type, .. }
                && n == name && input_type == TypeName::Number),
        at_kind(ks, p + 2, TokenKindModel::As) && at_kind(ks, p + 3, TokenKindModel::Text) ==> (
            statement_at(ks, p) matches Ok((st, _)) ==> st matches StatementModel::Get { name: n, input_type, .. }
                && n == name && input_type == TypeName::Text),
        !at_kind(ks, p + 2, TokenKindModel::As) ==> (statement_at(ks, p) matches Ok((st, _))
            ==> st matches StatementModel::Get { name: n, input_type, .. } && n == name && input_type == TypeName::Text),
        at_kind(ks, p + 2, TokenKindModel::As) && !at_kind(ks, p + 3, TokenKindModel::Boolean)
            && !at_kind(ks, p + 3, TokenKindModel::NumberType) && !at_kind(ks, p + 3, TokenKindModel::Text)
            ==> statement_at(ks, p) is Err,
{
}

/// `and` binds tighter than `or`: for any three comparisons A, B and C, `A and B or C` is
/// `(A and B) or C`, and `A or B and C` is `A or (B and C)`.
pub proof fn law_and_binds_tighter_than_or(
    ks: Seq<TokenKindModel>,
    p: int,
    a: ExprModel,
    p1: int,
    b: ExprModel,
    p2: int,
    c: ExprModel,
    p3: int,
)
    requires
        0 <= p < p1 < p2 < p3 <= ks.len(),
        comparison_at(ks, p) == Ok::<(ExprModel, int), ParseFailure>((a, p1)),
        comparison_at(ks, p1 + 1) == Ok::<(ExprModel, int), ParseFailure>((b, p2)),
        comparison_at(ks, p2 + 1) == Ok::<(ExprModel, int), ParseFailure>((c, p3)),
        !at_kind(ks, p3, TokenKindModel::And),
        !at_kind(ks, p3, TokenKindModel::Or),
    ensures
        at_kind(ks, p1, TokenKindModel::And) && at_kind(ks, p2, TokenKindModel::Or) ==> expression_at(ks, p)
            == Ok::<(ExprModel, int), ParseFailure>((
            binary(binary(a, BinaryOperator::And, b), BinaryOperator::Or, c),
            p3,
        )),
        at_kind(ks, p1, TokenKindModel::Or) && at_kind(ks, p2, TokenKindModel::And) ==> expression_at(ks, p)
            == Ok::<(ExprModel, int), ParseFailure>((
            binary(a, BinaryOperator::Or, binary(b, BinaryOperator::And, c)),
            p3,
        )),
{
    if at_kind(ks, p1, TokenKindModel::And) && at_kind(ks, p2, TokenKindModel::Or) {
        let ab = binary(a, BinaryOperator::And, b);
        assert(and_rest(ks, p2, ab) == Ok::<(ExprModel, int), ParseFailure>((ab, p2)));
        assert(and_rest(ks, p1, a) == Ok::<(ExprModel, int), ParseFailure>((ab, p2)));
        assert(and_at(ks, p) == Ok::<(ExprModel, int), ParseFailure>((ab, p2)));
        assert(and_rest(ks, p3, c) == Ok::<(ExprModel, int), ParseFailure>((c, p3)));
        assert(and_at(ks, p2 + 1) == Ok::<(ExprModel, int), ParseFailure>((c, p3)));
        let abc = binary(ab, BinaryOperator::Or, c);
        assert(or_rest(ks, p3, abc) == Ok::<(ExprModel, int), ParseFailure>((abc, p3)));
        assert(or_rest(ks, p2, ab) == Ok::<(ExprModel, int), ParseFailure>((abc, p3)));
    }
    if at_kind(ks, p1, TokenKindModel::Or) && at_kind(ks, p2, TokenKindModel::And) {
        assert(and_rest(ks, p1, a) == Ok::<(ExprModel, int), ParseFailure>((a, p1)));
        assert(and_at(ks, p) == Ok::<(ExprModel, int), ParseFailure>((a, p1)));
        let bc = binary(b, BinaryOperator::And, c);
        assert(and_rest(ks, p3, bc) == Ok::<(ExprModel, int), ParseFailure>((bc, p3)));
        assert(and_rest(ks, p2, b) == Ok::<(ExprModel, int), ParseFailure>((bc, p3)));
        assert(and_at(ks, p1 + 1) == Ok::<(ExprModel, int), ParseFailure>((bc, p3)));
        let abc = binary(a, BinaryOperator::Or, bc);
        assert(or_rest(ks, p3, abc) == Ok::<(ExprModel, int), ParseFailure>((abc, p3)));
        assert(or_rest(ks, p1, a) == Ok::<(ExprModel, int), ParseFailure>((abc, p3)));
    }
}

/// `*` binds tighter than `+`: for any three operands A, B and C (each a prefix expression),
/// `A + B * C` is `A + (B * C)` and `A * B + C` is `(A * B) + C`.
pub proof fn law_multiplication_binds_tighter_than_addition(
    ks: Seq<TokenKindModel>,
    p: int,
    a: ExprModel,
    p1: int,
    b: ExprModel,
    p2: int,
    c: ExprModel,
    p3: int,
)
    requires
        0 <= p < p1 < p2 < p3 <= ks.len(),
        unary_at(ks, p) == Ok::<(ExprModel, int), ParseFailure>((a, p1)),
        unary_at(ks, p1 + 1) == Ok::<(ExprModel, int), ParseFailure>((b, p2)),
        unary_at(ks, p2 + 1) == Ok::<(ExprModel, int), ParseFailure>((c, p3)),
        !at_kind(ks, p3, TokenKindModel::Plus),
        !at_kind(ks, p3, TokenKindModel::Minus),
        !at_kind(ks, p3, TokenKindModel::Star),
        !at_kind(ks, p3, TokenKindModel::Slash),
        !at_kind(ks, p3, TokenKindModel::Percent),
    ensures
        at_kind(ks, p1, TokenKindModel::Plus) && at_kind(ks, p2, TokenKindModel::Star) ==> term_at(ks, p)
            == Ok::<(ExprModel, int), ParseFailure>((
            binary(a, BinaryOperator::Add, binary(b, BinaryOperator::Multiply, c)),
            p3,
        )),
        at_kind(ks, p1, TokenKindModel::Star) && at_kind(ks, p2, TokenKindModel::Plus) ==> term_at(ks, p)
            == Ok::<(ExprModel, int), ParseFailure>((
            binary(binary(a, BinaryOperator::Multiply, b), BinaryOperator::Add, c),
            p3,
        )),
{
    if at_kind(ks, p1, TokenKindModel::Plus) && at_kind(ks, p2, TokenKindModel::Star) {
        assert(factor_rest(ks, p1, a) == Ok::<(ExprModel, int), ParseFailure>((a, p1)));
        assert(factor_at(ks, p) == Ok::<(ExprModel, int), ParseFailure>((a, p1)));
        let bc = binary(b, BinaryOperator::Multiply, c);
        assert(factor_rest(ks, p3, bc) == Ok::<(ExprModel, int), ParseFailure>((bc, p3)));
        assert(factor_rest(ks, p2, b) == Ok::<(ExprModel, int), ParseFailure>((bc, p3)));
        assert(factor_at(ks, p1 + 1) == Ok::<(ExprModel, int), ParseFailure>((bc, p3)));
        let abc = binary(a, BinaryOperator::Add, bc);
        assert(term_rest(ks, p3, abc) == Ok::<(ExprModel, int), ParseFailure>((abc, p3)));
        assert(term_rest(ks, p1, a) == Ok::<(ExprModel, int), ParseFailure>((abc, p3)));
    }
    if at_kind(ks, p1, TokenKindModel::Star) && at_kind(ks, p2, TokenKindModel::Plus) {
        let ab = binary(a, BinaryOperator::Multiply, b);
        assert(factor_rest(ks, p2, ab) == Ok::<(ExprModel, int), ParseFailure>((ab, p2)));
        assert(factor_rest(ks, p1, a) == Ok::<(ExprModel, int), ParseFailure>((ab, p2)));
        assert(factor_at(ks, p) == Ok::<(ExprModel, int), ParseFailure>((ab, p2)));
        assert(factor_rest(ks, p3, c) == Ok::<(ExprModel, int), ParseFailure>((c, p3)));
        assert(factor_at(ks, p2 + 1) == Ok::<(ExprModel, int), ParseFailure>((c, p3)));
        let abc = binary(ab, BinaryOperator::Add, c);
        assert(term_rest(ks, p3, abc) == Ok::<(ExprModel, int), ParseFailure>((abc, p3)));
        assert(term_rest(ks, p2, ab) == Ok::<(ExprModel, int), ParseFailure>((abc, p3)));
    }
}

/// Subtraction groups to the left: for any three operands A, B and C (each a product),
/// `A - B - C` is `(A - B) - C`.
pub proof fn law_subtraction_groups_to_the_left(
    ks: Seq<TokenKindModel>,
    p: int,
    a: ExprModel,
    p1: int,
    b: ExprModel,
    p2: int,
    c: ExprModel,
    p3: int,
)
    requires
        0 <= p < p1 < p2 < p3 <= ks.len(),
        factor_at(ks, p) == Ok::<(ExprModel, int), ParseFailure>((a, p1)),
        factor_at(ks, p1 + 1) == Ok::<(ExprModel, int), ParseFailure>((b, p2)),
        factor_at(ks, p2 + 1) == Ok::<(ExprModel, int), ParseFailure>((c, p3)),
        at_kind(ks, p1, TokenKindModel::Minus),
        at_kind(ks, p2, TokenKindModel::Minus),
        !at_kind(ks, p3, TokenKindModel::Plus),
        !at_kind(ks, p3, TokenKindModel::Minus),
    ensures
        term_at(ks, p) == Ok::<(ExprModel, int), ParseFailure>((
            binary(binary(a, BinaryOperator::Subtract, b), BinaryOperator::Subtract, c),
            p3,
        )),
{
    let ab = binary(a, BinaryOperator::Subtract, b);
    let abc = binary(ab, BinaryOperator::Subtract, c);
    assert(term_rest(ks, p3, abc) == Ok::<(ExprModel, int), ParseFailure>((abc, p3)));
    assert(term_rest(ks, p2, ab) == Ok::<(ExprModel, int), ParseFailure>((abc, p3)));
    assert(term_rest(ks, p1, a) == Ok::<(ExprModel, int), ParseFailure>((abc, p3)));
}

/// Comparisons bind tighter than `and`: for any three sums A, B and C, `A == B and C` is
/// `(A == B) and C`, and `A and B == C` is `A and (B == C)`.
pub proof fn law_comparison_binds_tighter_than_and(
    ks: Seq<TokenKindModel>,
    p: int,
    a: ExprModel,
    p1: int,
    b: ExprModel,
    p2: int,
    c: ExprModel,
    p3: int,
)
    requires
        0 <= p < p1 < p2 < p3 <= ks.len(),
        term_at(ks, p) == Ok::<(ExprModel, int), ParseFailure>((a, p1)),
        term_at(ks, p1 + 1) == Ok::<(ExprModel, int), ParseFailure>((b, p2)),
        term_at(ks, p2 + 1) == Ok::<(ExprModel, int), ParseFailure>((c, p3)),
        !at_kind(ks, p3, TokenKindModel::And),
        !at_kind(ks, p3, TokenKindModel::EqualEqual),
        !at_kind(ks, p3, TokenKindModel::NotEqual),
        !at_kind(ks, p3, TokenKindModel::Greater),
        !at_kind(ks, p3, TokenKindModel::Less),
        !at_kind(ks, p3, TokenKindModel::GreaterEqual),
        !at_kind(ks, p3, TokenKindModel::LessEqual),
    ensures
        at_kind(ks, p1, TokenKindModel::EqualEqual) && at_kind(ks, p2, TokenKindModel::And) ==> and_at(ks, p)
            == Ok::<(ExprModel, int), ParseFailure>((
            binary(binary(a, BinaryOperator::Equal, b), BinaryOperator::And, c),
            p3,
        )),
        at_kind(ks, p1, TokenKindModel::And) && at_kind(ks, p2, TokenKindModel::EqualEqual) ==> and_at(ks, p)
            == Ok::<(ExprModel, int), ParseFailure>((
            binary(a, BinaryOperator::And, binary(b, BinaryOperator::Equal, c)),
            p3,
        )),
{
    if at_kind(ks, p1, TokenKindModel::EqualEqual) && at_kind(ks, p2, TokenKindModel::And) {
        let ab = binary(a, BinaryOperator::Equal, b);
        assert(comparison_rest(ks, p2, ab) == Ok::<(ExprModel, int), ParseFailure>((ab, p2)));
        assert(comparison_rest(ks, p1, a) == Ok::<(ExprModel, int), ParseFailure>((ab, p2)));
        assert(comparison_at(ks, p) == Ok::<(ExprModel, int), ParseFailure>((ab, p2)));
        assert(comparison_rest(ks, p3, c) == Ok::<(ExprModel, int), ParseFailure>((c, p3)));
        assert(comparison_at(ks, p2 + 1) == Ok::<(ExprModel, int), ParseFailure>((c, p3)));
        let abc = binary(ab, BinaryOperator::And, c);
        assert(and_rest(ks, p3, abc) == Ok::<(ExprModel, int), ParseFailure>((abc, p3)));
        assert(and_rest(ks, p2, ab) == Ok::<(ExprModel, int), ParseFailure>((abc, p3)));
    }
    if at_kind(ks, p1, TokenKindModel::And) && at_kind(ks, p2, TokenKindModel::EqualEqual) {
        assert(comparison_rest(ks, p1, a) == Ok::<(ExprModel, int), ParseFailure>((a, p1)));
        assert(comparison_at(ks, p) == Ok::<(ExprModel, int), ParseFailure>((a, p1)));
        let bc = binary(b, BinaryOperator::Equal, c);
        assert(comparison_rest(ks, p3, bc) == Ok::<(ExprModel, int), ParseFailure>((bc, p3)));
        assert(comparison_rest(ks, p2, b) == Ok::<(ExprModel, int), ParseFailure>((bc, p3)));
        assert(comparison_at(ks, p1 + 1) == Ok::<(ExprModel, int), ParseFailure>((bc, p3)));
        let abc = binary(a, BinaryOperator::And, bc);
        assert(and_rest(ks, p3, abc) == Ok::<(ExprModel, int), ParseFailure>((abc, p3)));
        assert(and_rest(ks, p1, a) == Ok::<(ExprModel, int), ParseFailure>((abc, p3)));
    }
}

/// A statement ends at a `;` (which it takes), or just before a newline, a `}` or `]` that
/// closes its block or loop, or the end of the tokens; anything else there is an error.
pub proof fn law_statement_endings(ks: Seq<TokenKindModel>, p: int)
    ensures
        at_kind(ks, p, TokenKindModel::Semicolon) ==> finish_statement(ks, p) == Ok::<int, ParseFailure>(p + 1),
        at_kind(ks, p, TokenKindModel::Newline) || at_kind(ks, p, TokenKindModel::RightBrace) || at_kind(
            ks,
            p,
            TokenKindModel::RightBracket,
        ) || at_kind(ks, p, TokenKindModel::Eof) ==> finish_statement(ks, p) == Ok::<int, ParseFailure>(p),
        !at_kind(ks, p, TokenKindModel::Semicolon) && !at_kind(ks, p, TokenKindModel::Newline) && !at_kind(
            ks,
            p,
            TokenKindModel::RightBrace,
        ) && !at_kind(ks, p, TokenKindModel::RightBracket) && !at_kind(ks, p, TokenKindModel::Eof)
            ==> finish_statement(ks, p) is Err,
{
}

/// A statement may be closed by the `}` of its block on the same line: `{ write(E) }` is the
/// block of that one statement.
#[verifier::spinoff_prover]
#[verifier::rlimit(40)]
pub proof fn law_block_closed_on_one_line(ks: Seq<TokenKindModel>, p: int, e: ExprModel, q: int)
    requires
        p + 3 <= q < ks.len(),
        at_kind(ks, p, TokenKindModel::LeftBrace),
        at_kind(ks, p + 1, TokenKindModel::Write),
        at_kind(ks, p + 2, TokenKindModel::LeftParen),
        expression_at(ks, p + 3) == Ok::<(ExprModel, int), ParseFailure>((e, q)),
        at_kind(ks, q, TokenKindModel::RightParen),
        at_kind(ks, q + 1, TokenKindModel::RightBrace),
    ensures
        brace_block_at(ks, p) == Ok::<(Seq<StatementModel>, int), ParseFailure>(
            (seq![StatementModel::Write(e)], q + 2),
        ),
{
    assert(skip_separators(ks, p + 1) == p + 1);
    let st = StatementModel::Write(e);
    assert(finish_statement(ks, q + 1) == Ok::<int, ParseFailure>(q + 1));
    assert(write_at(ks, p + 1) == Ok::<(StatementModel, int), ParseFailure>((st, q + 1)));
    assert(statement_at(ks, p + 1) == Ok::<(StatementModel, int), ParseFailure>((st, q + 1)));
    assert(skip_separators(ks, q + 1) == q + 1);
    assert(Seq::<StatementModel>::empty().push(st) =~= seq![st]);
    assert(block_items(ks, q + 1, seq![st]) == Ok::<(Seq<StatementModel>, int), ParseFailure>((seq![st], q + 2)));
    assert(block_items(ks, p + 1, Seq::empty()) == Ok::<(Seq<StatementModel>, int), ParseFailure>((seq![st], q + 2)));
}

/// An assignment may be closed by the `}` of its block on the same line: `{ name = E }` is the
/// block of that one statement.
#[verifier::spinoff_prover]
#[verifier::rlimit(40)]
pub proof fn law_assignment_closed_by_brace(ks: Seq<TokenKindModel>, p: int, e: ExprModel, q: int, name: Seq<char>)
    requires
        p + 3 <= q < ks.len(),
        at_kind(ks, p, TokenKindModel::LeftBrace),
        at_kind(ks, p + 1, TokenKindModel::Identifier(name)),
        at_kind(ks, p + 2, TokenKindModel::Equals),
        expression_at(ks, p + 3) == Ok::<(ExprModel, int), ParseFailure>((e, q)),
        at_kind(ks, q, TokenKindModel::RightBrace),
    ensures
        brace_block_at(ks, p) == Ok::<(Seq<StatementModel>, int), ParseFailure>(
            (seq![StatementModel::Assign { name, value: e }], q + 1),
        ),
{
    assert(skip_separators(ks, p + 1) == p + 1);
    let st = StatementModel::Assign { name, value: e };
    assert(finish_statement(ks, q) == Ok::<int, ParseFailure>(q));
    assert(identifier_statement_at(ks, p + 1) == Ok::<(StatementModel, int), ParseFailure>((st, q)));
    assert(statement_at(ks, p + 1) == Ok::<(StatementModel, int), ParseFailure>((st, q)));
    assert(skip_separators(ks, q) == q);
    assert(Seq::<StatementModel>::empty().push(st) =~= seq![st]);
    assert(block_items(ks, q, seq![st]) == Ok::<(Seq<StatementModel>, int), ParseFailure>((seq![st], q + 1)));
    assert(block_items(ks, p + 1, Seq::empty()) == Ok::<(Seq<StatementModel>, int), ParseFailure>((seq![st], q + 1)));
}

// ---------------------------------------------------------------------------

/// What the lexer produces, the parser accepts: a successful run of the lexer yields tokens that
/// end with `Eof`, which is what `Parser::parse` asks for.
pub proof fn law_lexer_output_fits_parser(s: Seq<char>, ts: Seq<Token>)
    requires
        tokenize_model(s) == Ok::<Seq<TokenModel>, LexErrorModel>(tokens_model(ts)),
    ensures
        ends_with_eof(ts),
{
    lemma_lex_ends_with_eof(s, 0);
    assert(tokens_model(ts).len() == ts.len());
    if ts.len() > 0 {
        assert(tokens_model(ts).last() == ts.last()@);
    }
}

proof fn lemma_statements_end_at_eof(ks: Seq<TokenKindModel>, p: int, done: Seq<StatementModel>)
    ensures
        statements_from(ks, p, done) matches Ok((_, q)) ==> at_kind(ks, q, TokenKindModel::Eof),
    decreases ks.len() - p,
{
    if !at_kind(ks, p, TokenKindModel::Eof) {
        match statement_at(ks, p) {
            Ok((st, q)) => {
                lemma_skip_separators(ks, beyond(ks, p, q));
                lemma_statements_end_at_eof(ks, skip_separators(ks, beyond(ks, p, q)), done.push(st));
            },
            Err(_) => {},
        }
    }
}

/// A program is read to its end: a successful parse stops at an `Eof` token. With the tokens of
/// the lexer, whose only `Eof` is the last token, no token is left unread.
pub proof fn law_parse_reads_to_end(ks: Seq<TokenKindModel>, p: int)
    ensures
        program_from(ks, p) matches Ok((_, q)) ==> at_kind(ks, q, TokenKindModel::Eof),
{
    lemma_statements_end_at_eof(ks, skip_separators(ks, p), Seq::empty());
}

} // verus!
