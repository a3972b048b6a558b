//! The parser: from tokens to statements, by recursive descent with one
//! token of lookahead.
//!
//! The grammar is defined by the functions [`statement_at`],
//! [`expression_at`] and the like, each of which reads the tokens from a
//! position on and says what it parsed and how many tokens it consumed.
//! Parsing never fails: a statement that cannot be parsed is left out, and
//! parsing goes on behind the tokens that the attempt consumed.
//! [`Parser::parse`] computes what [`parse_tokens`] defines.

use crate::ast::{
    branches_view, exprs_view, names_view, optional_expr_view, optional_stmt_view, stmts_view,
    BinaryOperator, Expr, ExprView, Stmt, StmtView, UnaryOperator,
};
use crate::lexer::{lex, optional_view, token_views, Lexer, Token, TokenView};
use vstd::prelude::*;

verus! {

/// How many tokens lie at or after `pos`.
pub open spec fn tokens_left(tokens: Seq<TokenView>, pos: int) -> nat {
    if pos < tokens.len() {
        (tokens.len() - pos) as nat
    } else {
        0
    }
}

/// Whether `pos` is behind the last token or on the end marker.
pub open spec fn at_end(tokens: Seq<TokenView>, pos: int) -> bool {
    pos < 0 || pos >= tokens.len() || tokens[pos] == TokenView::EOF
}

/// Whether the token at `pos` is `token`.
pub open spec fn has_token(tokens: Seq<TokenView>, pos: int, token: TokenView) -> bool {
    !at_end(tokens, pos) && tokens[pos] == token
}

/// The number of tokens taken by an optional `token` at `pos`: 1 if it is
/// there, 0 if not.
pub open spec fn optional_token(tokens: Seq<TokenView>, pos: int, token: TokenView) -> nat {
    if has_token(tokens, pos, token) {
        1
    } else {
        0
    }
}

/// The unary operator that a token stands for.
pub open spec fn unary_operator(token: TokenView) -> Option<UnaryOperator> {
    match token {
        TokenView::Not => Some(UnaryOperator::Not),
        TokenView::Minus => Some(UnaryOperator::Minus),
        TokenView::Length => Some(UnaryOperator::Length),
        _ => None,
    }
}

/// The binary operator that a token stands for.
pub open spec fn binary_operator(token: TokenView) -> Option<BinaryOperator> {
    match token {
        TokenView::Plus => Some(BinaryOperator::Add),
        TokenView::Minus => Some(BinaryOperator::Subtract),
        TokenView::Multiply => Some(BinaryOperator::Multiply),
        TokenView::Divide => Some(BinaryOperator::Divide),
        TokenView::Modulo => Some(BinaryOperator::Modulo),
        TokenView::Power => Some(BinaryOperator::Power),
        TokenView::DoubleDot => Some(BinaryOperator::Concat),
        TokenView::Equal => Some(BinaryOperator::Equal),
        TokenView::NotEqual => Some(BinaryOperator::NotEqual),
        TokenView::LessThan => Some(BinaryOperator::LessThan),
        TokenView::LessEqual => Some(BinaryOperator::LessEqual),
        TokenView::GreaterThan => Some(BinaryOperator::GreaterThan),
        TokenView::GreaterEqual => Some(BinaryOperator::GreaterEqual),
        TokenView::And => Some(BinaryOperator::And),
        TokenView::Or => Some(BinaryOperator::Or),
        _ => None,
    }
}

/// Whether a token closes a block: `end`, `until`, `else` or `elseif`.
pub open spec fn closes_block(token: TokenView) -> bool {
    token == TokenView::End || token == TokenView::Until || token == TokenView::Else || token
        == TokenView::ElseIf
}

// Every function below reads the tokens from `pos` on and gives what it
// parsed together with the number of tokens it consumed. A parse that cannot
// complete gives `None`; the tokens it consumed before it gave up stay
// consumed.
/// A literal, an identifier, or an expression in parentheses. The closing
/// parenthesis is optional.
pub open spec fn primary_at(tokens: Seq<TokenView>, pos: int) -> (Option<ExprView>, nat)
    decreases tokens_left(tokens, pos), 0nat,
{
    if at_end(tokens, pos) {
        (None, 0)
    } else {
        match tokens[pos] {
            TokenView::Number(text) => (Some(ExprView::Number(text)), 1),
            TokenView::String(text) => (Some(ExprView::String(text)), 1),
            TokenView::Boolean(b) => (Some(ExprView::Boolean(b)), 1),
            TokenView::Nil => (Some(ExprView::Nil), 1),
            TokenView::Identifier(name) => (Some(ExprView::Identifier(name)), 1),
            TokenView::LeftParen => {
                let (inner, n) = expression_at(tokens, pos + 1);
                match inner {
                    Some(e) => (
                        Some(e),
                        1 + n + optional_token(tokens, pos + 1 + n, TokenView::RightParen),
                    ),
                    None => (None, 1 + n),
                }
            },
            _ => (None, 1),
        }
    }
}

/// Any number of unary operators, then a primary expression. The operators
/// nest to the right.
pub open spec fn unary_at(tokens: Seq<TokenView>, pos: int) -> (Option<ExprView>, nat)
    decreases tokens_left(tokens, pos), 1nat,
{
    if !at_end(tokens, pos) && unary_operator(tokens[pos]) is Some {
        let (operand, n) = unary_at(tokens, pos + 1);
        match operand {
            Some(e) => (
                Some(
                    ExprView::UnaryOp {
                        operator: unary_operator(tokens[pos])->0,
                        operand: Box::new(e),
                    },
                ),
                1 + n,
            ),
            None => (None, 1 + n),
        }
    } else {
        primary_at(tokens, pos)
    }
}

/// The rest of a chain of binary operators whose operands so far make up
/// `left`. Every operator in the chain takes all that stands before it as its
/// left operand: there are no precedence tiers.
pub open spec fn binary_rest(tokens: Seq<TokenView>, pos: int, left: ExprView) -> (
    Option<ExprView>,
    nat,
)
    decreases tokens_left(tokens, pos), 2nat,
{
    if !at_end(tokens, pos) && binary_operator(tokens[pos]) is Some {
        let (operand, n) = unary_at(tokens, pos + 1);
        match operand {
            Some(right) => {
                let chain = ExprView::BinaryOp {
                    left: Box::new(left),
                    operator: binary_operator(tokens[pos])->0,
                    right: Box::new(right),
                };
                let (whole, m) = binary_rest(tokens, pos + 1 + n, chain);
                (whole, 1 + n + m)
            },
            None => (None, 1 + n),
        }
    } else {
        (Some(left), 0)
    }
}

/// A chain of unary expressions joined by binary operators.
pub open spec fn binary_at(tokens: Seq<TokenView>, pos: int) -> (Option<ExprView>, nat)
    decreases tokens_left(tokens, pos), 3nat,
{
    let (first, n) = unary_at(tokens, pos);
    match first {
        Some(left) => {
            let (whole, m) = binary_rest(tokens, pos + n, left);
            (whole, n + m)
        },
        None => (None, n),
    }
}

/// An expression.
#[verifier::opaque]
pub open spec fn expression_at(tokens: Seq<TokenView>, pos: int) -> (Option<ExprView>, nat)
    decreases tokens_left(tokens, pos), 4nat,
{
    binary_at(tokens, pos)
}

/// Expressions separated by commas, appended to `acc`.
pub open spec fn expression_list(tokens: Seq<TokenView>, pos: int, acc: Seq<ExprView>) -> (
    Option<Seq<ExprView>>,
    nat,
)
    decreases tokens_left(tokens, pos), 5nat,
{
    let (first, n) = expression_at(tokens, pos);
    match first {
        Some(e) => {
            if has_token(tokens, pos + n, TokenView::Comma) {
                let (all, m) = expression_list(tokens, pos + n + 1, acc.push(e));
                (all, n + 1 + m)
            } else {
                (Some(acc.push(e)), n)
            }
        },
        None => (None, n),
    }
}

/// Identifiers separated by commas, appended to `acc`.
pub open spec fn name_list(tokens: Seq<TokenView>, pos: int, acc: Seq<Seq<char>>) -> (
    Option<Seq<Seq<char>>>,
    nat,
)
    decreases tokens_left(tokens, pos),
{
    if at_end(tokens, pos) {
        (None, 0)
    } else {
        match tokens[pos] {
            TokenView::Identifier(name) => {
                if has_token(tokens, pos + 1, TokenView::Comma) {
                    let (all, m) = name_list(tokens, pos + 2, acc.push(name));
                    (all, 2 + m)
                } else {
                    (Some(acc.push(name)), 1)
                }
            },
            _ => (None, 1),
        }
    }
}

/// The parameter names of a function definition: none if a closing
/// parenthesis comes first.
pub open spec fn parameters_at(tokens: Seq<TokenView>, pos: int) -> (Option<Seq<Seq<char>>>, nat) {
    if has_token(tokens, pos, TokenView::RightParen) {
        (Some(Seq::empty()), 0)
    } else {
        name_list(tokens, pos, Seq::empty())
    }
}

/// The further targets of an assignment, each behind a comma, appended to
/// `acc`. A target that is not an identifier fails the assignment.
pub open spec fn target_list(tokens: Seq<TokenView>, pos: int, acc: Seq<Seq<char>>) -> (
    Option<Seq<Seq<char>>>,
    nat,
)
    decreases tokens_left(tokens, pos), 5nat,
{
    if has_token(tokens, pos, TokenView::Comma) {
        let (target, n) = expression_at(tokens, pos + 1);
        match target {
            Some(ExprView::Identifier(name)) => {
                let (all, m) = target_list(tokens, pos + 1 + n, acc.push(name));
                (all, 1 + n + m)
            },
            _ => (None, 1 + n),
        }
    } else {
        (Some(acc), 0)
    }
}

/// An assignment whose first target, `first`, has been read: further targets,
/// an optional `=`, and the values.
pub open spec fn assignment_at(tokens: Seq<TokenView>, pos: int, first: ExprView) -> (
    Option<StmtView>,
    nat,
)
    decreases tokens_left(tokens, pos), 9nat,
{
    match first {
        ExprView::Identifier(name) => {
            let (targets, n) = target_list(tokens, pos, seq![name]);
            match targets {
                Some(variables) => {
                    let k = optional_token(tokens, pos + n, TokenView::Assign);
                    let (list, m) = expression_list(tokens, pos + n + k, Seq::empty());
                    match list {
                        Some(values) => (Some(StmtView::Assignment { variables, values }), n + k + m),
                        None => (None, n + k + m),
                    }
                },
                None => (None, n),
            }
        },
        _ => (None, 0),
    }
}

/// The statements of a block, appended to `acc`: up to a token that closes a
/// block or the end of the tokens. Statements that fail to parse are left out.
/// Every attempt at a statement consumes a token ([`lemma_statement_consumes`]),
/// so the test for no progress never holds.
pub open spec fn block_rest(tokens: Seq<TokenView>, pos: int, acc: Seq<StmtView>) -> (
    Seq<StmtView>,
    nat,
)
    decreases tokens_left(tokens, pos), 7nat,
{
    if at_end(tokens, pos) || closes_block(tokens[pos]) {
        (acc, 0)
    } else {
        let (stmt, n) = statement_at(tokens, pos);
        if n == 0 {
            (acc, 0)
        } else {
            let seen = match stmt {
                Some(s) => acc.push(s),
                None => acc,
            };
            let (all, m) = block_rest(tokens, pos + n, seen);
            (all, n + m)
        }
    }
}

/// A block of statements.
pub open spec fn block_at(tokens: Seq<TokenView>, pos: int) -> (Seq<StmtView>, nat)
    decreases tokens_left(tokens, pos), 8nat,
{
    block_rest(tokens, pos, Seq::empty())
}

/// The `elseif` branches of a conditional, appended to `acc`.
pub open spec fn else_if_rest(
    tokens: Seq<TokenView>,
    pos: int,
    acc: Seq<(ExprView, Seq<StmtView>)>,
) -> (Option<Seq<(ExprView, Seq<StmtView>)>>, nat)
    decreases tokens_left(tokens, pos), 9nat,
{
    if has_token(tokens, pos, TokenView::ElseIf) {
        let (condition, n) = expression_at(tokens, pos + 1);
        match condition {
            Some(c) => {
                let k = optional_token(tokens, pos + 1 + n, TokenView::Then);
                let (block, m) = block_at(tokens, pos + 1 + n + k);
                let (all, x) = else_if_rest(tokens, pos + 1 + n + k + m, acc.push((c, block)));
                (all, 1 + n + k + m + x)
            },
            None => (None, 1 + n),
        }
    } else {
        (Some(acc), 0)
    }
}

/// The end of a conditional, behind its `elseif` branches: an `else` block if
/// there is an `else`, then an optional `end`.
pub open spec fn if_tail(
    tokens: Seq<TokenView>,
    pos: int,
    condition: ExprView,
    then_block: Seq<StmtView>,
    else_if_blocks: Seq<(ExprView, Seq<StmtView>)>,
) -> (Option<StmtView>, nat)
    decreases tokens_left(tokens, pos), 9nat,
{
    if has_token(tokens, pos, TokenView::Else) {
        let (block, e) = block_at(tokens, pos + 1);
        let z = optional_token(tokens, pos + 1 + e, TokenView::End);
        (
            Some(StmtView::If { condition, then_block, else_if_blocks, else_block: Some(block) }),
            1 + e + z,
        )
    } else {
        let z = optional_token(tokens, pos, TokenView::End);
        (Some(StmtView::If { condition, then_block, else_if_blocks, else_block: None }), z)
    }
}

/// A conditional, behind its `if`: condition, optional `then`, block,
/// `elseif` branches, optional `else` block, optional `end`.
pub open spec fn if_at(tokens: Seq<TokenView>, pos: int) -> (Option<StmtView>, nat)
    decreases tokens_left(tokens, pos), 10nat,
{
    let (first, n) = expression_at(tokens, pos);
    match first {
        Some(condition) => {
            let k = optional_token(tokens, pos + n, TokenView::Then);
            let (then_block, m) = block_at(tokens, pos + n + k);
            let (branches, b) = else_if_rest(tokens, pos + n + k + m, Seq::empty());
            match branches {
                Some(else_if_blocks) => {
                    let (stmt, t) = if_tail(
                        tokens,
                        pos + n + k + m + b,
                        condition,
                        then_block,
                        else_if_blocks,
                    );
                    (stmt, n + k + m + b + t)
                },
                None => (None, n + k + m + b),
            }
        },
        None => (None, n),
    }
}

/// A `while` loop, behind its `while`: condition, optional `do`, block,
/// optional `end`.
pub open spec fn while_at(tokens: Seq<TokenView>, pos: int) -> (Option<StmtView>, nat)
    decreases tokens_left(tokens, pos), 10nat,
{
    let (first, n) = expression_at(tokens, pos);
    match first {
        Some(condition) => {
            let k = optional_token(tokens, pos + n, TokenView::Do);
            let (body, m) = block_at(tokens, pos + n + k);
            let z = optional_token(tokens, pos + n + k + m, TokenView::End);
            (Some(StmtView::While { condition, body }), n + k + m + z)
        },
        None => (None, n),
    }
}

/// A `repeat` loop, behind its `repeat`: block, optional `until`, condition.
pub open spec fn repeat_at(tokens: Seq<TokenView>, pos: int) -> (Option<StmtView>, nat)
    decreases tokens_left(tokens, pos), 10nat,
{
    let (body, m) = block_at(tokens, pos);
    let k = optional_token(tokens, pos + m, TokenView::Until);
    let (last, n) = expression_at(tokens, pos + m + k);
    match last {
        Some(condition) => (Some(StmtView::Repeat { body, condition }), m + k + n),
        None => (None, m + k + n),
    }
}

/// The part of a numeric `for` loop behind its bounds: an optional `do`, the
/// block, an optional `end`.
pub open spec fn for_body(
    tokens: Seq<TokenView>,
    pos: int,
    variable: Seq<char>,
    start: ExprView,
    end: ExprView,
    step: Option<ExprView>,
) -> (Option<StmtView>, nat)
    decreases tokens_left(tokens, pos), 9nat,
{
    let k = optional_token(tokens, pos, TokenView::Do);
    let (body, m) = block_at(tokens, pos + k);
    let z = optional_token(tokens, pos + k + m, TokenView::End);
    (Some(StmtView::For { variable, start, end, step, body }), k + m + z)
}

/// The part of a numeric `for` loop behind its end bound: a step behind a
/// comma if there is a comma, then the body.
pub open spec fn for_step(
    tokens: Seq<TokenView>,
    pos: int,
    variable: Seq<char>,
    start: ExprView,
    end: ExprView,
) -> (Option<StmtView>, nat)
    decreases tokens_left(tokens, pos), 10nat,
{
    if has_token(tokens, pos, TokenView::Comma) {
        let (third, n) = expression_at(tokens, pos + 1);
        match third {
            Some(step) => {
                let (stmt, b) = for_body(tokens, pos + 1 + n, variable, start, end, Some(step));
                (stmt, 1 + n + b)
            },
            None => (None, 1 + n),
        }
    } else {
        for_body(tokens, pos, variable, start, end, None)
    }
}

/// The part of a numeric `for` loop behind its variable: an optional `=`, the
/// start, an optional comma, the end, then the step and the body.
pub open spec fn for_bounds(tokens: Seq<TokenView>, pos: int, variable: Seq<char>) -> (
    Option<StmtView>,
    nat,
)
    decreases tokens_left(tokens, pos), 11nat,
{
    let k1 = optional_token(tokens, pos, TokenView::Assign);
    let (first, n1) = expression_at(tokens, pos + k1);
    match first {
        Some(start) => {
            let k2 = optional_token(tokens, pos + k1 + n1, TokenView::Comma);
            let (second, n2) = expression_at(tokens, pos + k1 + n1 + k2);
            match second {
                Some(end) => {
                    let (stmt, b) = for_step(
                        tokens,
                        pos + k1 + n1 + k2 + n2,
                        variable,
                        start,
                        end,
                    );
                    (stmt, k1 + n1 + k2 + n2 + b)
                },
                None => (None, k1 + n1 + k2 + n2),
            }
        },
        None => (None, k1 + n1),
    }
}

/// A numeric `for` loop, behind its `for`: the variable, then the bounds,
/// the step and the body.
pub open spec fn for_at(tokens: Seq<TokenView>, pos: int) -> (Option<StmtView>, nat)
    decreases tokens_left(tokens, pos), 12nat,
{
    if at_end(tokens, pos) {
        (None, 0)
    } else {
        match tokens[pos] {
            TokenView::Identifier(variable) => {
                let (stmt, n) = for_bounds(tokens, pos + 1, variable);
                (stmt, 1 + n)
            },
            _ => (None, 1),
        }
    }
}

/// A function definition, behind its `function`: the name, an optional
/// opening parenthesis, the parameters, an optional closing parenthesis, the
/// block, an optional `end`. Gives the name, the parameters and the body.
pub open spec fn function_at(tokens: Seq<TokenView>, pos: int) -> (
    Option<(Seq<char>, Seq<Seq<char>>, Seq<StmtView>)>,
    nat,
)
    decreases tokens_left(tokens, pos), 10nat,
{
    if at_end(tokens, pos) {
        (None, 0)
    } else {
        match tokens[pos] {
            TokenView::Identifier(name) => {
                let k1 = optional_token(tokens, pos + 1, TokenView::LeftParen);
                let (names, n) = parameters_at(tokens, pos + 1 + k1);
                match names {
                    Some(parameters) => {
                        let behind = pos + 1 + k1 + n;
                        let k2 = optional_token(tokens, behind, TokenView::RightParen);
                        let (body, m) = block_at(tokens, behind + k2);
                        let z = optional_token(tokens, behind + k2 + m, TokenView::End);
                        (Some((name, parameters, body)), 1 + k1 + n + k2 + m + z)
                    },
                    None => (None, 1 + k1 + n),
                }
            },
            _ => (None, 1),
        }
    }
}

/// A local declaration, behind its `local`: a function definition, or names
/// with an optional `=` and values.
pub open spec fn local_at(tokens: Seq<TokenView>, pos: int) -> (Option<StmtView>, nat)
    decreases tokens_left(tokens, pos), 11nat,
{
    if has_token(tokens, pos, TokenView::Function) {
        let (function, n) = function_at(tokens, pos + 1);
        match function {
            Some((name, parameters, body)) => (
                Some(StmtView::LocalFunction { name, parameters, body }),
                1 + n,
            ),
            None => (None, 1 + n),
        }
    } else {
        let (names, n) = name_list(tokens, pos, Seq::empty());
        match names {
            Some(variables) => {
                if has_token(tokens, pos + n, TokenView::Assign) {
                    let (list, m) = expression_list(tokens, pos + n + 1, Seq::empty());
                    match list {
                        Some(values) => (
                            Some(StmtView::LocalAssignment { variables, values }),
                            n + 1 + m,
                        ),
                        None => (None, n + 1 + m),
                    }
                } else {
                    (Some(StmtView::LocalAssignment { variables, values: Seq::empty() }), n)
                }
            },
            None => (None, n),
        }
    }
}

/// A `return`, behind its keyword: without values if the block or the tokens
/// end there, else with a list of values.
pub open spec fn return_at(tokens: Seq<TokenView>, pos: int) -> (Option<StmtView>, nat)
    decreases tokens_left(tokens, pos), 10nat,
{
    if at_end(tokens, pos) || closes_block(tokens[pos]) {
        (Some(StmtView::Return(None)), 0)
    } else {
        let (list, n) = expression_list(tokens, pos, Seq::empty());
        match list {
            Some(values) => (Some(StmtView::Return(Some(values))), n),
            None => (None, n),
        }
    }
}

/// One statement.
#[verifier::opaque]
pub open spec fn statement_at(tokens: Seq<TokenView>, pos: int) -> (Option<StmtView>, nat)
    decreases tokens_left(tokens, pos), 6nat,
{
    if at_end(tokens, pos) {
        (None, 0)
    } else {
        match tokens[pos] {
            TokenView::If => {
                let (stmt, n) = if_at(tokens, pos + 1);
                (stmt, 1 + n)
            },
            TokenView::While => {
                let (stmt, n) = while_at(tokens, pos + 1);
                (stmt, 1 + n)
            },
            TokenView::Repeat => {
                let (stmt, n) = repeat_at(tokens, pos + 1);
                (stmt, 1 + n)
            },
            TokenView::For => {
                let (stmt, n) = for_at(tokens, pos + 1);
                (stmt, 1 + n)
            },
            TokenView::Function => {
                let (function, n) = function_at(tokens, pos + 1);
                match function {
                    Some((name, parameters, body)) => (
                        Some(StmtView::Function { name, parameters, body }),
                        1 + n,
                    ),
                    None => (None, 1 + n),
                }
            },
            TokenView::Local => {
                let (stmt, n) = local_at(tokens, pos + 1);
                (stmt, 1 + n)
            },
            TokenView::Return => {
                let (stmt, n) = return_at(tokens, pos + 1);
                (stmt, 1 + n)
            },
            TokenView::Break => (Some(StmtView::Break), 1),
            _ => {
                let (first, n) = expression_at(tokens, pos);
                match first {
                    Some(e) => {
                        if has_token(tokens, pos + n, TokenView::Assign) || has_token(
                            tokens,
                            pos + n,
                            TokenView::Comma,
                        ) {
                            let (stmt, m) = assignment_at(tokens, pos + n, e);
                            (stmt, n + m)
                        } else {
                            (Some(StmtView::Expr(e)), n)
                        }
                    },
                    None => (None, n),
                }
            },
        }
    }
}

/// The statements of a program, appended to `acc`: up to the end of the
/// tokens. Statements that fail to parse are left out.
pub open spec fn program_rest(tokens: Seq<TokenView>, pos: int, acc: Seq<StmtView>) -> (
    Seq<StmtView>,
    nat,
)
    decreases tokens_left(tokens, pos), 7nat,
{
    if at_end(tokens, pos) {
        (acc, 0)
    } else {
        let (stmt, n) = statement_at(tokens, pos);
        if n == 0 {
            (acc, 0)
        } else {
            let seen = match stmt {
                Some(s) => acc.push(s),
                None => acc,
            };
            let (all, m) = program_rest(tokens, pos + n, seen);
            (all, n + m)
        }
    }
}

/// The statements that a token sequence parses into.
pub open spec fn parse_tokens(tokens: Seq<TokenView>) -> Seq<StmtView> {
    program_rest(tokens, 0, Seq::empty()).0
}

/// An attempt at an expression that starts inside the tokens consumes at
/// least one token.
pub proof fn lemma_expression_consumes(tokens: Seq<TokenView>, pos: int)
    requires
        !at_end(tokens, pos),
    ensures
        expression_at(tokens, pos).1 >= 1,
{
    reveal_with_fuel(expression_at, 1);
    assert(primary_at(tokens, pos).1 >= 1);
    assert(unary_at(tokens, pos).1 >= 1);
    assert(binary_at(tokens, pos).1 >= 1);
}

/// An attempt at a statement that starts inside the tokens consumes at least
/// one token, so a block or a program is read in finitely many attempts.
pub proof fn lemma_statement_consumes(tokens: Seq<TokenView>, pos: int)
    requires
        !at_end(tokens, pos),
    ensures
        statement_at(tokens, pos).1 >= 1,
{
    reveal_with_fuel(statement_at, 1);
    lemma_expression_consumes(tokens, pos);
}

/// A cursor over a token sequence that turns it into statements.
pub struct Parser {
    tokens: Vec<Token>,
    position: usize,
}

impl Parser {
    #[verifier::type_invariant]
    spec fn well_formed(&self) -> bool {
        self.position <= self.tokens.len()
    }

    /// The tokens.
    pub closed spec fn tokens(&self) -> Seq<TokenView> {
        token_views(self.tokens@)
    }

    /// The cursor: how many tokens have been consumed.
    pub closed spec fn position(&self) -> int {
        self.position as int
    }

    /// Whether `self` is `before` with `consumed` more tokens consumed.
    pub closed spec fn advanced(&self, before: &Parser, consumed: nat) -> bool {
        &&& self.tokens == before.tokens
        &&& self.position == before.position + consumed
        &&& self.position <= self.tokens.len()
    }

    /// What [`Parser::advanced`] means for the cursor and the tokens.
    pub proof fn lemma_advanced(&self, before: &Parser, consumed: nat)
        requires
            self.advanced(before, consumed),
        ensures
            self.tokens() == before.tokens(),
            self.position() == before.position() + consumed,
            self.position() <= self.tokens().len(),
    {
    }

    /// A parser at the start of `tokens`.
    pub fn new(tokens: Vec<Token>) -> (parser: Parser)
        ensures
            parser.tokens() == token_views(tokens@),
            parser.position() == 0,
    {
        Parser { tokens, position: 0 }
    }

    /// Parses the rest of the tokens into statements. Statements that fail to
    /// parse are left out.
    pub fn parse(&mut self) -> (stmts: Vec<Stmt>)
        ensures
            stmts_view(&stmts) == program_rest(
                old(self).tokens(),
                old(self).position(),
                Seq::empty(),
            ).0,
            final(self).advanced(
                old(self),
                program_rest(old(self).tokens(), old(self).position(), Seq::empty()).1,
            ),
    {
        proof {
            use_type_invariant(&*self);
        }
        let ghost tokens = self.tokens();
        let ghost start = self.position();
        let mut stmts: Vec<Stmt> = Vec::new();
        assert(stmts_view(&stmts) =~= Seq::empty());
        while !self.is_at_end()
            invariant
                self.tokens == old(self).tokens,
                tokens == self.tokens(),
                start == old(self).position,
                start <= self.position <= self.tokens.len(),
                program_rest(tokens, start, Seq::empty()).0 == program_rest(
                    tokens,
                    self.position(),
                    stmts_view(&stmts),
                ).0,
                program_rest(tokens, start, Seq::empty()).1 == program_rest(
                    tokens,
                    self.position(),
                    stmts_view(&stmts),
                ).1 + (self.position - start),
            decreases self.tokens.len() - self.position,
        {
            proof {
                reveal_with_fuel(statement_at, 1);
                lemma_statement_consumes(tokens, self.position());
            }
            let ghost seen = stmts_view(&stmts);
            let stmt = self.parse_statement();
            proof {
                use_type_invariant(&*self);
            }
            match stmt {
                Some(s) => {
                    let ghost view = s@;
                    stmts.push(s);
                    assert(stmts_view(&stmts) =~= seen.push(view));
                },
                None => {},
            }
        }
        stmts
    }

    fn parse_statement(&mut self) -> (stmt: Option<Stmt>)
        ensures
            optional_stmt_view(stmt) == statement_at(old(self).tokens(), old(self).position()).0,
            final(self).advanced(
                old(self),
                statement_at(old(self).tokens(), old(self).position()).1,
            ),
        decreases old(self).tokens@.len() - old(self).position, 6nat,
    {
        proof {
            reveal_with_fuel(statement_at, 1);
            use_type_invariant(&*self);
        }
        if self.is_at_end() {
            None
        } else if self.match_token(&Token::If) {
            self.parse_if()
        } else if self.match_token(&Token::While) {
            self.parse_while()
        } else if self.match_token(&Token::Repeat) {
            self.parse_repeat()
        } else if self.match_token(&Token::For) {
            self.parse_for()
        } else if self.match_token(&Token::Function) {
            self.parse_function()
        } else if self.match_token(&Token::Local) {
            self.parse_local()
        } else if self.match_token(&Token::Return) {
            self.parse_return()
        } else if self.match_token(&Token::Break) {
            Some(Stmt::Break)
        } else {
            match self.parse_expression() {
                Some(expr) => {
                    if self.check(&Token::Assign) || self.check(&Token::Comma) {
                        self.parse_assignment(expr)
                    } else {
                        Some(Stmt::Expr(expr))
                    }
                },
                None => None,
            }
        }
    }

    fn parse_assignment(&mut self, first: Expr) -> (stmt: Option<Stmt>)
        ensures
            optional_stmt_view(stmt) == assignment_at(
                old(self).tokens(),
                old(self).position(),
                first@,
            ).0,
            final(self).advanced(
                old(self),
                assignment_at(old(self).tokens(), old(self).position(), first@).1,
            ),
        decreases old(self).tokens@.len() - old(self).position, 9nat,
    {
        proof {
            use_type_invariant(&*self);
        }
        let name = match first {
            Expr::Identifier(name) => name,
            _ => {
                return None;
            },
        };
        let variables = match self.parse_targets(name) {
            Some(variables) => variables,
            None => {
                return None;
            },
        };
        self.consume(Token::Assign);
        match self.parse_expression_list() {
            Some(values) => Some(Stmt::Assignment { variables, values }),
            None => None,
        }
    }

    /// The further targets of an assignment whose first target is `first`.
    fn parse_targets(&mut self, first: String) -> (names: Option<Vec<String>>)
        ensures
            match names {
                Some(list) => Some(names_view(&list)),
                None => None,
            } == target_list(old(self).tokens(), old(self).position(), seq![first@]).0,
            final(self).advanced(
                old(self),
                target_list(old(self).tokens(), old(self).position(), seq![first@]).1,
            ),
        decreases old(self).tokens@.len() - old(self).position, 5nat,
    {
        proof {
            use_type_invariant(&*self);
        }
        let ghost tokens = self.tokens();
        let ghost start = self.position();
        let ghost first_view = first@;
        let mut variables: Vec<String> = Vec::new();
        variables.push(first);
        assert(names_view(&variables) =~= seq![first_view]);
        while self.check(&Token::Comma)
            invariant
                self.tokens == old(self).tokens,
                tokens == self.tokens(),
                start == old(self).position,
                first_view == first@,
                start <= self.position <= self.tokens.len(),
                target_list(tokens, start, seq![first_view]).0 == target_list(
                    tokens,
                    self.position(),
                    names_view(&variables),
                ).0,
                target_list(tokens, start, seq![first_view]).1 == target_list(
                    tokens,
                    self.position(),
                    names_view(&variables),
                ).1 + (self.position - start),
            decreases self.tokens.len() - self.position,
        {
            self.position += 1;
            let ghost seen = names_view(&variables);
            let target = self.parse_expression();
            proof {
                use_type_invariant(&*self);
            }
            match target {
                Some(Expr::Identifier(name)) => {
                    let ghost view = name@;
                    variables.push(name);
                    assert(names_view(&variables) =~= seen.push(view));
                },
                _ => {
                    return None;
                },
            }
        }
        Some(variables)
    }

    fn parse_local(&mut self) -> (stmt: Option<Stmt>)
        ensures
            optional_stmt_view(stmt) == local_at(old(self).tokens(), old(self).position()).0,
            final(self).advanced(old(self), local_at(old(self).tokens(), old(self).position()).1),
        decreases old(self).tokens@.len() - old(self).position, 11nat,
    {
        proof {
            use_type_invariant(&*self);
        }
        if self.match_token(&Token::Function) {
            match self.parse_function_parts() {
                Some((name, parameters, body)) => Some(
                    Stmt::LocalFunction { name, parameters, body },
                ),
                None => None,
            }
        } else {
            let variables = match self.parse_name_list() {
                Some(variables) => variables,
                None => {
                    return None;
                },
            };
            if self.match_token(&Token::Assign) {
                match self.parse_expression_list() {
                    Some(values) => Some(Stmt::LocalAssignment { variables, values }),
                    None => None,
                }
            } else {
                let values: Vec<Expr> = Vec::new();
                assert(exprs_view(&values) =~= Seq::empty());
                Some(Stmt::LocalAssignment { variables, values })
            }
        }
    }

    fn parse_function(&mut self) -> (stmt: Option<Stmt>)
        ensures
            optional_stmt_view(stmt) == match function_at(
                old(self).tokens(),
                old(self).position(),
            ).0 {
                Some((name, parameters, body)) => Some(
                    StmtView::Function { name, parameters, body },
                ),
                None => None,
            },
            final(self).advanced(
                old(self),
                function_at(old(self).tokens(), old(self).position()).1,
            ),
        decreases old(self).tokens@.len() - old(self).position, 11nat,
    {
        match self.parse_function_parts() {
            Some((name, parameters, body)) => Some(Stmt::Function { name, parameters, body }),
            None => None,
        }
    }

    /// The name, the parameters and the body of a function definition.
    fn parse_function_parts(&mut self) -> (parts: Option<(String, Vec<String>, Vec<Stmt>)>)
        ensures
            match parts {
                Some((name, parameters, body)) => Some(
                    (name@, names_view(&parameters), stmts_view(&body)),
                ),
                None => None,
            } == function_at(old(self).tokens(), old(self).position()).0,
            final(self).advanced(
                old(self),
                function_at(old(self).tokens(), old(self).position()).1,
            ),
        decreases old(self).tokens@.len() - old(self).position, 10nat,
    {
        proof {
            use_type_invariant(&*self);
        }
        let name = match self.advance() {
            Some(Token::Identifier(name)) => name,
            _ => {
                return None;
            },
        };
        self.consume(Token::LeftParen);
        let parameters = match self.parse_parameters() {
            Some(parameters) => parameters,
            None => {
                return None;
            },
        };
        self.consume(Token::RightParen);
        let body = self.parse_block();
        self.consume(Token::End);
        Some((name, parameters, body))
    }

    fn parse_parameters(&mut self) -> (names: Option<Vec<String>>)
        ensures
            match names {
                Some(list) => Some(names_view(&list)),
                None => None,
            } == parameters_at(old(self).tokens(), old(self).position()).0,
            final(self).advanced(
                old(self),
                parameters_at(old(self).tokens(), old(self).position()).1,
            ),
    {
        if self.check(&Token::RightParen) {
            let parameters: Vec<String> = Vec::new();
            assert(names_view(&parameters) =~= Seq::empty());
            Some(parameters)
        } else {
            self.parse_name_list()
        }
    }

    /// Identifiers separated by commas.
    fn parse_name_list(&mut self) -> (names: Option<Vec<String>>)
        ensures
            match names {
                Some(list) => Some(names_view(&list)),
                None => None,
            } == name_list(old(self).tokens(), old(self).position(), Seq::empty()).0,
            final(self).advanced(
                old(self),
                name_list(old(self).tokens(), old(self).position(), Seq::empty()).1,
            ),
    {
        proof {
            use_type_invariant(&*self);
        }
        let ghost tokens = self.tokens();
        let ghost start = self.position();
        let mut names: Vec<String> = Vec::new();
        assert(names_view(&names) =~= Seq::empty());
        loop
            invariant
                self.tokens == old(self).tokens,
                tokens == self.tokens(),
                start == old(self).position,
                start <= self.position <= self.tokens.len(),
                name_list(tokens, start, Seq::empty()).0 == name_list(
                    tokens,
                    self.position(),
                    names_view(&names),
                ).0,
                name_list(tokens, start, Seq::empty()).1 == name_list(
                    tokens,
                    self.position(),
                    names_view(&names),
                ).1 + (self.position - start),
            decreases self.tokens.len() - self.position,
        {
            let ghost seen = names_view(&names);
            let token = self.advance();
            proof {
                use_type_invariant(&*self);
            }
            match token {
                Some(Token::Identifier(name)) => {
                    let ghost view = name@;
                    names.push(name);
                    assert(names_view(&names) =~= seen.push(view));
                },
                _ => {
                    return None;
                },
            }
            if !self.match_token(&Token::Comma) {
                return Some(names);
            }
            proof {
                use_type_invariant(&*self);
            }
        }
    }

    /// Expressions separated by commas.
    fn parse_expression_list(&mut self) -> (exprs: Option<Vec<Expr>>)
        ensures
            match exprs {
                Some(list) => Some(exprs_view(&list)),
                None => None,
            } == expression_list(old(self).tokens(), old(self).position(), Seq::empty()).0,
            final(self).advanced(
                old(self),
                expression_list(old(self).tokens(), old(self).position(), Seq::empty()).1,
            ),
        decreases old(self).tokens@.len() - old(self).position, 5nat,
    {
        proof {
            use_type_invariant(&*self);
        }
        let ghost tokens = self.tokens();
        let ghost start = self.position();
        let mut values: Vec<Expr> = Vec::new();
        assert(exprs_view(&values) =~= Seq::empty());
        loop
            invariant
                self.tokens == old(self).tokens,
                tokens == self.tokens(),
                start == old(self).position,
                start <= self.position <= self.tokens.len(),
                expression_list(tokens, start, Seq::empty()).0 == expression_list(
                    tokens,
                    self.position(),
                    exprs_view(&values),
                ).0,
                expression_list(tokens, start, Seq::empty()).1 == expression_list(
                    tokens,
                    self.position(),
                    exprs_view(&values),
                ).1 + (self.position - start),
            decreases self.tokens.len() - self.position,
        {
            let ghost seen = exprs_view(&values);
            let expr = self.parse_expression();
            proof {
                use_type_invariant(&*self);
            }
            match expr {
                Some(e) => {
                    let ghost view = e@;
                    values.push(e);
                    assert(exprs_view(&values) =~= seen.push(view));
                },
                None => {
                    return None;
                },
            }
            if !self.match_token(&Token::Comma) {
                return Some(values);
            }
            proof {
                use_type_invariant(&*self);
            }
        }
    }

    fn parse_block(&mut self) -> (stmts: Vec<Stmt>)
        ensures
            stmts_view(&stmts) == block_at(old(self).tokens(), old(self).position()).0,
            final(self).advanced(old(self), block_at(old(self).tokens(), old(self).position()).1),
        decreases old(self).tokens@.len() - old(self).position, 8nat,
    {
        proof {
            use_type_invariant(&*self);
        }
        let ghost tokens = self.tokens();
        let ghost start = self.position();
        let mut stmts: Vec<Stmt> = Vec::new();
        assert(stmts_view(&stmts) =~= Seq::empty());
        while self.in_block()
            invariant
                self.tokens == old(self).tokens,
                tokens == self.tokens(),
                start == old(self).position,
                start <= self.position <= self.tokens.len(),
                block_rest(tokens, start, Seq::empty()).0 == block_rest(
                    tokens,
                    self.position(),
                    stmts_view(&stmts),
                ).0,
                block_rest(tokens, start, Seq::empty()).1 == block_rest(
                    tokens,
                    self.position(),
                    stmts_view(&stmts),
                ).1 + (self.position - start),
            decreases self.tokens.len() - self.position,
        {
            proof {
                reveal_with_fuel(statement_at, 1);
                lemma_statement_consumes(tokens, self.position());
            }
            let ghost seen = stmts_view(&stmts);
            let stmt = self.parse_statement();
            proof {
                use_type_invariant(&*self);
            }
            match stmt {
                Some(s) => {
                    let ghost view = s@;
                    stmts.push(s);
                    assert(stmts_view(&stmts) =~= seen.push(view));
                },
                None => {},
            }
        }
        stmts
    }

    /// Whether the cursor is inside a block: not at the end of the tokens and
    /// not on a token that closes a block.
    fn in_block(&self) -> (inside: bool)
        ensures
            inside == (!at_end(self.tokens(), self.position()) && !closes_block(
                self.tokens()[self.position()],
            )),
    {
        !self.is_at_end() && !self.check(&Token::End) && !self.check(&Token::Until) && !self.check(
            &Token::Else,
        ) && !self.check(&Token::ElseIf)
    }

    fn parse_if(&mut self) -> (stmt: Option<Stmt>)
        ensures
            optional_stmt_view(stmt) == if_at(old(self).tokens(), old(self).position()).0,
            final(self).advanced(old(self), if_at(old(self).tokens(), old(self).position()).1),
        decreases old(self).tokens@.len() - old(self).position, 10nat,
    {
        proof {
            use_type_invariant(&*self);
        }
        let condition = match self.parse_expression() {
            Some(condition) => condition,
            None => {
                return None;
            },
        };
        self.consume(Token::Then);
        let then_block = self.parse_block();
        let else_if_blocks = match self.parse_else_if_blocks() {
            Some(blocks) => blocks,
            None => {
                return None;
            },
        };
        self.parse_if_tail(condition, then_block, else_if_blocks)
    }

    /// The end of a conditional, behind its `elseif` branches.
    fn parse_if_tail(
        &mut self,
        condition: Expr,
        then_block: Vec<Stmt>,
        else_if_blocks: Vec<(Expr, Vec<Stmt>)>,
    ) -> (stmt: Option<Stmt>)
        ensures
            optional_stmt_view(stmt) == if_tail(
                old(self).tokens(),
                old(self).position(),
                condition@,
                stmts_view(&then_block),
                branches_view(&else_if_blocks),
            ).0,
            final(self).advanced(
                old(self),
                if_tail(
                    old(self).tokens(),
                    old(self).position(),
                    condition@,
                    stmts_view(&then_block),
                    branches_view(&else_if_blocks),
                ).1,
            ),
        decreases old(self).tokens@.len() - old(self).position, 9nat,
    {
        proof {
            use_type_invariant(&*self);
        }
        let else_block = if self.match_token(&Token::Else) {
            Some(self.parse_block())
        } else {
            None
        };
        self.consume(Token::End);
        Some(Stmt::If { condition, then_block, else_if_blocks, else_block })
    }

    /// The `elseif` branches of a conditional.
    fn parse_else_if_blocks(&mut self) -> (branches: Option<Vec<(Expr, Vec<Stmt>)>>)
        ensures
            match branches {
                Some(list) => Some(branches_view(&list)),
                None => None,
            } == else_if_rest(old(self).tokens(), old(self).position(), Seq::empty()).0,
            final(self).advanced(
                old(self),
                else_if_rest(old(self).tokens(), old(self).position(), Seq::empty()).1,
            ),
        decreases old(self).tokens@.len() - old(self).position, 9nat,
    {
        proof {
            use_type_invariant(&*self);
        }
        let ghost tokens = self.tokens();
        let ghost start = self.position();
        let mut branches: Vec<(Expr, Vec<Stmt>)> = Vec::new();
        assert(branches_view(&branches) =~= Seq::empty());
        while self.check(&Token::ElseIf)
            invariant
                self.tokens == old(self).tokens,
                tokens == self.tokens(),
                start == old(self).position,
                start <= self.position <= self.tokens.len(),
                else_if_rest(tokens, start, Seq::empty()).0 == else_if_rest(
                    tokens,
                    self.position(),
                    branches_view(&branches),
                ).0,
                else_if_rest(tokens, start, Seq::empty()).1 == else_if_rest(
                    tokens,
                    self.position(),
                    branches_view(&branches),
                ).1 + (self.position - start),
            decreases self.tokens.len() - self.position,
        {
            self.position += 1;
            let ghost seen = branches_view(&branches);
            let condition = match self.parse_expression() {
                Some(condition) => condition,
                None => {
                    return None;
                },
            };
            self.consume(Token::Then);
            let block = self.parse_block();
            proof {
                use_type_invariant(&*self);
            }
            let ghost view = (condition@, stmts_view(&block));
            branches.push((condition, block));
            assert(branches_view(&branches) =~= seen.push(view));
        }
        Some(branches)
    }

    fn parse_while(&mut self) -> (stmt: Option<Stmt>)
        ensures
            optional_stmt_view(stmt) == while_at(old(self).tokens(), old(self).position()).0,
            final(self).advanced(old(self), while_at(old(self).tokens(), old(self).position()).1),
        decreases old(self).tokens@.len() - old(self).position, 10nat,
    {
        proof {
            use_type_invariant(&*self);
        }
        let condition = match self.parse_expression() {
            Some(condition) => condition,
            None => {
                return None;
            },
        };
        self.consume(Token::Do);
        let body = self.parse_block();
        self.consume(Token::End);
        Some(Stmt::While { condition, body })
    }

    fn parse_repeat(&mut self) -> (stmt: Option<Stmt>)
        ensures
            optional_stmt_view(stmt) == repeat_at(old(self).tokens(), old(self).position()).0,
            final(self).advanced(
                old(self),
                repeat_at(old(self).tokens(), old(self).position()).1,
            ),
        decreases old(self).tokens@.len() - old(self).position, 10nat,
    {
        proof {
            use_type_invariant(&*self);
        }
        let body = self.parse_block();
        self.consume(Token::Until);
        match self.parse_expression() {
            Some(condition) => Some(Stmt::Repeat { body, condition }),
            None => None,
        }
    }

    fn parse_for(&mut self) -> (stmt: Option<Stmt>)
        ensures
            optional_stmt_view(stmt) == for_at(old(self).tokens(), old(self).position()).0,
            final(self).advanced(old(self), for_at(old(self).tokens(), old(self).position()).1),
        decreases old(self).tokens@.len() - old(self).position, 12nat,
    {
        proof {
            use_type_invariant(&*self);
        }
        match self.advance() {
            Some(Token::Identifier(variable)) => self.parse_for_bounds(variable),
            _ => None,
        }
    }

    /// The part of a numeric `for` loop behind its variable.
    fn parse_for_bounds(&mut self, variable: String) -> (stmt: Option<Stmt>)
        ensures
            optional_stmt_view(stmt) == for_bounds(
                old(self).tokens(),
                old(self).position(),
                variable@,
            ).0,
            final(self).advanced(
                old(self),
                for_bounds(old(self).tokens(), old(self).position(), variable@).1,
            ),
        decreases old(self).tokens@.len() - old(self).position, 11nat,
    {
        proof {
            use_type_invariant(&*self);
        }
        self.consume(Token::Assign);
        let start = match self.parse_expression() {
            Some(start) => start,
            None => {
                return None;
            },
        };
        self.consume(Token::Comma);
        match self.parse_expression() {
            Some(end) => self.parse_for_step(variable, start, end),
            None => None,
        }
    }

    /// The part of a numeric `for` loop behind its end bound.
    fn parse_for_step(&mut self, variable: String, start: Expr, end: Expr) -> (stmt: Option<Stmt>)
        ensures
            optional_stmt_view(stmt) == for_step(
                old(self).tokens(),
                old(self).position(),
                variable@,
                start@,
                end@,
            ).0,
            final(self).advanced(
                old(self),
                for_step(old(self).tokens(), old(self).position(), variable@, start@, end@).1,
            ),
        decreases old(self).tokens@.len() - old(self).position, 10nat,
    {
        proof {
            use_type_invariant(&*self);
        }
        if self.match_token(&Token::Comma) {
            match self.parse_expression() {
                Some(step) => self.parse_for_body(variable, start, end, Some(step)),
                None => None,
            }
        } else {
            self.parse_for_body(variable, start, end, None)
        }
    }

    /// The part of a numeric `for` loop behind its bounds.
    fn parse_for_body(
        &mut self,
        variable: String,
        start: Expr,
        end: Expr,
        step: Option<Expr>,
    ) -> (stmt: Option<Stmt>)
        ensures
            optional_stmt_view(stmt) == for_body(
                old(self).tokens(),
                old(self).position(),
                variable@,
                start@,
                end@,
                optional_expr_view(step),
            ).0,
            final(self).advanced(
                old(self),
                for_body(
                    old(self).tokens(),
                    old(self).position(),
                    variable@,
                    start@,
                    end@,
                    optional_expr_view(step),
                ).1,
            ),
        decreases old(self).tokens@.len() - old(self).position, 9nat,
    {
        proof {
            use_type_invariant(&*self);
        }
        self.consume(Token::Do);
        let body = self.parse_block();
        self.consume(Token::End);
        Some(Stmt::For { variable, start, end, step, body })
    }

    fn parse_return(&mut self) -> (stmt: Option<Stmt>)
        ensures
            optional_stmt_view(stmt) == return_at(old(self).tokens(), old(self).position()).0,
            final(self).advanced(
                old(self),
                return_at(old(self).tokens(), old(self).position()).1,
            ),
        decreases old(self).tokens@.len() - old(self).position, 10nat,
    {
        proof {
            use_type_invariant(&*self);
        }
        if !self.in_block() {
            return Some(Stmt::Return(None));
        }
        match self.parse_expression_list() {
            Some(values) => Some(Stmt::Return(Some(values))),
            None => None,
        }
    }

    fn parse_expression(&mut self) -> (expr: Option<Expr>)
        ensures
            optional_expr_view(expr) == expression_at(old(self).tokens(), old(self).position()).0,
            final(self).advanced(
                old(self),
                expression_at(old(self).tokens(), old(self).position()).1,
            ),
        decreases old(self).tokens@.len() - old(self).position, 4nat,
    {
        proof {
            reveal_with_fuel(expression_at, 1);
        }
        self.parse_binary()
    }

    fn parse_binary(&mut self) -> (expr: Option<Expr>)
        ensures
            optional_expr_view(expr) == binary_at(old(self).tokens(), old(self).position()).0,
            final(self).advanced(
                old(self),
                binary_at(old(self).tokens(), old(self).position()).1,
            ),
        decreases old(self).tokens@.len() - old(self).position, 3nat,
    {
        match self.parse_unary() {
            Some(left) => self.parse_binary_rest(left),
            None => None,
        }
    }

    /// The rest of a chain of binary operators whose first operand is `first`.
    fn parse_binary_rest(&mut self, first: Expr) -> (expr: Option<Expr>)
        ensures
            optional_expr_view(expr) == binary_rest(
                old(self).tokens(),
                old(self).position(),
                first@,
            ).0,
            final(self).advanced(
                old(self),
                binary_rest(old(self).tokens(), old(self).position(), first@).1,
            ),
        decreases old(self).tokens@.len() - old(self).position, 2nat,
    {
        proof {
            use_type_invariant(&*self);
        }
        let ghost tokens = self.tokens();
        let ghost start = self.position();
        let ghost first_view = first@;
        let mut left = first;
        loop
            invariant
                self.tokens == old(self).tokens,
                tokens == self.tokens(),
                start == old(self).position,
                first_view == first@,
                start <= self.position <= self.tokens.len(),
                binary_rest(tokens, start, first_view).0 == binary_rest(
                    tokens,
                    self.position(),
                    left@,
                ).0,
                binary_rest(tokens, start, first_view).1 == binary_rest(
                    tokens,
                    self.position(),
                    left@,
                ).1 + (self.position - start),
            decreases self.tokens.len() - self.position,
        {
            let operator = match self.match_binary_op() {
                Some(operator) => operator,
                None => {
                    return Some(left);
                },
            };
            let right = match self.parse_unary() {
                Some(right) => right,
                None => {
                    return None;
                },
            };
            proof {
                use_type_invariant(&*self);
            }
            left = Expr::BinaryOp { left: Box::new(left), operator, right: Box::new(right) };
        }
    }

    fn parse_unary(&mut self) -> (expr: Option<Expr>)
        ensures
            optional_expr_view(expr) == unary_at(old(self).tokens(), old(self).position()).0,
            final(self).advanced(old(self), unary_at(old(self).tokens(), old(self).position()).1),
        decreases old(self).tokens@.len() - old(self).position, 1nat,
    {
        proof {
            use_type_invariant(&*self);
        }
        match self.match_unary_op() {
            Some(operator) => match self.parse_unary() {
                Some(operand) => Some(Expr::UnaryOp { operator, operand: Box::new(operand) }),
                None => None,
            },
            None => self.parse_primary(),
        }
    }

    fn parse_primary(&mut self) -> (expr: Option<Expr>)
        ensures
            optional_expr_view(expr) == primary_at(old(self).tokens(), old(self).position()).0,
            final(self).advanced(
                old(self),
                primary_at(old(self).tokens(), old(self).position()).1,
            ),
        decreases old(self).tokens@.len() - old(self).position, 0nat,
    {
        proof {
            reveal_with_fuel(expression_at, 1);
            use_type_invariant(&*self);
        }
        match self.advance() {
            Some(token) => match token {
                Token::Number(text) => Some(Expr::Number(text)),
                Token::String(text) => Some(Expr::String(text)),
                Token::Boolean(b) => Some(Expr::Boolean(b)),
                Token::Nil => Some(Expr::Nil),
                Token::Identifier(name) => Some(Expr::Identifier(name)),
                Token::LeftParen => match self.parse_expression() {
                    Some(e) => {
                        self.consume(Token::RightParen);
                        Some(e)
                    },
                    None => None,
                },
                _ => None,
            },
            None => None,
        }
    }

    /// Consumes the next token if it is a binary operator.
    fn match_binary_op(&mut self) -> (operator: Option<BinaryOperator>)
        ensures
            operator == if at_end(old(self).tokens(), old(self).position()) {
                None
            } else {
                binary_operator(old(self).tokens()[old(self).position()])
            },
            final(self).advanced(old(self), if operator is Some { 1nat } else { 0nat }),
    {
        proof {
            use_type_invariant(&*self);
        }
        let operator = match self.peek() {
            None => None,
            Some(token) => match token {
                Token::Plus => Some(BinaryOperator::Add),
                Token::Minus => Some(BinaryOperator::Subtract),
                Token::Multiply => Some(BinaryOperator::Multiply),
                Token::Divide => Some(BinaryOperator::Divide),
                Token::Modulo => Some(BinaryOperator::Modulo),
                Token::Power => Some(BinaryOperator::Power),
                Token::DoubleDot => Some(BinaryOperator::Concat),
                Token::Equal => Some(BinaryOperator::Equal),
                Token::NotEqual => Some(BinaryOperator::NotEqual),
                Token::LessThan => Some(BinaryOperator::LessThan),
                Token::LessEqual => Some(BinaryOperator::LessEqual),
                Token::GreaterThan => Some(BinaryOperator::GreaterThan),
                Token::GreaterEqual => Some(BinaryOperator::GreaterEqual),
                Token::And => Some(BinaryOperator::And),
                Token::Or => Some(BinaryOperator::Or),
                _ => None,
            },
        };
        if operator.is_some() {
            self.position += 1;
        }
        operator
    }

    /// Consumes the next token if it is a unary operator.
    fn match_unary_op(&mut self) -> (operator: Option<UnaryOperator>)
        ensures
            operator == if at_end(old(self).tokens(), old(self).position()) {
                None
            } else {
                unary_operator(old(self).tokens()[old(self).position()])
            },
            final(self).advanced(old(self), if operator is Some { 1nat } else { 0nat }),
    {
        proof {
            use_type_invariant(&*self);
        }
        let operator = match self.peek() {
            None => None,
            Some(token) => match token {
                Token::Not => Some(UnaryOperator::Not),
                Token::Minus => Some(UnaryOperator::Minus),
                Token::Length => Some(UnaryOperator::Length),
                _ => None,
            },
        };
        if operator.is_some() {
            self.position += 1;
        }
        operator
    }

    /// Consumes the next token if it is `token`.
    fn match_token(&mut self, token: &Token) -> (matched: bool)
        ensures
            matched == has_token(old(self).tokens(), old(self).position(), token@),
            final(self).advanced(old(self), if matched { 1nat } else { 0nat }),
    {
        proof {
            use_type_invariant(&*self);
        }
        if self.check(token) {
            self.position += 1;
            true
        } else {
            false
        }
    }

    /// Whether the next token is `token`.
    fn check(&self, token: &Token) -> (found: bool)
        ensures
            found == has_token(self.tokens(), self.position(), token@),
    {
        if self.is_at_end() {
            return false;
        }
        self.tokens[self.position] == *token
    }

    /// Consumes the next token and gives it, unless the tokens have ended.
    fn advance(&mut self) -> (token: Option<Token>)
        ensures
            optional_view(token) == if at_end(old(self).tokens(), old(self).position()) {
                None
            } else {
                Some(old(self).tokens()[old(self).position()])
            },
            final(self).advanced(old(self), if token is Some { 1nat } else { 0nat }),
    {
        proof {
            use_type_invariant(&*self);
        }
        if self.is_at_end() {
            return None;
        }
        let token = self.tokens[self.position].clone();
        self.position += 1;
        Some(token)
    }

    /// Consumes the next token if it is `token`: every such token is optional.
    fn consume(&mut self, token: Token)
        ensures
            final(self).advanced(
                old(self),
                optional_token(old(self).tokens(), old(self).position(), token@),
            ),
    {
        proof {
            use_type_invariant(&*self);
        }
        if self.check(&token) {
            self.position += 1;
        }
    }

    /// Whether the cursor is behind the last token or on the end marker.
    fn is_at_end(&self) -> (ended: bool)
        ensures
            ended == at_end(self.tokens(), self.position()),
    {
        proof {
            use_type_invariant(self);
        }
        self.position >= self.tokens.len() || matches!(self.tokens[self.position], Token::EOF)
    }

    /// The next token, unless the tokens have ended.
    fn peek(&self) -> (token: Option<&Token>)
        ensures
            match token {
                Some(t) => Some(t@),
                None => None,
            } == if at_end(self.tokens(), self.position()) {
                None
            } else {
                Some(self.tokens()[self.position()])
            },
    {
        if self.is_at_end() {
            None
        } else {
            Some(&self.tokens[self.position])
        }
    }
}

/// Whether a token is an operand by itself: a literal or an identifier.
pub open spec fn is_atom(token: TokenView) -> bool {
    token is Number || token is String || token is Boolean || token is Nil || token is Identifier
}

/// The expression that an operand token stands for.
pub open spec fn atom(token: TokenView) -> ExprView {
    match token {
        TokenView::Number(text) => ExprView::Number(text),
        TokenView::String(text) => ExprView::String(text),
        TokenView::Boolean(b) => ExprView::Boolean(b),
        TokenView::Identifier(name) => ExprView::Identifier(name),
        _ => ExprView::Nil,
    }
}

/// Binary operators have no precedence: in `a op b op' c` the first operator
/// is applied first, whatever the two operators are. So `1 + 2 * 3` stands
/// for `(1 + 2) * 3`.
pub proof fn lemma_no_precedence(tokens: Seq<TokenView>, pos: int)
    requires
        0 <= pos,
        pos + 5 <= tokens.len(),
        is_atom(tokens[pos]),
        binary_operator(tokens[pos + 1]) is Some,
        is_atom(tokens[pos + 2]),
        binary_operator(tokens[pos + 3]) is Some,
        is_atom(tokens[pos + 4]),
        at_end(tokens, pos + 5) || binary_operator(tokens[pos + 5]) is None,
    ensures
        expression_at(tokens, pos) == (
            Some(
                ExprView::BinaryOp {
                    left: Box::new(
                        ExprView::BinaryOp {
                            left: Box::new(atom(tokens[pos])),
                            operator: binary_operator(tokens[pos + 1])->0,
                            right: Box::new(atom(tokens[pos + 2])),
                        },
                    ),
                    operator: binary_operator(tokens[pos + 3])->0,
                    right: Box::new(atom(tokens[pos + 4])),
                },
            ),
            5nat,
        ),
{
    reveal_with_fuel(expression_at, 1);
    let a = atom(tokens[pos]);
    let b = atom(tokens[pos + 2]);
    let c = atom(tokens[pos + 4]);
    let first = ExprView::BinaryOp {
        left: Box::new(a),
        operator: binary_operator(tokens[pos + 1])->0,
        right: Box::new(b),
    };
    let second = ExprView::BinaryOp {
        left: Box::new(first),
        operator: binary_operator(tokens[pos + 3])->0,
        right: Box::new(c),
    };
    assert(primary_at(tokens, pos) == (Some(a), 1nat));
    assert(unary_at(tokens, pos) == (Some(a), 1nat));
    assert(primary_at(tokens, pos + 2) == (Some(b), 1nat));
    assert(unary_at(tokens, pos + 2) == (Some(b), 1nat));
    assert(primary_at(tokens, pos + 4) == (Some(c), 1nat));
    assert(unary_at(tokens, pos + 4) == (Some(c), 1nat));
    assert(binary_rest(tokens, pos + 5, second) == (Some(second), 0nat));
    assert(binary_rest(tokens, pos + 3, first) == (Some(second), 2nat));
    assert(binary_rest(tokens, pos + 1, a) == (Some(second), 4nat));
    assert(binary_at(tokens, pos) == (Some(second), 5nat));
}

/// Unary operators nest to the right and bind tighter than binary ones: in
/// `op op' a` the operator next to the operand is applied first.
pub proof fn lemma_unary_nests(tokens: Seq<TokenView>, pos: int)
    requires
        0 <= pos,
        pos + 3 <= tokens.len(),
        unary_operator(tokens[pos]) is Some,
        unary_operator(tokens[pos + 1]) is Some,
        is_atom(tokens[pos + 2]),
    ensures
        unary_at(tokens, pos) == (
            Some(
                ExprView::UnaryOp {
                    operator: unary_operator(tokens[pos])->0,
                    operand: Box::new(
                        ExprView::UnaryOp {
                            operator: unary_operator(tokens[pos + 1])->0,
                            operand: Box::new(atom(tokens[pos + 2])),
                        },
                    ),
                },
            ),
            3nat,
        ),
{
    let a = atom(tokens[pos + 2]);
    assert(primary_at(tokens, pos + 2) == (Some(a), 1nat));
    assert(unary_at(tokens, pos + 2) == (Some(a), 1nat));
    let inner = ExprView::UnaryOp {
        operator: unary_operator(tokens[pos + 1])->0,
        operand: Box::new(a),
    };
    assert(unary_at(tokens, pos + 1) == (Some(inner), 2nat));
}

/// The statements of a source text: it is lexed, and its tokens are parsed.
pub fn parse_source(source: String) -> (stmts: Vec<Stmt>)
    ensures
        stmts_view(&stmts) == parse_tokens(lex(source@)),
{
    let mut lexer = Lexer::new(source);
    let tokens = lexer.tokenize();
    let mut parser = Parser::new(tokens);
    parser.parse()
}

} // verus!
