use vstd::prelude::*;
use vstd::string::StringSliceAdditionalSpecFns;

use crate::expr::{BinaryOperator, Expr, ExprModel, UnaryOperator};
use crate::lexer::{
    digits_end, is_digit, scan, tokenize, tokens, tokens_from, Expectation, ParseError, Token,
    TokenKind,
};
use crate::text::{chars_of, string_of};

verus! {

/// A token whose range lies in `s`, and an integer token's bytes are digits.
pub open spec fn wf_token(s: Seq<u8>, tok: Token) -> bool {
    &&& tok.start < tok.end <= s.len()
    &&& tok.kind == TokenKind::Integer ==> forall|j: int|
        tok.start <= j < tok.end ==> #[trigger] is_digit(s[j])
}

pub open spec fn wf_tokens(s: Seq<u8>, t: Seq<Token>) -> bool {
    forall|i: int| 0 <= i < t.len() ==> wf_token(s, #[trigger] t[i])
}

proof fn lemma_digits(s: Seq<u8>, pos: int, j: int)
    requires
        0 <= pos <= j < digits_end(s, pos),
    ensures
        is_digit(s[j]),
    decreases s.len() - pos,
{
    if pos < j {
        lemma_digits(s, pos + 1, j);
    }
}

proof fn lemma_tokens_wf(s: Seq<u8>, pos: int, keep_trivia: bool)
    requires
        0 <= pos,
        s.len() <= usize::MAX,
    ensures
        tokens_from(s, pos, keep_trivia) is Ok ==> wf_tokens(s, tokens_from(s, pos, keep_trivia)->Ok_0),
    decreases s.len() - pos,
{
    if pos < s.len() {
        if let Some(tok) = scan(s, pos) {
            if pos < tok.end <= s.len() {
                lemma_tokens_wf(s, tok.end as int, keep_trivia);
                crate::lexer::lemma_ends(s, pos);
                if tok.kind == TokenKind::Integer {
                    assert forall|j: int| tok.start <= j < tok.end implies #[trigger] is_digit(s[j]) by {
                        lemma_digits(s, pos, j);
                    }
                }
            }
        }
    }
}

/// The value of a run of decimal digits.
pub open spec fn digits_value(d: Seq<u8>) -> nat
    decreases d.len(),
{
    if d.len() == 0 {
        0
    } else {
        digits_value(d.drop_last()) * 10 + (d.last() - 48) as nat
    }
}

pub open spec fn token_value(s: Seq<u8>, tok: Token) -> nat {
    digits_value(s.subrange(tok.start as int, tok.end as int))
}

pub open spec fn token_text(s: Seq<u8>, tok: Token) -> Seq<char> {
    chars_of(s, tok.start as int, tok.end as int)
}

/// A value above every bound that an integer literal is held to.
pub const VALUE_CAP: u64 = 2147483649;

pub open spec fn capped(n: nat) -> nat {
    if n >= VALUE_CAP { VALUE_CAP as nat } else { n }
}

fn token_value_exec(s: &[u8], tok: Token) -> (r: u64)
    requires
        wf_token(s@, tok),
        tok.kind == TokenKind::Integer,
    ensures
        r == capped(token_value(s@, tok)),
{
    let mut acc: u64 = 0;
    let mut i: usize = tok.start;
    proof {
        assert(s@.subrange(tok.start as int, i as int).len() == 0);
    }
    while i < tok.end
        invariant
            wf_token(s@, tok),
            tok.kind == TokenKind::Integer,
            tok.start <= i <= tok.end,
            acc == capped(digits_value(s@.subrange(tok.start as int, i as int))),
        decreases tok.end - i,
    {
        let ghost v = digits_value(s@.subrange(tok.start as int, i as int));
        assert(is_digit(s@[i as int]));
        let d = (s[i] - 48) as u64;
        proof {
            let next = s@.subrange(tok.start as int, i + 1);
            assert(next.drop_last() =~= s@.subrange(tok.start as int, i as int));
            assert(next.last() == s@[i as int]);
            assert(v * 10 >= v) by (nonlinear_arith);
        }
        if acc >= VALUE_CAP {
            acc = VALUE_CAP;
        } else {
            acc = acc * 10 + d;
            if acc > VALUE_CAP {
                acc = VALUE_CAP;
            }
        }
        i = i + 1;
    }
    acc
}

pub type ParseResult = Result<(ExprModel, int), ParseError>;

pub open spec fn offset_at(s: Seq<u8>, t: Seq<Token>, pos: int) -> usize {
    if 0 <= pos < t.len() {
        t[pos].start
    } else {
        s.len() as usize
    }
}

pub open spec fn fail(s: Seq<u8>, t: Seq<Token>, pos: int, x: Expectation) -> ParseResult {
    Err(ParseError { offset: offset_at(s, t, pos), expected: x })
}

pub open spec fn kind_at(t: Seq<Token>, pos: int) -> Option<TokenKind> {
    if 0 <= pos < t.len() {
        Some(t[pos].kind)
    } else {
        None
    }
}

/// atom := integer | ("+" | "-") integer | float | variable | "(" expr ")"
/// where a sign stands right before the digits.
pub open spec fn parse_atom(s: Seq<u8>, t: Seq<Token>, pos: int) -> ParseResult
    decreases t.len() - pos, 0nat,
{
    if pos < 0 || pos >= t.len() {
        fail(s, t, pos, Expectation::Operand)
    } else {
        let k = t[pos].kind;
        if k == TokenKind::Integer {
            let n = token_value(s, t[pos]);
            if n <= i32::MAX {
                Ok((ExprModel::Integer(n as i32), pos + 1))
            } else {
                fail(s, t, pos, Expectation::IntegerInRange)
            }
        } else if (k == TokenKind::Plus || k == TokenKind::Minus) && kind_at(t, pos + 1) == Some(
            TokenKind::Integer,
        ) && t[pos].end == t[pos + 1].start {
            let n = token_value(s, t[pos + 1]);
            if k == TokenKind::Plus && n <= i32::MAX {
                Ok((ExprModel::Integer(n as i32), pos + 2))
            } else if k == TokenKind::Minus && n <= 2147483648 {
                Ok((ExprModel::Integer((-n) as i32), pos + 2))
            } else {
                fail(s, t, pos, Expectation::IntegerInRange)
            }
        } else if k == TokenKind::Float {
            Ok((ExprModel::Float(token_text(s, t[pos])), pos + 1))
        } else if k == TokenKind::Identifier {
            Ok((ExprModel::UnboundVariable(token_text(s, t[pos])), pos + 1))
        } else if k == TokenKind::OpenParen {
            match parse_expr(s, t, pos + 1) {
                Ok((e, p)) => if kind_at(t, p) == Some(TokenKind::CloseParen) {
                    Ok((e, p + 1))
                } else {
                    fail(s, t, p, Expectation::CloseParen)
                },
                Err(e) => Err(e),
            }
        } else {
            fail(s, t, pos, Expectation::Operand)
        }
    }
}

/// power := atom ("^" unary)?, so that `^` groups to the right.
pub open spec fn parse_power(s: Seq<u8>, t: Seq<Token>, pos: int) -> ParseResult
    decreases t.len() - pos, 1nat,
{
    match parse_atom(s, t, pos) {
        Ok((a, p)) => if pos <= p && kind_at(t, p) == Some(TokenKind::Caret) {
            match parse_unary(s, t, p + 1) {
                Ok((r, q)) => Ok(
                    (
                        ExprModel::BinaryOperation(Box::new(a), BinaryOperator::Power, Box::new(r)),
                        q,
                    ),
                ),
                Err(e) => Err(e),
            }
        } else {
            Ok((a, p))
        },
        Err(e) => Err(e),
    }
}

/// unary := "-"? power, so that `-2 ^ 2` is `-(2 ^ 2)`.
pub open spec fn parse_unary(s: Seq<u8>, t: Seq<Token>, pos: int) -> ParseResult
    decreases t.len() - pos, 2nat,
{
    if 0 <= pos && kind_at(t, pos) == Some(TokenKind::Minus) {
        match parse_power(s, t, pos + 1) {
            Ok((e, p)) => Ok((ExprModel::UnaryOperation(UnaryOperator::Minus, Box::new(e)), p)),
            Err(e) => Err(e),
        }
    } else {
        parse_power(s, t, pos)
    }
}

pub open spec fn multiplicative(k: TokenKind) -> Option<BinaryOperator> {
    if k == TokenKind::Star {
        Some(BinaryOperator::Multiply)
    } else if k == TokenKind::Slash {
        Some(BinaryOperator::Divide)
    } else if k == TokenKind::Percent {
        Some(BinaryOperator::Modulo)
    } else {
        None
    }
}

pub open spec fn additive(k: TokenKind) -> Option<BinaryOperator> {
    if k == TokenKind::Plus {
        Some(BinaryOperator::Add)
    } else if k == TokenKind::Minus {
        Some(BinaryOperator::Subtract)
    } else {
        None
    }
}

/// The rest of a term after `lhs`: (("*" | "/" | "%") unary)*, grouped to the left.
pub open spec fn parse_term_rest(s: Seq<u8>, t: Seq<Token>, lhs: ExprModel, pos: int) -> ParseResult
    decreases t.len() - pos, 3nat,
{
    if 0 <= pos < t.len() && multiplicative(t[pos].kind) is Some {
        let op = multiplicative(t[pos].kind)->0;
        match parse_unary(s, t, pos + 1) {
            Ok((r, q)) => if pos < q <= t.len() {
                parse_term_rest(
                    s,
                    t,
                    ExprModel::BinaryOperation(Box::new(lhs), op, Box::new(r)),
                    q,
                )
            } else {
                Ok((lhs, pos))
            },
            Err(e) => Err(e),
        }
    } else {
        Ok((lhs, pos))
    }
}

/// term := unary (("*" | "/" | "%") unary)*
pub open spec fn parse_term(s: Seq<u8>, t: Seq<Token>, pos: int) -> ParseResult
    decreases t.len() - pos, 4nat,
{
    match parse_unary(s, t, pos) {
        Ok((e, p)) => if pos <= p <= t.len() {
            parse_term_rest(s, t, e, p)
        } else {
            Ok((e, p))
        },
        Err(e) => Err(e),
    }
}

/// The rest of an expression after `lhs`: (("+" | "-") term)*, grouped to the left.
pub open spec fn parse_expr_rest(s: Seq<u8>, t: Seq<Token>, lhs: ExprModel, pos: int) -> ParseResult
    decreases t.len() - pos, 5nat,
{
    if 0 <= pos < t.len() && additive(t[pos].kind) is Some {
        let op = additive(t[pos].kind)->0;
        match parse_term(s, t, pos + 1) {
            Ok((r, q)) => if pos < q <= t.len() {
                parse_expr_rest(
                    s,
                    t,
                    ExprModel::BinaryOperation(Box::new(lhs), op, Box::new(r)),
                    q,
                )
            } else {
                Ok((lhs, pos))
            },
            Err(e) => Err(e),
        }
    } else {
        Ok((lhs, pos))
    }
}

/// expr := term (("+" | "-") term)*
pub open spec fn parse_expr(s: Seq<u8>, t: Seq<Token>, pos: int) -> ParseResult
    decreases t.len() - pos, 6nat,
{
    match parse_term(s, t, pos) {
        Ok((e, p)) => if pos <= p <= t.len() {
            parse_expr_rest(s, t, e, p)
        } else {
            Ok((e, p))
        },
        Err(e) => Err(e),
    }
}


/// The parser of the expression language: a recursive descent over tokens, one
/// function per grammar rule.
pub struct CalculatorParser;

pub open spec fn agrees(r: Result<(Expr, usize), ParseError>, m: ParseResult) -> bool {
    match r {
        Ok((e, p)) => m == Ok::<(ExprModel, int), ParseError>((e@, p as int)),
        Err(x) => m == Err::<(ExprModel, int), ParseError>(x),
    }
}

pub open spec fn advances(r: Result<(Expr, usize), ParseError>, pos: int, len: int) -> bool {
    r is Ok ==> pos < r->Ok_0.1 <= len
}

impl CalculatorParser {
    fn offset(s: &[u8], t: &Vec<Token>, pos: usize) -> (r: usize)
        ensures
            r == offset_at(s@, t@, pos as int),
    {
        if pos < t.len() {
            t[pos].start
        } else {
            s.len()
        }
    }

    fn kind(t: &Vec<Token>, pos: usize) -> (r: Option<TokenKind>)
        ensures
            r == kind_at(t@, pos as int),
    {
        if pos < t.len() {
            Some(t[pos].kind)
        } else {
            None
        }
    }

    fn atom(s: &[u8], t: &Vec<Token>, pos: usize) -> (r: Result<(Expr, usize), ParseError>)
        requires
            wf_tokens(s@, t@),
            pos <= t@.len(),
        ensures
            agrees(r, parse_atom(s@, t@, pos as int)),
            advances(r, pos as int, t@.len() as int),
        decreases t@.len() - pos, 0nat,
    {
        if pos >= t.len() {
            return Err(ParseError { offset: Self::offset(s, t, pos), expected: Expectation::Operand });
        }
        let tok = t[pos];
        assert(wf_token(s@, t@[pos as int]));
        let k = tok.kind;
        if k == TokenKind::Integer {
            let n = token_value_exec(s, tok);
            if n <= 2147483647 {
                Ok((Expr::Integer { value: n as i32 }, pos + 1))
            } else {
                Err(ParseError { offset: tok.start, expected: Expectation::IntegerInRange })
            }
        } else if (k == TokenKind::Plus || k == TokenKind::Minus) && Self::kind(t, pos + 1) == Some(
            TokenKind::Integer,
        ) && tok.end == t[pos + 1].start {
            assert(wf_token(s@, t@[pos + 1]));
            let n = token_value_exec(s, t[pos + 1]);
            if k == TokenKind::Plus && n <= 2147483647 {
                Ok((Expr::Integer { value: n as i32 }, pos + 2))
            } else if k == TokenKind::Minus && n <= 2147483648 {
                let v: i64 = -(n as i64);
                Ok((Expr::Integer { value: v as i32 }, pos + 2))
            } else {
                Err(ParseError { offset: tok.start, expected: Expectation::IntegerInRange })
            }
        } else if k == TokenKind::Float {
            Ok((Expr::Float { literal: string_of(s, tok.start, tok.end) }, pos + 1))
        } else if k == TokenKind::Identifier {
            Ok((Expr::UnboundVariable { name: string_of(s, tok.start, tok.end) }, pos + 1))
        } else if k == TokenKind::OpenParen {
            match Self::expr(s, t, pos + 1) {
                Ok((e, p)) => if Self::kind(t, p) == Some(TokenKind::CloseParen) {
                    Ok((e, p + 1))
                } else {
                    Err(ParseError { offset: Self::offset(s, t, p), expected: Expectation::CloseParen })
                },
                Err(e) => Err(e),
            }
        } else {
            Err(ParseError { offset: tok.start, expected: Expectation::Operand })
        }
    }

    fn power(s: &[u8], t: &Vec<Token>, pos: usize) -> (r: Result<(Expr, usize), ParseError>)
        requires
            wf_tokens(s@, t@),
            pos <= t@.len(),
        ensures
            agrees(r, parse_power(s@, t@, pos as int)),
            advances(r, pos as int, t@.len() as int),
        decreases t@.len() - pos, 1nat,
    {
        match Self::atom(s, t, pos) {
            Ok((a, p)) => if p < t.len() && Self::kind(t, p) == Some(TokenKind::Caret) {
                match Self::unary(s, t, p + 1) {
                    Ok((r, q)) => Ok(
                        (
                            Expr::BinaryOperation {
                                lhs: Box::new(a),
                                op: BinaryOperator::Power,
                                rhs: Box::new(r),
                            },
                            q,
                        ),
                    ),
                    Err(e) => Err(e),
                }
            } else {
                Ok((a, p))
            },
            Err(e) => Err(e),
        }
    }

    fn unary(s: &[u8], t: &Vec<Token>, pos: usize) -> (r: Result<(Expr, usize), ParseError>)
        requires
            wf_tokens(s@, t@),
            pos <= t@.len(),
        ensures
            agrees(r, parse_unary(s@, t@, pos as int)),
            advances(r, pos as int, t@.len() as int),
        decreases t@.len() - pos, 2nat,
    {
        if pos < t.len() && Self::kind(t, pos) == Some(TokenKind::Minus) {
            match Self::power(s, t, pos + 1) {
                Ok((e, p)) => Ok(
                    (Expr::UnaryOperation { op: UnaryOperator::Minus, expr: Box::new(e) }, p),
                ),
                Err(e) => Err(e),
            }
        } else {
            Self::power(s, t, pos)
        }
    }

    fn multiplicative_exec(k: TokenKind) -> (r: Option<BinaryOperator>)
        ensures
            r == multiplicative(k),
    {
        match k {
            TokenKind::Star => Some(BinaryOperator::Multiply),
            TokenKind::Slash => Some(BinaryOperator::Divide),
            TokenKind::Percent => Some(BinaryOperator::Modulo),
            _ => None,
        }
    }

    fn additive_exec(k: TokenKind) -> (r: Option<BinaryOperator>)
        ensures
            r == additive(k),
    {
        match k {
            TokenKind::Plus => Some(BinaryOperator::Add),
            TokenKind::Minus => Some(BinaryOperator::Subtract),
            _ => None,
        }
    }

    fn term_rest(s: &[u8], t: &Vec<Token>, lhs: Expr, pos: usize) -> (r: Result<(Expr, usize), ParseError>)
        requires
            wf_tokens(s@, t@),
            pos <= t@.len(),
        ensures
            agrees(r, parse_term_rest(s@, t@, lhs@, pos as int)),
            r is Ok ==> pos <= r->Ok_0.1 <= t@.len(),
        decreases t@.len() - pos, 3nat,
    {
        if pos < t.len() {
            if let Some(op) = Self::multiplicative_exec(t[pos].kind) {
                return match Self::unary(s, t, pos + 1) {
                    Ok((r, q)) => Self::term_rest(
                        s,
                        t,
                        Expr::BinaryOperation { lhs: Box::new(lhs), op, rhs: Box::new(r) },
                        q,
                    ),
                    Err(e) => Err(e),
                };
            }
        }
        Ok((lhs, pos))
    }

    fn term(s: &[u8], t: &Vec<Token>, pos: usize) -> (r: Result<(Expr, usize), ParseError>)
        requires
            wf_tokens(s@, t@),
            pos <= t@.len(),
        ensures
            agrees(r, parse_term(s@, t@, pos as int)),
            advances(r, pos as int, t@.len() as int),
        decreases t@.len() - pos, 4nat,
    {
        match Self::unary(s, t, pos) {
            Ok((e, p)) => Self::term_rest(s, t, e, p),
            Err(e) => Err(e),
        }
    }

    fn expr_rest(s: &[u8], t: &Vec<Token>, lhs: Expr, pos: usize) -> (r: Result<(Expr, usize), ParseError>)
        requires
            wf_tokens(s@, t@),
            pos <= t@.len(),
        ensures
            agrees(r, parse_expr_rest(s@, t@, lhs@, pos as int)),
            r is Ok ==> pos <= r->Ok_0.1 <= t@.len(),
        decreases t@.len() - pos, 5nat,
    {
        if pos < t.len() {
            if let Some(op) = Self::additive_exec(t[pos].kind) {
                return match Self::term(s, t, pos + 1) {
                    Ok((r, q)) => Self::expr_rest(
                        s,
                        t,
                        Expr::BinaryOperation { lhs: Box::new(lhs), op, rhs: Box::new(r) },
                        q,
                    ),
                    Err(e) => Err(e),
                };
            }
        }
        Ok((lhs, pos))
    }

    fn expr(s: &[u8], t: &Vec<Token>, pos: usize) -> (r: Result<(Expr, usize), ParseError>)
        requires
            wf_tokens(s@, t@),
            pos <= t@.len(),
        ensures
            agrees(r, parse_expr(s@, t@, pos as int)),
            advances(r, pos as int, t@.len() as int),
        decreases t@.len() - pos, 6nat,
    {
        match Self::term(s, t, pos) {
            Ok((e, p)) => Self::expr_rest(s, t, e, p),
            Err(e) => Err(e),
        }
    }
}

/// A meta-command of the interactive session, written `:name`.
#[derive(Debug)]
pub enum Command {
    /// `:state` lists the bound variables.
    State,
    /// `:reset` clears the environment.
    Reset,
    /// `:debug` shows the last expression tree.
    Debug,
    /// Any other name.
    Unknown { name: String },
}

pub enum CommandModel {
    State,
    Reset,
    Debug,
    Unknown(Seq<char>),
}

impl View for Command {
    type V = CommandModel;

    open spec fn view(&self) -> CommandModel {
        match self {
            Command::State => CommandModel::State,
            Command::Reset => CommandModel::Reset,
            Command::Debug => CommandModel::Debug,
            Command::Unknown { name } => CommandModel::Unknown(name@),
        }
    }
}

/// A complete line of input.
#[derive(Debug)]
pub enum Statement {
    /// `identifier = expr`
    Assignment { identifier: String, expr: Expr },
    /// `:name`
    Command { command: Command },
    /// A bare expression.
    Expression { expr: Expr },
}

pub enum StatementModel {
    Assignment(Seq<char>, ExprModel),
    Command(CommandModel),
    Expression(ExprModel),
}

impl View for Statement {
    type V = StatementModel;

    open spec fn view(&self) -> StatementModel {
        match self {
            Statement::Assignment { identifier, expr } => StatementModel::Assignment(
                identifier@,
                expr@,
            ),
            Statement::Command { command } => StatementModel::Command(command@),
            Statement::Expression { expr } => StatementModel::Expression(expr@),
        }
    }
}

/// The command that the name token `tok` selects.
pub open spec fn command_of(s: Seq<u8>, tok: Token) -> CommandModel {
    let w = s.subrange(tok.start as int, tok.end as int);
    if w == seq![115u8, 116, 97, 116, 101] {
        CommandModel::State
    } else if w == seq![114u8, 101, 115, 101, 116] {
        CommandModel::Reset
    } else if w == seq![100u8, 101, 98, 117, 103] {
        CommandModel::Debug
    } else {
        CommandModel::Unknown(token_text(s, tok))
    }
}

/// equation := (identifier "=" expr | ":" identifier | expr) end-of-input,
/// over the tokens `t` of `s`, whitespace and comments left out.
pub open spec fn parse_statement_tokens(s: Seq<u8>, t: Seq<Token>) -> Result<StatementModel, ParseError> {
    if t.len() >= 2 && t[0].kind == TokenKind::Identifier && t[1].kind == TokenKind::Equals {
        match parse_expr(s, t, 2) {
            Ok((e, p)) => if p == t.len() {
                Ok(StatementModel::Assignment(token_text(s, t[0]), e))
            } else {
                Err(ParseError { offset: offset_at(s, t, p), expected: Expectation::EndOfInput })
            },
            Err(e) => Err(e),
        }
    } else if t.len() >= 1 && t[0].kind == TokenKind::Colon {
        if t.len() >= 2 && t[1].kind == TokenKind::Identifier {
            if t.len() == 2 {
                Ok(StatementModel::Command(command_of(s, t[1])))
            } else {
                Err(ParseError { offset: offset_at(s, t, 2), expected: Expectation::EndOfInput })
            }
        } else {
            Err(ParseError { offset: offset_at(s, t, 1), expected: Expectation::CommandName })
        }
    } else {
        match parse_expr(s, t, 0) {
            Ok((e, p)) => if p == t.len() {
                Ok(StatementModel::Expression(e))
            } else {
                Err(ParseError { offset: offset_at(s, t, p), expected: Expectation::EndOfInput })
            },
            Err(e) => Err(e),
        }
    }
}

/// What a line of input parses to: its tokens, whitespace and comments left out,
/// read as one statement.
pub open spec fn parse_statement(s: Seq<u8>) -> Result<StatementModel, ParseError> {
    match tokens(s, false) {
        Ok(t) => parse_statement_tokens(s, t),
        Err(e) => Err(e),
    }
}

fn word_is(s: &[u8], tok: Token, w: &Vec<u8>) -> (r: bool)
    requires
        tok.start <= tok.end <= s@.len(),
    ensures
        r == (s@.subrange(tok.start as int, tok.end as int) == w@),
{
    if tok.end - tok.start != w.len() {
        proof {
            assert(s@.subrange(tok.start as int, tok.end as int).len() != w@.len());
        }
        return false;
    }
    let mut i: usize = 0;
    while i < w.len()
        invariant
            tok.start <= tok.end <= s@.len(),
            tok.end - tok.start == w@.len(),
            0 <= i <= w@.len(),
            forall|j: int| 0 <= j < i ==> s@[tok.start + j] == w@[j],
        decreases w@.len() - i,
    {
        if s[tok.start + i] != w[i] {
            proof {
                assert(s@.subrange(tok.start as int, tok.end as int)[i as int] != w@[i as int]);
            }
            return false;
        }
        i = i + 1;
    }
    proof {
        assert(s@.subrange(tok.start as int, tok.end as int) =~= w@);
    }
    true
}

fn command_exec(s: &[u8], tok: Token) -> (r: Command)
    requires
        tok.start <= tok.end <= s@.len(),
    ensures
        r@ == command_of(s@, tok),
{
    let state: Vec<u8> = vec![115u8, 116, 97, 116, 101];
    let reset: Vec<u8> = vec![114u8, 101, 115, 101, 116];
    let debug: Vec<u8> = vec![100u8, 101, 98, 117, 103];
    proof {
        assert(state@ =~= seq![115u8, 116, 97, 116, 101]);
        assert(reset@ =~= seq![114u8, 101, 115, 101, 116]);
        assert(debug@ =~= seq![100u8, 101, 98, 117, 103]);
    }
    if word_is(s, tok, &state) {
        Command::State
    } else if word_is(s, tok, &reset) {
        Command::Reset
    } else if word_is(s, tok, &debug) {
        Command::Debug
    } else {
        Command::Unknown { name: string_of(s, tok.start, tok.end) }
    }
}

/// Parses one complete line: an assignment, a command or an expression.
pub fn parse_equation(input: &str) -> (r: Result<Statement, ParseError>)
    ensures
        match r {
            Ok(st) => parse_statement(input.spec_bytes()) == Ok::<StatementModel, ParseError>(st@),
            Err(e) => parse_statement(input.spec_bytes()) == Err::<StatementModel, ParseError>(e),
        },
{
    let s = input.as_bytes();
    // Reading the length tells the proof that it fits in a usize.
    let _len = s.len();
    proof {
        lemma_tokens_wf(s@, 0, false);
    }
    let t = match tokenize(s, false) {
        Ok(t) => t,
        Err(e) => {
            return Err(e);
        },
    };
    if t.len() >= 2 && t[0].kind == TokenKind::Identifier && t[1].kind == TokenKind::Equals {
        assert(wf_token(s@, t@[0]));
        match CalculatorParser::expr(s, &t, 2) {
            Ok((e, p)) => if p == t.len() {
                Ok(Statement::Assignment { identifier: string_of(s, t[0].start, t[0].end), expr: e })
            } else {
                Err(ParseError { offset: CalculatorParser::offset(s, &t, p), expected: Expectation::EndOfInput })
            },
            Err(e) => Err(e),
        }
    } else if t.len() >= 1 && t[0].kind == TokenKind::Colon {
        if t.len() >= 2 && t[1].kind == TokenKind::Identifier {
            assert(wf_token(s@, t@[1]));
            if t.len() == 2 {
                Ok(Statement::Command { command: command_exec(s, t[1]) })
            } else {
                Err(ParseError { offset: CalculatorParser::offset(s, &t, 2), expected: Expectation::EndOfInput })
            }
        } else {
            Err(ParseError { offset: CalculatorParser::offset(s, &t, 1), expected: Expectation::CommandName })
        }
    } else {
        match CalculatorParser::expr(s, &t, 0) {
            Ok((e, p)) => if p == t.len() {
                Ok(Statement::Expression { expr: e })
            } else {
                Err(ParseError { offset: CalculatorParser::offset(s, &t, p), expected: Expectation::EndOfInput })
            },
            Err(e) => Err(e),
        }
    }
}

/// Splits a possibly incomplete line into its tokens, whitespace and comments
/// included, for highlighting; fails at the first byte that starts no token.
pub fn parse_partial_term(input: &str) -> (r: Result<Vec<Token>, ParseError>)
    ensures
        match r {
            Ok(v) => tokens(input.spec_bytes(), true) == Ok::<Seq<Token>, ParseError>(v@),
            Err(e) => tokens(input.spec_bytes(), true) == Err::<Seq<Token>, ParseError>(e),
        },
{
    tokenize(input.as_bytes(), true)
}

/// The decimal digits of `n`, most significant first, as a number is displayed.
pub open spec fn decimal(n: nat) -> Seq<u8>
    decreases n,
{
    if n < 10 {
        seq![(48 + n) as u8]
    } else {
        decimal(n / 10).push((48 + n % 10) as u8)
    }
}

proof fn lemma_decimal(n: nat)
    ensures
        0 < decimal(n).len() <= n + 1,
        forall|j: int| 0 <= j < decimal(n).len() ==> #[trigger] is_digit(decimal(n)[j]),
        digits_value(decimal(n)) == n,
    decreases n,
{
    let d = decimal(n);
    if n < 10 {
        assert(d.drop_last() =~= Seq::<u8>::empty());
        assert(d.last() == (48 + n) as u8);
        assert(digits_value(d.drop_last()) == 0);
        assert(digits_value(d) == digits_value(d.drop_last()) * 10 + (d.last() - 48) as nat);
    } else {
        lemma_decimal(n / 10);
        assert(d.drop_last() =~= decimal(n / 10));
        assert(d.last() == (48 + n % 10) as u8);
        assert((d.last() - 48) as nat == n % 10);
        assert(n == (n / 10) * 10 + n % 10);
        assert(digits_value(d) == digits_value(d.drop_last()) * 10 + (d.last() - 48) as nat);
        assert forall|j: int| 0 <= j < d.len() implies #[trigger] is_digit(d[j]) by {
            if j < d.len() - 1 {
                assert(d[j] == decimal(n / 10)[j]);
            }
        }
    }
}

proof fn lemma_all_digits_end(s: Seq<u8>, pos: int)
    requires
        0 <= pos <= s.len(),
        forall|j: int| pos <= j < s.len() ==> #[trigger] is_digit(s[j]),
    ensures
        digits_end(s, pos) == s.len(),
    decreases s.len() - pos,
{
    if pos < s.len() {
        lemma_all_digits_end(s, pos + 1);
    }
}

/// Entering the decimal text of a number that fits in 32 bits, as it is
/// displayed, gives back an integer literal of that value.
pub proof fn lemma_integer_text_round_trip(n: nat)
    requires
        n <= i32::MAX,
    ensures
        parse_statement(decimal(n)) == Ok::<StatementModel, ParseError>(
            StatementModel::Expression(ExprModel::Integer(n as i32)),
        ),
{
    let s = decimal(n);
    lemma_decimal(n);
    lemma_all_digits_end(s, 0);
    let tok = Token { kind: TokenKind::Integer, start: 0, end: s.len() as usize };
    assert(scan(s, 0) == Some(tok));
    assert(tokens_from(s, s.len() as int, false) == Ok::<Seq<Token>, ParseError>(Seq::empty()));
    assert(tokens(s, false) == Ok::<Seq<Token>, ParseError>(seq![tok] + Seq::empty()));
    let t = seq![tok] + Seq::<Token>::empty();
    assert(t =~= seq![tok]);
    assert(s.subrange(0, s.len() as int) =~= s);
    assert(token_value(s, t[0]) == n);
    assert(parse_atom(s, t, 0) == Ok::<(ExprModel, int), ParseError>((ExprModel::Integer(n as i32), 1)));
    assert(parse_power(s, t, 0) == Ok::<(ExprModel, int), ParseError>((ExprModel::Integer(n as i32), 1)));
    assert(parse_unary(s, t, 0) == Ok::<(ExprModel, int), ParseError>((ExprModel::Integer(n as i32), 1)));
    assert(parse_term(s, t, 0) == Ok::<(ExprModel, int), ParseError>((ExprModel::Integer(n as i32), 1)));
    assert(parse_expr(s, t, 0) == Ok::<(ExprModel, int), ParseError>((ExprModel::Integer(n as i32), 1)));
}

/// Entering the text of a negative number, a minus sign before the digits of
/// `n`, gives back the negation of the integer literal `n`.
pub proof fn lemma_negative_integer_text_round_trip(n: nat)
    requires
        n <= i32::MAX,
    ensures
        parse_statement(seq![45u8] + decimal(n)) == Ok::<StatementModel, ParseError>(
            StatementModel::Expression(
                ExprModel::UnaryOperation(UnaryOperator::Minus, Box::new(ExprModel::Integer(n as i32))),
            ),
        ),
{
    let s = seq![45u8] + decimal(n);
    lemma_decimal(n);
    assert forall|j: int| 1 <= j < s.len() implies #[trigger] is_digit(s[j]) by {
        assert(s[j] == decimal(n)[j - 1]);
    }
    lemma_all_digits_end(s, 1);
    let minus = Token { kind: TokenKind::Minus, start: 0, end: 1 };
    let tok = Token { kind: TokenKind::Integer, start: 1, end: s.len() as usize };
    assert(scan(s, 0) == Some(minus));
    assert(scan(s, 1) == Some(tok));
    assert(tokens_from(s, s.len() as int, false) == Ok::<Seq<Token>, ParseError>(Seq::empty()));
    assert(tokens_from(s, 1, false) == Ok::<Seq<Token>, ParseError>(seq![tok] + Seq::empty()));
    let t = seq![minus] + (seq![tok] + Seq::<Token>::empty());
    assert(tokens(s, false) == Ok::<Seq<Token>, ParseError>(t));
    assert(t =~= seq![minus, tok]);
    assert(s.subrange(1, s.len() as int) =~= decimal(n));
    assert(token_value(s, t[1]) == n);
    let lit = ExprModel::Integer(n as i32);
    let neg = ExprModel::UnaryOperation(UnaryOperator::Minus, Box::new(lit));
    assert(parse_atom(s, t, 1) == Ok::<(ExprModel, int), ParseError>((lit, 2)));
    assert(parse_power(s, t, 1) == Ok::<(ExprModel, int), ParseError>((lit, 2)));
    assert(parse_unary(s, t, 0) == Ok::<(ExprModel, int), ParseError>((neg, 2)));
    assert(parse_term(s, t, 0) == Ok::<(ExprModel, int), ParseError>((neg, 2)));
    assert(parse_expr(s, t, 0) == Ok::<(ExprModel, int), ParseError>((neg, 2)));
}

} // verus!
