//! Parser of OTL expressions: a token list to an expression tree, with names
//! resolved against a script's compile-time bindings.
//!
//! Grammar (`*` and `/` bind tighter than `+` and `-`, all left-associative):
//!
//! ```text
//! expression := term (('+' | '-') term)*
//! term       := factor (('*' | '/') factor)*
//! factor     := '-' factor | primary
//! primary    := number | identifier | identifier '(' arguments ')' | '(' expression ')'
//! arguments  := ε | expression (',' expression)*
//! ```
//!
//! A leading `-` stands for `0 - factor`. An identifier bound to the input
//! series is the input, one bound to a scalar parameter is that parameter;
//! neither may be called.

use crate::ast::{BinOp, CompileError, TokenKind};
use crate::compile_context::{empty_context, is_scalar, is_series, lower_string, ContextModel, ScriptCompileContext};
use crate::lexer::{is_input_ident, lex_from, spec_is_input_ident, token_kind, token_views, tokenize, Token, TokenModel};
use crate::text::{append_chars, chars_of, lower, lower_of, seq_eq, string_of, trim, trim_of};
use vstd::prelude::*;

verus! {

/// A literal of an expression: a number as written, or the key of the
/// scalar parameter whose value stands in its place.
#[derive(Debug, PartialEq)]
pub enum Literal {
    Number(String),
    Scalar(String),
}

#[derive(Debug, PartialEq)]
pub enum Expr {
    Literal(Literal),
    Input,
    Binary(Box<Expr>, BinOp, Box<Expr>),
    Call { name: String, args: Vec<Expr> },
}

pub enum LiteralModel {
    Number(Seq<char>),
    Scalar(Seq<char>),
}

pub enum ExprModel {
    Literal(LiteralModel),
    Input,
    Binary(Box<ExprModel>, BinOp, Box<ExprModel>),
    Call(Seq<char>, Seq<ExprModel>),
}

pub open spec fn literal_model(l: Literal) -> LiteralModel {
    match l {
        Literal::Number(s) => LiteralModel::Number(s@),
        Literal::Scalar(s) => LiteralModel::Scalar(s@),
    }
}

pub open spec fn expr_model(e: Expr) -> ExprModel
    decreases e,
{
    match e {
        Expr::Literal(l) => ExprModel::Literal(literal_model(l)),
        Expr::Input => ExprModel::Input,
        Expr::Binary(a, op, b) => ExprModel::Binary(
            Box::new(expr_model(*a)),
            op,
            Box::new(expr_model(*b)),
        ),
        Expr::Call { name, args } => ExprModel::Call(name@, args_model(args@)),
    }
}

pub open spec fn args_model(args: Seq<Expr>) -> Seq<ExprModel>
    decreases args,
{
    if args.len() == 0 {
        Seq::empty()
    } else {
        args_model(args.drop_last()).push(expr_model(args.last()))
    }
}

impl View for Expr {
    type V = ExprModel;

    open spec fn view(&self) -> ExprModel {
        expr_model(*self)
    }
}


// ---------------------------------------------------------------------------
// The grammar
// ---------------------------------------------------------------------------

/// Why a parse fails.
pub enum ParseFailure {
    EmptyInput,
    Unexpected(Seq<char>, TokenKind),
    UnknownIdentifier(Seq<char>),
    Evaluation(Seq<char>),
}

/// `e` reports the failure `f`.
pub open spec fn is_failure(e: CompileError, f: ParseFailure) -> bool {
    match f {
        ParseFailure::EmptyInput => e matches CompileError::EmptyInput,
        ParseFailure::Unexpected(x, g) => e matches CompileError::UnexpectedToken { expected, got }
            && expected@ == x && got == g,
        ParseFailure::UnknownIdentifier(n) => e matches CompileError::UnknownIdentifier(m) && m@
            == n,
        ParseFailure::Evaluation(s) => e matches CompileError::Evaluation(m) && m@ == s,
    }
}

/// A tree and the position after it, or why none stands at the position.
pub type Parsed = Result<(ExprModel, int), ParseFailure>;

/// An argument list and the position after it.
pub type ParsedArgs = Result<(Seq<ExprModel>, int), ParseFailure>;

pub open spec fn kind_at(t: Seq<TokenModel>, p: int) -> TokenKind {
    if 0 <= p < t.len() {
        token_kind(t[p])
    } else {
        TokenKind::Eof
    }
}

/// Positions only move forward (`lemma_expression_progress`), so no parse
/// ever ends here.
pub open spec fn stalled() -> ParseFailure {
    ParseFailure::Evaluation(Seq::empty())
}

pub open spec fn not_callable(what: Seq<char>, name: Seq<char>) -> Seq<char> {
    what + " `"@ + name + "` is not callable"@
}

/// `expression` at `p`.
pub open spec fn p_expression(t: Seq<TokenModel>, p: int, cx: ContextModel) -> Parsed
    decreases t.len() - p, 6int,
{
    if p < 0 || p > t.len() {
        Err(stalled())
    } else {
        match p_term(t, p, cx) {
            Err(f) => Err(f),
            Ok((l, q)) => if p < q <= t.len() {
                expression_tail(t, l, q, cx)
            } else {
                Err(stalled())
            },
        }
    }
}

/// The `(('+' | '-') term)*` part at `q`, after the operand `l`.
pub open spec fn expression_tail(t: Seq<TokenModel>, l: ExprModel, q: int, cx: ContextModel) -> Parsed
    decreases t.len() - q, 6int,
{
    if q < 0 || q > t.len() {
        Err(stalled())
    } else if kind_at(t, q) == TokenKind::Plus || kind_at(t, q) == TokenKind::Minus {
        let op = if kind_at(t, q) == TokenKind::Plus {
            BinOp::Add
        } else {
            BinOp::Sub
        };
        match p_term(t, q + 1, cx) {
            Err(f) => Err(f),
            Ok((r, q2)) => if q < q2 <= t.len() {
                expression_tail(t, ExprModel::Binary(Box::new(l), op, Box::new(r)), q2, cx)
            } else {
                Err(stalled())
            },
        }
    } else {
        Ok((l, q))
    }
}

/// `term` at `p`.
pub open spec fn p_term(t: Seq<TokenModel>, p: int, cx: ContextModel) -> Parsed
    decreases t.len() - p, 5int,
{
    if p < 0 || p > t.len() {
        Err(stalled())
    } else {
        match p_factor(t, p, cx) {
            Err(f) => Err(f),
            Ok((l, q)) => if p < q <= t.len() {
                term_tail(t, l, q, cx)
            } else {
                Err(stalled())
            },
        }
    }
}

/// The `(('*' | '/') factor)*` part at `q`, after the operand `l`.
pub open spec fn term_tail(t: Seq<TokenModel>, l: ExprModel, q: int, cx: ContextModel) -> Parsed
    decreases t.len() - q, 5int,
{
    if q < 0 || q > t.len() {
        Err(stalled())
    } else if kind_at(t, q) == TokenKind::Star || kind_at(t, q) == TokenKind::Slash {
        let op = if kind_at(t, q) == TokenKind::Star {
            BinOp::Mul
        } else {
            BinOp::Div
        };
        match p_factor(t, q + 1, cx) {
            Err(f) => Err(f),
            Ok((r, q2)) => if q < q2 <= t.len() {
                term_tail(t, ExprModel::Binary(Box::new(l), op, Box::new(r)), q2, cx)
            } else {
                Err(stalled())
            },
        }
    } else {
        Ok((l, q))
    }
}

/// The literal zero that a leading `-` subtracts from.
pub open spec fn zero_model() -> ExprModel {
    ExprModel::Literal(LiteralModel::Number("0"@))
}

/// `factor` at `p`.
pub open spec fn p_factor(t: Seq<TokenModel>, p: int, cx: ContextModel) -> Parsed
    decreases t.len() - p, 4int,
{
    if p < 0 || p > t.len() {
        Err(stalled())
    } else if kind_at(t, p) == TokenKind::Minus {
        match p_factor(t, p + 1, cx) {
            Err(f) => Err(f),
            Ok((inner, q)) => Ok(
                (ExprModel::Binary(Box::new(zero_model()), BinOp::Sub, Box::new(inner)), q),
            ),
        }
    } else {
        p_primary(t, p, cx)
    }
}

/// `primary` at `p`.
pub open spec fn p_primary(t: Seq<TokenModel>, p: int, cx: ContextModel) -> Parsed
    decreases t.len() - p, 3int,
{
    if p < 0 || p >= t.len() {
        Err(ParseFailure::Unexpected("number, identifier, or '('"@, kind_at(t, p)))
    } else {
        match t[p] {
            TokenModel::Number(text) => Ok((ExprModel::Literal(LiteralModel::Number(text)), p + 1)),
            TokenModel::Ident(name) => {
                let key = lower(name);
                if is_series(cx, key) || spec_is_input_ident(name) {
                    if kind_at(t, p + 1) == TokenKind::LParen {
                        Err(ParseFailure::Evaluation(not_callable("input binding"@, name)))
                    } else {
                        Ok((ExprModel::Input, p + 1))
                    }
                } else if is_scalar(cx, key) {
                    if kind_at(t, p + 1) == TokenKind::LParen {
                        Err(ParseFailure::Evaluation(not_callable("scalar parameter"@, name)))
                    } else {
                        Ok((ExprModel::Literal(LiteralModel::Scalar(key)), p + 1))
                    }
                } else if kind_at(t, p + 1) == TokenKind::LParen {
                    match p_arguments(t, p + 2, cx) {
                        Err(f) => Err(f),
                        Ok((args, q)) => if kind_at(t, q) == TokenKind::RParen {
                            Ok((ExprModel::Call(name, args), q + 1))
                        } else {
                            Err(ParseFailure::Unexpected("')'"@, kind_at(t, q)))
                        },
                    }
                } else {
                    Err(ParseFailure::UnknownIdentifier(name))
                }
            },
            TokenModel::LParen => match p_expression(t, p + 1, cx) {
                Err(f) => Err(f),
                Ok((e, q)) => if kind_at(t, q) == TokenKind::RParen {
                    Ok((e, q + 1))
                } else {
                    Err(ParseFailure::Unexpected("')'"@, kind_at(t, q)))
                },
            },
            _ => Err(ParseFailure::Unexpected("number, identifier, or '('"@, kind_at(t, p))),
        }
    }
}

/// `arguments` at `p`.
pub open spec fn p_arguments(t: Seq<TokenModel>, p: int, cx: ContextModel) -> ParsedArgs
    decreases t.len() - p, 7int,
{
    if p < 0 || p > t.len() {
        Err(stalled())
    } else if kind_at(t, p) == TokenKind::RParen {
        Ok((Seq::empty(), p))
    } else {
        match p_expression(t, p, cx) {
            Err(f) => Err(f),
            Ok((e, q)) => if p < q <= t.len() {
                arguments_tail(t, seq![e], q, cx)
            } else {
                Err(stalled())
            },
        }
    }
}

/// The `(',' expression)*` part at `q`, after the arguments `acc`.
pub open spec fn arguments_tail(t: Seq<TokenModel>, acc: Seq<ExprModel>, q: int, cx: ContextModel) -> ParsedArgs
    decreases t.len() - q, 7int,
{
    if q < 0 || q > t.len() {
        Err(stalled())
    } else if kind_at(t, q) == TokenKind::Comma {
        match p_expression(t, q + 1, cx) {
            Err(f) => Err(f),
            Ok((e, q2)) => if q < q2 <= t.len() {
                arguments_tail(t, acc.push(e), q2, cx)
            } else {
                Err(stalled())
            },
        }
    } else {
        Ok((acc, q))
    }
}

/// The tree of a whole token list: one expression and nothing after it.
pub open spec fn parse_tokens(t: Seq<TokenModel>, cx: ContextModel) -> Result<ExprModel, ParseFailure> {
    match p_expression(t, 0, cx) {
        Err(f) => Err(f),
        Ok((e, q)) => if q < t.len() {
            Err(ParseFailure::Unexpected("end of expression"@, kind_at(t, q)))
        } else {
            Ok(e)
        },
    }
}

/// The tree of an expression text: `identity` (any case, blanks around it)
/// is the call `identity()`; otherwise the text is tokenized and parsed.
pub open spec fn spec_parse(input: Seq<char>, cx: ContextModel) -> Result<ExprModel, ParseFailure> {
    let tr = trim(input);
    if lower(tr) == "identity"@ {
        Ok(ExprModel::Call("identity"@, Seq::empty()))
    } else if tr.len() == 0 {
        Err(ParseFailure::EmptyInput)
    } else {
        match lex_from(tr, 0) {
            Err(m) => Err(ParseFailure::Evaluation(m)),
            Ok(ts) => parse_tokens(ts, cx),
        }
    }
}

// ---------------------------------------------------------------------------
// Positions move forward
// ---------------------------------------------------------------------------

/// Each parse that succeeds consumes at least one token and ends inside the
/// list.
pub proof fn lemma_expression_progress(t: Seq<TokenModel>, p: int, cx: ContextModel)
    ensures
        p_expression(t, p, cx) matches Ok((_, q)) ==> p < q <= t.len(),
    decreases t.len() - p, 6int,
{
    if 0 <= p <= t.len() {
        lemma_term_progress(t, p, cx);
        match p_term(t, p, cx) {
            Ok((l, q)) => if p < q <= t.len() {
                lemma_expression_tail_progress(t, l, q, cx);
            },
            Err(_) => {},
        }
    }
}

pub proof fn lemma_expression_tail_progress(t: Seq<TokenModel>, l: ExprModel, q: int, cx: ContextModel)
    ensures
        expression_tail(t, l, q, cx) matches Ok((_, q3)) ==> q <= q3 <= t.len(),
    decreases t.len() - q, 6int,
{
    if 0 <= q <= t.len() && (kind_at(t, q) == TokenKind::Plus || kind_at(t, q) == TokenKind::Minus) {
        let op = if kind_at(t, q) == TokenKind::Plus {
            BinOp::Add
        } else {
            BinOp::Sub
        };
        lemma_term_progress(t, q + 1, cx);
        match p_term(t, q + 1, cx) {
            Ok((r, q2)) => if q < q2 <= t.len() {
                lemma_expression_tail_progress(
                    t,
                    ExprModel::Binary(Box::new(l), op, Box::new(r)),
                    q2,
                    cx,
                );
            },
            Err(_) => {},
        }
    }
}

pub proof fn lemma_term_progress(t: Seq<TokenModel>, p: int, cx: ContextModel)
    ensures
        p_term(t, p, cx) matches Ok((_, q)) ==> p < q <= t.len(),
    decreases t.len() - p, 5int,
{
    if 0 <= p <= t.len() {
        lemma_factor_progress(t, p, cx);
        match p_factor(t, p, cx) {
            Ok((l, q)) => if p < q <= t.len() {
                lemma_term_tail_progress(t, l, q, cx);
            },
            Err(_) => {},
        }
    }
}

pub proof fn lemma_term_tail_progress(t: Seq<TokenModel>, l: ExprModel, q: int, cx: ContextModel)
    ensures
        term_tail(t, l, q, cx) matches Ok((_, q3)) ==> q <= q3 <= t.len(),
    decreases t.len() - q, 5int,
{
    if 0 <= q <= t.len() && (kind_at(t, q) == TokenKind::Star || kind_at(t, q) == TokenKind::Slash) {
        let op = if kind_at(t, q) == TokenKind::Star {
            BinOp::Mul
        } else {
            BinOp::Div
        };
        lemma_factor_progress(t, q + 1, cx);
        match p_factor(t, q + 1, cx) {
            Ok((r, q2)) => if q < q2 <= t.len() {
                lemma_term_tail_progress(
                    t,
                    ExprModel::Binary(Box::new(l), op, Box::new(r)),
                    q2,
                    cx,
                );
            },
            Err(_) => {},
        }
    }
}

pub proof fn lemma_factor_progress(t: Seq<TokenModel>, p: int, cx: ContextModel)
    ensures
        p_factor(t, p, cx) matches Ok((_, q)) ==> p < q <= t.len(),
    decreases t.len() - p, 4int,
{
    if 0 <= p <= t.len() {
        if kind_at(t, p) == TokenKind::Minus {
            lemma_factor_progress(t, p + 1, cx);
        } else {
            lemma_primary_progress(t, p, cx);
        }
    }
}

pub proof fn lemma_primary_progress(t: Seq<TokenModel>, p: int, cx: ContextModel)
    ensures
        p_primary(t, p, cx) matches Ok((_, q)) ==> p < q <= t.len(),
    decreases t.len() - p, 3int,
{
    if 0 <= p < t.len() {
        match t[p] {
            TokenModel::Ident(name) => {
                if kind_at(t, p + 1) == TokenKind::LParen {
                    lemma_arguments_progress(t, p + 2, cx);
                }
            },
            TokenModel::LParen => {
                lemma_expression_progress(t, p + 1, cx);
            },
            _ => {},
        }
    }
}

pub proof fn lemma_arguments_progress(t: Seq<TokenModel>, p: int, cx: ContextModel)
    ensures
        p_arguments(t, p, cx) matches Ok((_, q)) ==> p <= q <= t.len(),
    decreases t.len() - p, 7int,
{
    if 0 <= p <= t.len() && kind_at(t, p) != TokenKind::RParen {
        lemma_expression_progress(t, p, cx);
        match p_expression(t, p, cx) {
            Ok((e, q)) => if p < q <= t.len() {
                lemma_arguments_tail_progress(t, seq![e], q, cx);
            },
            Err(_) => {},
        }
    }
}

pub proof fn lemma_arguments_tail_progress(t: Seq<TokenModel>, acc: Seq<ExprModel>, q: int, cx: ContextModel)
    ensures
        arguments_tail(t, acc, q, cx) matches Ok((_, q3)) ==> q <= q3 <= t.len(),
    decreases t.len() - q, 7int,
{
    if 0 <= q <= t.len() && kind_at(t, q) == TokenKind::Comma {
        lemma_expression_progress(t, q + 1, cx);
        match p_expression(t, q + 1, cx) {
            Ok((e, q2)) => if q < q2 <= t.len() {
                lemma_arguments_tail_progress(t, acc.push(e), q2, cx);
            },
            Err(_) => {},
        }
    }
}

// ---------------------------------------------------------------------------
// Parsing
// ---------------------------------------------------------------------------

pub open spec fn parsed_as(r: Result<(Expr, usize), CompileError>, m: Parsed) -> bool {
    match r {
        Ok((e, q)) => m == Ok::<(ExprModel, int), ParseFailure>((e@, q as int)),
        Err(err) => m matches Err(f) && is_failure(err, f),
    }
}

pub open spec fn parsed_args_as(r: Result<(Vec<Expr>, usize), CompileError>, m: ParsedArgs) -> bool {
    match r {
        Ok((v, q)) => m == Ok::<(Seq<ExprModel>, int), ParseFailure>((args_model(v@), q as int)),
        Err(err) => m matches Err(f) && is_failure(err, f),
    }
}

/// `r` is the outcome `m` of a whole parse.
pub open spec fn outcome_is(r: Result<Expr, CompileError>, m: Result<ExprModel, ParseFailure>) -> bool {
    match r {
        Ok(e) => m == Ok::<ExprModel, ParseFailure>(e@),
        Err(err) => m matches Err(f) && is_failure(err, f),
    }
}

fn kind_at_exec(t: &Vec<Token>, p: usize) -> (k: TokenKind)
    ensures
        k == kind_at(token_views(t@), p as int),
{
    if p < t.len() {
        t[p].kind()
    } else {
        TokenKind::Eof
    }
}

fn not_callable_message(what: &str, name: &String) -> (m: String)
    ensures
        m@ == not_callable(what@, name@),
{
    let mut v = chars_of(what);
    append_chars(&mut v, &chars_of(" `"));
    append_chars(&mut v, &chars_of(name.as_str()));
    append_chars(&mut v, &chars_of("` is not callable"));
    string_of(&v)
}

fn parse_expression(t: &Vec<Token>, p: usize, cx: &ScriptCompileContext) -> (r: Result<(Expr, usize), CompileError>)
    requires
        p <= t@.len(),
    ensures
        parsed_as(r, p_expression(token_views(t@), p as int, cx@)),
    decreases t@.len() - p, 6int,
{
    let ghost tv = token_views(t@);
    let (mut left, mut q) = match parse_term(t, p, cx) {
        Ok(x) => x,
        Err(e) => return Err(e),
    };
    proof {
        lemma_term_progress(tv, p as int, cx@);
    }
    while kind_at_exec(t, q) == TokenKind::Plus || kind_at_exec(t, q) == TokenKind::Minus
        invariant
            p < q <= t@.len(),
            tv == token_views(t@),
            p_expression(tv, p as int, cx@) == expression_tail(tv, left@, q as int, cx@),
        decreases t@.len() - q,
    {
        assert(kind_at(tv, q as int) == TokenKind::Plus || kind_at(tv, q as int) == TokenKind::Minus);
        let n = t.len();
        assert(q < n);
        let op = if kind_at_exec(t, q) == TokenKind::Plus {
            BinOp::Add
        } else {
            BinOp::Sub
        };
        match parse_term(t, q + 1, cx) {
            Err(e) => return Err(e),
            Ok((r, q2)) => {
                proof {
                    lemma_term_progress(tv, q + 1, cx@);
                }
                let ghost lm = left@;
                left = Expr::Binary(Box::new(left), op, Box::new(r));
                assert(left@ == ExprModel::Binary(Box::new(lm), op, Box::new(r@)));
                q = q2;
            },
        }
    }
    Ok((left, q))
}

fn parse_term(t: &Vec<Token>, p: usize, cx: &ScriptCompileContext) -> (r: Result<(Expr, usize), CompileError>)
    requires
        p <= t@.len(),
    ensures
        parsed_as(r, p_term(token_views(t@), p as int, cx@)),
    decreases t@.len() - p, 5int,
{
    let ghost tv = token_views(t@);
    let (mut left, mut q) = match parse_factor(t, p, cx) {
        Ok(x) => x,
        Err(e) => return Err(e),
    };
    proof {
        lemma_factor_progress(tv, p as int, cx@);
    }
    while kind_at_exec(t, q) == TokenKind::Star || kind_at_exec(t, q) == TokenKind::Slash
        invariant
            p < q <= t@.len(),
            tv == token_views(t@),
            p_term(tv, p as int, cx@) == term_tail(tv, left@, q as int, cx@),
        decreases t@.len() - q,
    {
        assert(kind_at(tv, q as int) == TokenKind::Star || kind_at(tv, q as int) == TokenKind::Slash);
        let n = t.len();
        assert(q < n);
        let op = if kind_at_exec(t, q) == TokenKind::Star {
            BinOp::Mul
        } else {
            BinOp::Div
        };
        match parse_factor(t, q + 1, cx) {
            Err(e) => return Err(e),
            Ok((r, q2)) => {
                proof {
                    lemma_factor_progress(tv, q + 1, cx@);
                }
                let ghost lm = left@;
                left = Expr::Binary(Box::new(left), op, Box::new(r));
                assert(left@ == ExprModel::Binary(Box::new(lm), op, Box::new(r@)));
                q = q2;
            },
        }
    }
    Ok((left, q))
}

fn parse_factor(t: &Vec<Token>, p: usize, cx: &ScriptCompileContext) -> (r: Result<(Expr, usize), CompileError>)
    requires
        p <= t@.len(),
    ensures
        parsed_as(r, p_factor(token_views(t@), p as int, cx@)),
    decreases t@.len() - p, 4int,
{
    if kind_at_exec(t, p) == TokenKind::Minus {
        assert(kind_at(token_views(t@), p as int) == TokenKind::Minus);
        let n = t.len();
        assert(p < n);
        match parse_factor(t, p + 1, cx) {
            Err(e) => Err(e),
            Ok((inner, q)) => {
                let zero = Expr::Literal(Literal::Number("0".to_owned()));
                assert(zero@ == zero_model());
                Ok((Expr::Binary(Box::new(zero), BinOp::Sub, Box::new(inner)), q))
            },
        }
    } else {
        parse_primary(t, p, cx)
    }
}

fn parse_primary(t: &Vec<Token>, p: usize, cx: &ScriptCompileContext) -> (r: Result<(Expr, usize), CompileError>)
    requires
        p <= t@.len(),
    ensures
        parsed_as(r, p_primary(token_views(t@), p as int, cx@)),
    decreases t@.len() - p, 3int,
{
    if p >= t.len() {
        return Err(
            CompileError::UnexpectedToken {
                expected: "number, identifier, or '('",
                got: TokenKind::Eof,
            },
        );
    }
    let ghost tv = token_views(t@);
    assert(tv[p as int] == t@[p as int]@);
    match &t[p] {
        Token::Number(text) => Ok((Expr::Literal(Literal::Number(text.clone())), p + 1)),
        Token::Ident(name) => {
            let key = lower_string(name);
            if cx.is_series_input(&key) || is_input_ident(name.as_str()) {
                if kind_at_exec(t, p + 1) == TokenKind::LParen {
                    return Err(CompileError::Evaluation(not_callable_message("input binding", name)));
                }
                return Ok((Expr::Input, p + 1));
            }
            let bound = match cx.scalar(&key) {
                Some(_) => true,
                None => false,
            };
            if bound {
                if kind_at_exec(t, p + 1) == TokenKind::LParen {
                    return Err(
                        CompileError::Evaluation(not_callable_message("scalar parameter", name)),
                    );
                }
                return Ok((Expr::Literal(Literal::Scalar(key)), p + 1));
            }
            if kind_at_exec(t, p + 1) == TokenKind::LParen {
                match parse_arguments(t, p + 2, cx) {
                    Err(e) => Err(e),
                    Ok((args, q)) => {
                        if kind_at_exec(t, q) == TokenKind::RParen {
                            Ok((Expr::Call { name: name.clone(), args }, q + 1))
                        } else {
                            Err(CompileError::UnexpectedToken { expected: "')'", got: kind_at_exec(t, q) })
                        }
                    },
                }
            } else {
                Err(CompileError::UnknownIdentifier(name.clone()))
            }
        },
        Token::LParen => match parse_expression(t, p + 1, cx) {
            Err(e) => Err(e),
            Ok((e, q)) => {
                if kind_at_exec(t, q) == TokenKind::RParen {
                    Ok((e, q + 1))
                } else {
                    Err(CompileError::UnexpectedToken { expected: "')'", got: kind_at_exec(t, q) })
                }
            },
        },
        _ => Err(
            CompileError::UnexpectedToken {
                expected: "number, identifier, or '('",
                got: kind_at_exec(t, p),
            },
        ),
    }
}

fn parse_arguments(t: &Vec<Token>, p: usize, cx: &ScriptCompileContext) -> (r: Result<(Vec<Expr>, usize), CompileError>)
    requires
        p <= t@.len(),
    ensures
        parsed_args_as(r, p_arguments(token_views(t@), p as int, cx@)),
    decreases t@.len() - p, 7int,
{
    let ghost tv = token_views(t@);
    if kind_at_exec(t, p) == TokenKind::RParen {
        let v: Vec<Expr> = Vec::new();
        assert(args_model(v@) =~= Seq::<ExprModel>::empty());
        return Ok((v, p));
    }
    let (first, mut q) = match parse_expression(t, p, cx) {
        Ok(x) => x,
        Err(e) => return Err(e),
    };
    proof {
        lemma_expression_progress(tv, p as int, cx@);
    }
    let ghost fm = first@;
    let mut args: Vec<Expr> = Vec::new();
    args.push(first);
    proof {
        assert(args@.drop_last() =~= Seq::<Expr>::empty());
        assert(args_model(args@.drop_last()) =~= Seq::<ExprModel>::empty());
        assert(args_model(args@) =~= seq![fm]);
    }
    while kind_at_exec(t, q) == TokenKind::Comma
        invariant
            p < q <= t@.len(),
            tv == token_views(t@),
            p_arguments(tv, p as int, cx@) == arguments_tail(tv, args_model(args@), q as int, cx@),
        decreases t@.len() - q,
    {
        assert(kind_at(tv, q as int) == TokenKind::Comma);
        let n = t.len();
        assert(q < n);
        match parse_expression(t, q + 1, cx) {
            Err(e) => return Err(e),
            Ok((e, q2)) => {
                proof {
                    lemma_expression_progress(tv, q + 1, cx@);
                }
                let ghost before = args@;
                let ghost em = e@;
                args.push(e);
                proof {
                    assert(args@.drop_last() =~= before);
                }
                assert(args_model(args@) == args_model(before).push(em));
                q = q2;
            },
        }
    }
    Ok((args, q))
}

fn parse_all(tokens: &Vec<Token>, cx: &ScriptCompileContext) -> (r: Result<Expr, CompileError>)
    ensures
        outcome_is(r, parse_tokens(token_views(tokens@), cx@)),
{
    match parse_expression(tokens, 0, cx) {
        Err(e) => Err(e),
        Ok((e, q)) => if q < tokens.len() {
            Err(
                CompileError::UnexpectedToken {
                    expected: "end of expression",
                    got: kind_at_exec(tokens, q),
                },
            )
        } else {
            Ok(e)
        },
    }
}

/// Parse an OTL expression using OSL signature scalar bindings and series input names.
pub fn parse_with_context(input: &str, ctx: &ScriptCompileContext) -> (r: Result<Expr, CompileError>)
    ensures
        outcome_is(r, spec_parse(input@, ctx@)),
{
    let tr = trim_of(&chars_of(input));
    let lo = lower_of(&tr);
    if seq_eq(&lo, &chars_of("identity")) {
        let args: Vec<Expr> = Vec::new();
        assert(args_model(args@) =~= Seq::<ExprModel>::empty());
        return Ok(Expr::Call { name: "identity".to_owned(), args });
    }
    let tokens = match tokenize(input) {
        Ok(ts) => ts,
        Err(e) => return Err(e),
    };
    parse_all(&tokens, ctx)
}

/// Parse an OTL expression into an AST, with no names bound beyond the
/// standard input names.
pub fn parse(input: &str) -> (r: Result<Expr, CompileError>)
    ensures
        outcome_is(r, spec_parse(input@, empty_context())),
{
    let ctx = ScriptCompileContext::default();
    parse_with_context(input, &ctx)
}

// ---------------------------------------------------------------------------
// Multi-channel roots
// ---------------------------------------------------------------------------

/// Output channels of a band indicator, in port order.
pub open spec fn band_channels() -> Seq<Seq<char>> {
    seq!["upper_band"@, "basis_line"@, "lower_band"@]
}

/// Output channels of an oscillator with a signal line, in port order.
pub open spec fn oscillator_channels() -> Seq<Seq<char>> {
    seq!["oscillator"@, "signal_line"@]
}

pub open spec fn is_band_call(name: Seq<char>) -> bool {
    ||| name == "ta::bollinger_bands"@
    ||| name == "bollinger_bands"@
    ||| name == "ta::keltner_channels"@
    ||| name == "keltner_channels"@
    ||| name == "ta::donchian_channels"@
    ||| name == "donchian_channels"@
}

pub open spec fn is_oscillator_call(name: Seq<char>) -> bool {
    ||| name == "ta::macd"@
    ||| name == "macd"@
    ||| name == "ta::stochastic"@
    ||| name == "stochastic"@
}

/// The channels of an expression whose root is a multi-output call: a band
/// indicator, or an oscillator given its signal period (three arguments or
/// more).
pub open spec fn multi_root_channels(e: ExprModel) -> Option<Seq<Seq<char>>> {
    match e {
        ExprModel::Call(name, args) => if is_band_call(name) {
            Some(band_channels())
        } else if is_oscillator_call(name) && args.len() >= 3 {
            Some(oscillator_channels())
        } else {
            None
        },
        _ => None,
    }
}

fn is_one_of(name: &String, a: &str, b: &str) -> (r: bool)
    ensures
        r == (name@ == a@ || name@ == b@),
{
    *name == a.to_owned() || *name == b.to_owned()
}

fn channel_names(names: &[&str]) -> (r: Vec<String>)
    ensures
        r@.len() == names@.len(),
        forall|i: int| 0 <= i < names@.len() ==> #[trigger] r@[i]@ == names@[i]@,
{
    let mut r: Vec<String> = Vec::new();
    let mut i: usize = 0;
    while i < names.len()
        invariant
            i <= names@.len(),
            r@.len() == i,
            forall|k: int| 0 <= k < i ==> #[trigger] r@[k]@ == names@[k]@,
        decreases names.len() - i,
    {
        r.push(names[i].to_owned());
        i = i + 1;
    }
    r
}

/// The output channels when the root of `expr` is a multi-output call.
pub fn detect_multi_root(expr: &Expr) -> (r: Option<Vec<String>>)
    ensures
        match r {
            Some(c) => multi_root_channels(expr@) == Some(
                Seq::new(c@.len(), |i: int| c@[i]@),
            ),
            None => multi_root_channels(expr@) is None,
        },
{
    match expr {
        Expr::Call { name, args } => {
            if is_one_of(name, "ta::bollinger_bands", "bollinger_bands") || is_one_of(
                name,
                "ta::keltner_channels",
                "keltner_channels",
            ) || is_one_of(name, "ta::donchian_channels", "donchian_channels") {
                let c = channel_names(&["upper_band", "basis_line", "lower_band"]);
                assert(Seq::new(c@.len(), |i: int| c@[i]@) =~= band_channels());
                Some(c)
            } else if (is_one_of(name, "ta::macd", "macd") || is_one_of(
                name,
                "ta::stochastic",
                "stochastic",
            )) && args.len() >= 3 {
                proof {
                    assert(args_model(args@).len() == args@.len()) by {
                        lemma_args_model_len(args@);
                    }
                }
                let c = channel_names(&["oscillator", "signal_line"]);
                assert(Seq::new(c@.len(), |i: int| c@[i]@) =~= oscillator_channels());
                Some(c)
            } else {
                proof {
                    lemma_args_model_len(args@);
                }
                None
            }
        },
        _ => None,
    }
}

pub proof fn lemma_args_model_len(args: Seq<Expr>)
    ensures
        args_model(args).len() == args.len(),
    decreases args.len(),
{
    if args.len() > 0 {
        lemma_args_model_len(args.drop_last());
    }
}

} // verus!
