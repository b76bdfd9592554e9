//! Tokenizer of OTL expressions (`inputs:script_src`).
//!
//! A number token keeps its literal text; the text is always one that
//! `f64::from_str` accepts (digits with at most one `.`).

use crate::ast::{CompileError, TokenKind};
use crate::text::{
    append_chars, chars_of, is_ascii_alnum, is_digit, lower, lower_of, slice_of, string_of, trim,
    trim_of,
};
use vstd::prelude::*;

verus! {

#[derive(Clone, Debug, PartialEq)]
pub enum Token {
    /// The literal's text, e.g. `"10"` or `"0.5"`.
    Number(String),
    /// Lower-cased identifier, e.g. `"ta::sma"`.
    Ident(String),
    Plus,
    Minus,
    Star,
    Slash,
    LParen,
    RParen,
    Comma,
}

pub enum TokenModel {
    Number(Seq<char>),
    Ident(Seq<char>),
    Plus,
    Minus,
    Star,
    Slash,
    LParen,
    RParen,
    Comma,
}

impl View for Token {
    type V = TokenModel;

    open spec fn view(&self) -> TokenModel {
        match self {
            Token::Number(s) => TokenModel::Number(s@),
            Token::Ident(s) => TokenModel::Ident(s@),
            Token::Plus => TokenModel::Plus,
            Token::Minus => TokenModel::Minus,
            Token::Star => TokenModel::Star,
            Token::Slash => TokenModel::Slash,
            Token::LParen => TokenModel::LParen,
            Token::RParen => TokenModel::RParen,
            Token::Comma => TokenModel::Comma,
        }
    }
}

pub open spec fn token_kind(t: TokenModel) -> TokenKind {
    match t {
        TokenModel::Number(_) => TokenKind::Number,
        TokenModel::Ident(_) => TokenKind::Ident,
        TokenModel::Plus => TokenKind::Plus,
        TokenModel::Minus => TokenKind::Minus,
        TokenModel::Star => TokenKind::Star,
        TokenModel::Slash => TokenKind::Slash,
        TokenModel::LParen => TokenKind::LParen,
        TokenModel::RParen => TokenKind::RParen,
        TokenModel::Comma => TokenKind::Comma,
    }
}

impl Token {
    pub fn kind(&self) -> (k: TokenKind)
        ensures
            k == token_kind(self@),
    {
        match self {
            Token::Number(_) => TokenKind::Number,
            Token::Ident(_) => TokenKind::Ident,
            Token::Plus => TokenKind::Plus,
            Token::Minus => TokenKind::Minus,
            Token::Star => TokenKind::Star,
            Token::Slash => TokenKind::Slash,
            Token::LParen => TokenKind::LParen,
            Token::RParen => TokenKind::RParen,
            Token::Comma => TokenKind::Comma,
        }
    }
}

pub open spec fn token_views(ts: Seq<Token>) -> Seq<TokenModel> {
    Seq::new(ts.len(), |i: int| ts[i]@)
}

/// `u8::is_ascii_whitespace`: space, tab, line feed, form feed, carriage return.
pub open spec fn is_ascii_ws(c: char) -> bool {
    c == ' ' || c == '\t' || c == '\n' || c == '\x0C' || c == '\r'
}

pub open spec fn punct_token(c: char) -> Option<TokenModel> {
    if c == '+' {
        Some(TokenModel::Plus)
    } else if c == '-' {
        Some(TokenModel::Minus)
    } else if c == '*' {
        Some(TokenModel::Star)
    } else if c == '/' {
        Some(TokenModel::Slash)
    } else if c == '(' {
        Some(TokenModel::LParen)
    } else if c == ')' {
        Some(TokenModel::RParen)
    } else if c == ',' {
        Some(TokenModel::Comma)
    } else {
        None
    }
}

pub open spec fn is_number_char(c: char) -> bool {
    is_digit(c) || c == '.'
}

pub open spec fn is_ident_start(c: char) -> bool {
    ('a' <= c && c <= 'z') || ('A' <= c && c <= 'Z') || c == '_'
}

pub open spec fn is_ident_continue(c: char) -> bool {
    is_ascii_alnum(c) || c == '_' || c == ':'
}

/// End of the run of number characters from `k`.
pub open spec fn number_end(s: Seq<char>, k: int) -> int
    decreases s.len() - k,
{
    if 0 <= k < s.len() && is_number_char(s[k]) {
        number_end(s, k + 1)
    } else {
        k
    }
}

/// End of the run of identifier characters from `k`.
pub open spec fn ident_end(s: Seq<char>, k: int) -> int
    decreases s.len() - k,
{
    if 0 <= k < s.len() && is_ident_continue(s[k]) {
        ident_end(s, k + 1)
    } else {
        k
    }
}

pub open spec fn dot_count(s: Seq<char>) -> nat
    decreases s.len(),
{
    if s.len() == 0 {
        0
    } else {
        dot_count(s.drop_last()) + if s.last() == '.' {
            1nat
        } else {
            0nat
        }
    }
}

/// A run of digits and dots that `f64::from_str` accepts: at most one dot
/// and at least one digit.
pub open spec fn valid_number_text(s: Seq<char>) -> bool {
    dot_count(s) <= 1 && dot_count(s) < s.len()
}

pub open spec fn with_token(t: TokenModel, rest: Result<Seq<TokenModel>, Seq<char>>) -> Result<
    Seq<TokenModel>,
    Seq<char>,
> {
    match rest {
        Ok(ts) => Ok(seq![t] + ts),
        Err(e) => Err(e),
    }
}

/// The tokens of `s[i..]`, or the message of the first error in it.
pub open spec fn lex_from(s: Seq<char>, i: int) -> Result<Seq<TokenModel>, Seq<char>>
    decreases s.len() - i,
{
    if i < 0 || i >= s.len() {
        Ok(Seq::empty())
    } else {
        let c = s[i];
        if is_ascii_ws(c) {
            lex_from(s, i + 1)
        } else if punct_token(c) is Some {
            with_token(punct_token(c)->0, lex_from(s, i + 1))
        } else if is_number_char(c) {
            proof {
                lemma_number_end(s, i + 1);
            }
            let e = number_end(s, i + 1);
            let lit = s.subrange(i, e);
            if valid_number_text(lit) {
                with_token(TokenModel::Number(lit), lex_from(s, e))
            } else {
                Err("invalid number `"@ + lit + "`"@)
            }
        } else if is_ident_start(c) {
            proof {
                lemma_ident_end(s, i + 1);
            }
            let e = ident_end(s, i + 1);
            with_token(TokenModel::Ident(lower(s.subrange(i, e))), lex_from(s, e))
        } else {
            Err(
                "unexpected character `"@ + (if (c as u32) < 128 {
                    seq![c]
                } else {
                    Seq::empty()
                }) + "`"@,
            )
        }
    }
}

pub proof fn lemma_number_end(s: Seq<char>, k: int)
    requires
        0 <= k <= s.len(),
    ensures
        k <= number_end(s, k) <= s.len(),
    decreases s.len() - k,
{
    if k < s.len() && is_number_char(s[k]) {
        lemma_number_end(s, k + 1);
    }
}

pub proof fn lemma_ident_end(s: Seq<char>, k: int)
    requires
        0 <= k <= s.len(),
    ensures
        k <= ident_end(s, k) <= s.len(),
    decreases s.len() - k,
{
    if k < s.len() && is_ident_continue(s[k]) {
        lemma_ident_end(s, k + 1);
    }
}

fn count_dots(s: &[char]) -> (n: usize)
    ensures
        n == dot_count(s@),
{
    let mut n: usize = 0;
    let mut i: usize = 0;
    assert(s@.subrange(0, 0) =~= Seq::<char>::empty());
    while i < s.len()
        invariant
            i <= s@.len(),
            n == dot_count(s@.subrange(0, i as int)),
            n <= i,
        decreases s.len() - i,
    {
        assert(s@.subrange(0, i + 1).drop_last() =~= s@.subrange(0, i as int));
        if s[i] == '.' {
            n = n + 1;
        }
        i = i + 1;
    }
    assert(s@.subrange(0, s@.len() as int) =~= s@);
    n
}

fn punct_of(c: char) -> (r: Option<Token>)
    ensures
        r matches Some(t) ==> punct_token(c) == Some(t@),
        r is None ==> punct_token(c) is None,
{
    if c == '+' {
        Some(Token::Plus)
    } else if c == '-' {
        Some(Token::Minus)
    } else if c == '*' {
        Some(Token::Star)
    } else if c == '/' {
        Some(Token::Slash)
    } else if c == '(' {
        Some(Token::LParen)
    } else if c == ')' {
        Some(Token::RParen)
    } else if c == ',' {
        Some(Token::Comma)
    } else {
        None
    }
}

/// Tokenize an OTL expression string from `inputs:script_src`.
pub fn tokenize(input: &str) -> (r: Result<Vec<Token>, CompileError>)
    ensures
        trim(input@).len() == 0 <==> r matches Err(CompileError::EmptyInput),
        trim(input@).len() > 0 ==> match r {
            Ok(ts) => lex_from(trim(input@), 0) == Ok::<Seq<TokenModel>, Seq<char>>(
                token_views(ts@),
            ),
            Err(CompileError::Evaluation(m)) => lex_from(trim(input@), 0) == Err::<
                Seq<TokenModel>,
                Seq<char>,
            >(m@),
            Err(_) => false,
        },
{
    let s = trim_of(&chars_of(input));
    if s.len() == 0 {
        return Err(CompileError::EmptyInput);
    }
    let mut tokens: Vec<Token> = Vec::new();
    let mut i: usize = 0;
    while i < s.len()
        invariant
            i <= s@.len(),
            s@ == trim(input@),
            lex_from(s@, 0) == match lex_from(s@, i as int) {
                Ok(ts) => Ok(token_views(tokens@) + ts),
                Err(e) => Err::<Seq<TokenModel>, Seq<char>>(e),
            },
        decreases s.len() - i,
    {
        let c = s[i];
        let ghost before = tokens@;
        if c == ' ' || c == '\t' || c == '\n' || c == '\x0C' || c == '\r' {
            i = i + 1;
        } else {
            match punct_of(c) {
                Some(t) => {
                    tokens.push(t);
                    proof {
                        assert(token_views(tokens@) =~= token_views(before).push(punct_token(c)->0));
                        match lex_from(s@, i + 1) {
                            Ok(ts) => {
                                assert(token_views(before) + (seq![punct_token(c)->0] + ts)
                                    =~= token_views(tokens@) + ts);
                            },
                            Err(_) => {},
                        }
                    }
                    i = i + 1;
                },
                None => {
                    if ('0' <= c && c <= '9') || c == '.' {
                        proof {
                            lemma_number_end(s@, i + 1);
                        }
                        let mut e = i + 1;
                        while e < s.len() && (('0' <= s[e] && s[e] <= '9') || s[e] == '.')
                            invariant
                                i < e <= s@.len(),
                                number_end(s@, i + 1) == number_end(s@, e as int),
                            decreases s.len() - e,
                        {
                            e = e + 1;
                        }
                        let lit = slice_of(&s, i, e);
                        let dots = count_dots(&lit);
                        if !(dots <= 1 && dots < lit.len()) {
                            let mut msg = chars_of("invalid number `");
                            append_chars(&mut msg, &lit);
                            append_chars(&mut msg, &chars_of("`"));
                            return Err(CompileError::Evaluation(string_of(&msg)));
                        }
                        tokens.push(Token::Number(string_of(&lit)));
                        proof {
                            let t = TokenModel::Number(lit@);
                            assert(token_views(tokens@) =~= token_views(before).push(t));
                            match lex_from(s@, e as int) {
                                Ok(ts) => {
                                    assert(token_views(before) + (seq![t] + ts) =~= token_views(
                                        tokens@,
                                    ) + ts);
                                },
                                Err(_) => {},
                            }
                        }
                        i = e;
                    } else if ('a' <= c && c <= 'z') || ('A' <= c && c <= 'Z') || c == '_' {
                        proof {
                            lemma_ident_end(s@, i + 1);
                        }
                        let mut e = i + 1;
                        while e < s.len() && (('a' <= s[e] && s[e] <= 'z') || ('A' <= s[e] && s[e]
                            <= 'Z') || ('0' <= s[e] && s[e] <= '9') || s[e] == '_' || s[e] == ':')
                            invariant
                                i < e <= s@.len(),
                                ident_end(s@, i + 1) == ident_end(s@, e as int),
                            decreases s.len() - e,
                        {
                            e = e + 1;
                        }
                        let word = lower_of(&slice_of(&s, i, e));
                        tokens.push(Token::Ident(string_of(&word)));
                        proof {
                            let t = TokenModel::Ident(word@);
                            assert(token_views(tokens@) =~= token_views(before).push(t));
                            match lex_from(s@, e as int) {
                                Ok(ts) => {
                                    assert(token_views(before) + (seq![t] + ts) =~= token_views(
                                        tokens@,
                                    ) + ts);
                                },
                                Err(_) => {},
                            }
                        }
                        i = e;
                    } else {
                        let mut msg = chars_of("unexpected character `");
                        if (c as u32) < 128 {
                            msg.push(c);
                        }
                        append_chars(&mut msg, &chars_of("`"));
                        proof {
                            let shown: Seq<char> = if (c as u32) < 128 {
                                seq![c]
                            } else {
                                Seq::empty()
                            };
                            assert(msg@ =~= "unexpected character `"@ + shown + "`"@);
                        }
                        return Err(CompileError::Evaluation(string_of(&msg)));
                    }
                },
            }
        }
    }
    assert(token_views(tokens@) + Seq::<TokenModel>::empty() =~= token_views(tokens@));
    Ok(tokens)
}


/// The names that stand for the primary input series.
pub open spec fn spec_is_input_ident(name: Seq<char>) -> bool {
    ||| name == "data"@
    ||| name == "input"@
    ||| name == "close"@
    ||| name == "price"@
    ||| name == "x"@
    ||| name == "source"@
    ||| name == "source_stream"@
}

fn is_name(a: &String, lit: &str) -> (r: bool)
    ensures
        r == (a@ == lit@),
{
    *a == lit.to_owned()
}

/// Whether an identifier names the primary input series.
pub fn is_input_ident(name: &str) -> (r: bool)
    ensures
        r == spec_is_input_ident(name@),
{
    let n = name.to_owned();
    is_name(&n, "data") || is_name(&n, "input") || is_name(&n, "close") || is_name(&n, "price")
        || is_name(&n, "x") || is_name(&n, "source") || is_name(&n, "source_stream")
}

} // verus!
