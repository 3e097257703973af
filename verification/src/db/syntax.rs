//! The syntax tree of a query and the recursive-descent parser that builds
//! it from tokens.
//!
//! Grammar, loosest binding first:
//!   or_expr  := and_expr (("|" | "or") and_expr)*
//!   and_expr := not_expr (("&" | "and") not_expr)*
//!   not_expr := ("!" | "not") not_expr | primary
//!   primary  := "{" ident "=" value "}" | number ".." number
//!             | unread | last "(" [number] ")" | page "(" [number] ["," number] ")"
//!             | "(" or_expr ")"
//! An identifier whose lowercase form is `and` or `or` also joins operands.
//! Tokens left over after the first complete expression are not read.

use vstd::prelude::*;

use crate::db::lexer::{token_views, SpecToken, Token};
use crate::db::text::{
    ascii_lowercase, debug_text, decimal, i64_to_string, is_ascii_text, is_word, lower_text,
    str_debug, to_lowercase,
};
use std::collections::VecDeque;

verus! {

/// A query expression.
#[derive(Debug)]
pub enum Expr {
    And(Box<Expr>, Box<Expr>),
    Or(Box<Expr>, Box<Expr>),
    Not(Box<Expr>),
    Range(i64, i64),
    AttrFilter(String, String),
    Unread,
    Last(i64),
    Page(i64, i64),
}

/// The mathematical value of a query expression.
pub enum SpecExpr {
    And(Box<SpecExpr>, Box<SpecExpr>),
    Or(Box<SpecExpr>, Box<SpecExpr>),
    Not(Box<SpecExpr>),
    Range(i64, i64),
    AttrFilter(Seq<char>, Seq<char>),
    Unread,
    Last(i64),
    Page(i64, i64),
}

pub open spec fn expr_view(e: Expr) -> SpecExpr
    decreases e,
{
    match e {
        Expr::And(l, r) => SpecExpr::And(Box::new(expr_view(*l)), Box::new(expr_view(*r))),
        Expr::Or(l, r) => SpecExpr::Or(Box::new(expr_view(*l)), Box::new(expr_view(*r))),
        Expr::Not(x) => SpecExpr::Not(Box::new(expr_view(*x))),
        Expr::Range(a, b) => SpecExpr::Range(a, b),
        Expr::AttrFilter(a, v) => SpecExpr::AttrFilter(a@, v@),
        Expr::Unread => SpecExpr::Unread,
        Expr::Last(n) => SpecExpr::Last(n),
        Expr::Page(o, p) => SpecExpr::Page(o, p),
    }
}

impl View for Expr {
    type V = SpecExpr;

    open spec fn view(&self) -> SpecExpr {
        expr_view(*self)
    }
}

// ----- Error messages -----

/// The `Debug` text of a token.
pub open spec fn token_debug(t: SpecToken) -> Seq<char> {
    match t {
        SpecToken::Ident(s) => "Ident("@ + str_debug(s) + ")"@,
        SpecToken::Number(n) => "Number("@ + decimal(n as int) + ")"@,
        SpecToken::LParen => "LParen"@,
        SpecToken::RParen => "RParen"@,
        SpecToken::LBrace => "LBrace"@,
        SpecToken::RBrace => "RBrace"@,
        SpecToken::DotDot => "DotDot"@,
        SpecToken::Comma => "Comma"@,
        SpecToken::And => "And"@,
        SpecToken::Or => "Or"@,
        SpecToken::Not => "Not"@,
        SpecToken::Eq => "Eq"@,
        SpecToken::Unread => "Unread"@,
        SpecToken::Last => "Last"@,
        SpecToken::Page => "Page"@,
    }
}

/// The `Debug` text of an optional token.
pub open spec fn option_debug(o: Option<SpecToken>) -> Seq<char> {
    match o {
        Some(t) => "Some("@ + token_debug(t) + ")"@,
        None => "None"@,
    }
}

/// The message when a token other than the expected one comes.
pub open spec fn expected_message(expected: SpecToken, got: Option<SpecToken>) -> Seq<char> {
    "Expected "@ + token_debug(expected) + ", got "@ + option_debug(got)
}

// ----- The parser, as functions on token sequences -----

/// What a parsing step gives: the expression and the tokens after it, or an
/// error message and the tokens left when the error was found.
pub type Parsed = Result<(SpecExpr, Seq<SpecToken>), (Seq<char>, Seq<SpecToken>)>;

pub open spec fn first(t: Seq<SpecToken>) -> Option<SpecToken> {
    if t.len() > 0 {
        Some(t[0])
    } else {
        None
    }
}

/// The tokens after the first one (none are left of none).
pub open spec fn rest(t: Seq<SpecToken>) -> Seq<SpecToken> {
    if t.len() > 0 {
        t.drop_first()
    } else {
        t
    }
}

/// Takes the first token, which must be `e`; it is taken either way.
pub open spec fn p_expect(t: Seq<SpecToken>, e: SpecToken) -> Result<Seq<SpecToken>, (Seq<char>, Seq<SpecToken>)> {
    if first(t) == Some(e) {
        Ok(rest(t))
    } else {
        Err((expected_message(e, first(t)), rest(t)))
    }
}

/// Whether a token joins operands with `or`.
pub open spec fn is_or_sep(o: Option<SpecToken>) -> bool {
    match o {
        Some(SpecToken::Or) => true,
        Some(SpecToken::Ident(s)) => lower_text(s) == "or"@,
        _ => false,
    }
}

/// Whether a token joins operands with `and`.
pub open spec fn is_and_sep(o: Option<SpecToken>) -> bool {
    match o {
        Some(SpecToken::And) => true,
        Some(SpecToken::Ident(s)) => lower_text(s) == "and"@,
        _ => false,
    }
}

/// `number .. number`.
pub open spec fn p_range(t: Seq<SpecToken>) -> Parsed {
    match first(t) {
        Some(SpecToken::Number(a)) => match p_expect(rest(t), SpecToken::DotDot) {
            Ok(t2) => match first(t2) {
                Some(SpecToken::Number(b)) => Ok((SpecExpr::Range(a, b), rest(t2))),
                _ => Err(("Expected number for range end"@, rest(t2))),
            },
            Err(m) => Err(m),
        },
        _ => Err(("Expected number for range start"@, rest(t))),
    }
}

/// The value of an attribute filter: an identifier, or a number as its
/// decimal text.
pub open spec fn attr_value(o: Option<SpecToken>) -> Option<Seq<char>> {
    match o {
        Some(SpecToken::Ident(s)) => Some(s),
        Some(SpecToken::Number(n)) => Some(decimal(n as int)),
        _ => None,
    }
}

/// `{ name = value }`.
pub open spec fn p_attr(t: Seq<SpecToken>) -> Parsed {
    match p_expect(t, SpecToken::LBrace) {
        Err(m) => Err(m),
        Ok(t1) => match first(t1) {
            Some(SpecToken::Ident(attr)) => match p_expect(rest(t1), SpecToken::Eq) {
                Err(m) => Err(m),
                Ok(t2) => match attr_value(first(t2)) {
                    None => Err(("Expected value after '='"@, rest(t2))),
                    Some(value) => match p_expect(rest(t2), SpecToken::RBrace) {
                        Err(m) => Err(m),
                        Ok(t3) => Ok((SpecExpr::AttrFilter(attr, value), t3)),
                    },
                },
            },
            _ => Err(("Expected attribute name"@, rest(t1))),
        },
    }
}

/// `last(n)` or `last()`, after `last`.
pub open spec fn p_last(t: Seq<SpecToken>) -> Parsed {
    match p_expect(t, SpecToken::LParen) {
        Err(m) => Err(m),
        Ok(t1) => match first(t1) {
            Some(SpecToken::Number(n)) => match p_expect(rest(t1), SpecToken::RParen) {
                Err(m) => Err(m),
                Ok(t2) => Ok((SpecExpr::Last(n), t2)),
            },
            Some(SpecToken::RParen) => Ok((SpecExpr::Last(1), rest(t1))),
            _ => Err(("Unclosed parenthesis when calling last"@, rest(t1))),
        },
    }
}

/// The offset of `page(..)`: a number, else 0 (the token is taken either way).
pub open spec fn page_offset(o: Option<SpecToken>) -> i64 {
    match o {
        Some(SpecToken::Number(n)) => n,
        _ => 0,
    }
}

/// `page(offset, per_page)` with both parts optional, after `page`.
pub open spec fn p_page(t: Seq<SpecToken>) -> Parsed {
    match p_expect(t, SpecToken::LParen) {
        Err(m) => Err(m),
        Ok(t1) => {
            let offset = page_offset(first(t1));
            let t2 = rest(t1);
            if first(t2) == Some(SpecToken::Comma) {
                let t3 = rest(t2);
                match first(t3) {
                    Some(SpecToken::Number(per_page)) => match p_expect(rest(t3), SpecToken::RParen) {
                        Err(m) => Err(m),
                        Ok(t4) => Ok((SpecExpr::Page(offset, per_page), t4)),
                    },
                    _ => Err(("Expected per_page in page(offset, per_page)"@, rest(t3))),
                }
            } else {
                match p_expect(t2, SpecToken::RParen) {
                    Err(m) => Err(m),
                    Ok(t4) => Ok((SpecExpr::Page(offset, 10), t4)),
                }
            }
        },
    }
}

/// `unread`, `last(..)` or `page(..)`.
pub open spec fn p_call(t: Seq<SpecToken>) -> Parsed {
    match first(t) {
        Some(SpecToken::Unread) => Ok((SpecExpr::Unread, rest(t))),
        Some(SpecToken::Last) => p_last(rest(t)),
        Some(SpecToken::Page) => p_page(rest(t)),
        _ => Err(("Unknown function"@, rest(t))),
    }
}

/// A primary expression.
pub open spec fn p_primary(t: Seq<SpecToken>) -> Parsed
    decreases t.len(), 0int,
{
    match first(t) {
        Some(SpecToken::LBrace) => p_attr(t),
        Some(SpecToken::Number(_)) => p_range(t),
        Some(SpecToken::Ident(_)) => p_call(t),
        Some(SpecToken::Unread) => p_call(t),
        Some(SpecToken::Last) => p_call(t),
        Some(SpecToken::Page) => p_call(t),
        Some(SpecToken::LParen) => match p_or(t.drop_first()) {
            Err(m) => Err(m),
            Ok((e, r)) => match p_expect(r, SpecToken::RParen) {
                Err(m) => Err(m),
                Ok(r2) => Ok((e, r2)),
            },
        },
        other => Err(("Unexpected token "@ + option_debug(other), t)),
    }
}

/// Any number of negations before a primary expression.
pub open spec fn p_not(t: Seq<SpecToken>) -> Parsed
    decreases t.len(), 1int,
{
    if first(t) == Some(SpecToken::Not) {
        match p_not(t.drop_first()) {
            Err(m) => Err(m),
            Ok((e, r)) => Ok((SpecExpr::Not(Box::new(e)), r)),
        }
    } else {
        p_primary(t)
    }
}

/// Operands joined by `and`, grouped to the left.
pub open spec fn p_and(t: Seq<SpecToken>) -> Parsed
    decreases t.len(), 2int,
{
    match p_not(t) {
        Err(m) => Err(m),
        Ok((l, r)) => if r.len() < t.len() {
            p_and_rest(l, r)
        } else {
            Ok((l, r))
        },
    }
}

/// The `and` operands that follow `left`.
pub open spec fn p_and_rest(left: SpecExpr, t: Seq<SpecToken>) -> Parsed
    decreases t.len(), 3int,
{
    if is_and_sep(first(t)) {
        match p_not(t.drop_first()) {
            Err(m) => Err(m),
            Ok((e, r)) => {
                let joined = SpecExpr::And(Box::new(left), Box::new(e));
                if r.len() < t.len() {
                    p_and_rest(joined, r)
                } else {
                    Ok((joined, r))
                }
            },
        }
    } else {
        Ok((left, t))
    }
}

/// Operands joined by `or`, grouped to the left.
pub open spec fn p_or(t: Seq<SpecToken>) -> Parsed
    decreases t.len(), 4int,
{
    match p_and(t) {
        Err(m) => Err(m),
        Ok((l, r)) => if r.len() < t.len() {
            p_or_rest(l, r)
        } else {
            Ok((l, r))
        },
    }
}

/// The `or` operands that follow `left`.
pub open spec fn p_or_rest(left: SpecExpr, t: Seq<SpecToken>) -> Parsed
    decreases t.len(), 5int,
{
    if is_or_sep(first(t)) {
        match p_and(t.drop_first()) {
            Err(m) => Err(m),
            Ok((e, r)) => {
                let joined = SpecExpr::Or(Box::new(left), Box::new(e));
                if r.len() < t.len() {
                    p_or_rest(joined, r)
                } else {
                    Ok((joined, r))
                }
            },
        }
    } else {
        Ok((left, t))
    }
}

/// The expression that a token sequence starts with, or the error message.
pub open spec fn spec_parse(t: Seq<SpecToken>) -> Result<SpecExpr, Seq<char>> {
    match p_or(t) {
        Ok((e, _)) => Ok(e),
        Err((m, _)) => Err(m),
    }
}


// ----- Executable parser -----

/// The `Debug` text of a token.
pub fn token_debug_text(t: &Token) -> (r: String)
    ensures
        r@ == token_debug(t@),
{
    match t {
        Token::Ident(s) => {
            let mut out = String::from_str("Ident(");
            let d = debug_text(s.as_str());
            out.append(d.as_str());
            out.append(")");
            out
        },
        Token::Number(n) => {
            let mut out = String::from_str("Number(");
            let d = i64_to_string(*n);
            out.append(d.as_str());
            out.append(")");
            out
        },
        Token::LParen => String::from_str("LParen"),
        Token::RParen => String::from_str("RParen"),
        Token::LBrace => String::from_str("LBrace"),
        Token::RBrace => String::from_str("RBrace"),
        Token::DotDot => String::from_str("DotDot"),
        Token::Comma => String::from_str("Comma"),
        Token::And => String::from_str("And"),
        Token::Or => String::from_str("Or"),
        Token::Not => String::from_str("Not"),
        Token::Eq => String::from_str("Eq"),
        Token::Unread => String::from_str("Unread"),
        Token::Last => String::from_str("Last"),
        Token::Page => String::from_str("Page"),
    }
}

/// The view of an optional token.
pub open spec fn option_view(o: Option<&Token>) -> Option<SpecToken> {
    match o {
        Some(t) => Some(t@),
        None => None,
    }
}

/// The `Debug` text of an optional token.
pub fn option_debug_text(o: Option<&Token>) -> (r: String)
    ensures
        r@ == option_debug(option_view(o)),
{
    match o {
        Some(t) => {
            let mut out = String::from_str("Some(");
            let d = token_debug_text(t);
            out.append(d.as_str());
            out.append(")");
            out
        },
        None => String::from_str("None"),
    }
}

/// Whether two tokens are equal.
pub fn same_token(a: &Token, b: &Token) -> (r: bool)
    ensures
        r == (a@ == b@),
{
    match (a, b) {
        (Token::Ident(x), Token::Ident(y)) => x.eq(y),
        (Token::Number(x), Token::Number(y)) => *x == *y,
        (Token::LParen, Token::LParen) => true,
        (Token::RParen, Token::RParen) => true,
        (Token::LBrace, Token::LBrace) => true,
        (Token::RBrace, Token::RBrace) => true,
        (Token::DotDot, Token::DotDot) => true,
        (Token::Comma, Token::Comma) => true,
        (Token::And, Token::And) => true,
        (Token::Or, Token::Or) => true,
        (Token::Not, Token::Not) => true,
        (Token::Eq, Token::Eq) => true,
        (Token::Unread, Token::Unread) => true,
        (Token::Last, Token::Last) => true,
        (Token::Page, Token::Page) => true,
        _ => false,
    }
}

/// How an executable parsing step relates to its specification: the same
/// expression and the same tokens left, at least one token taken; or the
/// same error message and the same tokens left.
pub open spec fn step_matches(
    r: Result<Expr, String>,
    s: Parsed,
    before: Seq<SpecToken>,
    after: Seq<SpecToken>,
) -> bool {
    match (r, s) {
        (Ok(e), Ok((se, left))) => e@ == se && after == left && after.len() < before.len(),
        (Err(m), Err((sm, left))) => m@ == sm && after == left,
        _ => false,
    }
}

/// A parser over a queue of tokens.
pub struct Parser {
    tokens: VecDeque<Token>,
}

impl Parser {
    /// The tokens not yet read.
    pub closed spec fn toks(&self) -> Seq<SpecToken> {
        token_views(self.tokens@)
    }

    pub fn new(tokens: Vec<Token>) -> (p: Self)
        ensures
            p.toks() == token_views(tokens@),
    {
        let mut v = tokens;
        let ghost all = v@;
        let mut q: VecDeque<Token> = VecDeque::new();
        while v.len() > 0
            invariant
                v@ == all.take(v@.len() as int),
                q@ == all.skip(v@.len() as int),
                v@.len() <= all.len(),
            decreases v@.len(),
        {
            let ghost k = v@.len();
            let t = v.pop().unwrap();
            q.push_front(t);
            assert(v@ =~= all.take(k - 1));
            assert(q@ =~= all.skip(k - 1));
        }
        assert(q@ =~= all);
        Parser { tokens: q }
    }

    pub fn peek(&self) -> (r: Option<&Token>)
        ensures
            option_view(r) == first(self.toks()),
    {
        if self.tokens.len() > 0 {
            Some(&self.tokens[0])
        } else {
            None
        }
    }

    pub fn pop(&mut self) -> (r: Option<Token>)
        ensures
            (match r {
                Some(t) => Some(t@),
                None => None,
            }) == first(old(self).toks()),
            final(self).toks() == rest(old(self).toks()),
    {
        let r = self.tokens.pop_front();
        assert(self.toks() =~= rest(old(self).toks()));
        r
    }

    pub fn expect(&mut self, expected: Token) -> (r: Result<(), String>)
        ensures
            match (r, p_expect(old(self).toks(), expected@)) {
                (Ok(_), Ok(t)) => final(self).toks() == t,
                (Err(m), Err((sm, t))) => m@ == sm && final(self).toks() == t,
                _ => false,
            },
    {
        let tok = self.pop();
        let ok = match &tok {
            Some(t) => same_token(t, &expected),
            None => false,
        };
        if ok {
            Ok(())
        } else {
            let mut msg = String::from_str("Expected ");
            let e = token_debug_text(&expected);
            msg.append(e.as_str());
            msg.append(", got ");
            let g = option_debug_text(tok.as_ref());
            msg.append(g.as_str());
            Err(msg)
        }
    }

    fn at_or(&self) -> (r: bool)
        ensures
            r == is_or_sep(first(self.toks())),
    {
        match self.peek() {
            Some(Token::Or) => true,
            Some(Token::Ident(s)) => {
                let low = to_lowercase(s.as_str());
                is_word(&low, "or")
            },
            _ => false,
        }
    }

    fn at_and(&self) -> (r: bool)
        ensures
            r == is_and_sep(first(self.toks())),
    {
        match self.peek() {
            Some(Token::And) => true,
            Some(Token::Ident(s)) => {
                let low = to_lowercase(s.as_str());
                is_word(&low, "and")
            },
            _ => false,
        }
    }

    pub fn parse(&mut self) -> (r: Result<Expr, String>)
        ensures
            step_matches(r, p_or(old(self).toks()), old(self).toks(), final(self).toks()),
        decreases old(self).toks().len(), 5int,
    {
        self.or_expr()
    }

    pub fn or_expr(&mut self) -> (r: Result<Expr, String>)
        ensures
            step_matches(r, p_or(old(self).toks()), old(self).toks(), final(self).toks()),
        decreases old(self).toks().len(), 4int,
    {
        let ghost t0 = self.toks();
        let mut left = match self.and_expr() {
            Ok(e) => e,
            Err(m) => return Err(m),
        };
        while self.at_or()
            invariant
                t0 == old(self).toks(),
                p_or(t0) == p_or_rest(left@, self.toks()),
                self.toks().len() < t0.len(),
            decreases self.toks().len(),
        {
            self.pop();
            let right = match self.and_expr() {
                Ok(e) => e,
                Err(m) => return Err(m),
            };
            left = Expr::Or(Box::new(left), Box::new(right));
        }
        Ok(left)
    }

    pub fn and_expr(&mut self) -> (r: Result<Expr, String>)
        ensures
            step_matches(r, p_and(old(self).toks()), old(self).toks(), final(self).toks()),
        decreases old(self).toks().len(), 2int,
    {
        let ghost t0 = self.toks();
        let mut left = match self.not_expr() {
            Ok(e) => e,
            Err(m) => return Err(m),
        };
        while self.at_and()
            invariant
                t0 == old(self).toks(),
                p_and(t0) == p_and_rest(left@, self.toks()),
                self.toks().len() < t0.len(),
            decreases self.toks().len(),
        {
            self.pop();
            let right = match self.not_expr() {
                Ok(e) => e,
                Err(m) => return Err(m),
            };
            left = Expr::And(Box::new(left), Box::new(right));
        }
        Ok(left)
    }

    pub fn not_expr(&mut self) -> (r: Result<Expr, String>)
        ensures
            step_matches(r, p_not(old(self).toks()), old(self).toks(), final(self).toks()),
        decreases old(self).toks().len(), 1int,
    {
        let is_not = match self.peek() {
            Some(Token::Not) => true,
            _ => false,
        };
        if is_not {
            self.pop();
            let expr = match self.not_expr() {
                Ok(e) => e,
                Err(m) => return Err(m),
            };
            return Ok(Expr::Not(Box::new(expr)));
        }
        self.primary()
    }

    pub fn primary(&mut self) -> (r: Result<Expr, String>)
        ensures
            step_matches(r, p_primary(old(self).toks()), old(self).toks(), final(self).toks()),
        decreases old(self).toks().len(), 0int,
    {
        match self.peek() {
            Some(Token::LBrace) => self.attr_filter(),
            Some(Token::Number(_)) => self.range(),
            Some(Token::Ident(_)) | Some(Token::Unread) | Some(Token::Last) | Some(Token::Page) => {
                self.function_call()
            },
            Some(Token::LParen) => {
                self.pop();
                let expr = match self.parse() {
                    Ok(e) => e,
                    Err(m) => return Err(m),
                };
                match self.expect(Token::RParen) {
                    Ok(_) => {},
                    Err(m) => return Err(m),
                }
                Ok(expr)
            },
            tok => {
                let mut msg = String::from_str("Unexpected token ");
                let d = option_debug_text(tok);
                msg.append(d.as_str());
                Err(msg)
            },
        }
    }

    pub fn range(&mut self) -> (r: Result<Expr, String>)
        ensures
            step_matches(r, p_range(old(self).toks()), old(self).toks(), final(self).toks()),
    {
        let start = match self.pop() {
            Some(Token::Number(n)) => n,
            _ => return Err(String::from_str("Expected number for range start")),
        };
        match self.expect(Token::DotDot) {
            Ok(_) => {},
            Err(m) => return Err(m),
        }
        let end = match self.pop() {
            Some(Token::Number(n)) => n,
            _ => return Err(String::from_str("Expected number for range end")),
        };
        Ok(Expr::Range(start, end))
    }

    pub fn attr_filter(&mut self) -> (r: Result<Expr, String>)
        ensures
            step_matches(r, p_attr(old(self).toks()), old(self).toks(), final(self).toks()),
    {
        match self.expect(Token::LBrace) {
            Ok(_) => {},
            Err(m) => return Err(m),
        }
        let attr = match self.pop() {
            Some(Token::Ident(s)) => s,
            _ => return Err(String::from_str("Expected attribute name")),
        };
        match self.expect(Token::Eq) {
            Ok(_) => {},
            Err(m) => return Err(m),
        }
        let value = match self.pop() {
            Some(Token::Ident(s)) => s,
            Some(Token::Number(n)) => i64_to_string(n),
            _ => return Err(String::from_str("Expected value after '='")),
        };
        match self.expect(Token::RBrace) {
            Ok(_) => {},
            Err(m) => return Err(m),
        }
        Ok(Expr::AttrFilter(attr, value))
    }

    pub fn function_call(&mut self) -> (r: Result<Expr, String>)
        ensures
            step_matches(r, p_call(old(self).toks()), old(self).toks(), final(self).toks()),
    {
        match self.pop() {
            Some(Token::Unread) => {
                return Ok(Expr::Unread);
            },
            Some(Token::Last) => {
                match self.expect(Token::LParen) {
                    Ok(_) => {},
                    Err(m) => return Err(m),
                }
                let (num, defaulted) = match self.pop() {
                    Some(Token::Number(n)) => (n, false),
                    Some(Token::RParen) => (1, true),
                    _ => return Err(String::from_str("Unclosed parenthesis when calling last")),
                };
                if !defaulted {
                    match self.expect(Token::RParen) {
                        Ok(_) => {},
                        Err(m) => return Err(m),
                    }
                }
                return Ok(Expr::Last(num));
            },
            Some(Token::Page) => {
                match self.expect(Token::LParen) {
                    Ok(_) => {},
                    Err(m) => return Err(m),
                }
                let offset = match self.pop() {
                    Some(Token::Number(n)) => n,
                    _ => 0,
                };
                let at_comma = match self.peek() {
                    Some(Token::Comma) => true,
                    _ => false,
                };
                let per_page = if at_comma {
                    self.pop();
                    match self.pop() {
                        Some(Token::Number(n)) => n,
                        _ => return Err(
                            String::from_str("Expected per_page in page(offset, per_page)"),
                        ),
                    }
                } else {
                    10
                };
                match self.expect(Token::RParen) {
                    Ok(_) => {},
                    Err(m) => return Err(m),
                }
                return Ok(Expr::Page(offset, per_page));
            },
            _ => return Err(String::from_str("Unknown function")),
        }
    }
}


/// Operator words in any letter case: an ASCII identifier whose lowercase
/// form is `and` or `or` joins operands as `&` or `|` does.
pub proof fn law_operator_words_any_case(w: Seq<char>)
    requires
        is_ascii_text(w),
    ensures
        ascii_lowercase(w) == "and"@ ==> is_and_sep(Some(SpecToken::Ident(w))),
        ascii_lowercase(w) == "or"@ ==> is_or_sep(Some(SpecToken::Ident(w))),
{
}


// ----- Every successful step takes tokens -----

/// A step that succeeded took at least one token.
pub open spec fn consumes(p: Parsed, t: Seq<SpecToken>) -> bool {
    p matches Ok((_, r)) ==> r.len() < t.len()
}

proof fn lemma_consumes_leaves(t: Seq<SpecToken>)
    ensures
        consumes(p_range(t), t),
        consumes(p_attr(t), t),
        consumes(p_call(t), t),
{
}

proof fn lemma_consumes_primary(t: Seq<SpecToken>)
    ensures
        consumes(p_primary(t), t),
    decreases t.len(), 0int,
{
    lemma_consumes_leaves(t);
    if first(t) == Some(SpecToken::LParen) {
        lemma_consumes_or(t.drop_first());
    }
}

proof fn lemma_consumes_not(t: Seq<SpecToken>)
    ensures
        consumes(p_not(t), t),
    decreases t.len(), 1int,
{
    if first(t) == Some(SpecToken::Not) {
        lemma_consumes_not(t.drop_first());
    } else {
        lemma_consumes_primary(t);
    }
}

proof fn lemma_consumes_and(t: Seq<SpecToken>)
    ensures
        consumes(p_and(t), t),
    decreases t.len(), 2int,
{
    lemma_consumes_not(t);
    if let Ok((l, r)) = p_not(t) {
        lemma_consumes_and_rest(l, r);
    }
}

proof fn lemma_consumes_and_rest(left: SpecExpr, t: Seq<SpecToken>)
    ensures
        p_and_rest(left, t) matches Ok((_, r)) ==> r.len() <= t.len(),
    decreases t.len(), 3int,
{
    if is_and_sep(first(t)) {
        lemma_consumes_not(t.drop_first());
        if let Ok((e, r)) = p_not(t.drop_first()) {
            if r.len() < t.len() {
                lemma_consumes_and_rest(SpecExpr::And(Box::new(left), Box::new(e)), r);
            }
        }
    }
}

proof fn lemma_consumes_or(t: Seq<SpecToken>)
    ensures
        consumes(p_or(t), t),
    decreases t.len(), 4int,
{
    lemma_consumes_and(t);
    if let Ok((l, r)) = p_and(t) {
        lemma_consumes_or_rest(l, r);
    }
}

proof fn lemma_consumes_or_rest(left: SpecExpr, t: Seq<SpecToken>)
    ensures
        p_or_rest(left, t) matches Ok((_, r)) ==> r.len() <= t.len(),
    decreases t.len(), 5int,
{
    if is_or_sep(first(t)) {
        lemma_consumes_and(t.drop_first());
        if let Ok((e, r)) = p_and(t.drop_first()) {
            if r.len() < t.len() {
                lemma_consumes_or_rest(SpecExpr::Or(Box::new(left), Box::new(e)), r);
            }
        }
    }
}

// ----- Precedence and grouping -----

/// Whether no operator follows: the tokens neither begin with `&`/`and`
/// nor with `|`/`or`.
pub open spec fn ends_expression(r: Seq<SpecToken>) -> bool {
    !is_and_sep(first(r)) && !is_or_sep(first(r))
}

pub open spec fn and_of(l: SpecExpr, r: SpecExpr) -> SpecExpr {
    SpecExpr::And(Box::new(l), Box::new(r))
}

pub open spec fn or_of(l: SpecExpr, r: SpecExpr) -> SpecExpr {
    SpecExpr::Or(Box::new(l), Box::new(r))
}

pub open spec fn not_of(x: SpecExpr) -> SpecExpr {
    SpecExpr::Not(Box::new(x))
}

/// Negation binds tighter than `and`: `! a & b`, with `a` and `b` primary
/// expressions, reads as `(!a) & b`.
pub proof fn law_not_binds_tighter_than_and(
    t: Seq<SpecToken>,
    a: SpecExpr,
    r1: Seq<SpecToken>,
    b: SpecExpr,
    r2: Seq<SpecToken>,
)
    requires
        first(t) == Some(SpecToken::Not),
        p_primary(rest(t)) == Ok::<(SpecExpr, Seq<SpecToken>), (Seq<char>, Seq<SpecToken>)>((a, r1)),
        first(r1) == Some(SpecToken::And),
        p_primary(rest(r1)) == Ok::<(SpecExpr, Seq<SpecToken>), (Seq<char>, Seq<SpecToken>)>((b, r2)),
        ends_expression(r2),
    ensures
        p_or(t) == Ok::<(SpecExpr, Seq<SpecToken>), (Seq<char>, Seq<SpecToken>)>(
            (and_of(not_of(a), b), r2),
        ),
{
    lemma_consumes_primary(rest(t));
    lemma_consumes_primary(rest(r1));
    assert(p_not(rest(t)) == p_primary(rest(t)));
    assert(p_not(t) == Ok::<(SpecExpr, Seq<SpecToken>), (Seq<char>, Seq<SpecToken>)>((not_of(a), r1)));
    assert(p_not(rest(r1)) == p_primary(rest(r1)));
    assert(p_and_rest(and_of(not_of(a), b), r2) == Ok::<(SpecExpr, Seq<SpecToken>), (Seq<char>, Seq<SpecToken>)>((and_of(not_of(a), b), r2)));
    assert(p_and_rest(not_of(a), r1) == Ok::<(SpecExpr, Seq<SpecToken>), (Seq<char>, Seq<SpecToken>)>((and_of(not_of(a), b), r2)));
    assert(p_and(t) == Ok::<(SpecExpr, Seq<SpecToken>), (Seq<char>, Seq<SpecToken>)>((and_of(not_of(a), b), r2)));
    assert(p_or_rest(and_of(not_of(a), b), r2) == Ok::<(SpecExpr, Seq<SpecToken>), (Seq<char>, Seq<SpecToken>)>((and_of(not_of(a), b), r2)));
}


/// A successful step.
pub open spec fn ok_step(e: SpecExpr, r: Seq<SpecToken>) -> Parsed {
    Ok((e, r))
}

/// Every operand of `and` may be negated: `a & ! b` reads as `a & (!b)`.
pub proof fn law_and_operand_may_be_negated(
    t: Seq<SpecToken>,
    a: SpecExpr,
    r1: Seq<SpecToken>,
    b: SpecExpr,
    r2: Seq<SpecToken>,
)
    requires
        p_primary(t) == ok_step(a, r1),
        first(r1) == Some(SpecToken::And),
        first(rest(r1)) == Some(SpecToken::Not),
        p_primary(rest(rest(r1))) == ok_step(b, r2),
        ends_expression(r2),
    ensures
        p_or(t) == ok_step(and_of(a, not_of(b)), r2),
{
    lemma_consumes_primary(t);
    lemma_consumes_primary(rest(rest(r1)));
    let j = and_of(a, not_of(b));
    assert(p_not(t) == p_primary(t));
    assert(p_not(rest(rest(r1))) == p_primary(rest(rest(r1))));
    assert(p_not(rest(r1)) == ok_step(not_of(b), r2));
    assert(p_and_rest(j, r2) == ok_step(j, r2));
    assert(p_and_rest(a, r1) == ok_step(j, r2));
    assert(p_and(t) == ok_step(j, r2));
    assert(p_or_rest(j, r2) == ok_step(j, r2));
}

/// `and` binds tighter than `or`: `a | b & c`, with primary operands, reads
/// as `a | (b & c)`.
pub proof fn law_and_binds_tighter_than_or(
    t: Seq<SpecToken>,
    a: SpecExpr,
    r1: Seq<SpecToken>,
    b: SpecExpr,
    r2: Seq<SpecToken>,
    c: SpecExpr,
    r3: Seq<SpecToken>,
)
    requires
        p_primary(t) == ok_step(a, r1),
        first(r1) == Some(SpecToken::Or),
        p_primary(rest(r1)) == ok_step(b, r2),
        first(r2) == Some(SpecToken::And),
        p_primary(rest(r2)) == ok_step(c, r3),
        ends_expression(r3),
    ensures
        p_or(t) == ok_step(or_of(a, and_of(b, c)), r3),
{
    lemma_consumes_primary(t);
    lemma_consumes_primary(rest(r1));
    lemma_consumes_primary(rest(r2));
    assert(p_not(t) == p_primary(t));
    assert(p_and_rest(a, r1) == ok_step(a, r1));
    assert(p_and(t) == ok_step(a, r1));
    let bc = and_of(b, c);
    assert(p_not(rest(r1)) == p_primary(rest(r1)));
    assert(p_not(rest(r2)) == p_primary(rest(r2)));
    assert(p_and_rest(bc, r3) == ok_step(bc, r3));
    assert(p_and_rest(b, r2) == ok_step(bc, r3));
    assert(p_and(rest(r1)) == ok_step(bc, r3));
    let j = or_of(a, bc);
    assert(p_or_rest(j, r3) == ok_step(j, r3));
    assert(p_or_rest(a, r1) == ok_step(j, r3));
}

/// `and` groups to the left: `a & b & c` reads as `(a & b) & c`.
pub proof fn law_and_groups_left(
    t: Seq<SpecToken>,
    a: SpecExpr,
    r1: Seq<SpecToken>,
    b: SpecExpr,
    r2: Seq<SpecToken>,
    c: SpecExpr,
    r3: Seq<SpecToken>,
)
    requires
        p_primary(t) == ok_step(a, r1),
        first(r1) == Some(SpecToken::And),
        p_primary(rest(r1)) == ok_step(b, r2),
        first(r2) == Some(SpecToken::And),
        p_primary(rest(r2)) == ok_step(c, r3),
        ends_expression(r3),
    ensures
        p_or(t) == ok_step(and_of(and_of(a, b), c), r3),
{
    lemma_consumes_primary(t);
    lemma_consumes_primary(rest(r1));
    lemma_consumes_primary(rest(r2));
    let ab = and_of(a, b);
    let j = and_of(ab, c);
    assert(p_not(t) == p_primary(t));
    assert(p_not(rest(r1)) == p_primary(rest(r1)));
    assert(p_not(rest(r2)) == p_primary(rest(r2)));
    assert(p_and_rest(j, r3) == ok_step(j, r3));
    assert(p_and_rest(ab, r2) == ok_step(j, r3));
    assert(p_and_rest(a, r1) == ok_step(j, r3));
    assert(p_and(t) == ok_step(j, r3));
    assert(p_or_rest(j, r3) == ok_step(j, r3));
}

/// `or` groups to the left: `a | b | c` reads as `(a | b) | c`.
pub proof fn law_or_groups_left(
    t: Seq<SpecToken>,
    a: SpecExpr,
    r1: Seq<SpecToken>,
    b: SpecExpr,
    r2: Seq<SpecToken>,
    c: SpecExpr,
    r3: Seq<SpecToken>,
)
    requires
        p_primary(t) == ok_step(a, r1),
        first(r1) == Some(SpecToken::Or),
        p_primary(rest(r1)) == ok_step(b, r2),
        first(r2) == Some(SpecToken::Or),
        p_primary(rest(r2)) == ok_step(c, r3),
        ends_expression(r3),
    ensures
        p_or(t) == ok_step(or_of(or_of(a, b), c), r3),
{
    lemma_consumes_primary(t);
    lemma_consumes_primary(rest(r1));
    lemma_consumes_primary(rest(r2));
    let ab = or_of(a, b);
    let j = or_of(ab, c);
    assert(p_not(t) == p_primary(t));
    assert(p_and_rest(a, r1) == ok_step(a, r1));
    assert(p_and(t) == ok_step(a, r1));
    assert(p_not(rest(r1)) == p_primary(rest(r1)));
    assert(p_and_rest(b, r2) == ok_step(b, r2));
    assert(p_and(rest(r1)) == ok_step(b, r2));
    assert(p_not(rest(r2)) == p_primary(rest(r2)));
    assert(p_and_rest(c, r3) == ok_step(c, r3));
    assert(p_and(rest(r2)) == ok_step(c, r3));
    assert(p_or_rest(j, r3) == ok_step(j, r3));
    assert(p_or_rest(ab, r2) == ok_step(j, r3));
    assert(p_or_rest(a, r1) == ok_step(j, r3));
}

/// Parentheses group: `( e )` reads as `e`, whatever operators `e` holds.
pub proof fn law_parentheses_group(t: Seq<SpecToken>, e: SpecExpr, r: Seq<SpecToken>)
    requires
        first(t) == Some(SpecToken::LParen),
        p_or(rest(t)) == ok_step(e, r),
        first(r) == Some(SpecToken::RParen),
    ensures
        p_primary(t) == ok_step(e, rest(r)),
{
}


// ----- What each primary expression reads as -----

/// An attribute filter `{ name = value }` reads as a filter on `name` whose
/// value is the identifier exactly as written, or a number's decimal text.
pub proof fn law_attribute_filter(a: Seq<char>, v: Seq<char>, n: i64, s: Seq<SpecToken>)
    ensures
        p_primary(
            seq![
                SpecToken::LBrace,
                SpecToken::Ident(a),
                SpecToken::Eq,
                SpecToken::Ident(v),
                SpecToken::RBrace,
            ] + s,
        ) == ok_step(SpecExpr::AttrFilter(a, v), s),
        p_primary(
            seq![
                SpecToken::LBrace,
                SpecToken::Ident(a),
                SpecToken::Eq,
                SpecToken::Number(n),
                SpecToken::RBrace,
            ] + s,
        ) == ok_step(SpecExpr::AttrFilter(a, decimal(n as int)), s),
{
    let t1 = seq![
        SpecToken::LBrace,
        SpecToken::Ident(a),
        SpecToken::Eq,
        SpecToken::Ident(v),
        SpecToken::RBrace,
    ] + s;
    assert(rest(t1) =~= seq![SpecToken::Ident(a), SpecToken::Eq, SpecToken::Ident(v), SpecToken::RBrace] + s);
    assert(rest(rest(t1)) =~= seq![SpecToken::Eq, SpecToken::Ident(v), SpecToken::RBrace] + s);
    assert(rest(rest(rest(t1))) =~= seq![SpecToken::Ident(v), SpecToken::RBrace] + s);
    assert(rest(rest(rest(rest(t1)))) =~= seq![SpecToken::RBrace] + s);
    assert(rest(rest(rest(rest(rest(t1))))) =~= s);
    let t2 = seq![
        SpecToken::LBrace,
        SpecToken::Ident(a),
        SpecToken::Eq,
        SpecToken::Number(n),
        SpecToken::RBrace,
    ] + s;
    assert(rest(t2) =~= seq![SpecToken::Ident(a), SpecToken::Eq, SpecToken::Number(n), SpecToken::RBrace] + s);
    assert(rest(rest(t2)) =~= seq![SpecToken::Eq, SpecToken::Number(n), SpecToken::RBrace] + s);
    assert(rest(rest(rest(t2))) =~= seq![SpecToken::Number(n), SpecToken::RBrace] + s);
    assert(rest(rest(rest(rest(t2)))) =~= seq![SpecToken::RBrace] + s);
    assert(rest(rest(rest(rest(rest(t2))))) =~= s);
}

/// A range `n .. m` reads as the ids from `n` to `m`.
pub proof fn law_range(n: i64, m: i64, s: Seq<SpecToken>)
    ensures
        p_primary(seq![SpecToken::Number(n), SpecToken::DotDot, SpecToken::Number(m)] + s)
            == ok_step(SpecExpr::Range(n, m), s),
{
    let t = seq![SpecToken::Number(n), SpecToken::DotDot, SpecToken::Number(m)] + s;
    assert(rest(t) =~= seq![SpecToken::DotDot, SpecToken::Number(m)] + s);
    assert(rest(rest(t)) =~= seq![SpecToken::Number(m)] + s);
    assert(rest(rest(rest(t))) =~= s);
}

/// The functions: `unread`; `last(n)`, where `last()` is `last(1)`; and
/// `page(offset, per_page)`, where `page(offset)` has 10 per page.
pub proof fn law_functions(n: i64, o: i64, pp: i64, s: Seq<SpecToken>)
    ensures
        p_primary(seq![SpecToken::Unread] + s) == ok_step(SpecExpr::Unread, s),
        p_primary(seq![SpecToken::Last, SpecToken::LParen, SpecToken::RParen] + s) == ok_step(
            SpecExpr::Last(1),
            s,
        ),
        p_primary(
            seq![SpecToken::Last, SpecToken::LParen, SpecToken::Number(n), SpecToken::RParen] + s,
        ) == ok_step(SpecExpr::Last(n), s),
        p_primary(
            seq![SpecToken::Page, SpecToken::LParen, SpecToken::Number(o), SpecToken::RParen] + s,
        ) == ok_step(SpecExpr::Page(o, 10), s),
        p_primary(
            seq![
                SpecToken::Page,
                SpecToken::LParen,
                SpecToken::Number(o),
                SpecToken::Comma,
                SpecToken::Number(pp),
                SpecToken::RParen,
            ] + s,
        ) == ok_step(SpecExpr::Page(o, pp), s),
{
    let u = seq![SpecToken::Unread] + s;
    assert(rest(u) =~= s);
    let l0 = seq![SpecToken::Last, SpecToken::LParen, SpecToken::RParen] + s;
    assert(rest(l0) =~= seq![SpecToken::LParen, SpecToken::RParen] + s);
    assert(rest(rest(l0)) =~= seq![SpecToken::RParen] + s);
    assert(rest(rest(rest(l0))) =~= s);
    let l1 = seq![SpecToken::Last, SpecToken::LParen, SpecToken::Number(n), SpecToken::RParen] + s;
    assert(rest(l1) =~= seq![SpecToken::LParen, SpecToken::Number(n), SpecToken::RParen] + s);
    assert(rest(rest(l1)) =~= seq![SpecToken::Number(n), SpecToken::RParen] + s);
    assert(rest(rest(rest(l1))) =~= seq![SpecToken::RParen] + s);
    assert(rest(rest(rest(rest(l1)))) =~= s);
    let p1 = seq![SpecToken::Page, SpecToken::LParen, SpecToken::Number(o), SpecToken::RParen] + s;
    assert(rest(p1) =~= seq![SpecToken::LParen, SpecToken::Number(o), SpecToken::RParen] + s);
    assert(rest(rest(p1)) =~= seq![SpecToken::Number(o), SpecToken::RParen] + s);
    assert(rest(rest(rest(p1))) =~= seq![SpecToken::RParen] + s);
    assert(rest(rest(rest(rest(p1)))) =~= s);
    let p2 = seq![
        SpecToken::Page,
        SpecToken::LParen,
        SpecToken::Number(o),
        SpecToken::Comma,
        SpecToken::Number(pp),
        SpecToken::RParen,
    ] + s;
    assert(rest(p2) =~= seq![
        SpecToken::LParen,
        SpecToken::Number(o),
        SpecToken::Comma,
        SpecToken::Number(pp),
        SpecToken::RParen,
    ] + s);
    assert(rest(rest(p2)) =~= seq![SpecToken::Number(o), SpecToken::Comma, SpecToken::Number(pp), SpecToken::RParen] + s);
    assert(rest(rest(rest(p2))) =~= seq![SpecToken::Comma, SpecToken::Number(pp), SpecToken::RParen] + s);
    assert(rest(rest(rest(rest(p2)))) =~= seq![SpecToken::Number(pp), SpecToken::RParen] + s);
    assert(rest(rest(rest(rest(rest(p2))))) =~= seq![SpecToken::RParen] + s);
    assert(rest(rest(rest(rest(rest(rest(p2)))))) =~= s);
}

} // verus!
