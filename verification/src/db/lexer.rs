//! Tokens of the query language and the tokenizer.

use vstd::prelude::*;

use crate::db::text::{char_is_alphanumeric, digit_char, digits, is_ascii_alphanumeric, chars_of, is_alphanumeric, is_word, push_char};

verus! {

/// A token of the query language.
#[derive(Debug)]
pub enum Token {
    Ident(String),
    Number(i64),
    LParen,
    RParen,
    LBrace,
    RBrace,
    DotDot,
    Comma,
    And,
    Or,
    Not,
    Eq,
    Unread,
    Last,
    Page,
}

/// The mathematical value of a token.
pub enum SpecToken {
    Ident(Seq<char>),
    Number(i64),
    LParen,
    RParen,
    LBrace,
    RBrace,
    DotDot,
    Comma,
    And,
    Or,
    Not,
    Eq,
    Unread,
    Last,
    Page,
}

impl View for Token {
    type V = SpecToken;

    open spec fn view(&self) -> SpecToken {
        match self {
            Token::Ident(s) => SpecToken::Ident(s@),
            Token::Number(n) => SpecToken::Number(*n),
            Token::LParen => SpecToken::LParen,
            Token::RParen => SpecToken::RParen,
            Token::LBrace => SpecToken::LBrace,
            Token::RBrace => SpecToken::RBrace,
            Token::DotDot => SpecToken::DotDot,
            Token::Comma => SpecToken::Comma,
            Token::And => SpecToken::And,
            Token::Or => SpecToken::Or,
            Token::Not => SpecToken::Not,
            Token::Eq => SpecToken::Eq,
            Token::Unread => SpecToken::Unread,
            Token::Last => SpecToken::Last,
            Token::Page => SpecToken::Page,
        }
    }
}

/// The values of a sequence of tokens.
pub open spec fn token_views(ts: Seq<Token>) -> Seq<SpecToken> {
    ts.map_values(|t: Token| t@)
}

/// What tokenizing a text gives: the tokens, an error message, or a number
/// too large for `i64` (on which tokenizing panics).
pub enum LexOutcome {
    Tokens(Seq<SpecToken>),
    Failed(Seq<char>),
    Overflow,
}

/// The executable form of `LexOutcome`.
pub enum Lexed {
    Tokens(Vec<Token>),
    Failed(String),
    Overflow,
}

impl View for Lexed {
    type V = LexOutcome;

    open spec fn view(&self) -> LexOutcome {
        match self {
            Lexed::Tokens(ts) => LexOutcome::Tokens(token_views(ts@)),
            Lexed::Failed(m) => LexOutcome::Failed(m@),
            Lexed::Overflow => LexOutcome::Overflow,
        }
    }
}

pub open spec fn is_space(c: char) -> bool {
    c == ' ' || c == '\t' || c == '\n' || c == '\r'
}

pub open spec fn is_digit(c: char) -> bool {
    '0' <= c && c <= '9'
}

/// Characters that may begin an identifier or keyword.
pub open spec fn is_ident_start(c: char) -> bool {
    ('a' <= c && c <= 'z') || ('A' <= c && c <= 'Z') || c == '_' || c == '-'
}

/// Characters that may continue an identifier or keyword: alphanumeric
/// characters (on ASCII, the letters and digits), `_` and `-`.
pub open spec fn is_ident_char(c: char) -> bool {
    if (c as int) < 128 {
        is_ascii_alphanumeric(c) || c == '_' || c == '-'
    } else {
        char_is_alphanumeric(c)
    }
}

/// The token that a single punctuation character stands for.
pub open spec fn punctuation(c: char) -> Option<SpecToken> {
    if c == '(' {
        Some(SpecToken::LParen)
    } else if c == ')' {
        Some(SpecToken::RParen)
    } else if c == '{' {
        Some(SpecToken::LBrace)
    } else if c == '}' {
        Some(SpecToken::RBrace)
    } else if c == ',' {
        Some(SpecToken::Comma)
    } else if c == '=' {
        Some(SpecToken::Eq)
    } else if c == '!' {
        Some(SpecToken::Not)
    } else if c == '&' {
        Some(SpecToken::And)
    } else if c == '|' {
        Some(SpecToken::Or)
    } else {
        None
    }
}

/// The number of ASCII digits at the start of `s`.
pub open spec fn digit_run(s: Seq<char>) -> nat
    decreases s.len(),
{
    if s.len() > 0 && is_digit(s[0]) {
        1 + digit_run(s.drop_first())
    } else {
        0
    }
}

/// The number of identifier characters at the start of `s`.
pub open spec fn ident_run(s: Seq<char>) -> nat
    decreases s.len(),
{
    if s.len() > 0 && is_ident_char(s[0]) {
        1 + ident_run(s.drop_first())
    } else {
        0
    }
}

/// The value of a digit character.
pub open spec fn digit_value(c: char) -> nat {
    ((c as int) - 48) as nat
}

/// The value of a sequence of decimal digits, most significant first.
pub open spec fn digits_value(s: Seq<char>) -> nat
    decreases s.len(),
{
    if s.len() == 0 {
        0
    } else {
        digits_value(s.drop_last()) * 10 + digit_value(s.last())
    }
}

/// The token that a word (a maximal run of identifier characters) stands for.
pub open spec fn word_token(w: Seq<char>) -> SpecToken {
    if w == "and"@ || w == "AND"@ {
        SpecToken::And
    } else if w == "or"@ || w == "OR"@ {
        SpecToken::Or
    } else if w == "not"@ || w == "NOT"@ {
        SpecToken::Not
    } else if w == "unread"@ {
        SpecToken::Unread
    } else if w == "last"@ {
        SpecToken::Last
    } else if w == "page"@ {
        SpecToken::Page
    } else {
        SpecToken::Ident(w)
    }
}

/// `t` put in front of the tokens of an outcome; errors stay as they are.
pub open spec fn cons(t: SpecToken, o: LexOutcome) -> LexOutcome {
    match o {
        LexOutcome::Tokens(ts) => LexOutcome::Tokens(seq![t] + ts),
        _ => o,
    }
}

/// `ts` put in front of the tokens of an outcome; errors stay as they are.
pub open spec fn prepend(ts: Seq<SpecToken>, o: LexOutcome) -> LexOutcome {
    match o {
        LexOutcome::Tokens(us) => LexOutcome::Tokens(ts + us),
        _ => o,
    }
}

pub proof fn lemma_digit_run_bound(s: Seq<char>)
    ensures
        digit_run(s) <= s.len(),
        s.len() > 0 && is_digit(s[0]) ==> digit_run(s) >= 1,
    decreases s.len(),
{
    if s.len() > 0 && is_digit(s[0]) {
        lemma_digit_run_bound(s.drop_first());
    }
}

pub proof fn lemma_ident_run_bound(s: Seq<char>)
    ensures
        ident_run(s) <= s.len(),
    decreases s.len(),
{
    if s.len() > 0 && is_ident_char(s[0]) {
        lemma_ident_run_bound(s.drop_first());
    }
}

/// The outcome of tokenizing `s`, read from left to right: whitespace is
/// skipped, punctuation gives single tokens, `..` a range token, a run of
/// digits a number, and a run of identifier characters a keyword or an
/// identifier. The first character that fits none of these ends the reading
/// with an error.
pub open spec fn lex(s: Seq<char>) -> LexOutcome
    decreases s.len(),
{
    if s.len() == 0 {
        LexOutcome::Tokens(seq![])
    } else {
        let c = s[0];
        if is_space(c) {
            lex(s.drop_first())
        } else if punctuation(c) is Some {
            cons(punctuation(c)->0, lex(s.drop_first()))
        } else if c == '.' {
            if s.len() >= 2 && s[1] == '.' {
                cons(SpecToken::DotDot, lex(s.skip(2)))
            } else {
                LexOutcome::Failed("Expected '..'"@)
            }
        } else if is_digit(c) {
            let n = digit_run(s);
            proof {
                lemma_digit_run_bound(s);
            }
            let v = digits_value(s.take(n as int));
            if v > i64::MAX {
                LexOutcome::Overflow
            } else {
                cons(SpecToken::Number(v as i64), lex(s.skip(n as int)))
            }
        } else if is_ident_start(c) {
            let n = 1 + ident_run(s.drop_first());
            proof {
                lemma_ident_run_bound(s.drop_first());
            }
            cons(word_token(s.take(n as int)), lex(s.skip(n as int)))
        } else {
            LexOutcome::Failed("Unexpected character: "@.push(c))
        }
    }
}

/// Whether every number in a text fits in an `i64` (as far as the text is
/// read before an error).
pub open spec fn numbers_fit(s: Seq<char>) -> bool {
    !(lex(s) is Overflow)
}

/// The tokens of `s`, or the error message (tokenizing is used only where
/// `numbers_fit` holds, so the last arm describes no run).
pub open spec fn spec_tokenize(s: Seq<char>) -> Result<Seq<SpecToken>, Seq<char>> {
    match lex(s) {
        LexOutcome::Tokens(ts) => Ok(ts),
        LexOutcome::Failed(m) => Err(m),
        LexOutcome::Overflow => Err(seq![]),
    }
}


proof fn lemma_digits_value_monotone(t: Seq<char>, k: int, m: int)
    requires
        0 <= k <= m <= t.len(),
    ensures
        digits_value(t.take(k)) <= digits_value(t.take(m)),
    decreases m - k,
{
    if k < m {
        lemma_digits_value_monotone(t, k, m - 1);
        assert(t.take(m).drop_last() =~= t.take(m - 1));
    }
}

/// Reads the run of digits that starts at `chars[i]`: its value and the
/// index after it, or `None` where the value does not fit in an `i64`.
fn scan_number(chars: &Vec<char>, i: usize) -> (r: Option<(i64, usize)>)
    requires
        i < chars@.len(),
        is_digit(chars@[i as int]),
    ensures
        ({
            let t = chars@.skip(i as int);
            let n = digit_run(t);
            let v = digits_value(t.take(n as int));
            match r {
                Some((value, j)) => v <= i64::MAX && value == v && j == i + n && j <= chars@.len(),
                None => v > i64::MAX,
            }
        }),
{
    let ghost s = chars@;
    let n = chars.len();
    let mut j: usize = i;
    let mut value: i64 = 0;
    proof {
        lemma_digit_run_bound(s.skip(i as int));
    }
    while j < n && '0' <= chars[j] && chars[j] <= '9'
        invariant
            s == chars@,
            n == s.len(),
            i < n,
            i <= j <= n,
            value as int == digits_value(s.subrange(i as int, j as int)),
            digit_run(s.skip(i as int)) == (j - i) + digit_run(s.skip(j as int)),
        decreases n - j,
    {
        let c = chars[j];
        let d: i64 = (c as u32 - 48) as i64;
        let ghost next = s.subrange(i as int, j + 1);
        assert(next.drop_last() =~= s.subrange(i as int, j as int));
        assert(s.skip(j as int).drop_first() =~= s.skip(j + 1));
        assert(s.skip(j as int)[0] == c);
        match value.checked_mul(10) {
            Some(m) => match m.checked_add(d) {
                Some(v) => {
                    value = v;
                },
                None => {
                    proof {
                        lemma_digit_run_bound(s.skip(j + 1));
                        assert(s.skip(i as int).take((j + 1 - i) as int) =~= next);
                        lemma_digits_value_monotone(
                            s.skip(i as int),
                            (j + 1 - i) as int,
                            digit_run(s.skip(i as int)) as int,
                        );
                    }
                    return None;
                },
            },
            None => {
                proof {
                    lemma_digit_run_bound(s.skip(j + 1));
                    assert(s.skip(i as int).take((j + 1 - i) as int) =~= next);
                    lemma_digits_value_monotone(
                        s.skip(i as int),
                        (j + 1 - i) as int,
                        digit_run(s.skip(i as int)) as int,
                    );
                }
                return None;
            },
        }
        j = j + 1;
    }
    assert(digit_run(s.skip(j as int)) == 0);
    assert(s.skip(i as int).take((j - i) as int) =~= s.subrange(i as int, j as int));
    Some((value, j))
}

/// Reads the identifier characters that follow `chars[i]`: the word from
/// `chars[i]` on and the index after it.
fn scan_word(chars: &Vec<char>, i: usize) -> (r: (String, usize))
    requires
        i < chars@.len(),
    ensures
        ({
            let n = 1 + ident_run(chars@.skip(i + 1));
            &&& r.1 == i + n
            &&& r.1 <= chars@.len()
            &&& r.0@ == chars@.skip(i as int).take(n as int)
        }),
{
    let ghost s = chars@;
    let n = chars.len();
    let mut word = String::new();
    push_char(&mut word, chars[i]);
    let mut j: usize = i + 1;
    proof {
        lemma_ident_run_bound(s.skip(i + 1));
    }
    while j < n && (is_alphanumeric(chars[j]) || chars[j] == '_' || chars[j] == '-')
        invariant
            s == chars@,
            n == s.len(),
            i < j <= n,
            word@ == s.subrange(i as int, j as int),
            ident_run(s.skip(i + 1)) == (j - i - 1) + ident_run(s.skip(j as int)),
        decreases n - j,
    {
        let c = chars[j];
        assert(s.skip(j as int).drop_first() =~= s.skip(j + 1));
        assert(s.skip(j as int)[0] == c);
        push_char(&mut word, c);
        assert(word@ =~= s.subrange(i as int, j + 1));
        j = j + 1;
    }
    assert(ident_run(s.skip(j as int)) == 0);
    assert(s.skip(i as int).take((j - i) as int) =~= s.subrange(i as int, j as int));
    (word, j)
}

/// The keyword or identifier token for a word.
fn word_to_token(w: String) -> (t: Token)
    ensures
        t@ == word_token(w@),
{
    if is_word(&w, "and") || is_word(&w, "AND") {
        Token::And
    } else if is_word(&w, "or") || is_word(&w, "OR") {
        Token::Or
    } else if is_word(&w, "not") || is_word(&w, "NOT") {
        Token::Not
    } else if is_word(&w, "unread") {
        Token::Unread
    } else if is_word(&w, "last") {
        Token::Last
    } else if is_word(&w, "page") {
        Token::Page
    } else {
        Token::Ident(w)
    }
}

/// The token of a single punctuation character.
fn punctuation_token(c: char) -> (t: Option<Token>)
    ensures
        match t {
            Some(tok) => punctuation(c) == Some(tok@),
            None => punctuation(c) is None,
        },
{
    if c == '(' {
        Some(Token::LParen)
    } else if c == ')' {
        Some(Token::RParen)
    } else if c == '{' {
        Some(Token::LBrace)
    } else if c == '}' {
        Some(Token::RBrace)
    } else if c == ',' {
        Some(Token::Comma)
    } else if c == '=' {
        Some(Token::Eq)
    } else if c == '!' {
        Some(Token::Not)
    } else if c == '&' {
        Some(Token::And)
    } else if c == '|' {
        Some(Token::Or)
    } else {
        None
    }
}

proof fn lemma_prepend_push(ts: Seq<Token>, t: Token, o: LexOutcome)
    ensures
        prepend(token_views(ts.push(t)), o) == prepend(token_views(ts), cons(t@, o)),
{
    assert(token_views(ts.push(t)) =~= token_views(ts).push(t@));
    match o {
        LexOutcome::Tokens(us) => {
            assert(token_views(ts).push(t@) + us =~= token_views(ts) + (seq![t@] + us));
        },
        _ => {},
    }
}

/// Tokenizes a text, reporting a number too large for `i64` as `Overflow`.
pub fn lex_text(input: &str) -> (r: Lexed)
    ensures
        r@ == lex(input@),
{
    let chars = chars_of(input);
    let ghost s = chars@;
    let n = chars.len();
    let mut tokens: Vec<Token> = Vec::new();
    let mut i: usize = 0;
    assert(s.skip(0) =~= s);
    while i < n
        invariant
            s == chars@,
            s == input@,
            n == s.len(),
            i <= n,
            lex(s) == prepend(token_views(tokens@), lex(s.skip(i as int))),
        decreases n - i,
    {
        let c = chars[i];
        let ghost rest = s.skip(i as int);
        assert(rest[0] == c);
        assert(rest.drop_first() =~= s.skip(i + 1));
        if c == ' ' || c == '\t' || c == '\n' || c == '\r' {
            i = i + 1;
        } else if let Some(tok) = punctuation_token(c) {
            proof {
                lemma_prepend_push(tokens@, tok, lex(s.skip(i + 1)));
            }
            tokens.push(tok);
            i = i + 1;
        } else if c == '.' {
            if i + 1 < n && chars[i + 1] == '.' {
                assert(rest.skip(2) =~= s.skip(i + 2));
                proof {
                    lemma_prepend_push(tokens@, Token::DotDot, lex(s.skip(i + 2)));
                }
                tokens.push(Token::DotDot);
                i = i + 2;
            } else {
                return Lexed::Failed(String::from_str("Expected '..'"));
            }
        } else if '0' <= c && c <= '9' {
            match scan_number(&chars, i) {
                Some((value, j)) => {
                    assert(rest.skip((j - i) as int) =~= s.skip(j as int));
                    proof {
                        lemma_prepend_push(tokens@, Token::Number(value), lex(s.skip(j as int)));
                    }
                    tokens.push(Token::Number(value));
                    i = j;
                },
                None => {
                    return Lexed::Overflow;
                },
            }
        } else if ('a' <= c && c <= 'z') || ('A' <= c && c <= 'Z') || c == '_' || c == '-' {
            let (word, j) = scan_word(&chars, i);
            let tok = word_to_token(word);
            assert(rest.skip((j - i) as int) =~= s.skip(j as int));
            proof {
                lemma_prepend_push(tokens@, tok, lex(s.skip(j as int)));
            }
            tokens.push(tok);
            i = j;
        } else {
            let mut msg = String::from_str("Unexpected character: ");
            push_char(&mut msg, c);
            return Lexed::Failed(msg);
        }
    }
    assert(s.skip(n as int) =~= Seq::<char>::empty());
    assert(token_views(tokens@) + Seq::<SpecToken>::empty() =~= token_views(tokens@));
    Lexed::Tokens(tokens)
}

/// Whether every number that tokenizing `query` reads fits in an `i64`;
/// tokenizing panics on one that does not, so callers test this first.
pub fn query_numbers_fit(query: &str) -> (r: bool)
    ensures
        r == numbers_fit(query@),
{
    match lex_text(query) {
        Lexed::Overflow => false,
        _ => true,
    }
}

/// Splits a query into tokens, or reports the first character that no token
/// can start with.
pub fn tokenize(input: &str) -> (r: Result<Vec<Token>, String>)
    requires
        numbers_fit(input@),
    ensures
        match r {
            Ok(ts) => spec_tokenize(input@) == Ok::<Seq<SpecToken>, Seq<char>>(token_views(ts@)),
            Err(m) => spec_tokenize(input@) == Err::<Seq<SpecToken>, Seq<char>>(m@),
        },
{
    match lex_text(input) {
        Lexed::Tokens(ts) => Ok(ts),
        Lexed::Failed(m) => Err(m),
        Lexed::Overflow => Err(String::new()),
    }
}


/// Whether no identifier among the tokens holds the character `c`.
pub open spec fn idents_without(ts: Seq<SpecToken>, c: char) -> bool {
    forall|i: int|
        0 <= i < ts.len() ==> (#[trigger] ts[i] matches SpecToken::Ident(w) ==> !w.contains(c))
}

proof fn lemma_ident_run_chars(t: Seq<char>)
    ensures
        forall|i: int| 0 <= i < ident_run(t) ==> is_ident_char(#[trigger] t[i]),
    decreases t.len(),
{
    lemma_ident_run_bound(t);
    if t.len() > 0 && is_ident_char(t[0]) {
        lemma_ident_run_chars(t.drop_first());
        assert forall|i: int| 0 <= i < ident_run(t) implies is_ident_char(#[trigger] t[i]) by {
            if i > 0 {
                assert(t[i] == t.drop_first()[i - 1]);
            }
        }
    }
}

proof fn lemma_cons_idents(t: SpecToken, o: LexOutcome, c: char)
    requires
        t matches SpecToken::Ident(w) ==> !w.contains(c),
        o matches LexOutcome::Tokens(us) ==> idents_without(us, c),
    ensures
        cons(t, o) matches LexOutcome::Tokens(ts) ==> idents_without(ts, c),
{
    if let LexOutcome::Tokens(us) = o {
        let ts = seq![t] + us;
        assert forall|i: int| 0 <= i < ts.len() implies (#[trigger] ts[i] matches SpecToken::Ident(
            w,
        ) ==> !w.contains(c)) by {
            if i > 0 {
                assert(ts[i] == us[i - 1]);
            }
        }
    }
}

/// Identifiers hold no character outside identifier characters: in
/// particular, no identifier that tokenizing gives holds a `?`.
pub proof fn lemma_lexed_idents_without_placeholder(s: Seq<char>)
    ensures
        lex(s) matches LexOutcome::Tokens(ts) ==> idents_without(ts, '?'),
    decreases s.len(),
{
    if s.len() > 0 {
        let c = s[0];
        if is_space(c) {
            lemma_lexed_idents_without_placeholder(s.drop_first());
        } else if punctuation(c) is Some {
            lemma_lexed_idents_without_placeholder(s.drop_first());
            lemma_cons_idents(punctuation(c)->0, lex(s.drop_first()), '?');
        } else if c == '.' {
            if s.len() >= 2 && s[1] == '.' {
                lemma_lexed_idents_without_placeholder(s.skip(2));
                lemma_cons_idents(SpecToken::DotDot, lex(s.skip(2)), '?');
            }
        } else if is_digit(c) {
            let n = digit_run(s);
            lemma_digit_run_bound(s);
            let v = digits_value(s.take(n as int));
            if v <= i64::MAX {
                lemma_lexed_idents_without_placeholder(s.skip(n as int));
                lemma_cons_idents(SpecToken::Number(v as i64), lex(s.skip(n as int)), '?');
            }
        } else if is_ident_start(c) {
            let n = 1 + ident_run(s.drop_first());
            lemma_ident_run_bound(s.drop_first());
            lemma_ident_run_chars(s.drop_first());
            let w = s.take(n as int);
            assert(!w.contains('?')) by {
                if w.contains('?') {
                    let i = choose|i: int| 0 <= i < w.len() && w[i] == '?';
                    if i > 0 {
                        assert(w[i] == s.drop_first()[i - 1]);
                    }
                }
            }
            lemma_lexed_idents_without_placeholder(s.skip(n as int));
            lemma_cons_idents(word_token(w), lex(s.skip(n as int)), '?');
        }
    }
}


// ----- Every token takes at least one character -----

proof fn lemma_cons_len(t: SpecToken, o: LexOutcome, bound: int)
    requires
        o matches LexOutcome::Tokens(us) ==> us.len() <= bound,
    ensures
        cons(t, o) matches LexOutcome::Tokens(ts) ==> ts.len() <= bound + 1,
{
}

/// Every token takes at least one character: a text gives no more tokens
/// than it has characters.
pub proof fn law_tokens_at_most_chars(s: Seq<char>)
    ensures
        lex(s) matches LexOutcome::Tokens(ts) ==> ts.len() <= s.len(),
    decreases s.len(),
{
    if s.len() > 0 {
        let c = s[0];
        if is_space(c) {
            law_tokens_at_most_chars(s.drop_first());
        } else if punctuation(c) is Some {
            law_tokens_at_most_chars(s.drop_first());
            lemma_cons_len(punctuation(c)->0, lex(s.drop_first()), s.len() - 1);
        } else if c == '.' {
            if s.len() >= 2 && s[1] == '.' {
                law_tokens_at_most_chars(s.skip(2));
                lemma_cons_len(SpecToken::DotDot, lex(s.skip(2)), s.len() - 2);
            }
        } else if is_digit(c) {
            let n = digit_run(s);
            lemma_digit_run_bound(s);
            let v = digits_value(s.take(n as int));
            if v <= i64::MAX {
                law_tokens_at_most_chars(s.skip(n as int));
                lemma_cons_len(SpecToken::Number(v as i64), lex(s.skip(n as int)), s.len() - n);
            }
        } else if is_ident_start(c) {
            let n = 1 + ident_run(s.drop_first());
            lemma_ident_run_bound(s.drop_first());
            law_tokens_at_most_chars(s.skip(n as int));
            lemma_cons_len(word_token(s.take(n as int)), lex(s.skip(n as int)), s.len() - n);
        }
    }
}

// ----- Whitespace separates tokens -----

/// The outcome of reading two texts one after the other: the tokens of
/// both, or the first error.
pub open spec fn join(o1: LexOutcome, o2: LexOutcome) -> LexOutcome {
    match o1 {
        LexOutcome::Tokens(ts) => prepend(ts, o2),
        _ => o1,
    }
}

proof fn lemma_digit_run_concat(a: Seq<char>, b: Seq<char>)
    requires
        b.len() > 0,
        !is_digit(b[0]),
    ensures
        digit_run(a + b) == digit_run(a),
    decreases a.len(),
{
    if a.len() == 0 {
        assert(a + b =~= b);
    } else {
        assert((a + b)[0] == a[0]);
        assert((a + b).drop_first() =~= a.drop_first() + b);
        lemma_digit_run_concat(a.drop_first(), b);
    }
}

proof fn lemma_ident_run_concat(a: Seq<char>, b: Seq<char>)
    requires
        b.len() > 0,
        !is_ident_char(b[0]),
    ensures
        ident_run(a + b) == ident_run(a),
    decreases a.len(),
{
    if a.len() == 0 {
        assert(a + b =~= b);
    } else {
        assert((a + b)[0] == a[0]);
        assert((a + b).drop_first() =~= a.drop_first() + b);
        lemma_ident_run_concat(a.drop_first(), b);
    }
}

proof fn lemma_join_cons(t: SpecToken, o1: LexOutcome, o2: LexOutcome)
    ensures
        cons(t, join(o1, o2)) == join(cons(t, o1), o2),
{
    if let LexOutcome::Tokens(ts) = o1 {
        if let LexOutcome::Tokens(us) = o2 {
            assert(seq![t] + (ts + us) =~= (seq![t] + ts) + us);
        }
    }
}

/// Characters that always end a token: whitespace and punctuation.
pub open spec fn is_breaker(c: char) -> bool {
    is_space(c) || punctuation(c) is Some
}

proof fn lemma_lex_before_breaker(a: Seq<char>, b: Seq<char>)
    requires
        b.len() > 0,
        is_breaker(b[0]),
    ensures
        lex(a + b) == join(lex(a), lex(b)),
    decreases a.len(),
{
    let s = a + b;
    if a.len() == 0 {
        assert(s =~= b);
        if let LexOutcome::Tokens(us) = lex(b) {
            assert(Seq::<SpecToken>::empty() + us =~= us);
        }
    } else {
        let c = a[0];
        assert(s[0] == c);
        assert(s.drop_first() =~= a.drop_first() + b);
        if is_space(c) {
            lemma_lex_before_breaker(a.drop_first(), b);
        } else if punctuation(c) is Some {
            lemma_lex_before_breaker(a.drop_first(), b);
            lemma_join_cons(punctuation(c)->0, lex(a.drop_first()), lex(b));
        } else if c == '.' {
            if a.len() >= 2 {
                assert(s[1] == a[1]);
                if a[1] == '.' {
                    assert(s.skip(2) =~= a.skip(2) + b);
                    lemma_lex_before_breaker(a.skip(2), b);
                    lemma_join_cons(SpecToken::DotDot, lex(a.skip(2)), lex(b));
                }
            } else {
                assert(s[1] == b[0]);
            }
        } else if is_digit(c) {
            lemma_digit_run_concat(a, b);
            lemma_digit_run_bound(a);
            let n = digit_run(a);
            assert(s.take(n as int) =~= a.take(n as int));
            assert(s.skip(n as int) =~= a.skip(n as int) + b);
            let v = digits_value(a.take(n as int));
            if v <= i64::MAX {
                lemma_lex_before_breaker(a.skip(n as int), b);
                lemma_join_cons(SpecToken::Number(v as i64), lex(a.skip(n as int)), lex(b));
            }
        } else if is_ident_start(c) {
            lemma_ident_run_concat(a.drop_first(), b);
            lemma_ident_run_bound(a.drop_first());
            let n = 1 + ident_run(a.drop_first());
            assert(s.take(n as int) =~= a.take(n as int));
            assert(s.skip(n as int) =~= a.skip(n as int) + b);
            lemma_lex_before_breaker(a.skip(n as int), b);
            lemma_join_cons(word_token(a.take(n as int)), lex(a.skip(n as int)), lex(b));
        }
    }
}

/// Whitespace separates tokens: reading two texts with a whitespace
/// character between them gives the tokens of the first and then those of
/// the second, or the first error.
pub proof fn law_whitespace_separates(s1: Seq<char>, w: char, s2: Seq<char>)
    requires
        is_space(w),
    ensures
        lex(s1 + seq![w] + s2) == join(lex(s1), lex(s2)),
{
    let b = seq![w] + s2;
    assert(s1 + seq![w] + s2 =~= s1 + b);
    assert(b.drop_first() =~= s2);
    lemma_lex_before_breaker(s1, b);
}


proof fn lemma_join_assoc(o1: LexOutcome, o2: LexOutcome, o3: LexOutcome)
    ensures
        join(join(o1, o2), o3) == join(o1, join(o2, o3)),
{
    if let LexOutcome::Tokens(a) = o1 {
        if let LexOutcome::Tokens(b) = o2 {
            if let LexOutcome::Tokens(c) = o3 {
                assert((a + b) + c =~= a + (b + c));
            }
        }
    }
}

proof fn lemma_join_empty(o: LexOutcome)
    ensures
        join(o, LexOutcome::Tokens(Seq::empty())) == o,
{
    if let LexOutcome::Tokens(a) = o {
        assert(a + Seq::<SpecToken>::empty() =~= a);
    }
}

proof fn lemma_lex_single_breaker(c: char, b: Seq<char>)
    requires
        is_breaker(c),
    ensures
        lex(seq![c] + b) == join(lex(seq![c]), lex(b)),
{
    let s = seq![c] + b;
    assert(s[0] == c);
    assert(s.drop_first() =~= b);
    assert(seq![c].drop_first() =~= Seq::<char>::empty());
    assert(lex(Seq::<char>::empty()) == LexOutcome::Tokens(Seq::empty()));
    if let LexOutcome::Tokens(us) = lex(b) {
        assert(Seq::<SpecToken>::empty() + us =~= us);
        if !is_space(c) {
            let t = punctuation(c)->0;
            assert(seq![t] + Seq::<SpecToken>::empty() =~= seq![t]);
        }
    }
}

proof fn lemma_lex_after_breaker(a: Seq<char>, b: Seq<char>)
    requires
        a.len() > 0,
        is_breaker(a.last()),
    ensures
        lex(a + b) == join(lex(a), lex(b)),
{
    let c = a.last();
    let a1 = a.drop_last();
    assert(a =~= a1 + seq![c]);
    assert(a + b =~= a1 + (seq![c] + b));
    lemma_lex_before_breaker(a1, seq![c] + b);
    lemma_lex_before_breaker(a1, seq![c]);
    lemma_lex_single_breaker(c, b);
    lemma_join_assoc(lex(a1), lex(seq![c]), lex(b));
}

/// Whether a text can be cut between `a` and `b` without cutting a token:
/// at either end, or next to whitespace or punctuation.
pub open spec fn is_token_edge(a: Seq<char>, b: Seq<char>) -> bool {
    a.len() == 0 || b.len() == 0 || is_breaker(a.last()) || is_breaker(b[0])
}

/// Texts cut at a token edge are read piece by piece: the tokens of the
/// whole are those of the first piece and then those of the second, or the
/// first error.
pub proof fn law_split_at_token_edge(a: Seq<char>, b: Seq<char>)
    requires
        is_token_edge(a, b),
    ensures
        lex(a + b) == join(lex(a), lex(b)),
{
    if a.len() == 0 {
        assert(a + b =~= b);
        assert(lex(a) == LexOutcome::Tokens(Seq::empty()));
        if let LexOutcome::Tokens(us) = lex(b) {
            assert(Seq::<SpecToken>::empty() + us =~= us);
        }
    } else if b.len() == 0 {
        assert(a + b =~= a);
        assert(lex(b) == LexOutcome::Tokens(Seq::empty()));
        lemma_join_empty(lex(a));
    } else if is_breaker(b[0]) {
        lemma_lex_before_breaker(a, b);
    } else {
        lemma_lex_after_breaker(a, b);
    }
}

/// Whitespace between tokens is insignificant: inserting a whitespace
/// character at a token edge does not change what the text reads as.
pub proof fn law_whitespace_insertion(q: Seq<char>, i: int, w: char)
    requires
        0 <= i <= q.len(),
        is_space(w),
        is_token_edge(q.take(i), q.skip(i)),
    ensures
        lex(q.insert(i, w)) == lex(q),
{
    let a = q.take(i);
    let b = q.skip(i);
    assert(q =~= a + b);
    assert(q.insert(i, w) =~= a + seq![w] + b);
    law_whitespace_separates(a, w, b);
    law_split_at_token_edge(a, b);
}


// ----- What words, numbers and punctuation read as -----

proof fn lemma_ident_run_prefix(a: Seq<char>, b: Seq<char>)
    requires
        forall|i: int| 0 <= i < a.len() ==> is_ident_char(#[trigger] a[i]),
    ensures
        ident_run(a + b) == a.len() + ident_run(b),
    decreases a.len(),
{
    if a.len() == 0 {
        assert(a + b =~= b);
    } else {
        assert((a + b)[0] == a[0]);
        assert((a + b).drop_first() =~= a.drop_first() + b);
        assert forall|i: int| 0 <= i < a.drop_first().len() implies is_ident_char(
            #[trigger] a.drop_first()[i],
        ) by {
            assert(a.drop_first()[i] == a[i + 1]);
        }
        lemma_ident_run_prefix(a.drop_first(), b);
    }
}

/// A word read up to a token edge: an identifier character run that starts
/// with a letter, `_` or `-` is one keyword or identifier token.
proof fn lemma_word(w: Seq<char>, s: Seq<char>)
    requires
        w.len() > 0,
        is_ident_start(w[0]),
        forall|i: int| 1 <= i < w.len() ==> is_ident_char(#[trigger] w[i]),
        s.len() == 0 || is_breaker(s[0]),
    ensures
        lex(w + s) == cons(word_token(w), lex(s)),
{
    let t = w + s;
    assert(t[0] == w[0]);
    assert(t.drop_first() =~= w.drop_first() + s);
    assert forall|i: int| 0 <= i < w.drop_first().len() implies is_ident_char(
        #[trigger] w.drop_first()[i],
    ) by {
        assert(w.drop_first()[i] == w[i + 1]);
    }
    lemma_ident_run_prefix(w.drop_first(), s);
    assert(ident_run(s) == 0);
    assert(t.take(w.len() as int) =~= w);
    assert(t.skip(w.len() as int) =~= s);
}

/// The keywords: `and`/`AND`, `or`/`OR`, `not`/`NOT`, `unread`, `last` and
/// `page`, each followed by a token edge, read as their own tokens.
pub proof fn law_keywords(s: Seq<char>)
    requires
        s.len() == 0 || is_breaker(s[0]),
    ensures
        lex("and"@ + s) == cons(SpecToken::And, lex(s)),
        lex("AND"@ + s) == cons(SpecToken::And, lex(s)),
        lex("or"@ + s) == cons(SpecToken::Or, lex(s)),
        lex("OR"@ + s) == cons(SpecToken::Or, lex(s)),
        lex("not"@ + s) == cons(SpecToken::Not, lex(s)),
        lex("NOT"@ + s) == cons(SpecToken::Not, lex(s)),
        lex("unread"@ + s) == cons(SpecToken::Unread, lex(s)),
        lex("last"@ + s) == cons(SpecToken::Last, lex(s)),
        lex("page"@ + s) == cons(SpecToken::Page, lex(s)),
{
    reveal_strlit("and");
    reveal_strlit("AND");
    reveal_strlit("or");
    reveal_strlit("OR");
    reveal_strlit("not");
    reveal_strlit("NOT");
    reveal_strlit("unread");
    reveal_strlit("last");
    reveal_strlit("page");
    lemma_word("and"@, s);
    lemma_word("AND"@, s);
    lemma_word("or"@, s);
    lemma_word("OR"@, s);
    lemma_word("not"@, s);
    lemma_word("NOT"@, s);
    lemma_word("unread"@, s);
    lemma_word("last"@, s);
    lemma_word("page"@, s);
}

/// Punctuation: each of `( ) { } , = ! & |` reads as its own token, `!` as
/// `not`, `&` as `and` and `|` as `or`.
pub proof fn law_punctuation(s: Seq<char>)
    ensures
        lex(seq!['('] + s) == cons(SpecToken::LParen, lex(s)),
        lex(seq![')'] + s) == cons(SpecToken::RParen, lex(s)),
        lex(seq!['{'] + s) == cons(SpecToken::LBrace, lex(s)),
        lex(seq!['}'] + s) == cons(SpecToken::RBrace, lex(s)),
        lex(seq![','] + s) == cons(SpecToken::Comma, lex(s)),
        lex(seq!['='] + s) == cons(SpecToken::Eq, lex(s)),
        lex(seq!['!'] + s) == cons(SpecToken::Not, lex(s)),
        lex(seq!['&'] + s) == cons(SpecToken::And, lex(s)),
        lex(seq!['|'] + s) == cons(SpecToken::Or, lex(s)),
        lex(seq!['.', '.'] + s) == cons(SpecToken::DotDot, lex(s)),
{
    let cs = seq!['(', ')', '{', '}', ',', '=', '!', '&', '|'];
    assert forall|i: int| 0 <= i < cs.len() implies (#[trigger] (seq![cs[i]] + s)).drop_first()
        =~= s && (seq![cs[i]] + s)[0] == cs[i] by {}
    assert((seq!['.', '.'] + s).skip(2) =~= s);
    assert((seq!['.', '.'] + s)[1] == '.');
}

proof fn lemma_digit_char_value(d: nat)
    requires
        d < 10,
    ensures
        is_digit(digit_char(d)),
        digit_value(digit_char(d)) == d,
{
}

proof fn lemma_digits_of_number(n: nat)
    ensures
        digits(n).len() > 0,
        forall|i: int| 0 <= i < digits(n).len() ==> is_digit(#[trigger] digits(n)[i]),
        digits_value(digits(n)) == n,
    decreases n,
{
    if n < 10 {
        lemma_digit_char_value(n);
        assert(seq![digit_char(n)].drop_last() =~= Seq::<char>::empty());
        assert(digits_value(Seq::<char>::empty()) == 0);
        assert(seq![digit_char(n)].last() == digit_char(n));
    } else {
        lemma_digits_of_number(n / 10);
        lemma_digit_char_value(n % 10);
        assert(digits(n).drop_last() =~= digits(n / 10));
        assert(digits(n).last() == digit_char(n % 10));
        assert((n / 10) * 10 + n % 10 == n) by (nonlinear_arith);
        assert forall|i: int| 0 <= i < digits(n).len() implies is_digit(#[trigger] digits(n)[i]) by {
            if i < digits(n).len() - 1 {
                assert(digits(n)[i] == digits(n / 10)[i]);
            }
        }
    }
}

proof fn lemma_digit_run_prefix(a: Seq<char>, b: Seq<char>)
    requires
        forall|i: int| 0 <= i < a.len() ==> is_digit(#[trigger] a[i]),
        b.len() == 0 || !is_digit(b[0]),
    ensures
        digit_run(a + b) == a.len(),
    decreases a.len(),
{
    if a.len() == 0 {
        assert(a + b =~= b);
    } else {
        assert((a + b)[0] == a[0]);
        assert((a + b).drop_first() =~= a.drop_first() + b);
        assert forall|i: int| 0 <= i < a.drop_first().len() implies is_digit(
            #[trigger] a.drop_first()[i],
        ) by {
            assert(a.drop_first()[i] == a[i + 1]);
        }
        lemma_digit_run_prefix(a.drop_first(), b);
    }
}

/// A number written in decimal, followed by a token edge, reads as that
/// number.
pub proof fn law_number(n: i64, s: Seq<char>)
    requires
        n >= 0,
        s.len() == 0 || is_breaker(s[0]),
    ensures
        lex(digits(n as nat) + s) == cons(SpecToken::Number(n), lex(s)),
{
    let w = digits(n as nat);
    lemma_digits_of_number(n as nat);
    let t = w + s;
    assert(t[0] == w[0]);
    lemma_digit_run_prefix(w, s);
    assert(t.take(w.len() as int) =~= w);
    assert(t.skip(w.len() as int) =~= s);
}

} // verus!
