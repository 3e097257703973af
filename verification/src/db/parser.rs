//! The query language: from query text to an SQL condition and its
//! parameters.

use vstd::prelude::*;

use crate::db::lexer::{
    idents_without, lemma_lexed_idents_without_placeholder, lex, numbers_fit, query_numbers_fit,
    spec_tokenize, tokenize, LexOutcome, SpecToken,
};
use crate::db::sql::{
    attrs_without_placeholder, bind_params, count_char, emit_params, emit_sql,
    law_params_fill_placeholders_in_order, law_sql_ignores_values, lemma_placeholders_per_expr,
    shape, string_views, with_values, SqlEmitter,
};
use crate::db::syntax::{
    first, p_and, p_and_rest, p_attr, p_call, p_expect, p_not, p_or, p_or_rest,
    p_primary, p_range, rest, spec_parse, Parsed, Parser, SpecExpr,
};

verus! {

/// What a query gives: the SQL condition and its parameters, or the first
/// error met while tokenizing or parsing.
pub open spec fn spec_parse_query(q: Seq<char>) -> Result<(Seq<char>, Seq<Seq<char>>), Seq<char>> {
    match spec_tokenize(q) {
        Err(m) => Err(m),
        Ok(ts) => match spec_parse(ts) {
            Err(m) => Err(m),
            Ok(e) => Ok((emit_sql(e), emit_params(e))),
        },
    }
}

/// Translates a query into an SQL condition over the `notifications` table
/// and the parameters to bind, one for each `?`, in order.
pub fn parse_query(query: &str) -> (r: Result<(String, Vec<String>), String>)
    requires
        numbers_fit(query@),
    ensures
        match r {
            Ok((sql, params)) => spec_parse_query(query@) == Ok::<(Seq<char>, Seq<Seq<char>>), Seq<char>>(
                (sql@, string_views(params@)),
            ),
            Err(m) => spec_parse_query(query@) == Err::<(Seq<char>, Seq<Seq<char>>), Seq<char>>(m@),
        },
{
    let tokens = match tokenize(query) {
        Ok(ts) => ts,
        Err(m) => return Err(m),
    };
    let mut parser = Parser::new(tokens);
    let ast = match parser.parse() {
        Ok(e) => e,
        Err(m) => return Err(m),
    };
    let mut emitter = SqlEmitter::new();
    let sql = emitter.emit(&ast);
    assert(string_views(emitter.params@) =~= emit_params(ast@));
    Ok((sql, emitter.params))
}


/// Translates a query as `parse_query` does, or gives `None` where the
/// query holds a number too large for `i64`, on which `parse_query` is not
/// defined.
pub fn parse_query_checked(query: &str) -> (r: Option<Result<(String, Vec<String>), String>>)
    ensures
        r is None <==> !numbers_fit(query@),
        match r {
            Some(Ok((sql, params))) => spec_parse_query(query@) == Ok::<(Seq<char>, Seq<Seq<char>>), Seq<char>>(
                (sql@, string_views(params@)),
            ),
            Some(Err(m)) => spec_parse_query(query@) == Err::<(Seq<char>, Seq<Seq<char>>), Seq<char>>(m@),
            None => true,
        },
{
    if query_numbers_fit(query) {
        Some(parse_query(query))
    } else {
        None
    }
}


// ----- Every parameter has its placeholder -----

/// A parsing step whose expression names no attribute with a `?` and whose
/// remaining tokens hold no identifier with a `?`.
pub open spec fn clean_step(p: Parsed) -> bool {
    p matches Ok((e, r)) ==> attrs_without_placeholder(e) && idents_without(r, '?')
}

proof fn lemma_rest_clean(t: Seq<SpecToken>)
    requires
        idents_without(t, '?'),
    ensures
        idents_without(rest(t), '?'),
        first(t) matches Some(SpecToken::Ident(w)) ==> !w.contains('?'),
{
    if t.len() > 0 {
        assert(t[0] == first(t)->0);
        assert forall|i: int| 0 <= i < rest(t).len() implies (#[trigger] rest(t)[i] matches SpecToken::Ident(
            w,
        ) ==> !w.contains('?')) by {
            assert(rest(t)[i] == t[i + 1]);
        }
    }
}

proof fn lemma_expect_clean(t: Seq<SpecToken>, e: SpecToken)
    requires
        idents_without(t, '?'),
    ensures
        p_expect(t, e) matches Ok(r) ==> idents_without(r, '?'),
{
    lemma_rest_clean(t);
}

proof fn lemma_range_clean(t: Seq<SpecToken>)
    requires
        idents_without(t, '?'),
    ensures
        clean_step(p_range(t)),
{
    lemma_rest_clean(t);
    lemma_expect_clean(rest(t), SpecToken::DotDot);
    if let Ok(t2) = p_expect(rest(t), SpecToken::DotDot) {
        lemma_rest_clean(t2);
    }
}

proof fn lemma_attr_clean(t: Seq<SpecToken>)
    requires
        idents_without(t, '?'),
    ensures
        clean_step(p_attr(t)),
{
    lemma_expect_clean(t, SpecToken::LBrace);
    if let Ok(t1) = p_expect(t, SpecToken::LBrace) {
        lemma_rest_clean(t1);
        lemma_expect_clean(rest(t1), SpecToken::Eq);
        if let Ok(t2) = p_expect(rest(t1), SpecToken::Eq) {
            lemma_rest_clean(t2);
            lemma_expect_clean(rest(t2), SpecToken::RBrace);
        }
    }
}

proof fn lemma_call_clean(t: Seq<SpecToken>)
    requires
        idents_without(t, '?'),
    ensures
        clean_step(p_call(t)),
{
    lemma_rest_clean(t);
    let u = rest(t);
    lemma_expect_clean(u, SpecToken::LParen);
    if let Ok(t1) = p_expect(u, SpecToken::LParen) {
        lemma_rest_clean(t1);
        lemma_expect_clean(rest(t1), SpecToken::RParen);
        let t2 = rest(t1);
        lemma_rest_clean(t2);
        lemma_expect_clean(t2, SpecToken::RParen);
        let t3 = rest(t2);
        lemma_rest_clean(t3);
        lemma_expect_clean(rest(t3), SpecToken::RParen);
    }
}

proof fn lemma_primary_clean(t: Seq<SpecToken>)
    requires
        idents_without(t, '?'),
    ensures
        clean_step(p_primary(t)),
    decreases t.len(), 0int,
{
    lemma_range_clean(t);
    lemma_attr_clean(t);
    lemma_call_clean(t);
    if first(t) == Some(SpecToken::LParen) {
        lemma_rest_clean(t);
        lemma_or_clean(t.drop_first());
        if let Ok((e, r)) = p_or(t.drop_first()) {
            lemma_expect_clean(r, SpecToken::RParen);
        }
    }
}

proof fn lemma_not_clean(t: Seq<SpecToken>)
    requires
        idents_without(t, '?'),
    ensures
        clean_step(p_not(t)),
    decreases t.len(), 1int,
{
    if first(t) == Some(SpecToken::Not) {
        lemma_rest_clean(t);
        lemma_not_clean(t.drop_first());
    } else {
        lemma_primary_clean(t);
    }
}

proof fn lemma_and_clean(t: Seq<SpecToken>)
    requires
        idents_without(t, '?'),
    ensures
        clean_step(p_and(t)),
    decreases t.len(), 2int,
{
    lemma_not_clean(t);
    if let Ok((l, r)) = p_not(t) {
        if r.len() < t.len() {
            lemma_and_rest_clean(l, r);
        }
    }
}

proof fn lemma_and_rest_clean(left: SpecExpr, t: Seq<SpecToken>)
    requires
        idents_without(t, '?'),
        attrs_without_placeholder(left),
    ensures
        clean_step(p_and_rest(left, t)),
    decreases t.len(), 3int,
{
    if crate::db::syntax::is_and_sep(first(t)) {
        lemma_rest_clean(t);
        lemma_not_clean(t.drop_first());
        if let Ok((e, r)) = p_not(t.drop_first()) {
            let joined = SpecExpr::And(Box::new(left), Box::new(e));
            if r.len() < t.len() {
                lemma_and_rest_clean(joined, r);
            }
        }
    }
}

proof fn lemma_or_clean(t: Seq<SpecToken>)
    requires
        idents_without(t, '?'),
    ensures
        clean_step(p_or(t)),
    decreases t.len(), 4int,
{
    lemma_and_clean(t);
    if let Ok((l, r)) = p_and(t) {
        if r.len() < t.len() {
            lemma_or_rest_clean(l, r);
        }
    }
}

proof fn lemma_or_rest_clean(left: SpecExpr, t: Seq<SpecToken>)
    requires
        idents_without(t, '?'),
        attrs_without_placeholder(left),
    ensures
        clean_step(p_or_rest(left, t)),
    decreases t.len(), 5int,
{
    if crate::db::syntax::is_or_sep(first(t)) {
        lemma_rest_clean(t);
        lemma_and_clean(t.drop_first());
        if let Ok((e, r)) = p_and(t.drop_first()) {
            let joined = SpecExpr::Or(Box::new(left), Box::new(e));
            if r.len() < t.len() {
                lemma_or_rest_clean(joined, r);
            }
        }
    }
}

/// Every parameter has its placeholder: for every query that translates,
/// the SQL condition holds exactly as many `?` as there are parameters, so
/// binding the parameters in order fills every placeholder.
pub proof fn law_placeholders_match_params(q: Seq<char>)
    ensures
        spec_parse_query(q) matches Ok((sql, params)) ==> count_char(sql, '?') == params.len(),
{
    lemma_lexed_idents_without_placeholder(q);
    if let LexOutcome::Tokens(ts) = lex(q) {
        lemma_or_clean(ts);
        if let Ok((e, _)) = p_or(ts) {
            lemma_placeholders_per_expr(e);
        }
    }
}


// ----- Numbers and attribute values reach the SQL only as parameters -----

pub open spec fn is_value_token(t: SpecToken) -> bool {
    t is Ident || t is Number
}

/// Two tokens that may stand in each other's place: equal, both numbers,
/// or, in the value slot of an attribute filter, both identifiers or numbers.
pub open spec fn tokens_alike(x: SpecToken, y: SpecToken, value_slot: bool) -> bool {
    x == y || (x is Number && y is Number) || (value_slot && is_value_token(x) && is_value_token(
        y,
    ))
}

/// Whether the token at `i` follows `=` (for `i == 0`, as `after_eq` says).
pub open spec fn in_value_slot(t: Seq<SpecToken>, i: int, after_eq: bool) -> bool {
    if i == 0 {
        after_eq
    } else {
        t[i - 1] == SpecToken::Eq
    }
}

/// Token sequences that differ only in numbers and attribute values.
pub open spec fn alike(t1: Seq<SpecToken>, t2: Seq<SpecToken>, after_eq: bool) -> bool {
    &&& t1.len() == t2.len()
    &&& forall|i: int|
        0 <= i < t1.len() ==> tokens_alike(t1[i], #[trigger] t2[i], in_value_slot(t1, i, after_eq))
}

/// Parsing steps that agree up to numbers and attribute values: both fail,
/// or both give expressions of one shape with alike tokens left.
pub open spec fn steps_alike(p1: Parsed, p2: Parsed) -> bool {
    match (p1, p2) {
        (Ok((e1, r1)), Ok((e2, r2))) => shape(e1) == shape(e2) && alike(r1, r2, false),
        (Err(_), Err(_)) => true,
        _ => false,
    }
}

proof fn lemma_alike_rest(t1: Seq<SpecToken>, t2: Seq<SpecToken>, f: bool)
    requires
        alike(t1, t2, f),
    ensures
        alike(rest(t1), rest(t2), t1.len() > 0 && t1[0] == SpecToken::Eq),
        t1.len() > 0 ==> tokens_alike(t1[0], t2[0], f),
{
    if t1.len() > 0 {
        assert(tokens_alike(t1[0], t2[0], in_value_slot(t1, 0, f)));
        let g = t1[0] == SpecToken::Eq;
        assert forall|i: int| 0 <= i < rest(t1).len() implies tokens_alike(
            rest(t1)[i],
            #[trigger] rest(t2)[i],
            in_value_slot(rest(t1), i, g),
        ) by {
            assert(rest(t1)[i] == t1[i + 1]);
            assert(rest(t2)[i] == t2[i + 1]);
            assert(tokens_alike(t1[i + 1], t2[i + 1], in_value_slot(t1, i + 1, f)));
            if i > 0 {
                assert(rest(t1)[i - 1] == t1[i]);
            }
        }
    }
}

proof fn lemma_expect_alike(t1: Seq<SpecToken>, t2: Seq<SpecToken>, f: bool, e: SpecToken)
    requires
        alike(t1, t2, f),
        !is_value_token(e),
    ensures
        (p_expect(t1, e) is Ok) == (p_expect(t2, e) is Ok),
        p_expect(t1, e) is Ok ==> alike(rest(t1), rest(t2), e == SpecToken::Eq),
{
    lemma_alike_rest(t1, t2, f);
}

proof fn lemma_range_alike(t1: Seq<SpecToken>, t2: Seq<SpecToken>)
    requires
        alike(t1, t2, false),
    ensures
        steps_alike(p_range(t1), p_range(t2)),
{
    lemma_alike_rest(t1, t2, false);
    if first(t1) matches Some(SpecToken::Number(_)) {
        lemma_expect_alike(rest(t1), rest(t2), false, SpecToken::DotDot);
        if let Ok(u1) = p_expect(rest(t1), SpecToken::DotDot) {
            let u2 = rest(rest(t2));
            lemma_alike_rest(u1, u2, false);
        }
    }
}

proof fn lemma_attr_alike(t1: Seq<SpecToken>, t2: Seq<SpecToken>)
    requires
        alike(t1, t2, false),
    ensures
        steps_alike(p_attr(t1), p_attr(t2)),
{
    lemma_expect_alike(t1, t2, false, SpecToken::LBrace);
    if let Ok(a1) = p_expect(t1, SpecToken::LBrace) {
        let a2 = rest(t2);
        lemma_alike_rest(a1, a2, false);
        if first(a1) matches Some(SpecToken::Ident(_)) {
            lemma_expect_alike(rest(a1), rest(a2), false, SpecToken::Eq);
            if let Ok(b1) = p_expect(rest(a1), SpecToken::Eq) {
                let b2 = rest(rest(a2));
                lemma_alike_rest(b1, b2, true);
                if attr_value_some(first(b1)) {
                    lemma_expect_alike(rest(b1), rest(b2), false, SpecToken::RBrace);
                }
            }
        }
    }
}

pub open spec fn attr_value_some(o: Option<SpecToken>) -> bool {
    crate::db::syntax::attr_value(o) is Some
}

proof fn lemma_call_alike(t1: Seq<SpecToken>, t2: Seq<SpecToken>)
    requires
        alike(t1, t2, false),
    ensures
        steps_alike(p_call(t1), p_call(t2)),
{
    lemma_alike_rest(t1, t2, false);
    if first(t1) == Some(SpecToken::Last) || first(t1) == Some(SpecToken::Page) {
        let u1 = rest(t1);
        let u2 = rest(t2);
        lemma_expect_alike(u1, u2, false, SpecToken::LParen);
        if let Ok(a1) = p_expect(u1, SpecToken::LParen) {
            let a2 = rest(u2);
            lemma_alike_rest(a1, a2, false);
            let b1 = rest(a1);
            let b2 = rest(a2);
            let g = a1.len() > 0 && a1[0] == SpecToken::Eq;
            lemma_expect_alike(b1, b2, g, SpecToken::RParen);
            lemma_alike_rest(b1, b2, g);
            if !g {
                lemma_expect_alike(b1, b2, false, SpecToken::RParen);
            }
            let c1 = rest(b1);
            let c2 = rest(b2);
            let h = b1.len() > 0 && b1[0] == SpecToken::Eq;
            lemma_alike_rest(c1, c2, h);
            let k = c1.len() > 0 && c1[0] == SpecToken::Eq;
            lemma_expect_alike(rest(c1), rest(c2), k, SpecToken::RParen);
            lemma_alike_rest(rest(c1), rest(c2), k);
        }
    }
}

proof fn lemma_primary_alike(t1: Seq<SpecToken>, t2: Seq<SpecToken>)
    requires
        alike(t1, t2, false),
    ensures
        steps_alike(p_primary(t1), p_primary(t2)),
    decreases t1.len(), 0int,
{
    lemma_alike_rest(t1, t2, false);
    lemma_range_alike(t1, t2);
    lemma_attr_alike(t1, t2);
    lemma_call_alike(t1, t2);
    if first(t1) == Some(SpecToken::LParen) {
        lemma_or_alike(t1.drop_first(), t2.drop_first());
        if let Ok((e1, r1)) = p_or(t1.drop_first()) {
            if let Ok((e2, r2)) = p_or(t2.drop_first()) {
                lemma_expect_alike(r1, r2, false, SpecToken::RParen);
            }
        }
    }
}

proof fn lemma_not_alike(t1: Seq<SpecToken>, t2: Seq<SpecToken>)
    requires
        alike(t1, t2, false),
    ensures
        steps_alike(p_not(t1), p_not(t2)),
    decreases t1.len(), 1int,
{
    lemma_alike_rest(t1, t2, false);
    if first(t1) == Some(SpecToken::Not) {
        lemma_not_alike(t1.drop_first(), t2.drop_first());
    } else {
        lemma_primary_alike(t1, t2);
    }
}

proof fn lemma_and_alike(t1: Seq<SpecToken>, t2: Seq<SpecToken>)
    requires
        alike(t1, t2, false),
    ensures
        steps_alike(p_and(t1), p_and(t2)),
    decreases t1.len(), 2int,
{
    lemma_not_alike(t1, t2);
    if let Ok((l1, r1)) = p_not(t1) {
        if let Ok((l2, r2)) = p_not(t2) {
            if r1.len() < t1.len() {
                lemma_and_rest_alike(l1, r1, l2, r2);
            }
        }
    }
}

proof fn lemma_and_rest_alike(left1: SpecExpr, t1: Seq<SpecToken>, left2: SpecExpr, t2: Seq<SpecToken>)
    requires
        alike(t1, t2, false),
        shape(left1) == shape(left2),
    ensures
        steps_alike(p_and_rest(left1, t1), p_and_rest(left2, t2)),
    decreases t1.len(), 3int,
{
    lemma_alike_rest(t1, t2, false);
    if crate::db::syntax::is_and_sep(first(t1)) {
        lemma_not_alike(t1.drop_first(), t2.drop_first());
        if let Ok((e1, r1)) = p_not(t1.drop_first()) {
            if let Ok((e2, r2)) = p_not(t2.drop_first()) {
                let j1 = SpecExpr::And(Box::new(left1), Box::new(e1));
                let j2 = SpecExpr::And(Box::new(left2), Box::new(e2));
                if r1.len() < t1.len() {
                    lemma_and_rest_alike(j1, r1, j2, r2);
                }
            }
        }
    }
}

proof fn lemma_or_alike(t1: Seq<SpecToken>, t2: Seq<SpecToken>)
    requires
        alike(t1, t2, false),
    ensures
        steps_alike(p_or(t1), p_or(t2)),
    decreases t1.len(), 4int,
{
    lemma_and_alike(t1, t2);
    if let Ok((l1, r1)) = p_and(t1) {
        if let Ok((l2, r2)) = p_and(t2) {
            if r1.len() < t1.len() {
                lemma_or_rest_alike(l1, r1, l2, r2);
            }
        }
    }
}

proof fn lemma_or_rest_alike(left1: SpecExpr, t1: Seq<SpecToken>, left2: SpecExpr, t2: Seq<SpecToken>)
    requires
        alike(t1, t2, false),
        shape(left1) == shape(left2),
    ensures
        steps_alike(p_or_rest(left1, t1), p_or_rest(left2, t2)),
    decreases t1.len(), 5int,
{
    lemma_alike_rest(t1, t2, false);
    if crate::db::syntax::is_or_sep(first(t1)) {
        lemma_and_alike(t1.drop_first(), t2.drop_first());
        if let Ok((e1, r1)) = p_and(t1.drop_first()) {
            if let Ok((e2, r2)) = p_and(t2.drop_first()) {
                let j1 = SpecExpr::Or(Box::new(left1), Box::new(e1));
                let j2 = SpecExpr::Or(Box::new(left2), Box::new(e2));
                if r1.len() < t1.len() {
                    lemma_or_rest_alike(j1, r1, j2, r2);
                }
            }
        }
    }
}

/// Numbers and attribute values reach the SQL only as parameters: two
/// queries whose tokens differ only in numbers and in the values of
/// attribute filters both translate or both fail, and where they translate
/// they give the same SQL text and the same number of parameters.
pub proof fn law_values_only_as_params(q1: Seq<char>, q2: Seq<char>)
    requires
        lex(q1) matches LexOutcome::Tokens(t1) && lex(q2) matches LexOutcome::Tokens(t2) && alike(
            t1,
            t2,
            false,
        ),
    ensures
        (spec_parse_query(q1) is Ok) == (spec_parse_query(q2) is Ok),
        spec_parse_query(q1) matches Ok((s1, p1)) ==> spec_parse_query(q2) matches Ok((s2, p2))
            && s1 == s2 && p1.len() == p2.len(),
{
    if let LexOutcome::Tokens(t1) = lex(q1) {
        if let LexOutcome::Tokens(t2) = lex(q2) {
            lemma_or_alike(t1, t2);
            if let Ok((e1, _)) = p_or(t1) {
                if let Ok((e2, _)) = p_or(t2) {
                    law_sql_ignores_values(e1, e2);
                }
            }
        }
    }
}


/// For every query that translates, binding its parameters to the `?` of
/// its SQL text, in order, writes out the condition of its expression with
/// every number and value in place.
pub proof fn law_query_params_fill_placeholders(q: Seq<char>)
    ensures
        lex(q) matches LexOutcome::Tokens(ts) ==> (spec_parse(ts) matches Ok(e) ==> (
        spec_parse_query(q) == Ok::<(Seq<char>, Seq<Seq<char>>), Seq<char>>(
            (emit_sql(e), emit_params(e)),
        ) && bind_params(emit_sql(e), emit_params(e)) == with_values(e))),
{
    lemma_lexed_idents_without_placeholder(q);
    if let LexOutcome::Tokens(ts) = lex(q) {
        lemma_or_clean(ts);
        if let Ok((e, _)) = p_or(ts) {
            law_params_fill_placeholders_in_order(e);
        }
    }
}

} // verus!
