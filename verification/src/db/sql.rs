//! Translation of a query expression into an SQL condition with positional
//! parameters.

use vstd::prelude::*;

use crate::db::syntax::{Expr, SpecExpr};
use crate::db::text::{decimal, i64_to_string};

verus! {

/// The SQL condition for an expression; each `?` in it stands for one
/// parameter of `emit_params`, in order.
pub open spec fn emit_sql(e: SpecExpr) -> Seq<char>
    decreases e,
{
    match e {
        SpecExpr::And(l, r) => "("@ + emit_sql(*l) + " AND "@ + emit_sql(*r) + ")"@,
        SpecExpr::Or(l, r) => "("@ + emit_sql(*l) + " OR "@ + emit_sql(*r) + ")"@,
        SpecExpr::Not(x) => "(NOT "@ + emit_sql(*x) + ")"@,
        SpecExpr::Range(_, _) => "id BETWEEN ? AND ?"@,
        SpecExpr::AttrFilter(attr, _) => attr + " = ?"@,
        SpecExpr::Unread => "closed = 0"@,
        SpecExpr::Last(_) => "id IN (SELECT id FROM notifications ORDER BY id DESC LIMIT ?)"@,
        SpecExpr::Page(_, _) => "id IN (SELECT id FROM notifications ORDER BY id DESC LIMIT ? OFFSET ?)"@,
    }
}

/// The parameters of the SQL condition for an expression, left to right.
pub open spec fn emit_params(e: SpecExpr) -> Seq<Seq<char>>
    decreases e,
{
    match e {
        SpecExpr::And(l, r) => emit_params(*l) + emit_params(*r),
        SpecExpr::Or(l, r) => emit_params(*l) + emit_params(*r),
        SpecExpr::Not(x) => emit_params(*x),
        SpecExpr::Range(a, b) => seq![decimal(a as int), decimal(b as int)],
        SpecExpr::AttrFilter(_, value) => seq![value],
        SpecExpr::Unread => seq![],
        SpecExpr::Last(n) => seq![decimal(n as int)],
        SpecExpr::Page(offset, per_page) => seq![decimal(offset as int), decimal(per_page as int)],
    }
}

/// The statement that selects the notifications meeting a condition.
pub fn select_notifications_sql(where_sql: &str) -> (r: String)
    ensures
        r@ == "SELECT * FROM notifications WHERE "@ + where_sql@,
{
    let mut out = String::from_str("SELECT * FROM notifications WHERE ");
    out.append(where_sql);
    out
}

/// The views of a list of strings.
pub open spec fn string_views(v: Seq<String>) -> Seq<Seq<char>> {
    v.map_values(|s: String| s@)
}

/// Collects the parameters while an expression is written out as SQL.
pub struct SqlEmitter {
    pub params: Vec<String>,
}

impl SqlEmitter {
    pub fn new() -> (e: Self)
        ensures
            e.params@.len() == 0,
    {
        SqlEmitter { params: Vec::new() }
    }

    pub fn push(&mut self, s: String)
        ensures
            string_views(final(self).params@) == string_views(old(self).params@).push(s@),
    {
        self.params.push(s);
        assert(string_views(self.params@) =~= string_views(old(self).params@).push(s@));
    }

    /// Writes the SQL for `expr`, appending its parameters.
    pub fn emit(&mut self, expr: &Expr) -> (r: String)
        ensures
            r@ == emit_sql(expr@),
            string_views(final(self).params@) == string_views(old(self).params@) + emit_params(expr@),
        decreases expr,
    {
        let ghost before = string_views(self.params@);
        match expr {
            Expr::And(l, r) => {
                let a = self.emit(l);
                let b = self.emit(r);
                let mut out = String::from_str("(");
                out.append(a.as_str());
                out.append(" AND ");
                out.append(b.as_str());
                out.append(")");
                assert(string_views(self.params@) =~= before + emit_params(expr@));
                out
            },
            Expr::Or(l, r) => {
                let a = self.emit(l);
                let b = self.emit(r);
                let mut out = String::from_str("(");
                out.append(a.as_str());
                out.append(" OR ");
                out.append(b.as_str());
                out.append(")");
                assert(string_views(self.params@) =~= before + emit_params(expr@));
                out
            },
            Expr::Not(x) => {
                let a = self.emit(x);
                let mut out = String::from_str("(NOT ");
                out.append(a.as_str());
                out.append(")");
                out
            },
            Expr::Range(a, b) => {
                self.push(i64_to_string(*a));
                self.push(i64_to_string(*b));
                assert(string_views(self.params@) =~= before + emit_params(expr@));
                String::from_str("id BETWEEN ? AND ?")
            },
            Expr::AttrFilter(attr, value) => {
                self.push(value.clone());
                assert(string_views(self.params@) =~= before + emit_params(expr@));
                let mut out = attr.clone();
                out.append(" = ?");
                out
            },
            Expr::Unread => {
                assert(string_views(self.params@) =~= before + emit_params(expr@));
                String::from_str("closed = 0")
            },
            Expr::Last(n) => {
                self.push(i64_to_string(*n));
                assert(string_views(self.params@) =~= before + emit_params(expr@));
                String::from_str("id IN (SELECT id FROM notifications ORDER BY id DESC LIMIT ?)")
            },
            Expr::Page(offset, per_page) => {
                self.push(i64_to_string(*offset));
                self.push(i64_to_string(*per_page));
                assert(string_views(self.params@) =~= before + emit_params(expr@));
                String::from_str(
                    "id IN (SELECT id FROM notifications ORDER BY id DESC LIMIT ? OFFSET ?)",
                )
            },
        }
    }
}


/// The number of times `c` occurs in `s`.
pub open spec fn count_char(s: Seq<char>, c: char) -> nat
    decreases s.len(),
{
    if s.len() == 0 {
        0
    } else {
        count_char(s.drop_last(), c) + (if s.last() == c { 1nat } else { 0nat })
    }
}

/// Whether no attribute name in an expression holds a `?`.
pub open spec fn attrs_without_placeholder(e: SpecExpr) -> bool
    decreases e,
{
    match e {
        SpecExpr::And(l, r) => attrs_without_placeholder(*l) && attrs_without_placeholder(*r),
        SpecExpr::Or(l, r) => attrs_without_placeholder(*l) && attrs_without_placeholder(*r),
        SpecExpr::Not(x) => attrs_without_placeholder(*x),
        SpecExpr::AttrFilter(attr, _) => !attr.contains('?'),
        _ => true,
    }
}

pub proof fn lemma_count_char_concat(a: Seq<char>, b: Seq<char>, c: char)
    ensures
        count_char(a + b, c) == count_char(a, c) + count_char(b, c),
    decreases b.len(),
{
    if b.len() == 0 {
        assert(a + b =~= a);
    } else {
        lemma_count_char_concat(a, b.drop_last(), c);
        assert((a + b).drop_last() =~= a + b.drop_last());
    }
}

proof fn lemma_count_char_absent(s: Seq<char>, c: char)
    requires
        !s.contains(c),
    ensures
        count_char(s, c) == 0,
    decreases s.len(),
{
    if s.len() > 0 {
        assert(s.drop_last().contains(c) ==> s.contains(c)) by {
            if s.drop_last().contains(c) {
                let i = choose|i: int| 0 <= i < s.drop_last().len() && s.drop_last()[i] == c;
                assert(s[i] == c);
            }
        }
        assert(s[s.len() - 1] == s.last());
        lemma_count_char_absent(s.drop_last(), c);
    }
}

proof fn lemma_count_short_literals()
    ensures
        count_char("("@, '?') == 0,
        count_char(")"@, '?') == 0,
        count_char(" AND "@, '?') == 0,
        count_char(" OR "@, '?') == 0,
        count_char("(NOT "@, '?') == 0,
        count_char(" = ?"@, '?') == 1,
        count_char("closed = 0"@, '?') == 0,
{
    reveal_strlit("(");
    reveal_strlit(")");
    reveal_strlit(" AND ");
    reveal_strlit(" OR ");
    reveal_strlit("(NOT ");
    reveal_strlit(" = ?");
    reveal_strlit("closed = 0");
    reveal_with_fuel(count_char, 11);
}

proof fn lemma_count_range_literal()
    ensures
        count_char("id BETWEEN ? AND ?"@, '?') == 2,
{
    reveal_strlit("id BETWEEN ? AND ?");
    reveal_with_fuel(count_char, 19);
}

proof fn lemma_count_no_placeholder(s: Seq<char>)
    requires
        forall|i: int| 0 <= i < s.len() ==> s[i] != '?',
    ensures
        count_char(s, '?') == 0,
{
    lemma_count_char_absent(s, '?');
}

proof fn lemma_count_last_literal()
    ensures
        count_char("id IN (SELECT id FROM notifications ORDER BY id DESC LIMIT ?)"@, '?') == 1,
{
    let whole = "id IN (SELECT id FROM notifications ORDER BY id DESC LIMIT ?)"@;
    let head = "id IN (SELECT id FROM notifications ORDER BY id DESC LIMIT "@;
    let tail = "?)"@;
    reveal_strlit("id IN (SELECT id FROM notifications ORDER BY id DESC LIMIT ?)");
    reveal_strlit("id IN (SELECT id FROM notifications ORDER BY id DESC LIMIT ");
    reveal_strlit("?)");
    assert(whole =~= head + tail);
    lemma_count_no_placeholder(head);
    lemma_count_char_concat(head, tail, '?');
    reveal_with_fuel(count_char, 3);
}

proof fn lemma_count_page_literal()
    ensures
        count_char("id IN (SELECT id FROM notifications ORDER BY id DESC LIMIT ? OFFSET ?)"@, '?') == 2,
{
    let whole = "id IN (SELECT id FROM notifications ORDER BY id DESC LIMIT ? OFFSET ?)"@;
    let head = "id IN (SELECT id FROM notifications ORDER BY id DESC LIMIT "@;
    let tail = "? OFFSET ?)"@;
    reveal_strlit("id IN (SELECT id FROM notifications ORDER BY id DESC LIMIT ? OFFSET ?)");
    reveal_strlit("id IN (SELECT id FROM notifications ORDER BY id DESC LIMIT ");
    reveal_strlit("? OFFSET ?)");
    assert(whole =~= head + tail);
    lemma_count_no_placeholder(head);
    lemma_count_char_concat(head, tail, '?');
    reveal_with_fuel(count_char, 12);
}

/// Every parameter has its placeholder: where no attribute name holds a
/// `?`, the SQL of an expression holds exactly as many `?` as it has
/// parameters.
pub proof fn lemma_placeholders_per_expr(e: SpecExpr)
    requires
        attrs_without_placeholder(e),
    ensures
        count_char(emit_sql(e), '?') == emit_params(e).len(),
    decreases e,
{
    lemma_count_short_literals();
    match e {
        SpecExpr::And(l, r) => {
            lemma_placeholders_per_expr(*l);
            lemma_placeholders_per_expr(*r);
            lemma_count_char_concat("("@ + emit_sql(*l) + " AND "@ + emit_sql(*r), ")"@, '?');
            lemma_count_char_concat("("@ + emit_sql(*l) + " AND "@, emit_sql(*r), '?');
            lemma_count_char_concat("("@ + emit_sql(*l), " AND "@, '?');
            lemma_count_char_concat("("@, emit_sql(*l), '?');
        },
        SpecExpr::Or(l, r) => {
            lemma_placeholders_per_expr(*l);
            lemma_placeholders_per_expr(*r);
            lemma_count_char_concat("("@ + emit_sql(*l) + " OR "@ + emit_sql(*r), ")"@, '?');
            lemma_count_char_concat("("@ + emit_sql(*l) + " OR "@, emit_sql(*r), '?');
            lemma_count_char_concat("("@ + emit_sql(*l), " OR "@, '?');
            lemma_count_char_concat("("@, emit_sql(*l), '?');
        },
        SpecExpr::Not(x) => {
            lemma_placeholders_per_expr(*x);
            lemma_count_char_concat("(NOT "@ + emit_sql(*x), ")"@, '?');
            lemma_count_char_concat("(NOT "@, emit_sql(*x), '?');
        },
        SpecExpr::Range(_, _) => {
            lemma_count_range_literal();
        },
        SpecExpr::AttrFilter(attr, _) => {
            lemma_count_char_absent(attr, '?');
            lemma_count_char_concat(attr, " = ?"@, '?');
        },
        SpecExpr::Unread => {},
        SpecExpr::Last(_) => {
            lemma_count_last_literal();
        },
        SpecExpr::Page(_, _) => {
            lemma_count_page_literal();
        },
    }
}


// ----- The SQL text does not depend on values -----

/// An expression with its numbers and attribute values erased.
pub open spec fn shape(e: SpecExpr) -> SpecExpr
    decreases e,
{
    match e {
        SpecExpr::And(l, r) => SpecExpr::And(Box::new(shape(*l)), Box::new(shape(*r))),
        SpecExpr::Or(l, r) => SpecExpr::Or(Box::new(shape(*l)), Box::new(shape(*r))),
        SpecExpr::Not(x) => SpecExpr::Not(Box::new(shape(*x))),
        SpecExpr::Range(_, _) => SpecExpr::Range(0, 0),
        SpecExpr::AttrFilter(attr, _) => SpecExpr::AttrFilter(attr, Seq::empty()),
        SpecExpr::Unread => SpecExpr::Unread,
        SpecExpr::Last(_) => SpecExpr::Last(0),
        SpecExpr::Page(_, _) => SpecExpr::Page(0, 0),
    }
}

/// Numbers and attribute values reach a query only as parameters: two
/// expressions that differ only in them have the same SQL text and the same
/// number of parameters.
pub proof fn law_sql_ignores_values(e1: SpecExpr, e2: SpecExpr)
    requires
        shape(e1) == shape(e2),
    ensures
        emit_sql(e1) == emit_sql(e2),
        emit_params(e1).len() == emit_params(e2).len(),
    decreases e1,
{
    match (e1, e2) {
        (SpecExpr::And(l1, r1), SpecExpr::And(l2, r2)) => {
            law_sql_ignores_values(*l1, *l2);
            law_sql_ignores_values(*r1, *r2);
        },
        (SpecExpr::Or(l1, r1), SpecExpr::Or(l2, r2)) => {
            law_sql_ignores_values(*l1, *l2);
            law_sql_ignores_values(*r1, *r2);
        },
        (SpecExpr::Not(x1), SpecExpr::Not(x2)) => {
            law_sql_ignores_values(*x1, *x2);
        },
        _ => {},
    }
}


// ----- Each placeholder gets its own value -----

/// The SQL text with the parameters bound: each `?`, read from left to
/// right, replaced by the next parameter.
pub open spec fn bind_params(sql: Seq<char>, params: Seq<Seq<char>>) -> Seq<char>
    decreases sql.len(),
{
    if sql.len() == 0 {
        Seq::empty()
    } else if sql[0] == '?' && params.len() > 0 {
        params[0] + bind_params(sql.drop_first(), params.drop_first())
    } else {
        seq![sql[0]] + bind_params(sql.drop_first(), params)
    }
}

/// The condition an expression stands for, with each value written out in
/// its place.
pub open spec fn with_values(e: SpecExpr) -> Seq<char>
    decreases e,
{
    match e {
        SpecExpr::And(l, r) => "("@ + with_values(*l) + " AND "@ + with_values(*r) + ")"@,
        SpecExpr::Or(l, r) => "("@ + with_values(*l) + " OR "@ + with_values(*r) + ")"@,
        SpecExpr::Not(x) => "(NOT "@ + with_values(*x) + ")"@,
        SpecExpr::Range(a, b) => "id BETWEEN "@ + decimal(a as int) + " AND "@ + decimal(b as int),
        SpecExpr::AttrFilter(attr, value) => attr + " = "@ + value,
        SpecExpr::Unread => "closed = 0"@,
        SpecExpr::Last(n) => "id IN (SELECT id FROM notifications ORDER BY id DESC LIMIT "@
            + decimal(n as int) + ")"@,
        SpecExpr::Page(offset, per_page) =>
            "id IN (SELECT id FROM notifications ORDER BY id DESC LIMIT "@ + decimal(offset as int)
                + " OFFSET "@ + decimal(per_page as int) + ")"@,
    }
}

proof fn lemma_count_first(a: Seq<char>)
    requires
        a.len() > 0,
    ensures
        count_char(a, '?') == count_char(a.drop_first(), '?') + (if a[0] == '?' { 1nat } else { 0nat }),
{
    assert(a =~= seq![a[0]] + a.drop_first());
    lemma_count_char_concat(seq![a[0]], a.drop_first(), '?');
    assert(seq![a[0]].drop_last() =~= Seq::<char>::empty());
    assert(seq![a[0]].last() == a[0]);
    assert(count_char(Seq::<char>::empty(), '?') == 0);
    assert(count_char(seq![a[0]], '?') == (if a[0] == '?' { 1nat } else { 0nat }));
}

proof fn lemma_bind_concat(a: Seq<char>, b: Seq<char>, pa: Seq<Seq<char>>, pb: Seq<Seq<char>>)
    requires
        count_char(a, '?') == pa.len(),
    ensures
        bind_params(a + b, pa + pb) == bind_params(a, pa) + bind_params(b, pb),
    decreases a.len(),
{
    if a.len() == 0 {
        assert(a + b =~= b);
        assert(pa =~= Seq::<Seq<char>>::empty());
        assert(pa + pb =~= pb);
        assert(Seq::<char>::empty() + bind_params(b, pb) =~= bind_params(b, pb));
    } else {
        lemma_count_first(a);
        assert((a + b)[0] == a[0]);
        assert((a + b).drop_first() =~= a.drop_first() + b);
        if a[0] == '?' {
            assert((pa + pb)[0] == pa[0]);
            assert((pa + pb).drop_first() =~= pa.drop_first() + pb);
            lemma_bind_concat(a.drop_first(), b, pa.drop_first(), pb);
            assert(pa[0] + (bind_params(a.drop_first(), pa.drop_first()) + bind_params(b, pb))
                =~= (pa[0] + bind_params(a.drop_first(), pa.drop_first())) + bind_params(b, pb));
        } else {
            lemma_bind_concat(a.drop_first(), b, pa, pb);
            assert(seq![a[0]] + (bind_params(a.drop_first(), pa) + bind_params(b, pb))
                =~= (seq![a[0]] + bind_params(a.drop_first(), pa)) + bind_params(b, pb));
        }
    }
}

proof fn lemma_bind_plain(a: Seq<char>)
    requires
        count_char(a, '?') == 0,
    ensures
        bind_params(a, Seq::empty()) == a,
    decreases a.len(),
{
    if a.len() > 0 {
        lemma_count_first(a);
        lemma_bind_plain(a.drop_first());
        assert(a =~= seq![a[0]] + a.drop_first());
    }
}

proof fn lemma_bind_mark(v: Seq<char>)
    ensures
        bind_params("?"@, seq![v]) == v,
{
    reveal_strlit("?");
    assert("?"@.len() == 1);
    assert("?"@[0] == '?');
    assert("?"@.drop_first() =~= Seq::<char>::empty());
    assert(seq![v].drop_first() =~= Seq::<Seq<char>>::empty());
    assert(bind_params(Seq::<char>::empty(), Seq::<Seq<char>>::empty()) == Seq::<char>::empty());
    assert(v + Seq::<char>::empty() =~= v);
}

/// `pre ? post` with the values `v` then `ps` bound: `pre`, `v`, then `post`
/// with `ps` bound.
proof fn lemma_bind_slot(pre: Seq<char>, post: Seq<char>, v: Seq<char>, ps: Seq<Seq<char>>)
    requires
        count_char(pre, '?') == 0,
    ensures
        bind_params(pre + "?"@ + post, seq![v] + ps) == pre + v + bind_params(post, ps),
{
    lemma_bind_plain(pre);
    lemma_bind_mark(v);
    reveal_strlit("?");
    reveal_with_fuel(count_char, 2);
    lemma_count_char_concat(pre, "?"@, '?');
    assert(seq![v] =~= Seq::<Seq<char>>::empty() + seq![v]);
    lemma_bind_concat(pre, "?"@, Seq::empty(), seq![v]);
    lemma_bind_concat(pre + "?"@, post, seq![v], ps);
}

proof fn lemma_count_pieces()
    ensures
        count_char("id BETWEEN "@, '?') == 0,
        count_char(" AND "@, '?') == 0,
        count_char(" = "@, '?') == 0,
        count_char(" OFFSET "@, '?') == 0,
        count_char(")"@, '?') == 0,
        count_char("(NOT "@, '?') == 0,
        count_char("("@, '?') == 0,
        count_char(" OR "@, '?') == 0,
        count_char(Seq::<char>::empty(), '?') == 0,
{
    reveal_strlit("id BETWEEN ");
    reveal_strlit(" AND ");
    reveal_strlit(" = ");
    reveal_strlit(" OFFSET ");
    reveal_strlit(")");
    reveal_strlit("(NOT ");
    reveal_strlit("(");
    reveal_strlit(" OR ");
    reveal_with_fuel(count_char, 12);
}

proof fn lemma_bind_leaves(e: SpecExpr)
    requires
        attrs_without_placeholder(e),
        !(e is And || e is Or || e is Not),
    ensures
        bind_params(emit_sql(e), emit_params(e)) == with_values(e),
{
    lemma_count_pieces();
    let head = "id IN (SELECT id FROM notifications ORDER BY id DESC LIMIT "@;
    let e0 = Seq::<char>::empty();
    let p0 = Seq::<Seq<char>>::empty();
    match e {
        SpecExpr::Range(a, b) => {
            reveal_strlit("id BETWEEN ? AND ?");
            reveal_strlit("id BETWEEN ");
            reveal_strlit(" AND ");
            reveal_strlit("?");
            let da = decimal(a as int);
            let db = decimal(b as int);
            let tail = " AND "@ + "?"@ + e0;
            assert("id BETWEEN ? AND ?"@ =~= "id BETWEEN "@ + "?"@ + tail);
            assert(seq![da, db] =~= seq![da] + (seq![db] + p0));
            lemma_bind_slot("id BETWEEN "@, tail, da, seq![db] + p0);
            lemma_bind_slot(" AND "@, e0, db, p0);
            assert(bind_params(e0, p0) =~= e0);
            assert(" AND "@ + db + e0 =~= " AND "@ + db);
        },
        SpecExpr::AttrFilter(attr, v) => {
            reveal_strlit(" = ?");
            reveal_strlit(" = ");
            reveal_strlit("?");
            lemma_count_char_absent(attr, '?');
            lemma_count_char_concat(attr, " = "@, '?');
            assert(attr + " = ?"@ =~= (attr + " = "@) + "?"@ + e0);
            assert(seq![v] =~= seq![v] + p0);
            lemma_bind_slot(attr + " = "@, e0, v, p0);
            assert(bind_params(e0, p0) =~= e0);
            assert(attr + " = "@ + v + e0 =~= attr + " = "@ + v);
        },
        SpecExpr::Unread => {
            lemma_count_short_literals();
            lemma_bind_plain("closed = 0"@);
        },
        SpecExpr::Last(n) => {
            reveal_strlit("id IN (SELECT id FROM notifications ORDER BY id DESC LIMIT ?)");
            reveal_strlit("id IN (SELECT id FROM notifications ORDER BY id DESC LIMIT ");
            reveal_strlit("?");
            reveal_strlit(")");
            lemma_count_no_placeholder(head);
            let dn = decimal(n as int);
            assert("id IN (SELECT id FROM notifications ORDER BY id DESC LIMIT ?)"@ =~= head + "?"@ + ")"@);
            assert(seq![dn] =~= seq![dn] + p0);
            lemma_bind_slot(head, ")"@, dn, p0);
            lemma_bind_plain(")"@);
        },
        SpecExpr::Page(o, pp) => {
            reveal_strlit("id IN (SELECT id FROM notifications ORDER BY id DESC LIMIT ? OFFSET ?)");
            reveal_strlit("id IN (SELECT id FROM notifications ORDER BY id DESC LIMIT ");
            reveal_strlit(" OFFSET ");
            reveal_strlit("?");
            reveal_strlit(")");
            lemma_count_no_placeholder(head);
            let d1 = decimal(o as int);
            let d2 = decimal(pp as int);
            let tail = " OFFSET "@ + "?"@ + ")"@;
            assert("id IN (SELECT id FROM notifications ORDER BY id DESC LIMIT ? OFFSET ?)"@ =~= head + "?"@ + tail);
            assert(seq![d1, d2] =~= seq![d1] + (seq![d2] + p0));
            lemma_bind_slot(head, tail, d1, seq![d2] + p0);
            lemma_bind_slot(" OFFSET "@, ")"@, d2, p0);
            lemma_bind_plain(")"@);
            assert(head + d1 + (" OFFSET "@ + d2 + ")"@) =~= head + d1 + " OFFSET "@ + d2 + ")"@);
        },
        _ => {},
    }
}

proof fn lemma_bind_wrap2(
    pre: Seq<char>,
    x: Seq<char>,
    px: Seq<Seq<char>>,
    mid: Seq<char>,
    y: Seq<char>,
    py: Seq<Seq<char>>,
    post: Seq<char>,
)
    requires
        count_char(pre, '?') == 0,
        count_char(mid, '?') == 0,
        count_char(post, '?') == 0,
        count_char(x, '?') == px.len(),
        count_char(y, '?') == py.len(),
    ensures
        bind_params(pre + x + mid + y + post, px + py) == pre + bind_params(x, px) + mid
            + bind_params(y, py) + post,
{
    let p0 = Seq::<Seq<char>>::empty();
    lemma_count_char_concat(pre, x, '?');
    lemma_count_char_concat(pre + x, mid, '?');
    lemma_count_char_concat(pre + x + mid, y, '?');
    assert(px + py =~= (((p0 + px) + p0) + py) + p0);
    lemma_bind_concat(pre + x + mid + y, post, ((p0 + px) + p0) + py, p0);
    lemma_bind_concat(pre + x + mid, y, (p0 + px) + p0, py);
    lemma_bind_concat(pre + x, mid, p0 + px, p0);
    lemma_bind_concat(pre, x, p0, px);
    assert(p0 + px =~= px);
    assert((p0 + px) + p0 =~= px);
    lemma_bind_plain(pre);
    lemma_bind_plain(mid);
    lemma_bind_plain(post);
}

proof fn lemma_bind_wrap1(pre: Seq<char>, x: Seq<char>, px: Seq<Seq<char>>, post: Seq<char>)
    requires
        count_char(pre, '?') == 0,
        count_char(post, '?') == 0,
        count_char(x, '?') == px.len(),
    ensures
        bind_params(pre + x + post, px) == pre + bind_params(x, px) + post,
{
    let p0 = Seq::<Seq<char>>::empty();
    lemma_count_char_concat(pre, x, '?');
    assert(px =~= (p0 + px) + p0);
    lemma_bind_concat(pre + x, post, p0 + px, p0);
    lemma_bind_concat(pre, x, p0, px);
    assert(p0 + px =~= px);
    lemma_bind_plain(pre);
    lemma_bind_plain(post);
}

/// Each placeholder gets its own value: binding the parameters to the `?`
/// of the SQL text, in order from left to right, writes out the condition
/// with every number and value in the place the expression gives it (a
/// negation keeps its operand's values, in order; the two bounds of a range
/// stay in order). This holds wherever no attribute name holds a `?`, as
/// for every expression that a query gives.
pub proof fn law_params_fill_placeholders_in_order(e: SpecExpr)
    requires
        attrs_without_placeholder(e),
    ensures
        bind_params(emit_sql(e), emit_params(e)) == with_values(e),
    decreases e,
{
    lemma_count_pieces();
    match e {
        SpecExpr::And(l, r) => {
            law_params_fill_placeholders_in_order(*l);
            law_params_fill_placeholders_in_order(*r);
            lemma_placeholders_per_expr(*l);
            lemma_placeholders_per_expr(*r);
            lemma_bind_wrap2("("@, emit_sql(*l), emit_params(*l), " AND "@, emit_sql(*r), emit_params(*r), ")"@);
        },
        SpecExpr::Or(l, r) => {
            law_params_fill_placeholders_in_order(*l);
            law_params_fill_placeholders_in_order(*r);
            lemma_placeholders_per_expr(*l);
            lemma_placeholders_per_expr(*r);
            lemma_bind_wrap2("("@, emit_sql(*l), emit_params(*l), " OR "@, emit_sql(*r), emit_params(*r), ")"@);
        },
        SpecExpr::Not(x) => {
            law_params_fill_placeholders_in_order(*x);
            lemma_placeholders_per_expr(*x);
            lemma_bind_wrap1("(NOT "@, emit_sql(*x), emit_params(*x), ")"@);
        },
        _ => {
            lemma_bind_leaves(e);
        },
    }
}

} // verus!
