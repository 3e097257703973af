use sprinkles::db::lexer::{query_numbers_fit, tokenize, Token};
use sprinkles::db::parser::{parse_query, parse_query_checked};
use sprinkles::db::sql::select_notifications_sql;
use sprinkles::db::syntax::Parser;

fn ok(query: &str) -> (String, Vec<String>) {
    parse_query(query).unwrap()
}

fn err(query: &str) -> String {
    parse_query(query).unwrap_err()
}

const LAST: &str = "id IN (SELECT id FROM notifications ORDER BY id DESC LIMIT ?)";
const PAGE: &str = "id IN (SELECT id FROM notifications ORDER BY id DESC LIMIT ? OFFSET ?)";

#[test]
fn basic_and() {
    let (sql, params) = parse_query("{urgent = 1} & unread()").unwrap();
    assert_eq!(sql, "(urgent = ? AND closed = 0)");
    assert_eq!(params, vec!["1"]);
}

#[test]
fn range_and_page() {
    let (sql, params) = parse_query("100..200 & page(20,5)").unwrap();
    assert!(sql.contains("BETWEEN ? AND ?"));
    assert!(sql.contains("LIMIT ? OFFSET ?"));
    assert_eq!(params, vec!["100", "200", "20", "5"]);
}

#[test]
fn range_alone() {
    let (sql, params) = ok("3..7");
    assert_eq!(sql, "id BETWEEN ? AND ?");
    assert_eq!(params, vec!["3", "7"]);
}

#[test]
fn unread_alone() {
    assert_eq!(ok("unread"), ("closed = 0".to_string(), Vec::<String>::new()));
}

#[test]
fn and_binds_tighter_than_or() {
    let (sql, _) = ok("unread | unread & last(2)");
    assert_eq!(sql, format!("(closed = 0 OR (closed = 0 AND {}))", LAST));
}

#[test]
fn and_groups_to_the_left() {
    let (sql, _) = ok("unread & unread & unread");
    assert_eq!(sql, "((closed = 0 AND closed = 0) AND closed = 0)");
}

#[test]
fn or_groups_to_the_left() {
    let (sql, params) = ok("1..2 | 3..4 | 5..6");
    assert_eq!(sql, "((id BETWEEN ? AND ? OR id BETWEEN ? AND ?) OR id BETWEEN ? AND ?)");
    assert_eq!(params, vec!["1", "2", "3", "4", "5", "6"]);
}

#[test]
fn negation_nests() {
    assert_eq!(ok("!unread").0, "(NOT closed = 0)");
    assert_eq!(ok("not not unread").0, "(NOT (NOT closed = 0))");
    assert_eq!(ok("NOT unread").0, "(NOT closed = 0)");
}

#[test]
fn parentheses_group() {
    let (sql, _) = ok("(unread | unread) & unread");
    assert_eq!(sql, "((closed = 0 OR closed = 0) AND closed = 0)");
}

#[test]
fn keywords_in_both_cases() {
    assert_eq!(ok("unread and unread").0, "(closed = 0 AND closed = 0)");
    assert_eq!(ok("unread AND unread").0, "(closed = 0 AND closed = 0)");
    assert_eq!(ok("unread or unread").0, "(closed = 0 OR closed = 0)");
    assert_eq!(ok("unread OR unread").0, "(closed = 0 OR closed = 0)");
}

#[test]
fn mixed_case_operator_words_join_by_lowercase() {
    assert_eq!(ok("unread AnD unread").0, "(closed = 0 AND closed = 0)");
    assert_eq!(ok("unread oR unread").0, "(closed = 0 OR closed = 0)");
}

#[test]
fn other_words_end_the_expression() {
    assert_eq!(ok("unread extra").0, "closed = 0");
}

#[test]
fn last_with_and_without_count() {
    assert_eq!(ok("last(5)"), (LAST.to_string(), vec!["5".to_string()]));
    assert_eq!(ok("last()"), (LAST.to_string(), vec!["1".to_string()]));
}

#[test]
fn page_defaults() {
    assert_eq!(ok("page(3)"), (PAGE.to_string(), vec!["3".to_string(), "10".to_string()]));
    assert_eq!(ok("page(3, 4)"), (PAGE.to_string(), vec!["3".to_string(), "4".to_string()]));
}

#[test]
fn page_without_offset_reads_the_closing_parenthesis() {
    assert_eq!(err("page()"), "Expected RParen, got None");
    assert_eq!(err("page(,5)"), "Expected RParen, got Some(Number(5))");
}

#[test]
fn attribute_values() {
    assert_eq!(ok("{app = firefox}"), ("app = ?".to_string(), vec!["firefox".to_string()]));
    assert_eq!(ok("{level = 007}"), ("level = ?".to_string(), vec!["7".to_string()]));
    assert_eq!(ok("{app_name = my-app2}"), ("app_name = ?".to_string(), vec!["my-app2".to_string()]));
}

#[test]
fn unicode_identifier_characters() {
    assert_eq!(ok("{aé = b}"), ("aé = ?".to_string(), vec!["b".to_string()]));
    assert_eq!(err("{é = b}"), "Unexpected character: é");
}

#[test]
fn whitespace_is_insignificant() {
    assert_eq!(ok("unread&last(3)"), ok(" unread \t&\n last ( 3 ) \r"));
    assert_eq!(ok("1..2"), ok("1 .. 2"));
}

#[test]
fn tokenizer_errors() {
    assert_eq!(err("a.b"), "Expected '..'");
    assert_eq!(err("1."), "Expected '..'");
    assert_eq!(err("unread $"), "Unexpected character: $");
}

#[test]
fn parser_errors() {
    assert_eq!(err(""), "Unexpected token None");
    assert_eq!(err(")"), "Unexpected token Some(RParen)");
    assert_eq!(err("& unread"), "Unexpected token Some(And)");
    assert_eq!(err("foo"), "Unknown function");
    assert_eq!(err("1..x"), "Expected number for range end");
    assert_eq!(err("1 2"), "Expected DotDot, got Some(Number(2))");
    assert_eq!(err("(unread"), "Expected RParen, got None");
    assert_eq!(err("last(x)"), "Unclosed parenthesis when calling last");
    assert_eq!(err("last(2"), "Expected RParen, got None");
    assert_eq!(err("page(1,x)"), "Expected per_page in page(offset, per_page)");
    assert_eq!(err("{= x}"), "Expected attribute name");
    assert_eq!(err("{a x}"), "Expected Eq, got Some(Ident(\"x\"))");
    assert_eq!(err("{a = (}"), "Expected value after '='");
    assert_eq!(err("{a = b"), "Expected RBrace, got None");
    assert_eq!(err("unread & {a = b)"), "Expected RBrace, got Some(RParen)");
}

#[test]
fn large_numbers() {
    assert!(query_numbers_fit("9223372036854775807..1"));
    assert!(!query_numbers_fit("9223372036854775808..1"));
    assert!(parse_query_checked("99999999999999999999").is_none());
    let (_, params) = parse_query_checked("9223372036854775807..0001").unwrap().unwrap();
    assert_eq!(params, vec!["9223372036854775807", "1"]);
    assert!(query_numbers_fit("x99999999999999999999"));
}

#[test]
fn placeholders_match_params() {
    for q in ["{a = 1} & (3..4 | !last(2)) & page(1, 2) | unread", "last() | {b = c}"] {
        let (sql, params) = ok(q);
        assert_eq!(sql.matches('?').count(), params.len());
    }
}

#[test]
fn tokens_of_a_query() {
    let tokens = tokenize("{x = 12} and page").unwrap();
    assert_eq!(tokens.len(), 7);
    assert!(matches!(&tokens[1], Token::Ident(s) if s == "x"));
    assert!(matches!(tokens[3], Token::Number(12)));
    assert!(matches!(tokens[5], Token::And));
    assert!(matches!(tokens[6], Token::Page));
}

#[test]
fn select_statement() {
    assert_eq!(select_notifications_sql("closed = 0"), "SELECT * FROM notifications WHERE closed = 0");
}

#[test]
fn tokens_never_outnumber_characters() {
    for q in ["", "&|!", "(((", "a b c", "1..2", "{x=1}"] {
        let tokens = tokenize(q).unwrap();
        assert!(tokens.len() <= q.chars().count());
    }
}

#[test]
fn whitespace_at_punctuation_edges() {
    assert_eq!(ok("{a=b}&unread"), ok("{ a = b } & unread"));
    assert_eq!(ok("last(2)|unread"), ok("last (2) |unread"));
}

#[test]
fn values_reach_sql_only_as_params() {
    let (s1, p1) = ok("{a = 1} & 3..4 | last(9) & page(1, 2)");
    let (s2, p2) = ok("{a = x} & 70..80 | last(1) & page(5, 6)");
    assert_eq!(s1, s2);
    assert_eq!(p1.len(), p2.len());
    assert_ne!(p1, p2);
}

#[test]
fn failed_steps_leave_tokens_as_the_parser_read_them() {
    let mut p = Parser::new(tokenize(")").unwrap());
    assert_eq!(p.primary().unwrap_err(), "Unexpected token Some(RParen)");
    assert!(matches!(p.peek(), Some(Token::RParen)));

    let mut p = Parser::new(tokenize("foo unread").unwrap());
    assert_eq!(p.function_call().unwrap_err(), "Unknown function");
    assert!(matches!(p.peek(), Some(Token::Unread)));

    let mut p = Parser::new(tokenize("1 2").unwrap());
    assert_eq!(p.range().unwrap_err(), "Expected DotDot, got Some(Number(2))");
    assert!(p.peek().is_none());

    let mut p = Parser::new(tokenize("unread )").unwrap());
    assert_eq!(p.expect(Token::LParen).unwrap_err(), "Expected LParen, got Some(Unread)");
    assert!(matches!(p.peek(), Some(Token::RParen)));
}
