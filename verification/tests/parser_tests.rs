use minidb::sql::parser::Expectation;
use minidb::Expr;
use minidb::Lexer;
use minidb::Literal;
use minidb::Operator;
use minidb::Parser;
use minidb::SqlToken;
use minidb::Statement;

fn parse(text: &str) -> Result<Statement, minidb::ParseError> {
    let tokens = Lexer::new(text).lex().unwrap();
    let mut parser = Parser::new(tokens);
    parser.parse_statement()
}

#[test]
fn parse_plain_select() {
    let st = parse("SELECT id, name FROM users").unwrap();
    match st {
        Statement::Select(s) => {
            assert_eq!(s.columns, vec!["id".to_string(), "name".to_string()]);
            assert_eq!(s.table, "users".to_string());
            assert!(s.where_clause.is_none());
        },
        _ => panic!("expected a select"),
    }
}

#[test]
fn parse_select_with_where_conjunction() {
    let st = parse("SELECT name FROM users WHERE id > 1 AND id < 3").unwrap();
    match st {
        Statement::Select(s) => {
            let ws = s.where_clause.unwrap();
            // one clause: the AND tree (id > 1) AND (id < 3)
            assert_eq!(ws.len(), 1);
            match &ws[0] {
                Expr::Binary { left, op, right } => {
                    assert_eq!(*op, Operator::And);
                    assert!(matches!(**left, Expr::Binary { .. }));
                    assert!(matches!(**right, Expr::Binary { .. }));
                },
                _ => panic!("expected a binary tree"),
            }
        },
        _ => panic!("expected a select"),
    }
}

#[test]
fn parse_insert_statement() {
    let st = parse("INSERT INTO users (id, name) VALUES (6, 'Zoe')").unwrap();
    match st {
        Statement::Insert(i) => {
            assert_eq!(i.table, "users".to_string());
            assert_eq!(
                i.columns,
                Some(vec!["id".to_string(), "name".to_string()])
            );
            assert_eq!(i.values.len(), 2);
            assert!(matches!(i.values[0], Expr::Literal(Literal::Number(6))));
            match &i.values[1] {
                Expr::Literal(Literal::String(s)) => assert_eq!(s, "Zoe"),
                _ => panic!("expected a string literal"),
            }
        },
        _ => panic!("expected an insert"),
    }
}

#[test]
fn parse_reports_expected_and_found() {
    let tokens = Lexer::new("SELECT name users").lex().unwrap();
    let mut parser = Parser::new(tokens);
    let e = parser.parse_statement().unwrap_err();
    assert!(matches!(
        e.expected,
        Expectation::Token(SqlToken::Keyword(minidb::SqlKeyword::From))
    ));
    match e.found {
        SqlToken::Identifier(nm) => assert_eq!(nm, "users"),
        t => panic!("unexpected token {:?}", t),
    }
}

#[test]
fn parse_statement_requires_keyword() {
    let e = parse("users SELECT").unwrap_err();
    assert!(matches!(e.expected, Expectation::Statement));
}

#[test]
fn parse_number_literal_out_of_range_fails() {
    let e = parse("SELECT name FROM users WHERE id = 99999999999").unwrap_err();
    assert!(matches!(e.expected, Expectation::Number));
}

#[test]
fn generate_ast_wraps_one_statement() {
    let tokens = Lexer::new("SELECT name FROM users").lex().unwrap();
    let mut parser = Parser::new(tokens);
    let root = parser.generate_ast().unwrap();
    let minidb::ASTNode::Statement(st) = root.first_node;
    assert!(matches!(st, Statement::Select(_)));
}
