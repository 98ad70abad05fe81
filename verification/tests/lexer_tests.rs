use minidb::sql::lexer::LexError;
use minidb::sql::lexer::Lexer;
use minidb::Operator;
use minidb::SqlKeyword;
use minidb::SqlToken;

#[test]
fn test_lexing() {
    let sql_s = "SELECT name FROM test_table";
    let lx = Lexer::new(sql_s);
    let tokens = match lx.lex() {
        Ok(tkns) => tkns,
        Err(e) => panic!("{:?}", e),
    };
    let expected_vec = vec![
        SqlToken::Keyword(SqlKeyword::Select),
        SqlToken::Identifier("name".to_string()),
        SqlToken::Keyword(SqlKeyword::From),
        SqlToken::Identifier("test_table".to_string()),
        SqlToken::EOF,
    ];
    assert_eq!(tokens, expected_vec);
}

#[test]
fn lex_single_character_tokens() {
    let tokens = Lexer::new("(),;").lex().unwrap();
    assert_eq!(
        tokens,
        vec![
            SqlToken::LeftParen,
            SqlToken::RightParen,
            SqlToken::Comma,
            SqlToken::Semicolon,
            SqlToken::EOF,
        ]
    );
}

#[test]
fn lex_operators_and_not_equal() {
    let tokens = Lexer::new("= != < >").lex().unwrap();
    assert_eq!(
        tokens,
        vec![
            SqlToken::Operator(Operator::Equal),
            SqlToken::Operator(Operator::NotEqual),
            SqlToken::Operator(Operator::Smaller),
            SqlToken::Operator(Operator::Greater),
            SqlToken::EOF,
        ]
    );
}

#[test]
fn lex_not_equal_consumes_both_characters() {
    // after `!=` the next `=` is a fresh Equal token
    let tokens = Lexer::new("!==").lex().unwrap();
    assert_eq!(
        tokens,
        vec![
            SqlToken::Operator(Operator::NotEqual),
            SqlToken::Operator(Operator::Equal),
            SqlToken::EOF,
        ]
    );
}

#[test]
fn lex_string_and_number_literals() {
    let tokens = Lexer::new("'Alice' 42 a1").lex().unwrap();
    assert_eq!(
        tokens,
        vec![
            SqlToken::StringLiteral("Alice".to_string()),
            SqlToken::NumberLiteral("42".to_string()),
            SqlToken::Identifier("a1".to_string()),
            SqlToken::EOF,
        ]
    );
}

#[test]
fn lex_unterminated_string_takes_rest_of_input() {
    let tokens = Lexer::new("'abc").lex().unwrap();
    assert_eq!(
        tokens,
        vec![SqlToken::StringLiteral("abc".to_string()), SqlToken::EOF]
    );
}

#[test]
fn lex_keywords_case_insensitive() {
    let tokens = Lexer::new("select Where aNd or into values insert from").lex().unwrap();
    assert_eq!(
        tokens,
        vec![
            SqlToken::Keyword(SqlKeyword::Select),
            SqlToken::Keyword(SqlKeyword::Where),
            SqlToken::Keyword(SqlKeyword::And),
            SqlToken::Keyword(SqlKeyword::Or),
            SqlToken::Keyword(SqlKeyword::Into),
            SqlToken::Keyword(SqlKeyword::Values),
            SqlToken::Keyword(SqlKeyword::Insert),
            SqlToken::Keyword(SqlKeyword::From),
            SqlToken::EOF,
        ]
    );
}

#[test]
fn lex_unexpected_character_fails() {
    let r = Lexer::new("id # 3").lex();
    assert!(matches!(r, Err(LexError::UnexpectedChar('#'))));
}

#[test]
fn lex_bang_without_equal_fails() {
    let r = Lexer::new("a ! b").lex();
    assert!(matches!(r, Err(LexError::UnterminatedOperator)));
    let r2 = Lexer::new("a !").lex();
    assert!(matches!(r2, Err(LexError::UnterminatedOperator)));
}
