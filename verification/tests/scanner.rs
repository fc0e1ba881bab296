use philo::errors::ScanError;
use philo::lexer::Lexer;
use philo::token::Token;

#[test]
fn digit_run_single_number_token() {
    let mut lx = Lexer::new("12345");
    assert_eq!(lx.next_token().unwrap(), Token::Number(12345));
    assert_eq!(lx.next_token().unwrap(), Token::Eof);
}

#[test]
fn digit_run_stops_at_non_digit() {
    let mut lx = Lexer::new("42;");
    assert_eq!(lx.next_token().unwrap(), Token::Number(42));
    assert_eq!(lx.next_token().unwrap(), Token::Symbol(';'));
    assert_eq!(lx.next_token().unwrap(), Token::Eof);
}

#[test]
fn digit_run_ends_where_identifier_begins() {
    let mut lx = Lexer::new("1a");
    assert_eq!(lx.next_token().unwrap(), Token::Number(1));
    assert_eq!(lx.next_token().unwrap(), Token::Identifier(String::from("a")));
}

#[test]
fn number_at_i64_max_fits() {
    let mut lx = Lexer::new("9223372036854775807");
    assert_eq!(lx.next_token().unwrap(), Token::Number(9223372036854775807));
}

#[test]
fn number_above_i64_max_is_error() {
    let mut lx = Lexer::new("9223372036854775808");
    assert_eq!(lx.next_token(), Err(ScanError::NumberOutOfRange));
    assert_eq!(lx.next_token().unwrap(), Token::Eof);
}

#[test]
fn comment_single_token_and_resume_next_line() {
    let mut lx = Lexer::new("// note\nx");
    assert_eq!(lx.next_token().unwrap(), Token::Comment);
    assert_eq!(lx.next_token().unwrap(), Token::Whitespace);
    assert_eq!(lx.next_token().unwrap(), Token::Identifier(String::from("x")));
    assert_eq!(lx.next_token().unwrap(), Token::Eof);
}

#[test]
fn comment_at_end_of_input() {
    let mut lx = Lexer::new("// tail");
    assert_eq!(lx.next_token().unwrap(), Token::Comment);
    assert_eq!(lx.next_token().unwrap(), Token::Eof);
}

#[test]
fn slash_alone_is_division_operator() {
    let mut lx = Lexer::new("a/b");
    assert_eq!(lx.next_token().unwrap(), Token::Identifier(String::from("a")));
    assert_eq!(lx.next_token().unwrap(), Token::Operator(String::from("/")));
    assert_eq!(lx.next_token().unwrap(), Token::Identifier(String::from("b")));
}

#[test]
fn whitespace_run_is_one_token() {
    let mut lx = Lexer::new("  \t\r\n  x");
    assert_eq!(lx.next_token().unwrap(), Token::Whitespace);
    assert_eq!(lx.next_token().unwrap(), Token::Identifier(String::from("x")));
}

#[test]
fn keywords_are_recognized() {
    let source = "fn let if else while for struct impl enum pub";
    let mut lx = Lexer::new(source);
    let mut words: Vec<String> = Vec::new();
    loop {
        match lx.next_token().unwrap() {
            Token::Keyword(w) => words.push(w),
            Token::Whitespace => {}
            Token::Eof => break,
            other => panic!("unexpected token {:?}", other),
        }
    }
    assert_eq!(words.len(), 10);
    assert_eq!(words[0], "fn");
    assert_eq!(words[9], "pub");
}

#[test]
fn identifier_not_keyword() {
    let mut lx = Lexer::new("fnord _x1");
    assert_eq!(lx.next_token().unwrap(), Token::Identifier(String::from("fnord")));
    assert_eq!(lx.next_token().unwrap(), Token::Whitespace);
    assert_eq!(lx.next_token().unwrap(), Token::Identifier(String::from("_x1")));
}

#[test]
fn string_literal_value_without_quotes() {
    let mut lx = Lexer::new("\"a b\";");
    assert_eq!(lx.next_token().unwrap(), Token::StringLiteral(String::from("a b")));
    assert_eq!(lx.next_token().unwrap(), Token::Symbol(';'));
}

#[test]
fn unterminated_string_is_error() {
    let mut lx = Lexer::new("\"abc");
    assert_eq!(lx.next_token(), Err(ScanError::UnterminatedStringLiteral));
    assert_eq!(lx.next_token().unwrap(), Token::Eof);
}

#[test]
fn operators_and_symbols() {
    let mut lx = Lexer::new("+-*=<>{}(),;");
    assert_eq!(lx.next_token().unwrap(), Token::Operator(String::from("+")));
    assert_eq!(lx.next_token().unwrap(), Token::Operator(String::from("-")));
    assert_eq!(lx.next_token().unwrap(), Token::Operator(String::from("*")));
    assert_eq!(lx.next_token().unwrap(), Token::Operator(String::from("=")));
    assert_eq!(lx.next_token().unwrap(), Token::Operator(String::from("<")));
    assert_eq!(lx.next_token().unwrap(), Token::Operator(String::from(">")));
    assert_eq!(lx.next_token().unwrap(), Token::Symbol('{'));
    assert_eq!(lx.next_token().unwrap(), Token::Symbol('}'));
    assert_eq!(lx.next_token().unwrap(), Token::Symbol('('));
    assert_eq!(lx.next_token().unwrap(), Token::Symbol(')'));
    assert_eq!(lx.next_token().unwrap(), Token::Symbol(','));
    assert_eq!(lx.next_token().unwrap(), Token::Symbol(';'));
    assert_eq!(lx.next_token().unwrap(), Token::Eof);
}

#[test]
fn unrecognized_characters_are_skipped() {
    let mut lx = Lexer::new("@#x");
    assert_eq!(lx.next_token().unwrap(), Token::Identifier(String::from("x")));
    assert_eq!(lx.next_token().unwrap(), Token::Eof);
}

#[test]
fn eof_is_idempotent() {
    let mut lx = Lexer::new("");
    assert_eq!(lx.next_token().unwrap(), Token::Eof);
    assert_eq!(lx.next_token().unwrap(), Token::Eof);
    assert_eq!(lx.next_token().unwrap(), Token::Eof);
}
