use lambda_parser::lexer::{Lexer, LexicalError};
use lambda_parser::token::{Constant, Operations, Token};

fn tokens(text: &str) -> Vec<Token> {
    let mut lexer = Lexer::get(text.to_string()).unwrap();
    let mut found = vec![lexer.get_token()];
    while *found.last().unwrap() != Token::End {
        lexer.next_token().unwrap();
        found.push(lexer.get_token());
    }
    found
}

fn variable(name: &str) -> Token {
    Token::Variable(name.to_string())
}

fn number(text: &str) -> Token {
    Token::Const(Constant::Number(text.to_string()))
}

#[test]
fn get_stands_on_the_first_token() {
    let lexer = Lexer::get("lambda x: x".to_string()).unwrap();
    assert_eq!(lexer.get_token(), Token::Lambda);
}

#[test]
fn peek_twice_gives_the_same_token() {
    let mut lexer = Lexer::get("alpha + 17".to_string()).unwrap();
    let first = lexer.get_token();
    let second = lexer.get_token();
    assert_eq!(first, second);
    assert_eq!(first, variable("alpha"));
    lexer.next_token().unwrap();
    assert_eq!(lexer.get_token(), lexer.get_token());
    assert_eq!(lexer.get_token(), Token::Op(Operations::Add));
}

#[test]
fn every_symbol_has_its_token() {
    assert_eq!(
        tokens(", : ( ) * + - % == //"),
        vec![
            Token::Comma,
            Token::Colon,
            Token::LParen,
            Token::RParen,
            Token::Op(Operations::Mul),
            Token::Op(Operations::Add),
            Token::Op(Operations::Sub),
            Token::Op(Operations::Mod),
            Token::Op(Operations::Eq),
            Token::Op(Operations::Div),
            Token::End,
        ]
    );
}

#[test]
fn keywords_are_looked_up() {
    assert_eq!(
        tokens("lambda not and or True False"),
        vec![
            Token::Lambda,
            Token::Op(Operations::Not),
            Token::Op(Operations::And),
            Token::Op(Operations::Or),
            Token::Const(Constant::True),
            Token::Const(Constant::False),
            Token::End,
        ]
    );
}

#[test]
fn other_words_are_variables() {
    assert_eq!(
        tokens("Lambda true nota var92 x"),
        vec![
            variable("Lambda"),
            variable("true"),
            variable("nota"),
            variable("var92"),
            variable("x"),
            Token::End,
        ]
    );
}

#[test]
fn numbers_keep_their_text() {
    assert_eq!(tokens("007 42 9x"), vec![number("007"), number("42"), number("9x"), Token::End]);
}

#[test]
fn blanks_are_skipped() {
    assert_eq!(
        tokens(" \r\n lambda\n\nx \r: 1  "),
        vec![Token::Lambda, variable("x"), Token::Colon, number("1"), Token::End]
    );
}

#[test]
fn tokens_need_no_blanks_between_them() {
    assert_eq!(
        tokens("(a==b)//-3%c"),
        vec![
            Token::LParen,
            variable("a"),
            Token::Op(Operations::Eq),
            variable("b"),
            Token::RParen,
            Token::Op(Operations::Div),
            Token::Op(Operations::Sub),
            number("3"),
            Token::Op(Operations::Mod),
            variable("c"),
            Token::End,
        ]
    );
}

#[test]
fn end_is_repeated_at_the_end() {
    let mut lexer = Lexer::get("x".to_string()).unwrap();
    assert_eq!(lexer.get_token(), variable("x"));
    lexer.next_token().unwrap();
    assert_eq!(lexer.get_token(), Token::End);
    lexer.next_token().unwrap();
    assert_eq!(lexer.get_token(), Token::End);
}

#[test]
fn a_zero_byte_reads_as_end() {
    let mut lexer = Lexer::get("a\0b".to_string()).unwrap();
    assert_eq!(lexer.get_token(), variable("a"));
    lexer.next_token().unwrap();
    assert_eq!(lexer.get_token(), Token::End);
    lexer.next_token().unwrap();
    assert_eq!(lexer.get_token(), variable("b"));
}

#[test]
fn has_more_symbols_until_the_last_byte_is_read() {
    let mut lexer = Lexer::get("ab + c".to_string()).unwrap();
    assert!(lexer.has_more_symbols());
    lexer.next_token().unwrap();
    assert_eq!(lexer.get_token(), Token::Op(Operations::Add));
    assert!(lexer.has_more_symbols());
    lexer.next_token().unwrap();
    assert_eq!(lexer.get_token(), variable("c"));
    assert!(!lexer.has_more_symbols());
    let single = Lexer::get("x".to_string()).unwrap();
    assert!(!single.has_more_symbols());
}

#[test]
fn single_equals_is_malformed() {
    let mut lexer = Lexer::get("x = 1".to_string()).unwrap();
    assert_eq!(
        lexer.next_token(),
        Err(LexicalError::MalformedOperator { expected: b'=', found: b' ', pos: 4 })
    );
    assert_eq!(lexer.get_token(), variable("x"));
}

#[test]
fn single_slash_is_malformed() {
    assert_eq!(
        Lexer::get("/".to_string()).err(),
        Some(LexicalError::MalformedOperator { expected: b'/', found: 0, pos: 1 })
    );
    let mut lexer = Lexer::get("6 /2".to_string()).unwrap();
    assert_eq!(
        lexer.next_token(),
        Err(LexicalError::MalformedOperator { expected: b'/', found: b'2', pos: 4 })
    );
}

#[test]
fn unexpected_character_names_byte_and_cursor() {
    assert_eq!(
        Lexer::get("@".to_string()).err(),
        Some(LexicalError::UnexpectedCharacter { found: b'@', pos: 1 })
    );
    let mut lexer = Lexer::get("ab  #".to_string()).unwrap();
    assert_eq!(
        lexer.next_token(),
        Err(LexicalError::UnexpectedCharacter { found: b'#', pos: 5 })
    );
    assert_eq!(
        Lexer::get("_x".to_string()).err(),
        Some(LexicalError::UnexpectedCharacter { found: b'_', pos: 1 })
    );
}

#[test]
fn a_word_ends_only_at_a_separator() {
    assert_eq!(tokens("a_b@c d"), vec![variable("a_b@c"), variable("d"), Token::End]);
    assert_eq!(tokens("x\u{e9}"), vec![variable("x\u{c3}\u{a9}"), Token::End]);
}

#[test]
fn spelling_is_canonical() {
    let spelled: Vec<String> =
        tokens("lambda x , : ( ) % + - * // and or == not True False 12")
            .iter()
            .map(|t| t.spelling())
            .collect();
    assert_eq!(
        spelled,
        vec![
            "lambda", "x", ",", ":", "(", ")", "%", "+", "-", "*", "//", "and", "or", "==",
            "not", "True", "False", "12", ""
        ]
    );
}

#[test]
fn clone_keeps_the_token() {
    let token = variable("abc");
    assert_eq!(token.clone(), token);
    let constant = number("12");
    assert_eq!(constant.clone(), constant);
}
