use minidb::lexer::{KeyWords, Lexer, Token};

fn next_token(lexer: &mut Lexer) -> Token {
    lexer.consume()
}

#[test]
fn test_keywords_case_insensitive() {
    let mut lexer = Lexer::new("create SELECT Insert UpDaTe");
    lexer.tokenize();

    match next_token(&mut lexer) {
        Token::Keyword(KeyWords::CREATE) => {}
        other => panic!("Expected CREATE, got {:?}", other),
    }
    match next_token(&mut lexer) {
        Token::Keyword(KeyWords::SELECT) => {}
        other => panic!("Expected SELECT, got {:?}", other),
    }
    match next_token(&mut lexer) {
        Token::Keyword(KeyWords::INSERT) => {}
        other => panic!("Expected INSERT, got {:?}", other),
    }
    match next_token(&mut lexer) {
        Token::Keyword(KeyWords::UPDATE) => {}
        other => panic!("Expected UPDATE, got {:?}", other),
    }
    match next_token(&mut lexer) {
        Token::EOL => {}
        other => panic!("Expected EOL, got {:?}", other),
    }
}

#[test]
fn test_identifiers_and_symbols() {
    let mut lexer = Lexer::new("CREATE table (id INT, name STRING)");
    lexer.tokenize();

    match next_token(&mut lexer) {
        Token::Keyword(KeyWords::CREATE) => {}
        other => panic!("Expected CREATE, got {:?}", other),
    }
    // `table` is a reserved word in any case.
    match next_token(&mut lexer) {
        Token::Keyword(KeyWords::TABLE) => {}
        other => panic!("Expected TABLE, got {:?}", other),
    }
    match next_token(&mut lexer) {
        Token::Keyword(KeyWords::LEFTPAREN) => {}
        other => panic!("Expected LEFTPAREN, got {:?}", other),
    }
    match next_token(&mut lexer) {
        Token::Identifier(s) if s == "id" => {}
        other => panic!("Expected Identifier(id), got {:?}", other),
    }
    match next_token(&mut lexer) {
        Token::Keyword(KeyWords::INT) => {}
        other => panic!("Expected INT, got {:?}", other),
    }
    match next_token(&mut lexer) {
        Token::Keyword(KeyWords::COMMA) => {}
        other => panic!("Expected COMMA, got {:?}", other),
    }
    match next_token(&mut lexer) {
        Token::Identifier(s) if s == "name" => {}
        other => panic!("Expected Identifier(name), got {:?}", other),
    }
    match next_token(&mut lexer) {
        Token::Keyword(KeyWords::STRING) => {}
        other => panic!("Expected STRING, got {:?}", other),
    }
    match next_token(&mut lexer) {
        Token::Keyword(KeyWords::RIGHTPAREN) => {}
        other => panic!("Expected RIGHTPAREN, got {:?}", other),
    }
    match next_token(&mut lexer) {
        Token::EOL => {}
        other => panic!("Expected EOL, got {:?}", other),
    }
}

#[test]
fn test_symbols_only() {
    let mut lexer = Lexer::new(",()");
    lexer.tokenize();

    match next_token(&mut lexer) {
        Token::Keyword(KeyWords::COMMA) => {}
        other => panic!("Expected COMMA, got {:?}", other),
    }
    match next_token(&mut lexer) {
        Token::Keyword(KeyWords::LEFTPAREN) => {}
        other => panic!("Expected LEFTPAREN, got {:?}", other),
    }
    match next_token(&mut lexer) {
        Token::Keyword(KeyWords::RIGHTPAREN) => {}
        other => panic!("Expected RIGHTPAREN, got {:?}", other),
    }
    match next_token(&mut lexer) {
        Token::EOL => {}
        other => panic!("Expected EOL, got {:?}", other),
    }
}

#[test]
fn test_alphanumeric_identifier() {
    let mut lexer = Lexer::new("user1 col2a");
    lexer.tokenize();

    match next_token(&mut lexer) {
        Token::Identifier(s) if s == "user1" => {}
        other => panic!("Expected Identifier(user1), got {:?}", other),
    }
    match next_token(&mut lexer) {
        Token::Identifier(s) if s == "col2a" => {}
        other => panic!("Expected Identifier(col2a), got {:?}", other),
    }
    match next_token(&mut lexer) {
        Token::EOL => {}
        other => panic!("Expected EOL, got {:?}", other),
    }
}

#[test]
fn test_numbers_ignored_then_identifier() {
    // Digits that no letter precedes are dropped; the letter after them
    // starts an identifier.
    let mut lexer = Lexer::new("123 45a");
    lexer.tokenize();

    match next_token(&mut lexer) {
        Token::Identifier(s) if s == "a" => {}
        other => panic!("Expected Identifier(a), got {:?}", other),
    }
    match next_token(&mut lexer) {
        Token::EOL => {}
        other => panic!("Expected EOL, got {:?}", other),
    }
}

#[test]
fn test_select_star_from_identifier() {
    let mut lexer = Lexer::new("SELECT * from test");
    lexer.tokenize();

    match next_token(&mut lexer) {
        Token::Keyword(KeyWords::SELECT) => {}
        other => panic!("Expected SELECT, got {:?}", other),
    }
    match next_token(&mut lexer) {
        Token::Identifier(s) if s == "*" => {}
        other => panic!("Expected Identifier(*), got {:?}", other),
    }
    match next_token(&mut lexer) {
        Token::Keyword(KeyWords::FROM) => {}
        other => panic!("Expected Identifier(from), got {:?}", other),
    }
    match next_token(&mut lexer) {
        Token::Identifier(s) if s == "test" => {}
        other => panic!("Expected Identifier(test), got {:?}", other),
    }
    match next_token(&mut lexer) {
        Token::EOL => {}
        other => panic!("Expected EOL, got {:?}", other),
    }
}
