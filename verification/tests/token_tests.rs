use interp::token::{display, get_literal, kinds_match, tokens_match, Token};

#[test]
fn lookup_ident() {
    assert_eq!(interp::token::lookup_ident(String::from("let")), Token::LET);
}

#[test]
fn lookup_ident_knows_every_keyword() {
    let lookup = interp::token::lookup_ident;
    assert_eq!(lookup(String::from("fn")), Token::FUNCTION);
    assert_eq!(lookup(String::from("true")), Token::TRUE);
    assert_eq!(lookup(String::from("false")), Token::FALSE);
    assert_eq!(lookup(String::from("if")), Token::IF);
    assert_eq!(lookup(String::from("else")), Token::ELSE);
    assert_eq!(lookup(String::from("return")), Token::RETURN);
    assert_eq!(lookup(String::from("import")), Token::IMPORT);
}

#[test]
fn lookup_ident_keeps_other_words_as_names() {
    let lookup = interp::token::lookup_ident;
    assert_eq!(lookup(String::from("lets")), Token::IDENT(String::from("lets")));
    assert_eq!(lookup(String::from("")), Token::IDENT(String::from("")));
    assert_eq!(lookup(String::from("Let")), Token::IDENT(String::from("Let")));
}

#[test]
fn get_literal_spells_tokens() {
    assert_eq!(get_literal(&Token::IDENT(String::from("abc"))), "abc");
    assert_eq!(get_literal(&Token::INT(String::from("42"))), "42");
    assert_eq!(get_literal(&Token::STRING(String::from("a b"))), "a b");
    assert_eq!(get_literal(&Token::FUNCTION), "fn");
    assert_eq!(get_literal(&Token::LET), "let");
    assert_eq!(get_literal(&Token::IMPORT), "import");
    assert_eq!(get_literal(&Token::ILLEGAL), "ILLEGAL");
    assert_eq!(get_literal(&Token::EOF), "\0");
    assert_eq!(get_literal(&Token::LSQUIRLY), "{");
    assert_eq!(get_literal(&Token::RSQUIRLY), "}");
    assert_eq!(get_literal(&Token::POWER), "**");
    assert_eq!(get_literal(&Token::EQ), "==");
    assert_eq!(get_literal(&Token::NEQ), "!=");
    assert_eq!(get_literal(&Token::BANG), "!");
}

#[test]
fn display_matches_debug_formatting() {
    let tokens = vec![
        Token::IDENT(String::from("x")),
        Token::IDENT(String::new()),
        Token::INT(String::from("15")),
        Token::STRING(String::from("say \"hi\"\n")),
        Token::LET,
        Token::LSQUIRLY,
        Token::EOF,
        Token::NEQ,
    ];
    for t in tokens.iter() {
        assert_eq!(display(t), format!("{:?}", t));
    }
    assert_eq!(display(&Token::STRING(String::from("a\"b"))), "STRING(\"a\\\"b\")");
}

#[test]
fn kinds_match_ignores_payloads() {
    assert!(kinds_match(&Token::IDENT(String::from("a")), &Token::IDENT(String::new())));
    assert!(!kinds_match(&Token::IDENT(String::from("a")), &Token::INT(String::from("a"))));
    assert!(kinds_match(&Token::PLUS, &Token::PLUS));
    assert!(!kinds_match(&Token::PLUS, &Token::MINUS));
}

#[test]
fn tokens_match_compares_payloads() {
    assert!(tokens_match(&Token::IDENT(String::from("a")), &Token::IDENT(String::from("a"))));
    assert!(!tokens_match(&Token::IDENT(String::from("a")), &Token::IDENT(String::from("b"))));
    assert!(!tokens_match(&Token::IDENT(String::from("a")), &Token::STRING(String::from("a"))));
    assert!(tokens_match(&Token::EOF, &Token::EOF));
    assert!(!tokens_match(&Token::EOF, &Token::ILLEGAL));
}

#[test]
fn clone_keeps_the_token() {
    let t = Token::STRING(String::from("text"));
    assert_eq!(t.clone(), t);
    assert_eq!(Token::POWER.clone(), Token::POWER);
}
