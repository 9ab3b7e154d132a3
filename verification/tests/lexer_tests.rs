use interp::lexer::Lexer;
use interp::token::Token;

#[test]
fn read_char() {
    let input = "let five = 5;";
    let mut l = Lexer::new(input);
    assert!(l.ch == 'l');
    l.read_char();
    assert!(l.ch == 'e');
}

#[test]
fn read_number() {
    let input = "12345";
    let mut l = Lexer::new(input);
    let num = l.read_number();
    assert_eq!(num, String::from("12345"));
}

#[test]
fn next_token() {
    let input = "=+(){},;";
    let mut l = Lexer::new(input);
    let mut t = l.next_token();
    assert_eq!(t, Token::ASSIGN);
    t = l.next_token();
    assert_eq!(t, Token::PLUS);
    t = l.next_token();
    assert_eq!(t, Token::LPAREN);
}

#[test]
fn next_token_code() {
    let input = "let five = 5; \"foobar\";";
    let mut l = Lexer::new(input);
    let mut t = l.next_token();
    assert_eq!(t, Token::LET);
    t = l.next_token();
    assert_eq!(t, Token::IDENT(String::from("five")));
    t = l.next_token();
    assert_eq!(t, Token::ASSIGN);
    t = l.next_token();
    assert_eq!(t, Token::INT(String::from("5")));
    t = l.next_token();
    assert_eq!(t, Token::SEMICOLON);
    t = l.next_token();
    assert_eq!(t, Token::STRING(String::from("foobar")));
    t = l.next_token();
    assert_eq!(t, Token::SEMICOLON);
}

#[test]
fn read_identifier() {
    let input = "let five = 5";
    let mut l = Lexer::new(input);
    let mut t = l.next_token();
    assert_eq!(t, Token::LET);
    t = l.next_token();
    assert_eq!(t, Token::IDENT(String::from("five")));
    t = l.next_token();
    assert_eq!(t, Token::ASSIGN);
    t = l.next_token();
    assert_eq!(t, Token::INT(String::from("5")));
}

fn all_tokens(input: &str) -> Vec<Token> {
    let mut l = Lexer::new(input);
    let mut out = Vec::new();
    loop {
        let t = l.next_token();
        if t == Token::EOF {
            break;
        }
        out.push(t);
    }
    out
}

#[test]
fn every_mark_is_recognised() {
    assert_eq!(
        all_tokens("= + - ! * / ** < > == != , ; ( ) { }"),
        vec![
            Token::ASSIGN,
            Token::PLUS,
            Token::MINUS,
            Token::BANG,
            Token::ASTERISK,
            Token::SLASH,
            Token::POWER,
            Token::LT,
            Token::GT,
            Token::EQ,
            Token::NEQ,
            Token::COMMA,
            Token::SEMICOLON,
            Token::LPAREN,
            Token::RPAREN,
            Token::LSQUIRLY,
            Token::RSQUIRLY,
        ]
    );
}

#[test]
fn two_character_operators_need_no_space() {
    assert_eq!(
        all_tokens("a==b!=c**d=!e*f"),
        vec![
            Token::IDENT(String::from("a")),
            Token::EQ,
            Token::IDENT(String::from("b")),
            Token::NEQ,
            Token::IDENT(String::from("c")),
            Token::POWER,
            Token::IDENT(String::from("d")),
            Token::ASSIGN,
            Token::BANG,
            Token::IDENT(String::from("e")),
            Token::ASTERISK,
            Token::IDENT(String::from("f")),
        ]
    );
}

#[test]
fn a_name_does_not_swallow_what_follows() {
    assert_eq!(
        all_tokens("foo(bar);"),
        vec![
            Token::IDENT(String::from("foo")),
            Token::LPAREN,
            Token::IDENT(String::from("bar")),
            Token::RPAREN,
            Token::SEMICOLON,
        ]
    );
}

#[test]
fn names_hold_letters_digits_and_underscores() {
    assert_eq!(
        all_tokens("_a1 b_2c 3d"),
        vec![
            Token::IDENT(String::from("_a1")),
            Token::IDENT(String::from("b_2c")),
            Token::INT(String::from("3")),
            Token::IDENT(String::from("d")),
        ]
    );
}

#[test]
fn keywords_are_tokens_of_their_own() {
    assert_eq!(
        all_tokens("fn let true false if else return import"),
        vec![
            Token::FUNCTION,
            Token::LET,
            Token::TRUE,
            Token::FALSE,
            Token::IF,
            Token::ELSE,
            Token::RETURN,
            Token::IMPORT,
        ]
    );
}

#[test]
fn end_of_input_repeats() {
    let mut l = Lexer::new("x");
    assert_eq!(l.next_token(), Token::IDENT(String::from("x")));
    assert_eq!(l.next_token(), Token::EOF);
    assert_eq!(l.next_token(), Token::EOF);
    assert_eq!(l.next_token(), Token::EOF);
}

#[test]
fn empty_input_is_end_of_input() {
    let mut l = Lexer::new("");
    assert!(l.ch == '\0');
    assert_eq!(l.next_token(), Token::EOF);
    let mut l = Lexer::new(" \t\r\n ");
    assert_eq!(l.next_token(), Token::EOF);
}

#[test]
fn unknown_characters_are_illegal() {
    assert_eq!(
        all_tokens("a # b ? 1"),
        vec![
            Token::IDENT(String::from("a")),
            Token::ILLEGAL,
            Token::IDENT(String::from("b")),
            Token::ILLEGAL,
            Token::INT(String::from("1")),
        ]
    );
}

#[test]
fn string_literals_keep_their_contents() {
    assert_eq!(
        all_tokens("\"\" \"a b;\" \"std.string\""),
        vec![
            Token::STRING(String::new()),
            Token::STRING(String::from("a b;")),
            Token::STRING(String::from("std.string")),
        ]
    );
}

#[test]
fn an_open_string_ends_with_the_input() {
    assert_eq!(all_tokens("\"abc"), vec![Token::STRING(String::from("abc"))]);
}

#[test]
fn bytes_are_read_as_characters_of_the_same_code() {
    // U+00E9 is encoded as the bytes C3 A9: the first is a letter, the second
    // is neither letter nor digit nor white space.
    assert_eq!(
        all_tokens("\u{e9}"),
        vec![Token::IDENT(String::from("\u{c3}")), Token::ILLEGAL]
    );
    // U+00A0 is encoded as C2 A0: the first is a letter, the second is white space.
    assert_eq!(
        all_tokens("a\u{a0}b"),
        vec![Token::IDENT(String::from("a\u{c2}")), Token::IDENT(String::from("b"))]
    );
    // U+00D7 is encoded as C3 97: a letter, then a byte of no class.
    assert_eq!(
        all_tokens("\u{d7}"),
        vec![Token::IDENT(String::from("\u{c3}")), Token::ILLEGAL]
    );
}

#[test]
fn read_identifier_stops_at_the_end_of_the_name() {
    let mut l = Lexer::new("abc_1+2");
    assert_eq!(l.read_identifier(), "abc_1");
    assert!(l.ch == '+');
}

#[test]
fn read_number_stops_at_the_first_other_character() {
    let mut l = Lexer::new("120x");
    assert_eq!(l.read_number(), "120");
    assert!(l.ch == 'x');
    let mut l = Lexer::new("x");
    assert_eq!(l.read_number(), "");
    assert!(l.ch == 'x');
}

#[test]
fn current_char_is_the_character_looked_at() {
    let mut l = Lexer::new("ab");
    assert_eq!(l.current_char(), 'a');
    l.read_char();
    assert_eq!(l.current_char(), 'b');
    assert_eq!(l.current_char(), l.ch);
    l.read_char();
    assert_eq!(l.current_char(), '\0');
}

#[test]
fn read_char_stays_at_the_end() {
    let mut l = Lexer::new("ab");
    l.read_char();
    assert!(l.ch == 'b');
    l.read_char();
    assert!(l.ch == '\0');
    l.read_char();
    assert!(l.ch == '\0');
}

fn expected_tokens(bytes: &[u8]) -> Vec<Token> {
    let mut out = Vec::new();
    let mut i = 0;
    while i < bytes.len() {
        let c = char::from(bytes[i]);
        if c.is_whitespace() {
            i += 1;
        } else if c.is_alphabetic() || c == '_' {
            let mut word = String::new();
            while i < bytes.len()
                && (char::from(bytes[i]).is_alphanumeric() || char::from(bytes[i]) == '_')
            {
                word.push(char::from(bytes[i]));
                i += 1;
            }
            out.push(Token::IDENT(word));
        } else if c.is_digit(10) {
            let mut digits = String::new();
            while i < bytes.len() && char::from(bytes[i]).is_digit(10) {
                digits.push(char::from(bytes[i]));
                i += 1;
            }
            out.push(Token::INT(digits));
        } else {
            out.push(Token::ILLEGAL);
            i += 1;
        }
    }
    out
}

#[test]
fn bytes_are_classed_as_the_characters_of_the_same_code() {
    let mut samples: Vec<char> = Vec::new();
    for code in 0x80u32..0x800 {
        samples.push(char::from_u32(code).unwrap());
    }
    for code in [0x800u32, 0x0fff, 0x20ac, 0xd7ff, 0xe000, 0xffff, 0x10000, 0x1f600, 0x10ffff] {
        samples.push(char::from_u32(code).unwrap());
    }
    for c in samples {
        let text = format!("w{}x 7{}8 {}y", c, c, c);
        assert_eq!(all_tokens(text.as_str()), expected_tokens(text.as_bytes()), "{:?}", c);
    }
}

#[test]
fn white_space_separates_tokens() {
    for space in [" ", "\t", "\n", "\r", "\u{b}", "\u{c}", " \t\r\n "] {
        let text = format!("a{}b", space);
        assert_eq!(
            all_tokens(text.as_str()),
            vec![Token::IDENT(String::from("a")), Token::IDENT(String::from("b"))]
        );
    }
}
