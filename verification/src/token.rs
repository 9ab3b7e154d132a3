//! The tokens of the language and the texts that belong to them.

use crate::text::{debug_quote, debug_quoted, same_text};
use vstd::prelude::*;
use vstd::string::StringExecFns;

verus! {

/// A token: a keyword or punctuation mark, or a name, a run of digits or the
/// contents of a string literal.
#[allow(non_camel_case_types)]
#[derive(Debug, PartialEq, Eq)]
pub enum Token {
    IDENT(String),
    INT(String),
    STRING(String),
    FUNCTION,
    LET,
    TRUE,
    FALSE,
    IF,
    ELSE,
    RETURN,
    IMPORT,
    ILLEGAL,
    EOF,
    COMMA,
    SEMICOLON,
    LPAREN,
    RPAREN,
    LSQUIRLY,
    RSQUIRLY,
    ASSIGN,
    PLUS,
    MINUS,
    BANG,
    ASTERISK,
    SLASH,
    POWER,
    LT,
    GT,
    EQ,
    NEQ,
}

/// The mathematical value of a token: the same variants, with texts as
/// sequences of characters.
pub enum TokenView {
    IDENT(Seq<char>),
    INT(Seq<char>),
    STRING(Seq<char>),
    FUNCTION,
    LET,
    TRUE,
    FALSE,
    IF,
    ELSE,
    RETURN,
    IMPORT,
    ILLEGAL,
    EOF,
    COMMA,
    SEMICOLON,
    LPAREN,
    RPAREN,
    LSQUIRLY,
    RSQUIRLY,
    ASSIGN,
    PLUS,
    MINUS,
    BANG,
    ASTERISK,
    SLASH,
    POWER,
    LT,
    GT,
    EQ,
    NEQ,
}

impl View for Token {
    type V = TokenView;

    open spec fn view(&self) -> TokenView {
        match self {
            Token::IDENT(s) => TokenView::IDENT(s@),
            Token::INT(s) => TokenView::INT(s@),
            Token::STRING(s) => TokenView::STRING(s@),
            Token::FUNCTION => TokenView::FUNCTION,
            Token::LET => TokenView::LET,
            Token::TRUE => TokenView::TRUE,
            Token::FALSE => TokenView::FALSE,
            Token::IF => TokenView::IF,
            Token::ELSE => TokenView::ELSE,
            Token::RETURN => TokenView::RETURN,
            Token::IMPORT => TokenView::IMPORT,
            Token::ILLEGAL => TokenView::ILLEGAL,
            Token::EOF => TokenView::EOF,
            Token::COMMA => TokenView::COMMA,
            Token::SEMICOLON => TokenView::SEMICOLON,
            Token::LPAREN => TokenView::LPAREN,
            Token::RPAREN => TokenView::RPAREN,
            Token::LSQUIRLY => TokenView::LSQUIRLY,
            Token::RSQUIRLY => TokenView::RSQUIRLY,
            Token::ASSIGN => TokenView::ASSIGN,
            Token::PLUS => TokenView::PLUS,
            Token::MINUS => TokenView::MINUS,
            Token::BANG => TokenView::BANG,
            Token::ASTERISK => TokenView::ASTERISK,
            Token::SLASH => TokenView::SLASH,
            Token::POWER => TokenView::POWER,
            Token::LT => TokenView::LT,
            Token::GT => TokenView::GT,
            Token::EQ => TokenView::EQ,
            Token::NEQ => TokenView::NEQ,
        }
    }
}

impl Clone for Token {
    fn clone(&self) -> (r: Self)
        ensures
            r@ == self@,
    {
        match self {
            Token::IDENT(s) => Token::IDENT(s.clone()),
            Token::INT(s) => Token::INT(s.clone()),
            Token::STRING(s) => Token::STRING(s.clone()),
            Token::FUNCTION => Token::FUNCTION,
            Token::LET => Token::LET,
            Token::TRUE => Token::TRUE,
            Token::FALSE => Token::FALSE,
            Token::IF => Token::IF,
            Token::ELSE => Token::ELSE,
            Token::RETURN => Token::RETURN,
            Token::IMPORT => Token::IMPORT,
            Token::ILLEGAL => Token::ILLEGAL,
            Token::EOF => Token::EOF,
            Token::COMMA => Token::COMMA,
            Token::SEMICOLON => Token::SEMICOLON,
            Token::LPAREN => Token::LPAREN,
            Token::RPAREN => Token::RPAREN,
            Token::LSQUIRLY => Token::LSQUIRLY,
            Token::RSQUIRLY => Token::RSQUIRLY,
            Token::ASSIGN => Token::ASSIGN,
            Token::PLUS => Token::PLUS,
            Token::MINUS => Token::MINUS,
            Token::BANG => Token::BANG,
            Token::ASTERISK => Token::ASTERISK,
            Token::SLASH => Token::SLASH,
            Token::POWER => Token::POWER,
            Token::LT => Token::LT,
            Token::GT => Token::GT,
            Token::EQ => Token::EQ,
            Token::NEQ => Token::NEQ,
        }
    }
}

/// The token that a word denotes: its keyword if it is one, else a name.
pub open spec fn word_token(word: Seq<char>) -> TokenView {
    if word == "let"@ {
        TokenView::LET
    } else if word == "fn"@ {
        TokenView::FUNCTION
    } else if word == "true"@ {
        TokenView::TRUE
    } else if word == "false"@ {
        TokenView::FALSE
    } else if word == "if"@ {
        TokenView::IF
    } else if word == "else"@ {
        TokenView::ELSE
    } else if word == "return"@ {
        TokenView::RETURN
    } else if word == "import"@ {
        TokenView::IMPORT
    } else {
        TokenView::IDENT(word)
    }
}

/// Classifies a word read from the source: the keyword token if the word is a
/// keyword, else the name token that carries the word.
pub fn lookup_ident(ident: String) -> (r: Token)
    ensures
        r@ == word_token(ident@),
{
    let word = ident.as_str();
    if same_text(word, "let") {
        Token::LET
    } else if same_text(word, "fn") {
        Token::FUNCTION
    } else if same_text(word, "true") {
        Token::TRUE
    } else if same_text(word, "false") {
        Token::FALSE
    } else if same_text(word, "if") {
        Token::IF
    } else if same_text(word, "else") {
        Token::ELSE
    } else if same_text(word, "return") {
        Token::RETURN
    } else if same_text(word, "import") {
        Token::IMPORT
    } else {
        Token::IDENT(ident)
    }
}

/// The source text of a token: its payload, or the spelling of the keyword or
/// mark. The end of input is spelled as the NUL character.
pub open spec fn literal_text(t: TokenView) -> Seq<char> {
    match t {
        TokenView::IDENT(s) => s,
        TokenView::INT(s) => s,
        TokenView::STRING(s) => s,
        TokenView::FUNCTION => "fn"@,
        TokenView::LET => "let"@,
        TokenView::TRUE => "true"@,
        TokenView::FALSE => "false"@,
        TokenView::IF => "if"@,
        TokenView::ELSE => "else"@,
        TokenView::RETURN => "return"@,
        TokenView::IMPORT => "import"@,
        TokenView::ILLEGAL => "ILLEGAL"@,
        TokenView::EOF => "\0"@,
        TokenView::COMMA => ","@,
        TokenView::SEMICOLON => ";"@,
        TokenView::LPAREN => "("@,
        TokenView::RPAREN => ")"@,
        TokenView::LSQUIRLY => "{"@,
        TokenView::RSQUIRLY => "}"@,
        TokenView::ASSIGN => "="@,
        TokenView::PLUS => "+"@,
        TokenView::MINUS => "-"@,
        TokenView::BANG => "!"@,
        TokenView::ASTERISK => "*"@,
        TokenView::SLASH => "/"@,
        TokenView::POWER => "**"@,
        TokenView::LT => "<"@,
        TokenView::GT => ">"@,
        TokenView::EQ => "=="@,
        TokenView::NEQ => "!="@,
    }
}

/// The source text of a token.
pub fn get_literal(token: &Token) -> (r: String)
    ensures
        r@ == literal_text(token@),
{
    match token {
        Token::IDENT(s) => s.clone(),
        Token::INT(s) => s.clone(),
        Token::STRING(s) => s.clone(),
        Token::FUNCTION => String::from_str("fn"),
        Token::LET => String::from_str("let"),
        Token::TRUE => String::from_str("true"),
        Token::FALSE => String::from_str("false"),
        Token::IF => String::from_str("if"),
        Token::ELSE => String::from_str("else"),
        Token::RETURN => String::from_str("return"),
        Token::IMPORT => String::from_str("import"),
        Token::ILLEGAL => String::from_str("ILLEGAL"),
        Token::EOF => String::from_str("\0"),
        Token::COMMA => String::from_str(","),
        Token::SEMICOLON => String::from_str(";"),
        Token::LPAREN => String::from_str("("),
        Token::RPAREN => String::from_str(")"),
        Token::LSQUIRLY => String::from_str("{"),
        Token::RSQUIRLY => String::from_str("}"),
        Token::ASSIGN => String::from_str("="),
        Token::PLUS => String::from_str("+"),
        Token::MINUS => String::from_str("-"),
        Token::BANG => String::from_str("!"),
        Token::ASTERISK => String::from_str("*"),
        Token::SLASH => String::from_str("/"),
        Token::POWER => String::from_str("**"),
        Token::LT => String::from_str("<"),
        Token::GT => String::from_str(">"),
        Token::EQ => String::from_str("=="),
        Token::NEQ => String::from_str("!="),
    }
}

/// The name of a token's variant, as diagnostics spell it.
pub open spec fn kind_name(t: TokenView) -> Seq<char> {
    match t {
        TokenView::IDENT(_) => "IDENT"@,
        TokenView::INT(_) => "INT"@,
        TokenView::STRING(_) => "STRING"@,
        TokenView::FUNCTION => "FUNCTION"@,
        TokenView::LET => "LET"@,
        TokenView::TRUE => "TRUE"@,
        TokenView::FALSE => "FALSE"@,
        TokenView::IF => "IF"@,
        TokenView::ELSE => "ELSE"@,
        TokenView::RETURN => "RETURN"@,
        TokenView::IMPORT => "IMPORT"@,
        TokenView::ILLEGAL => "ILLEGAL"@,
        TokenView::EOF => "EOF"@,
        TokenView::COMMA => "COMMA"@,
        TokenView::SEMICOLON => "SEMICOLON"@,
        TokenView::LPAREN => "LPAREN"@,
        TokenView::RPAREN => "RPAREN"@,
        TokenView::LSQUIRLY => "LSQUIRLY"@,
        TokenView::RSQUIRLY => "RSQUIRLY"@,
        TokenView::ASSIGN => "ASSIGN"@,
        TokenView::PLUS => "PLUS"@,
        TokenView::MINUS => "MINUS"@,
        TokenView::BANG => "BANG"@,
        TokenView::ASTERISK => "ASTERISK"@,
        TokenView::SLASH => "SLASH"@,
        TokenView::POWER => "POWER"@,
        TokenView::LT => "LT"@,
        TokenView::GT => "GT"@,
        TokenView::EQ => "EQ"@,
        TokenView::NEQ => "NEQ"@,
    }
}

/// How a diagnostic shows a token: the variant's name, followed for a token
/// with a payload by the quoted payload in parentheses.
pub open spec fn display_text(t: TokenView) -> Seq<char> {
    match t {
        TokenView::IDENT(s) | TokenView::INT(s) | TokenView::STRING(s) => kind_name(t) + "("@
            + debug_quoted(s) + ")"@,
        _ => kind_name(t),
    }
}

fn kind_label(token: &Token) -> (r: &'static str)
    ensures
        r@ == kind_name(token@),
{
    match token {
        Token::IDENT(_) => "IDENT",
        Token::INT(_) => "INT",
        Token::STRING(_) => "STRING",
        Token::FUNCTION => "FUNCTION",
        Token::LET => "LET",
        Token::TRUE => "TRUE",
        Token::FALSE => "FALSE",
        Token::IF => "IF",
        Token::ELSE => "ELSE",
        Token::RETURN => "RETURN",
        Token::IMPORT => "IMPORT",
        Token::ILLEGAL => "ILLEGAL",
        Token::EOF => "EOF",
        Token::COMMA => "COMMA",
        Token::SEMICOLON => "SEMICOLON",
        Token::LPAREN => "LPAREN",
        Token::RPAREN => "RPAREN",
        Token::LSQUIRLY => "LSQUIRLY",
        Token::RSQUIRLY => "RSQUIRLY",
        Token::ASSIGN => "ASSIGN",
        Token::PLUS => "PLUS",
        Token::MINUS => "MINUS",
        Token::BANG => "BANG",
        Token::ASTERISK => "ASTERISK",
        Token::SLASH => "SLASH",
        Token::POWER => "POWER",
        Token::LT => "LT",
        Token::GT => "GT",
        Token::EQ => "EQ",
        Token::NEQ => "NEQ",
    }
}

/// Renders a token for a diagnostic.
pub fn display(token: &Token) -> (r: String)
    ensures
        r@ == display_text(token@),
{
    let mut out = String::from_str(kind_label(token));
    match token {
        Token::IDENT(s) | Token::INT(s) | Token::STRING(s) => {
            out.append("(");
            let quoted = debug_quote(s.as_str());
            out.append(quoted.as_str());
            out.append(")");
        },
        _ => {},
    }
    out
}

/// Whether two tokens are of the same variant, whatever their payloads.
pub open spec fn same_kind(a: TokenView, b: TokenView) -> bool {
    match a {
        TokenView::IDENT(_) => b is IDENT,
        TokenView::INT(_) => b is INT,
        TokenView::STRING(_) => b is STRING,
        _ => a == b,
    }
}


/// The place of a token's variant among the variants.
pub open spec fn kind_rank(t: TokenView) -> int {
    match t {
        TokenView::IDENT(_) => 0,
        TokenView::INT(_) => 1,
        TokenView::STRING(_) => 2,
        TokenView::FUNCTION => 3,
        TokenView::LET => 4,
        TokenView::TRUE => 5,
        TokenView::FALSE => 6,
        TokenView::IF => 7,
        TokenView::ELSE => 8,
        TokenView::RETURN => 9,
        TokenView::IMPORT => 10,
        TokenView::ILLEGAL => 11,
        TokenView::EOF => 12,
        TokenView::COMMA => 13,
        TokenView::SEMICOLON => 14,
        TokenView::LPAREN => 15,
        TokenView::RPAREN => 16,
        TokenView::LSQUIRLY => 17,
        TokenView::RSQUIRLY => 18,
        TokenView::ASSIGN => 19,
        TokenView::PLUS => 20,
        TokenView::MINUS => 21,
        TokenView::BANG => 22,
        TokenView::ASTERISK => 23,
        TokenView::SLASH => 24,
        TokenView::POWER => 25,
        TokenView::LT => 26,
        TokenView::GT => 27,
        TokenView::EQ => 28,
        TokenView::NEQ => 29,
    }
}

fn kind_index(token: &Token) -> (r: u8)
    ensures
        r == kind_rank(token@),
{
    match token {
        Token::IDENT(_) => 0,
        Token::INT(_) => 1,
        Token::STRING(_) => 2,
        Token::FUNCTION => 3,
        Token::LET => 4,
        Token::TRUE => 5,
        Token::FALSE => 6,
        Token::IF => 7,
        Token::ELSE => 8,
        Token::RETURN => 9,
        Token::IMPORT => 10,
        Token::ILLEGAL => 11,
        Token::EOF => 12,
        Token::COMMA => 13,
        Token::SEMICOLON => 14,
        Token::LPAREN => 15,
        Token::RPAREN => 16,
        Token::LSQUIRLY => 17,
        Token::RSQUIRLY => 18,
        Token::ASSIGN => 19,
        Token::PLUS => 20,
        Token::MINUS => 21,
        Token::BANG => 22,
        Token::ASTERISK => 23,
        Token::SLASH => 24,
        Token::POWER => 25,
        Token::LT => 26,
        Token::GT => 27,
        Token::EQ => 28,
        Token::NEQ => 29,
    }
}

/// Whether two tokens are of the same variant.
pub fn kinds_match(a: &Token, b: &Token) -> (r: bool)
    ensures
        r == same_kind(a@, b@),
{
    kind_index(a) == kind_index(b)
}

/// Whether two tokens are equal: of the same variant, with the same text.
pub fn tokens_match(a: &Token, b: &Token) -> (r: bool)
    ensures
        r == (a@ == b@),
{
    match (a, b) {
        (Token::IDENT(x), Token::IDENT(y)) => same_text(x.as_str(), y.as_str()),
        (Token::INT(x), Token::INT(y)) => same_text(x.as_str(), y.as_str()),
        (Token::STRING(x), Token::STRING(y)) => same_text(x.as_str(), y.as_str()),
        _ => kind_index(a) == kind_index(b) && kind_index(a) > 2,
    }
}

} // verus!
