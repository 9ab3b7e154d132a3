use interp::ast::{
    BlockStatement, BooleanLiteral, CallExpression, Expression, ExpressionStatement,
    FunctionLiteral, Identifier, IfExpression, ImportStatement, InfixExpression, Inspect,
    IntegerLiteral, LetStatement, PrefixExpression, Program, ReturnStatement, Statement,
    StringLiteral, ArrayLiteral,
};
use interp::token::Token;

fn ident(name: &str) -> Identifier {
    Identifier { token: Token::IDENT(String::from(name)), value: String::from(name) }
}

fn integer(n: i32) -> Expression {
    Expression::IntegerLiteral(IntegerLiteral { token: Token::INT(n.to_string()), value: n })
}

#[test]
fn string1() {
    let program = Program {
        statements: vec![
            Statement::LetStatement(LetStatement {
                token: Token::LET,
                name: Identifier { token: Token::IDENT(String::from("x")), value: String::from("x") },
                value: None,
            }),
        ],
    };

    println!("{}", program.clone().to_string());
    assert_eq!(program.to_string(), String::from("let x = null"));
}

#[test]
fn string2() {
    let program = Program {
        statements: vec![
            Statement::LetStatement(LetStatement {
                token: Token::LET,
                name: Identifier { token: Token::IDENT(String::from("x")), value: String::from("x") },
                value: Some(Expression::IntegerLiteral(IntegerLiteral {
                    token: Token::INT(String::from("5")),
                    value: 5,
                })),
            }),
        ],
    };

    println!("{}", program.clone().to_string());
    assert_eq!(program.to_string(), String::from("let x = 5"));
}

#[test]
fn operators_are_shown_in_parentheses() {
    let e = Expression::InfixExpression(InfixExpression {
        token: Token::PLUS,
        left: Box::new(integer(1)),
        right: Box::new(Expression::PrefixExpression(PrefixExpression {
            token: Token::MINUS,
            operator: String::from("-"),
            right: Box::new(integer(2)),
        })),
        operator: String::from("+"),
    });
    assert_eq!(e.to_string(), "(1 + (-2))");
    assert_eq!(e.token_literal(), "+");
}

#[test]
fn string_literals_are_shown_quoted() {
    let s = StringLiteral { token: Token::STRING(String::from("a\"b")), value: String::from("a\"b") };
    assert_eq!(s.to_string(), "\"a\\\"b\"");
    assert_eq!(s.token_literal(), "a\"b");
    assert_eq!(Expression::StringLiteral(s).to_string(), "\"a\\\"b\"");
}

#[test]
fn conditionals_show_their_parts_quoted() {
    let block = |name: &str| BlockStatement {
        token: Token::LSQUIRLY,
        statements: vec![Statement::ExpressionStatement(ExpressionStatement {
            token: Token::IDENT(String::from(name)),
            expression: Expression::Identifier(ident(name)),
        })],
    };
    let with_else = IfExpression {
        token: Token::IF,
        condition: Box::new(Expression::Identifier(ident("c"))),
        consequence: block("x"),
        alternative: Some(block("y")),
    };
    assert_eq!(with_else.to_string(), "if \"c\" \"x\" else \"y\"");
    let without = IfExpression {
        token: Token::IF,
        condition: Box::new(Expression::Identifier(ident("c"))),
        consequence: block("x"),
        alternative: None,
    };
    assert_eq!(without.to_string(), "if \"c\" \"x\"");
    assert_eq!(without.token_literal(), "if");
}

#[test]
fn function_literals_list_their_parameters() {
    let f = FunctionLiteral {
        token: Token::FUNCTION,
        parameters: vec![ident("a"), ident("b")],
        body: BlockStatement {
            token: Token::LSQUIRLY,
            statements: vec![Statement::ReturnStatement(ReturnStatement {
                token: Token::RETURN,
                return_val: integer(1),
            })],
        },
    };
    assert_eq!(f.to_string(), "fn (a, b, ) return statement");
    assert_eq!(f.token_literal(), "fn");
}

#[test]
fn calls_list_their_arguments() {
    let c = CallExpression {
        token: Token::LPAREN,
        function: Box::new(Expression::Identifier(ident("f"))),
        arguments: vec![Box::new(integer(1)), Box::new(Expression::Boolean(BooleanLiteral {
            token: Token::TRUE,
            value: true,
        }))],
    };
    assert_eq!(c.to_string(), "f(1, true, )");
    let none = CallExpression {
        token: Token::LPAREN,
        function: Box::new(Expression::Identifier(ident("f"))),
        arguments: vec![],
    };
    assert_eq!(none.to_string(), "f()");
}

#[test]
fn array_literals_separate_their_elements() {
    let a = ArrayLiteral { token: Token::ILLEGAL, elements: vec![integer(1), integer(2), integer(3)] };
    assert_eq!(a.to_string(), "[1, 2, 3]");
    let empty = ArrayLiteral { token: Token::ILLEGAL, elements: vec![] };
    assert_eq!(empty.to_string(), "[]");
    assert_eq!(empty.token_literal(), "ILLEGAL");
}

#[test]
fn statements_have_their_texts() {
    let import = Statement::ImportStatement(ImportStatement {
        token: Token::IMPORT,
        namespace: StringLiteral {
            token: Token::STRING(String::from("std.string")),
            value: String::from("std.string"),
        },
    });
    assert_eq!(import.to_string(), "import std.string");
    assert_eq!(import.token_literal(), "");
    let expression = Statement::ExpressionStatement(ExpressionStatement {
        token: Token::INT(String::from("7")),
        expression: integer(7),
    });
    assert_eq!(expression.to_string(), "7");
    let ret = ReturnStatement { token: Token::RETURN, return_val: integer(7) };
    assert_eq!(ret.to_string(), "return statement");
    assert_eq!(ret.token_literal(), "return");
}

#[test]
fn the_empty_expression_has_no_text() {
    assert_eq!(Expression::Empty.to_string(), "");
    assert_eq!(Expression::Empty.token_literal(), "");
    let p = Program { statements: vec![] };
    assert_eq!(p.to_string(), "");
    assert_eq!(p.token_literal(), "");
}

#[test]
fn clones_have_the_same_text() {
    let e = Expression::InfixExpression(InfixExpression {
        token: Token::ASTERISK,
        left: Box::new(integer(3)),
        right: Box::new(Expression::CallExpression(CallExpression {
            token: Token::LPAREN,
            function: Box::new(Expression::Identifier(ident("g"))),
            arguments: vec![Box::new(integer(4))],
        })),
        operator: String::from("*"),
    });
    assert_eq!(e.clone().to_string(), e.to_string());
    assert_eq!(e.to_string(), "(3 * g(4, ))");
}
