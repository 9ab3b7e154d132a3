use interp::ast::{Expression, Inspect, Program, Statement};
use interp::grammar::{InfixParseFn, PrefixParseFn, Priority};
use interp::lexer::Lexer;
use interp::parser::{get_infix_fn, get_prefix_fn, get_priority, Parser};
use interp::token::Token;

fn parse(input: &str) -> (Program, Vec<String>) {
    let mut p = Parser::new(Lexer::new(input));
    let program = p.parse_program().unwrap();
    (program, p.errors)
}

fn expression_text(input: &str) -> String {
    let (program, errors) = parse(input);
    assert_eq!(errors, Vec::<String>::new());
    assert_eq!(program.statements.len(), 1);
    match &program.statements[0] {
        Statement::ExpressionStatement(es) => es.expression.to_string(),
        _ => panic!("not an expression statement"),
    }
}

#[test]
fn binary_operators_associate_to_the_left() {
    assert_eq!(expression_text("a + b + c"), "((a + b) + c)");
    assert_eq!(expression_text("a - b - c"), "((a - b) - c)");
    assert_eq!(expression_text("a * b / c"), "((a * b) / c)");
    assert_eq!(expression_text("a ** b ** c"), "((a ** b) ** c)");
    assert_eq!(expression_text("a == b != c"), "((a == b) != c)");
}

#[test]
fn tighter_operators_group_first() {
    assert_eq!(expression_text("a + b * c"), "(a + (b * c))");
    assert_eq!(expression_text("a * b + c"), "((a * b) + c)");
    assert_eq!(expression_text("a * b ** c"), "(a * (b ** c))");
    assert_eq!(expression_text("a ** b * c"), "((a ** b) * c)");
    assert_eq!(expression_text("a < b == c > d"), "((a < b) == (c > d))");
    assert_eq!(expression_text("a + b < c - d"), "((a + b) < (c - d))");
    assert_eq!(expression_text("-a * b"), "((-a) * b)");
    assert_eq!(expression_text("!a == b"), "((!a) == b)");
    assert_eq!(expression_text("-a ** b"), "((-a) ** b)");
    assert_eq!(expression_text("- - a"), "(-(-a))");
    assert_eq!(expression_text("f(x) + 1"), "(f(x, ) + 1)");
    assert_eq!(expression_text("-f(x)"), "(-f(x, ))");
    assert_eq!(expression_text("a + f(b * c)(d)"), "(a + f((b * c), )(d, ))");
}

#[test]
fn parentheses_group_anew() {
    assert_eq!(expression_text("(a + b) * c"), "((a + b) * c)");
    assert_eq!(expression_text("a * (b + c)"), "(a * (b + c))");
    assert_eq!(expression_text("-(a + b)"), "(-(a + b))");
    assert_eq!(expression_text("((a))"), "a");
}

#[test]
fn let_statements_keep_name_and_value() {
    let (program, errors) = parse("let x = 5; let y = x + 1 let z = \"s\";");
    assert_eq!(errors, Vec::<String>::new());
    assert_eq!(program.statements.len(), 3);
    assert_eq!(program.statements[0].to_string(), "let x = 5");
    assert_eq!(program.statements[1].to_string(), "let y = (x + 1)");
    assert_eq!(program.statements[2].to_string(), "let z = \"s\"");
    assert_eq!(program.to_string(), "let x = 5let y = (x + 1)let z = \"s\"");
}

#[test]
fn a_missing_name_is_reported_and_parsing_goes_on() {
    let (program, errors) = parse("let = 5; let y = 2;");
    assert_eq!(
        errors,
        vec![
            String::from("expected next token to be IDENT(\"\"), got ASSIGN instead"),
            String::from("no prefix parse function for = found"),
        ]
    );
    assert_eq!(program.statements.len(), 3);
    assert!(matches!(
        &program.statements[0],
        Statement::ExpressionStatement(es) if matches!(es.expression, Expression::Empty)
    ));
    assert_eq!(program.statements[2].to_string(), "let y = 2");
}

#[test]
fn a_missing_assignment_is_reported() {
    let (program, errors) = parse("let x 5;");
    assert_eq!(
        errors,
        vec![String::from("expected next token to be ASSIGN, got INT(\"5\") instead")]
    );
    assert_eq!(program.statements.len(), 1);
    assert!(matches!(program.statements[0], Statement::ExpressionStatement(_)));
}

#[test]
fn a_token_that_starts_nothing_is_reported() {
    let (program, errors) = parse(")");
    assert_eq!(errors, vec![String::from("no prefix parse function for ) found")]);
    assert_eq!(program.statements.len(), 1);
    let (_, errors) = parse("1 + ;");
    assert_eq!(errors, vec![String::from("no prefix parse function for ; found")]);
    let (_, errors) = parse("-");
    assert_eq!(errors, vec![String::from("no prefix parse function for \0 found")]);
    let (_, errors) = parse("#");
    assert_eq!(errors, vec![String::from("no prefix parse function for ILLEGAL found")]);
}

#[test]
fn an_unclosed_group_is_reported() {
    let (program, errors) = parse("(1 + 2");
    assert_eq!(
        errors,
        vec![String::from("expected next token to be RPAREN, got EOF instead")]
    );
    assert_eq!(program.statements.len(), 1);
    assert!(matches!(
        &program.statements[0],
        Statement::ExpressionStatement(es) if matches!(es.expression, Expression::Empty)
    ));
}

#[test]
fn the_end_of_input_inside_a_block_is_reported() {
    let (program, errors) = parse("fn(x) { x");
    assert_eq!(
        errors,
        vec![String::from("expected next token to be RSQUIRLY, got EOF instead")]
    );
    assert_eq!(program.statements.len(), 1);
    assert_eq!(program.statements[0].to_string(), "fn");
    let (_, errors) = parse("if (x) { 1 } else {");
    assert_eq!(
        errors,
        vec![String::from("expected next token to be RSQUIRLY, got EOF instead")]
    );
}

#[test]
fn malformed_conditionals_are_reported() {
    let (_, errors) = parse("if x { 1 }");
    assert_eq!(
        errors[0],
        "expected next token to be LPAREN, got IDENT(\"x\") instead"
    );
    let (_, errors) = parse("if (x { 1 }");
    assert_eq!(errors[0], "expected next token to be RPAREN, got LSQUIRLY instead");
    let (_, errors) = parse("if (x) 1");
    assert_eq!(errors[0], "expected next token to be LSQUIRLY, got INT(\"1\") instead");
    let (_, errors) = parse("if (x) { 1 } else 2");
    assert_eq!(errors[0], "expected next token to be LSQUIRLY, got INT(\"2\") instead");
    let (_, errors) = parse("if () { 1 }");
    assert_eq!(errors[0], "no prefix parse function for ) found");
}

#[test]
fn malformed_function_literals_are_reported() {
    let (_, errors) = parse("fn x");
    assert_eq!(errors[0], "expected next token to be LPAREN, got IDENT(\"x\") instead");
    let (_, errors) = parse("fn (x y) { }");
    assert_eq!(errors[0], "expected next token to be RPAREN, got IDENT(\"y\") instead");
    let (_, errors) = parse("fn (x) x");
    assert_eq!(errors[0], "expected next token to be LSQUIRLY, got IDENT(\"x\") instead");
    let (_, errors) = parse("fn (1) { }");
    assert_eq!(errors[0], "expected next token to be IDENT(\"\"), got INT(\"1\") instead");
    let (_, errors) = parse("fn (x, ) { }");
    assert_eq!(errors[0], "expected next token to be IDENT(\"\"), got RPAREN instead");
    let (_, errors) = parse("fn (x, true) { }");
    assert_eq!(errors[0], "expected next token to be IDENT(\"\"), got TRUE instead");
    let (_, errors) = parse("fn (");
    assert_eq!(errors[0], "expected next token to be IDENT(\"\"), got EOF instead");
}

#[test]
fn function_literals_keep_their_parameters() {
    let (program, errors) = parse("fn (a, b, c) { a }; fn () { 1 }; fn (x) { }");
    assert_eq!(errors, Vec::<String>::new());
    let names = |s: &Statement| match s {
        Statement::ExpressionStatement(es) => match &es.expression {
            Expression::FunctionLiteral(fl) => {
                fl.parameters.iter().map(|p| p.value.clone()).collect::<Vec<String>>()
            },
            _ => panic!("not a function literal"),
        },
        _ => panic!("not an expression statement"),
    };
    assert_eq!(names(&program.statements[0]), vec!["a", "b", "c"]);
    assert_eq!(names(&program.statements[1]), Vec::<String>::new());
    assert_eq!(names(&program.statements[2]), vec!["x"]);
}

#[test]
fn calls_take_any_number_of_arguments() {
    let call = |input: &str| match parse(input).0.statements.remove(0) {
        Statement::ExpressionStatement(es) => match es.expression {
            Expression::CallExpression(ce) => ce,
            _ => panic!("not a call"),
        },
        _ => panic!("not an expression statement"),
    };
    assert_eq!(call("f()").arguments.len(), 0);
    assert_eq!(call("f(1)").arguments.len(), 1);
    assert_eq!(call("f(1, 2 * 3, g(4))").arguments.len(), 3);
    assert_eq!(call("f(1, 2 * 3, g(4))").to_string(), "f(1, (2 * 3), g(4, ), )");
    assert_eq!(call("fn(x) { x }(5)").arguments.len(), 1);
}

#[test]
fn a_call_without_closing_parenthesis_has_no_arguments() {
    let (program, errors) = parse("f(1, 2;");
    assert_eq!(
        errors,
        vec![String::from("expected next token to be RPAREN, got SEMICOLON instead")]
    );
    assert_eq!(program.statements[0].to_string(), "f");
    match &program.statements[0] {
        Statement::ExpressionStatement(es) => assert_eq!(es.expression.to_string(), "f()"),
        _ => panic!("not an expression statement"),
    }
}

#[test]
fn import_statements_name_a_namespace() {
    let (program, errors) = parse("import \"std.string\";");
    assert_eq!(errors, Vec::<String>::new());
    assert_eq!(program.statements.len(), 1);
    assert_eq!(program.statements[0].to_string(), "import std.string");
    let (program, errors) = parse("import std;");
    assert_eq!(
        errors[0],
        "expected next token to be STRING(\"\"), got IDENT(\"std\") instead"
    );
    assert!(program.statements.iter().all(|s| !matches!(s, Statement::ImportStatement(_))));
    let (program, errors) = parse("import \"std.string\"");
    assert_eq!(errors, vec![String::from("expected next token to be SEMICOLON, got EOF instead")]);
    assert_eq!(program.statements.len(), 0);
}

#[test]
fn integers_that_do_not_fit_are_left_out() {
    let (program, errors) = parse("99999999999;");
    assert_eq!(errors, Vec::<String>::new());
    assert_eq!(program.statements.len(), 1);
    assert!(matches!(
        &program.statements[0],
        Statement::ExpressionStatement(es) if matches!(es.expression, Expression::Empty)
    ));
}

#[test]
fn semicolons_are_optional() {
    let (program, errors) = parse("1 2; 3");
    assert_eq!(errors, Vec::<String>::new());
    assert_eq!(program.statements.len(), 3);
    let (program, errors) = parse("");
    assert_eq!(errors, Vec::<String>::new());
    assert_eq!(program.statements.len(), 0);
}

#[test]
fn return_statements_may_lack_a_value() {
    let (program, errors) = parse("return;");
    assert_eq!(errors, vec![String::from("no prefix parse function for ; found")]);
    assert_eq!(program.statements.len(), 1);
    assert!(matches!(
        &program.statements[0],
        Statement::ReturnStatement(rs) if matches!(rs.return_val, Expression::Empty)
    ));
}

#[test]
fn handlers_and_priorities_go_by_token() {
    assert_eq!(get_priority(&Token::EQ), Priority::EQUALS);
    assert_eq!(get_priority(&Token::NEQ), Priority::EQUALS);
    assert_eq!(get_priority(&Token::LT), Priority::LESSGREATER);
    assert_eq!(get_priority(&Token::PLUS), Priority::SUM);
    assert_eq!(get_priority(&Token::SLASH), Priority::PRODUCT);
    assert_eq!(get_priority(&Token::POWER), Priority::POWER);
    assert_eq!(get_priority(&Token::LPAREN), Priority::CALL);
    assert_eq!(get_priority(&Token::SEMICOLON), Priority::LOWEST);
    assert_eq!(get_priority(&Token::BANG), Priority::LOWEST);
    assert_eq!(get_prefix_fn(&Token::IDENT(String::new())), Some(PrefixParseFn::Identifier));
    assert_eq!(get_prefix_fn(&Token::MINUS), Some(PrefixParseFn::PrefixExpression));
    assert_eq!(get_prefix_fn(&Token::IF), Some(PrefixParseFn::IfStatement));
    assert_eq!(get_prefix_fn(&Token::PLUS), None);
    assert_eq!(get_infix_fn(&Token::PLUS), Some(InfixParseFn::InfixExpression));
    assert_eq!(get_infix_fn(&Token::LPAREN), Some(InfixParseFn::CallExpression));
    assert_eq!(get_infix_fn(&Token::BANG), None);
}

#[test]
fn the_parser_holds_two_tokens() {
    let mut p = Parser::new(Lexer::new("a + b"));
    assert_eq!(p.curr_token, Token::IDENT(String::from("a")));
    assert_eq!(p.peek_token, Token::PLUS);
    assert_eq!(p.peek_priority(), Priority::SUM);
    assert_eq!(p.curr_priority(), Priority::LOWEST);
    assert!(p.expect_curr(Token::IDENT(String::from("a"))));
    assert!(!p.expect_curr(Token::IDENT(String::from("b"))));
    assert!(p.expect_peek(Token::PLUS));
    assert!(!p.expect_peek(Token::MINUS));
    assert_eq!(p.errors, vec![String::from("expected next token to be MINUS, got PLUS instead")]);
    p.next_token();
    assert_eq!(p.curr_token, Token::PLUS);
    p.next_token();
    p.next_token();
    assert_eq!(p.curr_token, Token::EOF);
    assert_eq!(p.peek_token, Token::EOF);
}

#[test]
fn the_parser_shows_its_tokens_and_diagnostics() {
    let mut p = Parser::new(Lexer::new("let = 1"));
    assert_eq!(p.current(), &Token::LET);
    assert_eq!(p.upcoming(), &Token::ASSIGN);
    assert_eq!(p.diagnostics().len(), 0);
    let _ = p.parse_program();
    assert_eq!(p.current(), &Token::EOF);
    assert_eq!(p.upcoming(), &Token::EOF);
    assert_eq!(p.diagnostics(), &p.errors);
    assert_eq!(p.diagnostics().len(), 2);
    assert_eq!(p.diagnostics()[0], "expected next token to be IDENT(\"\"), got ASSIGN instead");
}

#[test]
fn parsing_goes_on_after_a_nul_byte() {
    let (program, errors) = parse("1 \0 2");
    assert_eq!(errors, Vec::<String>::new());
    assert_eq!(program.statements.len(), 1);
}
