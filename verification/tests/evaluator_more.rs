use interp::ast::{
    BlockStatement, Expression, Identifier, InfixExpression, IntegerLiteral, LetStatement, Node,
    PrefixExpression, Program, Statement,
};
use interp::evaluator::{
    apply_builtin, eval, eval_bang, eval_expression, eval_infix_bool_expression,
    eval_infix_expression, eval_infix_int_expression, eval_infix_string_expression, eval_minus,
    eval_prefix_expression, get_std_func, get_std_string_func, is_truthy, object_eq, object_lt,
    MAX_CALL_DEPTH,
};
use interp::lexer::Lexer;
use interp::object::{Builtin, Environment, Object};
use interp::parser::Parser;
use interp::token::Token;

fn run_in(env: &mut Environment, input: &str) -> Object {
    let mut p = Parser::new(Lexer::new(input));
    let program = p.parse_program().unwrap();
    assert_eq!(p.errors, Vec::<String>::new());
    eval(Node::Program(program), env)
}

fn run(input: &str) -> Object {
    let mut env = Environment::new();
    run_in(&mut env, input)
}

fn shown(input: &str) -> String {
    run(input).inspect()
}

#[test]
fn integer_literals_evaluate_to_themselves() {
    for n in [0, 1, 5, 42, 993322, i32::MAX] {
        let text = n.to_string();
        assert!(matches!(run(text.as_str()), Object::Integer(v) if v == n));
        let literal = Expression::IntegerLiteral(IntegerLiteral {
            token: Token::INT(text),
            value: n,
        });
        let mut env = Environment::new();
        assert!(matches!(eval(Node::Expression(literal), &mut env), Object::Integer(v) if v == n));
    }
    let negative = Expression::IntegerLiteral(IntegerLiteral { token: Token::ILLEGAL, value: -9 });
    let mut env = Environment::new();
    assert!(matches!(eval(Node::Expression(negative), &mut env), Object::Integer(-9)));
}

#[test]
fn operators_bind_by_precedence() {
    assert_eq!(shown("1 + 2 * 3"), "7");
    assert_eq!(shown("(1 + 2) * 3"), "9");
    assert_eq!(shown("2 ** 3 * 2"), "16");
    assert_eq!(shown("2 * 3 ** 2"), "18");
    assert_eq!(shown("2 ** 3 ** 2"), "64");
    assert_eq!(shown("10 - 2 - 3"), "5");
    assert_eq!(shown("-2 * 3"), "-6");
    assert_eq!(shown("!true == false"), "true");
    assert_eq!(shown("1 + 2 == 3"), "true");
    assert_eq!(shown("1 < 2 == true"), "true");
    assert_eq!(shown("-2 ** 2"), "4");
}

#[test]
fn conditions_go_by_truthiness() {
    assert_eq!(shown("if (0) { 1 } else { 2 }"), "2");
    assert_eq!(shown("if (1) { 1 } else { 2 }"), "1");
    assert_eq!(shown("if (false) { 1 }"), "null");
    assert_eq!(shown("if (\"\") { 1 } else { 2 }"), "1");
    assert_eq!(shown("if (1 > 2) { 1 } else { 2 }"), "2");
    assert_eq!(shown("if (fn(x) { x }) { 1 } else { 2 }"), "1");
}

#[test]
fn is_truthy_follows_the_table() {
    assert!(!is_truthy(&Object::Null));
    assert!(is_truthy(&Object::Boolean(true)));
    assert!(!is_truthy(&Object::Boolean(false)));
    assert!(!is_truthy(&Object::Integer(0)));
    assert!(is_truthy(&Object::Integer(-1)));
    assert!(is_truthy(&Object::String(String::new())));
    assert!(is_truthy(&Object::Error(String::new())));
    assert!(!is_truthy(&Object::ReturnValue(Box::new(Object::Integer(0)))));
    assert!(is_truthy(&Object::ReturnValue(Box::new(Object::Integer(2)))));
}

#[test]
fn an_inner_return_leaves_every_block() {
    assert_eq!(shown("if (10 > 1) { if (10 > 1) { return 10; } return 1; }"), "10");
    assert_eq!(shown("return 3; 4"), "3");
    assert_eq!(shown("let f = fn() { if (true) { return 1; } 2 }; f() + 10"), "11");
}

#[test]
fn evaluation_stops_at_the_first_error() {
    let mut env = Environment::new();
    let r = run_in(&mut env, "let a = 1; true + false; let b = 2;");
    assert_eq!(r.inspect(), "Error: unknown operator: BOOLEAN + BOOLEAN");
    assert!(env.get(&String::from("a")).is_some());
    assert!(env.get(&String::from("b")).is_none());
    assert_eq!(shown("5 + true;"), "Error: type mismatch: INTEGER + BOOLEAN");
    assert_eq!(shown("5; true + false; 5"), "Error: unknown operator: BOOLEAN + BOOLEAN");
}

#[test]
fn errors_pass_through_operators_and_calls() {
    assert_eq!(shown("-(1 + true)"), "Error: type mismatch: INTEGER + BOOLEAN");
    assert_eq!(shown("(1 + true) * 2"), "Error: type mismatch: INTEGER + BOOLEAN");
    assert_eq!(shown("2 * (1 + true)"), "Error: type mismatch: INTEGER + BOOLEAN");
    assert_eq!(shown("if (x) { 1 }"), "Error: unknown identifier: x");
    assert_eq!(shown("let y = x;"), "Error: unknown identifier: x");
    assert_eq!(shown("return x;"), "Error: unknown identifier: x");
    assert_eq!(shown("x(1)"), "Error: unknown identifier: x");
    assert_eq!(shown("let f = fn(a, b) { a }; f(1, x)"), "Error: unknown identifier: x");
    assert_eq!(shown("let f = fn(a, b) { a }; f(x, y)"), "Error: unknown identifier: x");
    assert_eq!(shown("let f = fn(a) { a + true }; f(1) + 1"), "Error: type mismatch: INTEGER + BOOLEAN");
}

#[test]
fn closures_keep_their_defining_scope() {
    let mut env = Environment::new();
    run_in(&mut env, "let newAdder = fn(x) { fn(y) { x + y } };");
    run_in(&mut env, "let addTwo = newAdder(2);");
    assert_eq!(run_in(&mut env, "addTwo(3)").inspect(), "5");
    run_in(&mut env, "let addTen = newAdder(10);");
    assert_eq!(run_in(&mut env, "addTen(3)").inspect(), "13");
    assert_eq!(run_in(&mut env, "addTwo(3)").inspect(), "5");
    assert_eq!(run_in(&mut env, "x").inspect(), "Error: unknown identifier: x");
}

#[test]
fn closures_see_later_bindings_of_their_scope() {
    let mut env = Environment::new();
    run_in(&mut env, "let f = fn() { later };");
    assert_eq!(run_in(&mut env, "f()").inspect(), "Error: unknown identifier: later");
    run_in(&mut env, "let later = 7;");
    assert_eq!(run_in(&mut env, "f()").inspect(), "7");
    run_in(&mut env, "let later = 8;");
    assert_eq!(run_in(&mut env, "f()").inspect(), "8");
}

#[test]
fn a_call_binds_in_its_own_frame() {
    let mut env = Environment::new();
    run_in(&mut env, "let x = 1; let f = fn(x) { let y = x; y };");
    assert_eq!(run_in(&mut env, "f(5)").inspect(), "5");
    assert_eq!(run_in(&mut env, "x").inspect(), "1");
    assert_eq!(run_in(&mut env, "y").inspect(), "Error: unknown identifier: y");
    assert_eq!(env.current_frame(), 0);
}

#[test]
fn functions_call_themselves() {
    let source = "let fib = fn(n) { if (n < 2) { return n; } fib(n - 1) + fib(n - 2) }; fib(15)";
    assert_eq!(shown(source), "610");
    let source = "let down = fn(n) { if (n == 0) { 0 } else { down(n - 1) } }; down(200)";
    assert_eq!(shown(source), "0");
}

#[test]
fn calls_nest_up_to_the_limit() {
    assert_eq!(MAX_CALL_DEPTH, 256);
    let source = "let down = fn(n) { if (n == 0) { 0 } else { down(n - 1) } }; down(255)";
    assert_eq!(shown(source), "0");
    let source = "let down = fn(n) { if (n == 0) { 0 } else { down(n - 1) } }; down(256)";
    assert_eq!(shown(source), "Error: call depth exceeded");
    assert_eq!(shown("let f = fn(x) { f(x) }; f(1)"), "Error: call depth exceeded");
}

#[test]
fn eval_expression_counts_the_calls_it_may_nest() {
    let mut p = Parser::new(Lexer::new("fn() { 1 }()"));
    let program = p.parse_program().unwrap();
    let call = match &program.statements[0] {
        Statement::ExpressionStatement(es) => es.expression.clone(),
        _ => panic!("not an expression statement"),
    };
    let mut env = Environment::new();
    assert_eq!(eval_expression(&call, &mut env, 0).inspect(), "Error: call depth exceeded");
    assert_eq!(eval_expression(&call, &mut env, 1).inspect(), "1");
}

#[test]
fn the_number_of_arguments_must_fit() {
    assert_eq!(shown("let f = fn(a, b) { a }; f(1)"), "Error: wrong number of arguments");
    assert_eq!(shown("let f = fn(a) { a }; f(1, 2)"), "Error: wrong number of arguments");
    assert_eq!(shown("let f = fn() { 3 }; f()"), "3");
    assert_eq!(shown("let f = fn() { 3 }; f(1)"), "Error: wrong number of arguments");
}

#[test]
fn only_functions_can_be_called() {
    assert_eq!(shown("let x = 5; x(1)"), "Error: not a function: INTEGER");
    assert_eq!(shown("true()"), "Error: not a function: BOOLEAN");
    assert_eq!(shown("\"s\"(1, 2)"), "Error: not a function: STRING");
}

#[test]
fn let_yields_the_value_and_needs_one() {
    assert_eq!(shown("let x = 5 * 5;"), "25");
    assert_eq!(shown("let x = 5; let y = x + 1; y"), "6");
    let statement = Statement::LetStatement(LetStatement {
        token: Token::LET,
        name: Identifier { token: Token::IDENT(String::from("x")), value: String::from("x") },
        value: None,
    });
    let mut env = Environment::new();
    let r = eval(Node::Statement(statement), &mut env);
    assert_eq!(r.inspect(), "Error: variable does not have initial value: x");
    assert!(env.get(&String::from("x")).is_none());
}

#[test]
fn arithmetic_is_exact_or_an_error() {
    assert_eq!(shown("7 / 2"), "3");
    assert_eq!(shown("-7 / 2"), "-3");
    assert_eq!(shown("7 / -2"), "-3");
    assert_eq!(shown("-7 / -2"), "3");
    assert_eq!(shown("0 / 5"), "0");
    assert_eq!(shown("1 / 0"), "Error: division by zero");
    assert_eq!(shown("2147483647 + 1"), "Error: integer overflow");
    assert_eq!(shown("-2147483647 - 2"), "Error: integer overflow");
    assert_eq!(shown("-2147483647 - 1"), "-2147483648");
    assert_eq!(shown("65536 * 65536"), "Error: integer overflow");
    assert_eq!(shown("(-2147483647 - 1) / -1"), "Error: integer overflow");
    assert_eq!(shown("-(-2147483647 - 1)"), "Error: integer overflow");
    assert_eq!(shown("2 ** 10"), "1024");
    assert_eq!(shown("2 ** 0"), "1");
    assert_eq!(shown("0 ** 0"), "1");
    assert_eq!(shown("0 ** 5"), "0");
    assert_eq!(shown("1 ** 2147483647"), "1");
    assert_eq!(shown("(-1) ** 2147483647"), "-1");
    assert_eq!(shown("(-1) ** 2147483646"), "1");
    assert_eq!(shown("(-2) ** 31"), "-2147483648");
    assert_eq!(shown("2 ** 31"), "Error: integer overflow");
    assert_eq!(shown("3 ** 2147483647"), "Error: integer overflow");
    assert_eq!(shown("2 ** -1"), "Error: unknown operator: INTEGER ** INTEGER");
}

#[test]
fn integer_operators_one_by_one() {
    let apply = |op: &str, l: i32, r: i32| eval_infix_int_expression(op, l, r).inspect();
    assert_eq!(apply("+", 2, 3), "5");
    assert_eq!(apply("-", 2, 3), "-1");
    assert_eq!(apply("*", 2, 3), "6");
    assert_eq!(apply("/", 6, 3), "2");
    assert_eq!(apply("**", 2, 3), "8");
    assert_eq!(apply("<", 2, 3), "true");
    assert_eq!(apply(">", 2, 3), "false");
    assert_eq!(apply("==", 2, 3), "false");
    assert_eq!(apply("!=", 2, 3), "true");
    assert_eq!(apply("%", 2, 3), "Error: unknown operator: INTEGER % INTEGER");
}

#[test]
fn boolean_operators_one_by_one() {
    assert_eq!(eval_infix_bool_expression("==", true, true).inspect(), "true");
    assert_eq!(eval_infix_bool_expression("==", true, false).inspect(), "false");
    assert_eq!(eval_infix_bool_expression("!=", true, false).inspect(), "true");
    assert_eq!(
        eval_infix_bool_expression("+", true, false).inspect(),
        "Error: unknown operator: BOOLEAN + BOOLEAN"
    );
    assert_eq!(
        eval_infix_bool_expression("<", true, false).inspect(),
        "Error: unknown operator: BOOLEAN < BOOLEAN"
    );
}

#[test]
fn strings_concatenate_and_compare() {
    assert_eq!(shown("\"foo\" + \"bar\""), "foobar");
    assert_eq!(shown("\"foo\" - \"bar\""), "Error: unknown operator: STRING - STRING");
    assert_eq!(shown("\"foo\" + 1"), "Error: type mismatch: STRING + INTEGER");
    assert_eq!(shown("1 + \"foo\""), "Error: type mismatch: INTEGER + STRING");
    assert_eq!(shown("\"a\" == \"a\""), "true");
    assert_eq!(shown("\"a\" != \"b\""), "true");
    assert_eq!(shown("\"a\" < \"b\""), "true");
    assert_eq!(shown("\"b\" > \"a\""), "true");
    assert_eq!(shown("\"a\" < \"a\""), "false");
    assert_eq!(eval_infix_string_expression("+", "x", "y").inspect(), "xy");
    assert_eq!(
        eval_infix_string_expression("*", "x", "y").inspect(),
        "Error: unknown operator: STRING * STRING"
    );
}

#[test]
fn values_of_different_kinds_compare_by_kind() {
    assert_eq!(shown("1 == true"), "false");
    assert_eq!(shown("1 != true"), "true");
    assert_eq!(shown("1 < true"), "true");
    assert_eq!(shown("true < 1"), "false");
    assert_eq!(shown("true > 1"), "true");
    assert_eq!(shown("true < \"a\""), "true");
    assert_eq!(shown("false < true"), "true");
    assert_eq!(shown("true < false"), "false");
    assert_eq!(shown("fn(x) { x } == fn(y) { y }"), "true");
    assert_eq!(shown("fn(x) { x } == fn() { 1 }"), "false");
    assert_eq!(shown("fn(x) { x } < fn(y) { y }"), "false");
    assert_eq!(shown("fn(x) { x } > fn(y) { y }"), "false");
    assert_eq!(shown("true + 1"), "Error: type mismatch: BOOLEAN + INTEGER");
}

#[test]
fn operands_of_different_types_are_a_mismatch_on_either_side() {
    assert_eq!(shown("5 + true"), "Error: type mismatch: INTEGER + BOOLEAN");
    assert_eq!(shown("true + 5"), "Error: type mismatch: BOOLEAN + INTEGER");
    assert_eq!(shown("true - \"a\""), "Error: type mismatch: BOOLEAN - STRING");
    assert_eq!(shown("\"a\" * true"), "Error: type mismatch: STRING * BOOLEAN");
    assert_eq!(shown("fn(x) { x } + 1"), "Error: type mismatch: FUNCTION + INTEGER");
    assert_eq!(shown("1 / fn(x) { x }"), "Error: type mismatch: INTEGER / FUNCTION");
    assert_eq!(shown("if (false) { 1 } + 1"), "Error: type mismatch: NULL + INTEGER");
    assert_eq!(
        eval_infix_expression("+", &Object::Boolean(true), &Object::Integer(5)).inspect(),
        "Error: type mismatch: BOOLEAN + INTEGER"
    );
    assert_eq!(
        eval_infix_expression("**", &Object::Null, &Object::Boolean(true)).inspect(),
        "Error: type mismatch: NULL ** BOOLEAN"
    );
}

#[test]
fn an_operator_that_a_type_lacks_is_unknown() {
    assert_eq!(shown("true + false"), "Error: unknown operator: BOOLEAN + BOOLEAN");
    assert_eq!(shown("true * true"), "Error: unknown operator: BOOLEAN * BOOLEAN");
    assert_eq!(shown("\"a\" / \"b\""), "Error: unknown operator: STRING / STRING");
    assert_eq!(
        shown("fn(x) { x } + fn(y) { y }"),
        "Error: unknown operator: FUNCTION + FUNCTION"
    );
    assert_eq!(
        eval_infix_expression("+", &Object::Null, &Object::Null).inspect(),
        "Error: unknown operator: NULL + NULL"
    );
    assert_eq!(shown("true == false"), "false");
    assert_eq!(shown("true != false"), "true");
}

#[test]
fn object_eq_and_object_lt_order_values() {
    let values = vec![
        Object::Integer(1),
        Object::Integer(2),
        Object::Boolean(false),
        Object::Boolean(true),
        Object::String(String::from("a")),
        Object::String(String::from("b")),
        Object::ReturnValue(Box::new(Object::Integer(1))),
        Object::ReturnValue(Box::new(Object::Integer(2))),
        Object::Null,
        Object::Error(String::from("a")),
        Object::Error(String::from("b")),
        Object::Builtin(Builtin::StringLen),
    ];
    for (i, x) in values.iter().enumerate() {
        for (j, y) in values.iter().enumerate() {
            assert_eq!(object_eq(x, y), i == j);
            assert_eq!(object_lt(x, y), i < j);
        }
    }
    assert_eq!(
        eval_infix_expression(">", &Object::Integer(2), &Object::Integer(1)).inspect(),
        "true"
    );
}

#[test]
fn prefix_operators_one_by_one() {
    assert_eq!(eval_bang(&Object::Boolean(true)).inspect(), "false");
    assert_eq!(eval_bang(&Object::Boolean(false)).inspect(), "true");
    assert_eq!(eval_bang(&Object::Null).inspect(), "true");
    assert_eq!(eval_bang(&Object::Integer(0)).inspect(), "false");
    assert_eq!(eval_bang(&Object::Integer(5)).inspect(), "false");
    assert_eq!(eval_bang(&Object::String(String::new())).inspect(), "false");
    assert_eq!(eval_minus(&Object::Integer(5)).inspect(), "-5");
    assert_eq!(eval_minus(&Object::Integer(-5)).inspect(), "5");
    assert_eq!(eval_minus(&Object::Integer(i32::MIN)).inspect(), "Error: integer overflow");
    assert_eq!(eval_minus(&Object::Null).inspect(), "Error: unknown operator: -NULL");
    assert_eq!(eval_prefix_expression("!", &Object::Null).inspect(), "true");
    assert_eq!(eval_prefix_expression("-", &Object::Integer(1)).inspect(), "-1");
    assert_eq!(
        eval_prefix_expression("~", &Object::Integer(1)).inspect(),
        "Error: unknown operator: ~INTEGER"
    );
    assert_eq!(shown("!5"), "false");
    assert_eq!(shown("!!true"), "true");
    assert_eq!(shown("!if (false) { 1 }"), "true");
}

#[test]
fn imports_unlock_builtins() {
    assert_eq!(shown("len(\"abc\")"), "Error: unknown identifier: len");
    assert_eq!(shown("import \"std.string\"; len(\"abc\")"), "3");
    assert_eq!(shown("import \"std.string\"; len(\"\")"), "0");
    assert_eq!(shown("import \"std.string\"; len"), "builtin function");
    assert_eq!(shown("import \"std.string\";"), "null");
    assert_eq!(
        shown("import \"std.string\"; len(5)"),
        "Error: std.string.len must be passed a STRING, got INTEGER"
    );
    assert_eq!(shown("import \"std.string\"; len()"), "Error: wrong number of arguments");
    assert_eq!(
        shown("import \"std.string\"; len(\"a\", \"b\")"),
        "Error: wrong number of arguments"
    );
    assert_eq!(shown("import \"std.other\"; len(\"abc\")"), "Error: unknown identifier: len");
    assert_eq!(shown("import \"std.string\"; let len = 1; len"), "1");
    assert_eq!(shown("import \"std.string\"; fn() { len(\"ab\") }()"), "2");
}

#[test]
fn an_import_is_seen_where_it_was_made_and_below() {
    let mut env = Environment::new();
    run_in(&mut env, "let f = fn() { import \"std.string\"; len(\"abcd\") };");
    assert_eq!(run_in(&mut env, "f()").inspect(), "4");
    assert_eq!(run_in(&mut env, "len(\"abcd\")").inspect(), "Error: unknown identifier: len");
}

#[test]
fn builtins_are_found_by_name_and_namespace() {
    assert_eq!(get_std_string_func("len"), Some(Builtin::StringLen));
    assert_eq!(get_std_string_func("size"), None);
    let mut env = Environment::new();
    assert!(get_std_func("len", &env).is_none());
    env.add_import(String::from("std.string"));
    assert!(matches!(get_std_func("len", &env), Some(Object::Builtin(Builtin::StringLen))));
    assert!(get_std_func("size", &env).is_none());
    let args = vec![Object::String(String::from("h\u{e9}"))];
    assert_eq!(apply_builtin(Builtin::StringLen, &args).inspect(), "3");
}

#[test]
fn every_kind_of_node_can_be_evaluated() {
    let three = || Expression::IntegerLiteral(IntegerLiteral { token: Token::INT(String::from("3")), value: 3 });
    let sum = Expression::InfixExpression(InfixExpression {
        token: Token::PLUS,
        left: Box::new(three()),
        right: Box::new(Expression::PrefixExpression(PrefixExpression {
            token: Token::MINUS,
            operator: String::from("-"),
            right: Box::new(three()),
        })),
        operator: String::from("+"),
    });
    let statement = |e: Expression| Statement::ReturnStatement(interp::ast::ReturnStatement {
        token: Token::RETURN,
        return_val: e,
    });
    let mut env = Environment::new();
    assert_eq!(eval(Node::Expression(sum.clone()), &mut env).inspect(), "0");
    assert!(matches!(eval(Node::Statement(statement(three())), &mut env), Object::ReturnValue(_)));
    let block = BlockStatement { token: Token::LSQUIRLY, statements: vec![statement(three()), statement(sum.clone())] };
    assert!(matches!(eval(Node::BlockStatement(block.clone()), &mut env), Object::ReturnValue(_)));
    let program = Program { statements: block.statements };
    assert!(matches!(eval(Node::Program(program), &mut env), Object::Integer(3)));
    assert!(matches!(eval(Node::Expression(Expression::Empty), &mut env), Object::Null));
    assert!(matches!(eval(Node::Program(Program { statements: vec![] }), &mut env), Object::Null));
}

#[test]
fn function_values_are_shown_with_their_body() {
    assert_eq!(shown("fn(x, y) { x + y }"), "fn(x,y,) {x}");
    assert_eq!(shown("fn() { }"), "fn() {}");
}
