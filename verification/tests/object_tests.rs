use interp::ast::{BlockStatement, ExpressionStatement, Identifier, Expression, Statement};
use interp::object::{get_type, new_enclosed_env, Builtin, Environment, Function, Object};
use interp::token::Token;

fn closure(env: usize) -> Object {
    Object::Function(Function {
        parameters: vec![
            Identifier { token: Token::IDENT(String::from("x")), value: String::from("x") },
            Identifier { token: Token::IDENT(String::from("y")), value: String::from("y") },
        ],
        body: BlockStatement {
            token: Token::LSQUIRLY,
            statements: vec![Statement::ExpressionStatement(ExpressionStatement {
                token: Token::IDENT(String::from("x")),
                expression: Expression::Identifier(Identifier {
                    token: Token::IDENT(String::from("x")),
                    value: String::from("x"),
                }),
            })],
        },
        env,
    })
}

#[test]
fn inspect_shows_each_kind_of_value() {
    assert_eq!(Object::Integer(42).inspect(), "42");
    assert_eq!(Object::Integer(-7).inspect(), "-7");
    assert_eq!(Object::Integer(i32::MIN).inspect(), "-2147483648");
    assert_eq!(Object::Boolean(true).inspect(), "true");
    assert_eq!(Object::Boolean(false).inspect(), "false");
    assert_eq!(Object::String(String::from("a \"b\"")).inspect(), "a \"b\"");
    assert_eq!(Object::Null.inspect(), "null");
    assert_eq!(Object::Error(String::from("boom")).inspect(), "Error: boom");
    assert_eq!(Object::ReturnValue(Box::new(Object::Integer(3))).inspect(), "3");
    assert_eq!(closure(0).inspect(), "fn(x,y,) {x}");
    assert_eq!(Object::Builtin(Builtin::StringLen).inspect(), "builtin function");
}

#[test]
fn get_type_names_each_kind_of_value() {
    assert_eq!(get_type(&Object::Integer(1)), "INTEGER");
    assert_eq!(get_type(&Object::Boolean(true)), "BOOLEAN");
    assert_eq!(get_type(&Object::String(String::new())), "STRING");
    assert_eq!(get_type(&Object::ReturnValue(Box::new(Object::Null))), "RETURN_VALUE");
    assert_eq!(get_type(&Object::Error(String::new())), "ERROR");
    assert_eq!(get_type(&Object::Null), "NULL");
    assert_eq!(get_type(&closure(0)), "FUNCTION");
    assert_eq!(get_type(&Object::Builtin(Builtin::StringLen)), "BUILTIN");
}

#[test]
fn a_new_environment_binds_nothing() {
    let env = Environment::new();
    assert!(env.get(&String::from("x")).is_none());
    assert_eq!(env.frame_count(), 1);
    assert_eq!(env.current_frame(), 0);
    assert!(!env.has_import("std.string"));
}

#[test]
fn an_environment_admits_closures_over_its_frames() {
    let mut env = Environment::new();
    assert!(env.admits(&Object::Integer(1)));
    assert!(env.admits(&closure(0)));
    assert!(!env.admits(&closure(1)));
    assert!(!env.admits(&Object::ReturnValue(Box::new(closure(1)))));
    let _ = env.enter(0);
    assert!(env.admits(&closure(1)));
}

#[test]
fn set_binds_and_rebinds() {
    let mut env = Environment::new();
    env.set(String::from("x"), Object::Integer(1));
    env.set(String::from("y"), Object::Integer(2));
    assert!(matches!(env.get(&String::from("x")), Some(Object::Integer(1))));
    assert!(matches!(env.get(&String::from("y")), Some(Object::Integer(2))));
    env.set(String::from("x"), Object::Boolean(true));
    assert!(matches!(env.get(&String::from("x")), Some(Object::Boolean(true))));
    assert!(matches!(env.get(&String::from("y")), Some(Object::Integer(2))));
    assert!(env.get(&String::from("z")).is_none());
}

#[test]
fn an_enclosed_environment_sees_and_shadows_its_parent() {
    let mut outer = Environment::new();
    outer.set(String::from("x"), Object::Integer(1));
    outer.set(String::from("y"), Object::Integer(2));
    let mut inner = new_enclosed_env(outer);
    assert_eq!(inner.frame_count(), 2);
    assert_eq!(inner.current_frame(), 1);
    assert!(matches!(inner.get(&String::from("x")), Some(Object::Integer(1))));
    inner.set(String::from("x"), Object::Integer(10));
    assert!(matches!(inner.get(&String::from("x")), Some(Object::Integer(10))));
    assert!(matches!(inner.get(&String::from("y")), Some(Object::Integer(2))));
    inner.leave(0);
    assert!(matches!(inner.get(&String::from("x")), Some(Object::Integer(1))));
}

#[test]
fn enter_and_leave_switch_frames() {
    let mut env = Environment::new();
    env.set(String::from("a"), Object::Integer(1));
    let saved = env.enter(0);
    assert_eq!(saved, 0);
    assert_eq!(env.current_frame(), 1);
    env.set(String::from("b"), Object::Integer(2));
    let saved_again = env.enter(0);
    assert_eq!(saved_again, 1);
    assert!(env.get(&String::from("b")).is_none());
    assert!(env.get(&String::from("a")).is_some());
    env.leave(saved_again);
    assert!(env.get(&String::from("b")).is_some());
    env.leave(saved);
    assert!(env.get(&String::from("b")).is_none());
    assert_eq!(env.frame_count(), 3);
}

#[test]
fn imports_are_seen_in_the_frame_and_its_children() {
    let mut env = Environment::new();
    let root = env.enter(0);
    env.add_import(String::from("std.string"));
    assert!(env.has_import("std.string"));
    assert!(!env.has_import("std.other"));
    let child = env.enter(1);
    assert!(env.has_import("std.string"));
    env.leave(child);
    env.leave(root);
    assert!(!env.has_import("std.string"));
}

#[test]
fn clones_are_shown_alike() {
    let values = vec![
        Object::Integer(5),
        Object::String(String::from("s")),
        Object::ReturnValue(Box::new(Object::Error(String::from("e")))),
        closure(3),
    ];
    for v in values.iter() {
        assert_eq!(v.clone().inspect(), v.inspect());
        assert_eq!(get_type(&v.clone()), get_type(v));
    }
    if let Object::Function(f) = closure(3).clone() {
        assert_eq!(f.env, 3);
    } else {
        panic!("the clone of a closure is a closure");
    }
}

#[test]
fn values_compare_with_operators() {
    assert!(Object::Integer(1) == Object::Integer(1));
    assert!(Object::Integer(1) != Object::Integer(2));
    assert!(Object::Integer(1) < Object::Integer(2));
    assert!(Object::Integer(2) > Object::Integer(1));
    assert!(Object::Integer(2) >= Object::Integer(2));
    assert!(Object::Boolean(false) < Object::Boolean(true));
    assert!(Object::String(String::from("a")) < Object::String(String::from("b")));
    assert!(Object::String(String::from("a")) == Object::String(String::from("a")));
    assert!(Object::Integer(5) < Object::Boolean(false));
    assert!(Object::Boolean(true) < Object::String(String::new()));
    assert!(Object::Null > Object::ReturnValue(Box::new(Object::Null)));
    assert!(Object::Null == Object::Null);
    assert!(Object::Null != Object::Integer(0));
    assert!(Object::Error(String::from("a")) < Object::Error(String::from("b")));
    assert_eq!(Object::Integer(7), Object::Integer(7));
}

#[test]
fn closures_are_equal_by_shape_and_never_ordered() {
    let f = closure(0);
    let g = closure(5);
    assert!(f == g);
    assert!(!(f < g));
    assert!(!(f > g));
    assert!(!(f <= g));
    assert!(f.partial_cmp(&g).is_none());
    let wrapped = |o: Object| Object::ReturnValue(Box::new(o));
    assert!(wrapped(closure(0)).partial_cmp(&wrapped(closure(1))).is_none());
    assert!(wrapped(Object::Integer(1)) < wrapped(Object::Integer(2)));
    assert!(f < Object::Builtin(Builtin::StringLen));
    if let (Object::Function(a), Object::Function(b)) = (closure(0), closure(1)) {
        assert!(a == b);
        assert!(a.partial_cmp(&b).is_none());
    }
}
