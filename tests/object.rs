use std::rc::Rc;

use monkey::{BlockStatement, Builtin, Environment, Expression, Object, Statement, Token};

const TRUE: Object = Object::Boolean(true);
const FALSE: Object = Object::Boolean(false);
const NULL: Object = Object::Null;

#[test]
fn test_object_is_truthy() {
    assert!(TRUE.is_truthy());
    assert!(!FALSE.is_truthy());
    assert!(!NULL.is_truthy());
}

#[test]
fn test_object_default() {
    assert_eq!(Object::default(), NULL);
}

#[test]
fn test_object_kind() {
    let tests: Vec<(Object, &str)> = vec![
        (5.into(), "INTEGER"),
        (TRUE, "BOOLEAN"),
        (FALSE, "BOOLEAN"),
        (NULL, "NULL"),
        (Object::String("foobar".into()), "STRING"),
        (Object::Return(Box::new(5.into())), "RETURN"),
        (Object::Error("foobar".into()), "ERROR"),
        (
            Object::Function {
                parameters: vec![],
                environment: Environment::new(),
                body: Rc::new(BlockStatement::default()),
            },
            "FUNCTION",
        ),
        (Object::Builtin(Builtin::Len), "BUILTIN"),
        (vec![TRUE, FALSE, NULL].into(), "ARRAY"),
        (Object::from_pairs(vec![(TRUE, Object::String("true".into()))]), "HASH"),
    ];
    for (input, expected) in tests.into_iter() {
        assert_eq!(input.clone().kind(), expected);
    }
}

#[test]
fn test_object_inspect() {
    let tests: Vec<(Object, &str)> = vec![
        (5.into(), "5"),
        (TRUE, "true"),
        (FALSE, "false"),
        (Object::String("foobar".into()), "foobar"),
        (Object::Return(Box::new(Object::Integer(5))), "5"),
        (Object::Error("foobar".into()), "Error: foobar"),
        (
            Object::Function {
                parameters: vec!["x".into(), "y".into()],
                environment: Environment::new(),
                body: Rc::new(BlockStatement {
                    statements: vec![Statement::Expression {
                        value: Expression::InfixOperator {
                            operator: Token::PlusSign,
                            lh_expression: Box::new(Expression::Identifier("x".into())),
                            rh_expression: Box::new(Expression::Identifier("y".into())),
                        },
                    }],
                }),
            },
            "fn(x, y) { (x + y) }",
        ),
        (Object::Builtin(Builtin::Len), "builtin function"),
        (Object::Array(vec![TRUE, FALSE, NULL]), "[true, false, null]"),
        (
            Object::from_pairs(vec![
                (TRUE, Object::String("true".into())),
                (FALSE, Object::String("false".into())),
                (NULL, Object::String("null".into())),
            ]),
            r#"{false: false, true: true, null: null}"#,
        ),
        (NULL, "null"),
    ];
    for (input, expected) in tests.into_iter() {
        assert_eq!(input.clone().inspect(), expected);
    }
}
