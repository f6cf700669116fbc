use std::rc::Rc;

use monkey::{BlockStatement, Environment, Evaluator, Lexer, Object, Parser};

const TRUE: Object = Object::Boolean(true);
const FALSE: Object = Object::Boolean(false);
const NULL: Object = Object::Null;

fn run(input: &str) -> Option<Object> {
    let mut parser = Parser::new(Lexer::new(input.into()));
    let program = parser.parse_program().expect("Failed to parse program");
    let mut environment = Environment::new();
    program.eval(&mut environment)
}

fn string(s: &str) -> Object {
    Object::String(s.into())
}

fn integer_cases() -> Vec<(&'static str, isize)> {
    vec![
        ("5", 5),
        ("10", 10),
        ("-5", -5),
        ("-10", -10),
        ("5 + 5 + 5 + 5 - 10", 10),
        ("2 * 2 * 2 * 2 * 2", 32),
        ("-50 + 100 + -50", 0),
        ("5 * 2 + 10", 20),
        ("5 + 2 * 10", 25),
        ("20 + 2 * -10", 0),
        ("50 / 2 * 2 + 10", 60),
        ("2 * (5 + 10)", 30),
        ("3 * 3 * 3 + 10", 37),
        ("3 * (3 * 3) + 10", 37),
        ("(5 + 10 * 2 + 15 / 3) * 2 + -10", 50),
    ]
}

#[test]
fn evaluator_test_eval_integer_expression() {
    for (input, expected) in integer_cases() {
        let mut parser = Parser::new(Lexer::new(input.into()));
        let program = parser.parse_program().expect("Failed to parse program");
        let mut environment = Environment::new();
        assert_eq!(monkey::eval_program(&program, &mut environment), Some(Object::Integer(expected)));
    }
}

#[test]
fn mod_test_eval_integer_expression() {
    for (input, expected) in integer_cases() {
        assert_eq!(run(input), Some(expected.into()), "{}", input);
    }
}

fn boolean_cases() -> Vec<(&'static str, Object)> {
    vec![
        ("true", TRUE),
        ("false", FALSE),
        ("1 < 2", TRUE),
        ("1 > 2", FALSE),
        ("1 < 1", FALSE),
        ("1 > 1", FALSE),
        ("1 == 1", TRUE),
        ("1 != 1", FALSE),
        ("1 == 2", FALSE),
        ("1 != 2", TRUE),
        ("true == true", TRUE),
        ("false == false", TRUE),
        ("true == false", FALSE),
        ("false == true", FALSE),
        ("true != false", TRUE),
        ("false != true", TRUE),
        ("(1 < 2) == true", TRUE),
        ("(1 < 2) == false", FALSE),
        ("(1 > 2) == true", FALSE),
        ("(1 > 2) == false", TRUE),
    ]
}

#[test]
fn evaluator_test_eval_boolean_expression() {
    // Negating a boolean is an error value, not null.
    let mut cases = boolean_cases();
    cases.push(("-true", Object::Error("unknown operator: -BOOLEAN".into())));
    cases.push(("-false", Object::Error("unknown operator: -BOOLEAN".into())));
    for (input, expected) in cases {
        let mut parser = Parser::new(Lexer::new(input.into()));
        let program = parser.parse_program().expect("Failed to parse program");
        let mut environment = Environment::new();
        assert_eq!(monkey::eval_program(&program, &mut environment), Some(expected), "{}", input);
    }
}

#[test]
fn mod_test_eval_boolean_expression() {
    for (input, expected) in boolean_cases() {
        assert_eq!(run(input), Some(expected), "{}", input);
    }
}

fn bang_cases() -> Vec<(&'static str, bool)> {
    vec![
        ("!true", false),
        ("!false", true),
        ("!5", false),
        ("!!true", true),
        ("!!false", false),
        ("!!5", true),
    ]
}

#[test]
fn evaluator_test_bang_operator() {
    for (input, expected) in bang_cases() {
        assert_eq!(run(input), Some(Object::Boolean(expected)), "{}", input);
    }
}

#[test]
fn mod_test_bang_operator() {
    for (input, expected) in bang_cases() {
        assert_eq!(run(input), Some(expected.into()), "{}", input);
    }
}

fn if_cases() -> Vec<(&'static str, Object)> {
    vec![
        ("if (true) { 10 }", 10.into()),
        ("if (false) { 10 }", NULL),
        ("if (1) { 10 }", 10.into()),
        ("if (1 < 2) { 10 }", 10.into()),
        ("if (1 > 2) { 10 }", NULL),
        ("if (1 > 2) { 10 } else { 20 }", 20.into()),
        ("if (1 < 2) { 10 } else { 20 }", 10.into()),
    ]
}

#[test]
fn evaluator_test_if_else_expression() {
    for (index, (input, expected)) in if_cases().into_iter().enumerate() {
        assert_eq!(run(input), Some(expected), "test {}", index);
    }
}

#[test]
fn mod_test_if_else_expression() {
    for (index, (input, expected)) in if_cases().into_iter().enumerate() {
        assert_eq!(run(input), Some(expected.clone()), "test {}", index);
    }
}

fn return_cases() -> Vec<&'static str> {
    vec![
        "return 10;",
        "return 10; 9;",
        "return 2 * 5; 9;",
        "9; return 2 * 5; 9;",
        r#"if (10 > 1) {
                if (10 > 1) {
                    return 10;
                }
                return 1;
            }"#,
    ]
}

#[test]
fn evaluator_test_return_statements() {
    for (index, input) in return_cases().into_iter().enumerate() {
        assert_eq!(run(input), Some(Object::Integer(10)), "test {}", index);
    }
}

#[test]
fn mod_test_return_statements() {
    for (index, input) in return_cases().into_iter().enumerate() {
        assert_eq!(run(input), Some(10.into()), "test {}", index);
    }
}

#[test]
fn test_error_handling() {
    let tests = vec![
        ("5 + true;", "type mismatch: INTEGER + BOOLEAN"),
        ("5 + true; 5;", "type mismatch: INTEGER + BOOLEAN"),
        ("-true", "unknown operator: -BOOLEAN"),
        ("true + false", "unknown operator: BOOLEAN + BOOLEAN"),
        ("let a = 234; true + false; 5", "unknown operator: BOOLEAN + BOOLEAN"),
        ("if (10 > 1) { return true + false; }", "unknown operator: BOOLEAN + BOOLEAN"),
        (
            r#"if (10 > 1) {
                if (10 > 1) {
                    return true + false;
                }
                return 1;
            }"#,
            "unknown operator: BOOLEAN + BOOLEAN",
        ),
        ("foobar", "identifier not found: foobar"),
        ("\"Hello\" - \"World\"", "unknown operator: STRING - STRING"),
        ("[1,2,3][true]", "index operator not supported: ARRAY With index of: BOOLEAN"),
    ];
    for (index, (input, expected)) in tests.into_iter().enumerate() {
        assert_eq!(run(input), Some(Object::Error(expected.into())), "test {}", index);
    }
}

#[test]
fn mod_test_let_statements() {
    let tests: Vec<(&str, Object)> = vec![
        ("let a = 5; a;", 5.into()),
        ("let a = 5 * 5; a;", 25.into()),
        ("let a = 5; let b = a; b;", 5.into()),
        ("let a = 5; let b = a; let c = a + b + 5; c;", 15.into()),
    ];
    for (index, (input, expected)) in tests.into_iter().enumerate() {
        assert_eq!(run(input), Some(expected), "test {}", index);
    }
}

#[test]
fn test_function_object() {
    let results = run("fn(x) { x + 2; }").unwrap();
    assert!(matches!(results, Object::Function { .. }));
}

#[test]
fn test_function_application() {
    let tests = vec![
        ("let identity = fn(x) { x; }; identity(5);", 5),
        ("let identity = fn(x) { return x; }; identity(5);", 5),
        ("let double = fn(x) { x * 2; }; double(5);", 10),
        ("let add = fn(x, y) { x + y; }; add(5, 5);", 10),
        ("let add = fn(x, y) { return x + y; }; add(5 + 5, add(5, 5));", 20),
        ("fn(x) { x; }(5)", 5),
    ];
    for (index, (input, expected)) in tests.into_iter().enumerate() {
        assert_eq!(run(input), Some(expected.into()), "test {}", index);
    }
}

#[test]
fn test_closures() {
    let input = r#"
    let newAdder = fn(x) {
        fn(y) { x + y };
    };
    let addTwo = newAdder(2);
    addTwo(2);"#;
    assert_eq!(run(input), Some(4.into()));
}

#[test]
fn test_recursion() {
    let input = r#"
let fib = fn(n) {
    if (n == 0) {
        return 0;
    }
    
    if (n == 1) {
        return 1;
    }

    return fib(n - 1) + fib(n - 2);
};

fib(10);
        "#;
    assert_eq!(run(input), Some(55.into()));
}

#[test]
fn test_function_doesnt_capture_global_future_environment() {
    let input = r#"
let test = fn(x) {
    return data + x;
};

let data = 5;

test(5);
"#;
    assert_eq!(run(input), Some(Object::Error("identifier not found: data".into())));
}

#[test]
fn test_string_concatenation() {
    assert_eq!(run(r#""Hello" + " " + "World!""#), Some(string("Hello World!")));
}

#[test]
fn test_builtin_functions() {
    let tests: Vec<(&str, Object)> = vec![
        (r#"len("")"#, 0.into()),
        (r#"len("four")"#, 4.into()),
        (r#"len("hello world")"#, 11.into()),
        ("len(1)", Object::Error(r#"argument to "len" not supported, got INTEGER"#.into())),
        (r#"len("one", "two")"#, Object::Error("wrong number of arguments. Got 2, expected 1".into())),
        ("first([1, 2, 3])", 1.into()),
        ("first([])", NULL),
        ("last([1, 2, 3])", 3.into()),
        ("last([])", NULL),
        ("rest([1, 2, 3])", vec![2.into(), 3.into()].into()),
        ("rest([1])", Vec::<Object>::new().into()),
        ("rest([])", NULL),
        ("push([1, 2, 3], true)", vec![1.into(), 2.into(), 3.into(), true.into()].into()),
    ];
    for (index, (input, expected)) in tests.into_iter().enumerate() {
        assert_eq!(run(input), Some(expected), "test {}", index);
    }
}

#[test]
fn test_array_literals() {
    assert_eq!(run("[1, 2 * 2, 3 + 3]"), Some(vec![1.into(), 4.into(), 6.into()].into()));
}

#[test]
fn test_array_index_expressions() {
    let tests: Vec<(&str, Object)> = vec![
        ("[1, 2, 3][0]", 1.into()),
        ("[1, 2, 3][1]", 2.into()),
        ("[1, 2, 3][2]", 3.into()),
        ("let i = 0; [1][i];", 1.into()),
        ("[1, 2, 3][1 + 1];", 3.into()),
        ("let myArray = [1, 2, 3]; myArray[2];", 3.into()),
        ("let myArray = [1, 2, 3]; myArray[0] + myArray[1] + myArray[2];", 6.into()),
        ("let myArray = [1, 2, 3]; let i = myArray[0]; myArray[i]", 2.into()),
        ("[1, 2, 3][3]", NULL),
        ("[1, 2, 3][-1]", NULL),
    ];
    for (index, (input, expected)) in tests.into_iter().enumerate() {
        assert_eq!(run(input), Some(expected), "test {}", index);
    }
}

#[test]
fn test_custom_function_map() {
    let input = r#"
let map = fn(arr, f) {
    let iter = fn(arr, accumulated) {
        if (len(arr) == 0) {
            accumulated
        } else {
            iter(rest(arr), push(accumulated, f(first(arr))));
        }
    };
    iter(arr, []);
};

let data = [1, 2, 3];
let squared = fn(x) { x * x };

map(data, squared);
"#;
    assert_eq!(run(input), Some(vec![1.into(), 4.into(), 9.into()].into()));
}

#[test]
fn test_custom_function_reduce() {
    let input = r#"
let reduce = fn(arr, initial, f) {
    let iter = fn(arr, accumulated) {
        if (len(arr) == 0) {
            accumulated
        } else {
            iter(rest(arr), f(accumulated, first(arr)));
        }
    };
    iter(arr, initial);
};

let sum = fn(arr) {
    reduce(arr, 0, fn(initial, element) { initial + element });
};

sum([1, 2, 3, 4, 5]);
"#;
    assert_eq!(run(input), Some(15.into()));
}

#[test]
fn test_hash_literals() {
    let input = r#"let two = "two";
{
    "one": 10 - 9,
    two: 1 + 1,
    "thr" + "ee": 6 / 2,
    4: 4,
    true: 5,
    false: 6
}"#;
    let expected = Object::from_pairs(vec![
        (string("one"), 1.into()),
        (string("two"), 2.into()),
        (string("three"), 3.into()),
        (4.into(), 4.into()),
        (TRUE, 5.into()),
        (FALSE, 6.into()),
    ]);
    assert_eq!(run(input), Some(expected));
}

#[test]
fn test_hash_index_expressions() {
    let tests: Vec<(&str, Object)> = vec![
        (r#"{"foo": 5}["foo"]"#, 5.into()),
        (r#"{"foo": 5}["bar"]"#, NULL),
        (r#"let key = "foo"; {"foo": 5}[key]"#, 5.into()),
        (r#"{}["foo"]"#, NULL),
        (r#"{5: 5}[5]"#, 5.into()),
        (r#"{true: 5}[true]"#, 5.into()),
        (r#"{false: 5}[false]"#, 5.into()),
    ];
    for (input, expected) in tests {
        assert_eq!(run(input), Some(expected), "test {}", input);
    }
}

#[test]
fn function_object_keeps_body() {
    let result = run("fn(x) { x + 2; }").unwrap();
    match result {
        Object::Function { parameters, body, .. } => {
            assert_eq!(parameters, vec!["x".to_string()]);
            assert_eq!(body.statements.len(), 1);
            assert_eq!(result_text(&body), "(x + 2)");
        }
        other => panic!("not a function: {:?}", other),
    }
}

fn result_text(body: &Rc<BlockStatement>) -> String {
    let mut out = String::new();
    body.push_text(&mut out);
    out
}
