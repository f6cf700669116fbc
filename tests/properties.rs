use monkey::{
    run_program, Builtin, Environment, Evaluator, Lexer, Object, Output, Parser, DEFAULT_CALL_DEPTH,
};

fn parse_text(input: &str) -> (String, usize) {
    let mut parser = Parser::new(Lexer::new(input.into()));
    let program = parser.parse_program().expect("Failed to parse program");
    (program.to_string(), parser.errors.len())
}

fn run(input: &str) -> Option<Object> {
    let mut parser = Parser::new(Lexer::new(input.into()));
    let program = parser.parse_program().expect("Failed to parse program");
    assert_eq!(parser.errors.len(), 0, "{:?}", parser.errors);
    let mut environment = Environment::new();
    program.eval(&mut environment)
}

fn error(message: &str) -> Option<Object> {
    Some(Object::Error(message.into()))
}

#[test]
fn precedence_renders_fully_parenthesised() {
    assert_eq!(parse_text("a + b * c"), ("(a + (b * c))".to_string(), 0));
    assert_eq!(parse_text("-a * b"), ("((-a) * b)".to_string(), 0));
    assert_eq!(
        parse_text("3 + 4 * 5 == 3 * 1 + 4 * 5"),
        ("((3 + (4 * 5)) == ((3 * 1) + (4 * 5)))".to_string(), 0)
    );
}

#[test]
fn rendering_of_other_forms() {
    assert_eq!(parse_text("if (a) { b } else { c }").0, "if (a) {b}else {c}");
    assert_eq!(parse_text("fn(x, y) { x; }").0, "fn(x, y) {x}");
    assert_eq!(parse_text("[1, \"s\"][0]").0, "([1, \"s\"][0])");
    assert_eq!(parse_text("{1: true, \"k\": x}").0, "{1: true, \"k\": x}");
    assert_eq!(parse_text("let x = -5; return x;").0, "let x = (-5);return x;");
}

#[test]
fn arithmetic_matches_machine_integers() {
    let pairs: [(isize, isize); 5] = [(7, 3), (-7, 3), (7, -3), (0, 5), (123, 123)];
    for (a, b) in pairs {
        let cases = [
            ("+", Object::Integer(a + b)),
            ("-", Object::Integer(a - b)),
            ("*", Object::Integer(a * b)),
            ("/", Object::Integer(a / b)),
            ("<", Object::Boolean(a < b)),
            (">", Object::Boolean(a > b)),
            ("==", Object::Boolean(a == b)),
            ("!=", Object::Boolean(a != b)),
        ];
        for (op, expected) in cases {
            let input = format!("({}) {} ({})", a, op, b);
            assert_eq!(run(&input), Some(expected), "{}", input);
        }
    }
    assert_eq!(run("50 / 2 * 2 + 10"), Some(Object::Integer(60)));
}

#[test]
fn arithmetic_errors_are_values() {
    assert_eq!(run("1 / 0"), error("division by zero"));
    assert_eq!(run("9223372036854775807 + 1"), error("integer overflow"));
    assert_eq!(run("-9223372036854775807 - 2"), error("integer overflow"));
}

#[test]
fn zero_is_truthy() {
    assert_eq!(run("if (0) { 10 }"), Some(Object::Integer(10)));
    assert_eq!(run("if (false) { 10 }"), Some(Object::Null));
    assert_eq!(run("if (\"\") { 1 } else { 2 }"), Some(Object::Integer(1)));
    assert_eq!(run("let n = if (false) { 1 }; if (n) { 1 } else { 2 }"), Some(Object::Integer(2)));
}

#[test]
fn closures_keep_their_scope() {
    let adder = "let newAdder = fn(x) { fn(y) { x + y } };";
    assert_eq!(run(&format!("{adder} let addTwo = newAdder(2); addTwo(2);")), Some(Object::Integer(4)));
    assert_eq!(
        run(&format!("{adder} let addTwo = newAdder(2); let x = 100; let y = 7; addTwo(2);")),
        Some(Object::Integer(4))
    );
}

#[test]
fn errors_short_circuit() {
    assert_eq!(run("5 + true;"), error("type mismatch: INTEGER + BOOLEAN"));
    assert_eq!(run("foobar"), error("identifier not found: foobar"));
    assert_eq!(run("foobar + missing"), error("identifier not found: foobar"));
    assert_eq!(run("[1, foobar, missing]"), error("identifier not found: foobar"));
    assert_eq!(run("let f = fn(x) { x }; f(nothere)"), error("identifier not found: nothere"));
    assert_eq!(run("nofunc(1)"), error("function not found: nofunc"));
}

#[test]
fn missing_elements_are_null() {
    assert_eq!(run("[1,2,3][3]"), Some(Object::Null));
    assert_eq!(run("[1,2,3][-1]"), Some(Object::Null));
    assert_eq!(run("{\"foo\": 5}[\"bar\"]"), Some(Object::Null));
    assert_eq!(run("rest([1])"), Some(Object::Array(vec![])));
    assert_eq!(run("rest([])"), Some(Object::Null));
    assert_eq!(run("{[1, \"a\"]: 2}[[1, \"a\"]]"), Some(Object::Integer(2)));
    assert_eq!(run("{[2]: 1, [1, 5]: 2, [1]: 3, 0: 4}").unwrap().inspect(), "{0: 4, [1]: 3, [1, 5]: 2, [2]: 1}");
    assert_eq!(run("{[[1]]: 2}"), error("unusable as hash key: ARRAY"));
    assert_eq!(run("{fn(x) { x }: 1}"), error("unusable as hash key: FUNCTION"));
    assert_eq!(run("{1: 2}[fn(x) { x }]"), Some(Object::Null));
    assert_eq!(run("5[0]"), error("index operator not supported: INTEGER With index of: INTEGER"));
}

#[test]
fn duplicate_hash_keys_keep_the_last_value() {
    assert_eq!(run("{1: 2, 1: 3}[1]"), Some(Object::Integer(3)));
    assert_eq!(run("{1: 2, 1: 3}").unwrap().inspect(), "{1: 3}");
    assert_eq!(run("{\"b\": 1, \"a\": 2, 3: 0}").unwrap().inspect(), "{3: 0, a: 2, b: 1}");
}

#[test]
fn fibonacci_recursion() {
    let input = "let fib = fn(n) { if (n < 2) { return n; } return fib(n - 1) + fib(n - 2); }; fib(10);";
    assert_eq!(run(input), Some(Object::Integer(55)));
}

#[test]
fn deep_recursion_is_an_error_value() {
    let mut parser = Parser::new(Lexer::new("let f = fn(n) { f(n + 1) }; f(0);".into()));
    let program = parser.parse_program().unwrap();
    let mut environment = Environment::new();
    let mut output = Output::new();
    let result = run_program(&program, &mut environment, 50, &mut output);
    assert_eq!(result, error("maximum call depth exceeded"));
}

#[test]
fn builtin_errors() {
    assert_eq!(run("first(1)"), error("argument to \"first\" not supported, got INTEGER"));
    assert_eq!(run("last(1, 2)"), error("wrong number of arguments. Got 2, expected 1"));
    assert_eq!(run("push(1, 2)"), error("argument to \"push\" not supported, got INTEGER"));
    assert_eq!(run("push([1])"), error("wrong number of arguments. Got 1, expected 2"));
    assert_eq!(run("exit(1, 2)"), error("wrong number of arguments. Got 2, expected 0 or 1"));
    assert_eq!(run("exit(true)"), error("argument to \"exit\" not supported, got BOOLEAN"));
    assert_eq!(run("len(\"héllo\")"), Some(Object::Integer(6)));
}

#[test]
fn builtin_registry() {
    assert_eq!(Builtin::from_str("len"), Some(Builtin::Len));
    assert_eq!(Builtin::from_str("print"), Some(Builtin::Print));
    assert_eq!(Builtin::from_str("nope"), None);
    assert_eq!(Builtin::Push.get(), Object::Builtin(Builtin::Push));
}

#[test]
fn printing_and_exit_go_to_the_output() {
    let input = "puts(1, \"a\"); print([true]); let f = fn() { exit(3); puts(9) }; f(); puts(8); 7";
    let mut parser = Parser::new(Lexer::new(input.into()));
    let program = parser.parse_program().unwrap();
    let mut environment = Environment::new();
    let mut output = Output::new();
    let result = run_program(&program, &mut environment, DEFAULT_CALL_DEPTH, &mut output);
    assert_eq!(output.lines, vec!["1".to_string(), "a".to_string(), "[true]".to_string()]);
    assert_eq!(output.exit_code, Some(3));
    assert_eq!(result, error("exit with code 3"));
}

#[test]
fn let_binds_in_the_top_level_environment() {
    let mut environment = Environment::new();
    for (input, expected) in [("let a = 2;", None), ("a * 21", Some(Object::Integer(42)))] {
        let mut parser = Parser::new(Lexer::new(input.into()));
        let program = parser.parse_program().unwrap();
        assert_eq!(program.eval(&mut environment), expected);
    }
    assert_eq!(environment.get("a"), Some(&Object::Integer(2)));
    let mut child = environment.new_child();
    child.set("a".into(), Object::Integer(5));
    assert_eq!(child.get("a"), Some(&Object::Integer(5)));
    assert_eq!(environment.get("a"), Some(&Object::Integer(2)));
}

#[test]
fn parse_errors_are_collected() {
    let mut parser = Parser::new(Lexer::new("let = 5; let x 5; 7;".into()));
    let program = parser.parse_program().unwrap();
    assert!(parser.errors.len() >= 2, "{:?}", parser.errors);
    assert_eq!(program.to_string(), "557");
    let mut parser = Parser::new(Lexer::new("if x { 1 }".into()));
    parser.parse_program().unwrap();
    assert_eq!(parser.errors[0], "expected next token to be LeftParen, got x");
}

#[test]
fn user_bindings_shadow_builtins() {
    assert_eq!(run("let len = fn(x) { 42 }; len(\"abc\")"), Some(Object::Integer(42)));
    assert_eq!(run("let len = 5; len(\"abc\")"), error("function not found: len"));
    assert_eq!(run("len(\"abc\")"), Some(Object::Integer(3)));
}

#[test]
fn inline_function_literal_sees_its_scope() {
    assert_eq!(run("let y = 3; fn(x) { x + y }(4)"), Some(Object::Integer(7)));
}

#[test]
fn unary_plus_is_not_an_expression() {
    let mut parser = Parser::new(Lexer::new("+5".into()));
    parser.parse_program().unwrap();
    assert_eq!(parser.errors[0], "no expression statement parser for +");
}

#[test]
fn well_formed_input_has_no_diagnostics() {
    let mut parser = Parser::new(Lexer::new(
        "let f = fn(a, b) { if (a < b) { [a, b][0] } else { {\"k\": b}[\"k\"] } }; f(1, 2);".into(),
    ));
    parser.parse_program().unwrap();
    assert!(parser.errors.is_empty(), "{:?}", parser.errors);
}

#[test]
fn malformed_lets_each_report() {
    let mut parser = Parser::new(Lexer::new("let = 5; let y 7; let z = 1;".into()));
    let program = parser.parse_program().unwrap();
    assert_eq!(parser.errors[0], "expected next token to be Identifier, got =");
    assert_eq!(parser.errors[2], "expected next token to be EqualSign, got 7");
    assert!(program.statements.contains(&monkey::Statement::Let {
        name: "z".into(),
        value: monkey::Expression::Integer(1)
    }));
}
