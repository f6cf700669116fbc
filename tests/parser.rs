use std::rc::Rc;

use monkey::{BlockStatement, Expression, Lexer, Parser, Program, Statement, Token};

#[test]
fn parser_test_let_statements() {
    let input = r#"let x = 5;
let y = true;
let foobar = y;"#;
    let mut parser = Parser::new(Lexer::new(input.into()));
    let program = parser.parse_program().expect("Failed to parse program");

    assert_eq!(parser.errors.len(), 0, "{:?}", parser.errors);
    assert_eq!(program.statements.len(), 3);

    assert_eq!(
        program.statements[0],
        Statement::Let {
            name: "x".into(),
            value: 5.into()
        }
    );
    assert_eq!(
        program.statements[1],
        Statement::Let {
            name: "y".into(),
            value: true.into(),
        }
    );
    assert_eq!(
        program.statements[2],
        Statement::Let {
            name: "foobar".into(),
            value: Expression::Identifier("y".into())
        }
    );
}

#[test]
fn parser_test_return_statements() {
    let input = r#"return 5;
return y;
return true;"#;
    let mut parser = Parser::new(Lexer::new(input.into()));
    let program = parser.parse_program().expect("Failed to parse program");

    assert_eq!(parser.errors.len(), 0, "{:?}", parser.errors);
    assert_eq!(program.statements.len(), 3);

    assert_eq!(program.statements[0], Statement::Return { value: 5.into() });
    assert_eq!(
        program.statements[1],
        Statement::Return {
            value: Expression::Identifier("y".into())
        }
    );
    assert_eq!(
        program.statements[2],
        Statement::Return { value: true.into() }
    );
}

#[test]
fn test_string() {
    let program = Program {
        statements: vec![
            Statement::Let {
                name: "myVar".into(),
                value: Expression::Identifier("anotherVar".into()),
            },
            Statement::Expression {
                value: Expression::FunctionCall {
                    name: Box::new(Expression::Identifier("print".into())),
                    arguments: vec![
                        123.into(),
                        true.into(),
                        Expression::InfixOperator {
                            operator: Token::MinusSign,
                            rh_expression: Box::new(Expression::PrefixOperator {
                                operator: Token::ExclamationMark,
                                expression: Box::new(Expression::Identifier("null".into())),
                            }),
                            lh_expression: Box::new(false.into()),
                        },
                    ],
                },
            },
        ],
    };

    assert_eq!(
        "let myVar = anotherVar;print(123, true, (false - (!null)))",
        program.to_string()
    );
}

#[test]
fn test_identifier_expression() {
    let input = "foobar;";
    let mut parser = Parser::new(Lexer::new(input.into()));
    let program = parser.parse_program().expect("Failed to parse program");

    assert_eq!(parser.errors.len(), 0, "{:?}", parser.errors);
    assert_eq!(program.statements.len(), 1);
    assert_eq!(
        program.statements[0],
        Statement::Expression {
            value: Expression::Identifier("foobar".into())
        }
    );
}

#[test]
fn test_integer_expression() {
    let input = "5;";
    let mut parser = Parser::new(Lexer::new(input.into()));
    let program = parser.parse_program().expect("Failed to parse program");

    assert_eq!(parser.errors.len(), 0, "{:?}", parser.errors);
    assert_eq!(program.statements.len(), 1);
    assert_eq!(
        program.statements[0],
        Statement::Expression { value: 5.into() }
    );
}

#[test]
fn test_true_boolean_expression() {
    let input = "true;";
    let mut parser = Parser::new(Lexer::new(input.into()));
    let program = parser.parse_program().expect("Failed to parse program");

    assert_eq!(parser.errors.len(), 0, "{:?}", parser.errors);
    assert_eq!(program.statements.len(), 1);
    assert_eq!(
        program.statements[0],
        Statement::Expression { value: true.into() }
    );
}

#[test]
fn test_false_boolean_expression() {
    let input = "false;";
    let mut parser = Parser::new(Lexer::new(input.into()));
    let program = parser.parse_program().expect("Failed to parse program");

    assert_eq!(parser.errors.len(), 0, "{:?}", parser.errors);
    assert_eq!(program.statements.len(), 1);
    assert_eq!(
        program.statements[0],
        Statement::Expression {
            value: false.into()
        }
    );
}

#[test]
fn test_prefix_expressions() {
    let tests = &[
        ("!5;", Token::ExclamationMark, 5),
        ("-15;", Token::MinusSign, 15),
    ];

    for (input, operator, value) in tests.iter().cloned() {
        let mut parser = Parser::new(Lexer::new(input.into()));
        let program = parser.parse_program().expect("Failed to parse program");

        assert_eq!(parser.errors.len(), 0, "{:?}", parser.errors);
        assert_eq!(program.statements.len(), 1);

        assert_eq!(
            program.statements[0],
            Statement::Expression {
                value: Expression::PrefixOperator {
                    operator,
                    expression: Box::new(value.into())
                }
            }
        )
    }
}

#[test]
fn test_boolean_prefix_expressions() {
    let tests = &[
        ("!true", true, Token::ExclamationMark),
        ("!false", false, Token::ExclamationMark),
    ];

    for (input, value, operator) in tests.iter().cloned() {
        let mut parser = Parser::new(Lexer::new(input.into()));
        let program = parser.parse_program().expect("Failed to parse program");

        assert_eq!(parser.errors.len(), 0, "{:?}", parser.errors);
        assert_eq!(program.statements.len(), 1);

        assert_eq!(
            program.statements[0],
            Statement::Expression {
                value: Expression::PrefixOperator {
                    operator,
                    expression: Box::new(value.into())
                }
            }
        )
    }
}

#[test]
fn test_infix_expressions() {
    let tests = &[
        ("5 + 5", 5, Token::PlusSign, 5),
        ("5 - 5", 5, Token::MinusSign, 5),
        ("5 * 5", 5, Token::Asterisk, 5),
        ("5 / 5", 5, Token::Slash, 5),
        ("5 > 5", 5, Token::GreaterThan, 5),
        ("5 < 5", 5, Token::LessThan, 5),
        ("5 == 5", 5, Token::Equal, 5),
        ("5 != 5", 5, Token::NotEqual, 5),
    ];

    for (input, lh_integer, operator, rh_integer) in tests.iter().cloned() {
        let mut parser = Parser::new(Lexer::new(input.into()));
        let program = parser.parse_program().expect("Failed to parse program");

        assert_eq!(parser.errors.len(), 0, "{:?}", parser.errors);
        assert_eq!(program.statements.len(), 1, "{:?}", program.statements);

        assert_eq!(
            program.statements[0],
            Statement::Expression {
                value: Expression::InfixOperator {
                    operator,
                    lh_expression: Box::new(lh_integer.into()),
                    rh_expression: Box::new(rh_integer.into()),
                }
            }
        )
    }
}

#[test]
fn test_boolean_infix_expressions() {
    let tests = &[
        ("true == true", true, Token::Equal, true),
        ("true != false", true, Token::NotEqual, false),
        ("false == false", false, Token::Equal, false),
    ];

    for (input, lh_boolean, operator, rh_boolean) in tests.iter().cloned() {
        let mut parser = Parser::new(Lexer::new(input.into()));
        let program = parser.parse_program().expect("Failed to parse program");

        assert_eq!(parser.errors.len(), 0, "{:?}", parser.errors);
        assert_eq!(program.statements.len(), 1);

        assert_eq!(
            program.statements[0],
            Statement::Expression {
                value: Expression::InfixOperator {
                    operator,
                    lh_expression: Box::new(lh_boolean.into()),
                    rh_expression: Box::new(rh_boolean.into()),
                }
            }
        )
    }
}

#[test]
fn test_operator_precedence_parsing() {
    let tests = &[
        ("-a * b", "((-a) * b)"),
        ("!-a", "(!(-a))"),
        ("a + b + c", "((a + b) + c)"),
        ("a + b - c", "((a + b) - c)"),
        ("a * b * c", "((a * b) * c)"),
        ("a * b / c", "((a * b) / c)"),
        ("a + b / c", "(a + (b / c))"),
        ("a + b * c + d / e - f", "(((a + (b * c)) + (d / e)) - f)"),
        ("3 + 4; -5 * 5", "(3 + 4)((-5) * 5)"),
        ("5 > 4 == 3 < 4", "((5 > 4) == (3 < 4))"),
        ("5 < 4 != 3 > 4", "((5 < 4) != (3 > 4))"),
        (
            "3 + 4 * 5 == 3 * 1 + 4 * 5",
            "((3 + (4 * 5)) == ((3 * 1) + (4 * 5)))",
        ),
        ("true", "true"),
        ("false", "false"),
        ("3 > 5 == false", "((3 > 5) == false)"),
        ("3 < 5 == true", "((3 < 5) == true)"),
        ("1 + (2 + 3) + 4", "((1 + (2 + 3)) + 4)"),
        ("(5 + 5) * 2", "((5 + 5) * 2)"),
        ("2 / (5 + 5)", "(2 / (5 + 5))"),
        ("-(5 + 5)", "(-(5 + 5))"),
        ("!(true == true)", "(!(true == true))"),
        ("a + add(b * c) + d", "((a + add((b * c))) + d)"),
        (
            "add(a, b, 1, 2 * 3, 4 + 5, add(6, 7 * 8))",
            "add(a, b, 1, (2 * 3), (4 + 5), add(6, (7 * 8)))",
        ),
        (
            "add(a + b + c * d / f + g)",
            "add((((a + b) + ((c * d) / f)) + g))",
        ),
        (
            "a * [1, 2, 3, 4][b * c] * d",
            "((a * ([1, 2, 3, 4][(b * c)])) * d)",
        ),
        (
            "add(a * b[2], b[1], 2 * [1, 2][1])",
            "add((a * (b[2])), (b[1]), (2 * ([1, 2][1])))",
        ),
    ];

    for (input, expected) in tests.iter().cloned() {
        let mut parser = Parser::new(Lexer::new(input.into()));
        let program = parser.parse_program().expect("Failed to parse program");

        assert_eq!(parser.errors.len(), 0, "{:?}", parser.errors);

        assert_eq!(program.to_string(), expected.to_string());
    }
}

#[test]
fn test_if_expression() {
    let input = "if (x < y) { x }";

    let mut parser = Parser::new(Lexer::new(input.into()));
    let program = parser.parse_program().expect("Failed to parse program");

    assert_eq!(parser.errors.len(), 0, "{:?}", parser.errors);
    assert_eq!(program.statements.len(), 1);

    assert_eq!(
        program.statements[0],
        Statement::Expression {
            value: Expression::If {
                condition: Box::new(Expression::InfixOperator {
                    operator: Token::LessThan,
                    lh_expression: Box::new(Expression::Identifier("x".into())),
                    rh_expression: Box::new(Expression::Identifier("y".into()))
                }),
                consequence: BlockStatement {
                    statements: vec![Statement::Expression {
                        value: Expression::Identifier("x".into())
                    }]
                },
                alternative: None
            }
        }
    )
}

#[test]
fn parser_test_if_else_expression() {
    let input = "if (x < y) { x } else { y }";

    let mut parser = Parser::new(Lexer::new(input.into()));
    let program = parser.parse_program().expect("Failed to parse program");

    assert_eq!(parser.errors.len(), 0, "{:?}", parser.errors);
    assert_eq!(program.statements.len(), 1);

    assert_eq!(
        program.statements[0],
        Statement::Expression {
            value: Expression::If {
                condition: Box::new(Expression::InfixOperator {
                    operator: Token::LessThan,
                    lh_expression: Box::new(Expression::Identifier("x".into())),
                    rh_expression: Box::new(Expression::Identifier("y".into()))
                }),
                consequence: BlockStatement {
                    statements: vec![Statement::Expression {
                        value: Expression::Identifier("x".into())
                    }]
                },
                alternative: Some(BlockStatement {
                    statements: vec![Statement::Expression {
                        value: Expression::Identifier("y".into())
                    }]
                })
            }
        }
    )
}

#[test]
fn test_function_literal_parsing() {
    let input = "fn(x, y) { x + y }";

    let mut parser = Parser::new(Lexer::new(input.into()));
    let program = parser.parse_program().expect("Failed to parse program");

    assert_eq!(parser.errors.len(), 0, "{:?}", parser.errors);
    assert_eq!(program.statements.len(), 1);

    assert_eq!(
        program.statements[0],
        Statement::Expression {
            value: Expression::Function {
                arguments: vec!["x".into(), "y".into()],
                body: Rc::new(BlockStatement {
                    statements: vec![Statement::Expression {
                        value: Expression::InfixOperator {
                            operator: Token::PlusSign,
                            lh_expression: Box::new(Expression::Identifier("x".into())),
                            rh_expression: Box::new(Expression::Identifier("y".into()))
                        }
                    }]
                })
            }
        }
    )
}

#[test]
fn test_funciton_parameters_parsing() {
    let tests: &[(&str, Vec<String>)] = &[
        ("fn() {}", vec![]),
        ("fn(x) {}", vec!["x".into()]),
        ("fn(x, y, z) {}", vec!["x".into(), "y".into(), "z".into()]),
    ];

    for (input, arguments) in tests.iter().cloned() {
        let mut parser = Parser::new(Lexer::new(input.into()));
        let program = parser.parse_program().expect("Failed to parse program");

        assert_eq!(parser.errors.len(), 0, "{:?}", parser.errors);
        assert_eq!(program.statements.len(), 1);

        assert_eq!(
            program.statements[0],
            Statement::Expression {
                value: Expression::Function {
                    arguments,
                    body: Rc::new(BlockStatement { statements: vec![] })
                }
            }
        )
    }
}

#[test]
fn test_call_expression_parsing() {
    let input = "add(1, 2 * 3, 4 + 5)";

    let mut parser = Parser::new(Lexer::new(input.into()));
    let program = parser.parse_program().expect("Failed to parse program");

    assert_eq!(parser.errors.len(), 0, "{:?}", parser.errors);
    assert_eq!(program.statements.len(), 1);

    assert_eq!(
        program.statements[0],
        Statement::Expression {
            value: Expression::FunctionCall {
                name: Box::new(Expression::Identifier("add".into())),
                arguments: vec![
                    Expression::Integer(1),
                    Expression::InfixOperator {
                        operator: Token::Asterisk,
                        lh_expression: Box::new(Expression::Integer(2)),
                        rh_expression: Box::new(Expression::Integer(3)),
                    },
                    Expression::InfixOperator {
                        operator: Token::PlusSign,
                        lh_expression: Box::new(Expression::Integer(4)),
                        rh_expression: Box::new(Expression::Integer(5)),
                    },
                ]
            }
        }
    )
}

#[test]
fn test_string_literal_expression() {
    let input = "\"hello world\"";

    let mut parser = Parser::new(Lexer::new(input.into()));
    let program = parser.parse_program().expect("Failed to parse program");

    assert_eq!(parser.errors.len(), 0, "{:?}", parser.errors);
    assert_eq!(program.statements.len(), 1, "{:?}", program.statements);

    assert_eq!(
        program.statements[0],
        Statement::Expression {
            value: Expression::String("hello world".to_string())
        }
    )
}

#[test]
fn test_parsing_array_literals() {
    let input = "[1, 2 * 2, 3 + 3]";

    let mut parser = Parser::new(Lexer::new(input.into()));
    let program = parser.parse_program().expect("Failed to parse program");

    assert_eq!(parser.errors.len(), 0, "{:?}", parser.errors);
    assert_eq!(program.statements.len(), 1, "{:?}", program.statements);

    assert_eq!(
        program.statements[0],
        Statement::Expression {
            value: Expression::Array(vec![
                Expression::Integer(1),
                Expression::InfixOperator {
                    operator: Token::Asterisk,
                    lh_expression: Box::new(Expression::Integer(2)),
                    rh_expression: Box::new(Expression::Integer(2)),
                },
                Expression::InfixOperator {
                    operator: Token::PlusSign,
                    lh_expression: Box::new(Expression::Integer(3)),
                    rh_expression: Box::new(Expression::Integer(3)),
                },
            ])
        }
    )
}

#[test]
fn test_parsing_index_expressions() {
    let input = "myArray[1 + 1]";

    let mut parser = Parser::new(Lexer::new(input.into()));
    let program = parser.parse_program().expect("Failed to parse program");

    assert_eq!(parser.errors.len(), 0, "{:?}", parser.errors);
    assert_eq!(program.statements.len(), 1, "{:?}", program.statements);

    assert_eq!(
        program.statements[0],
        Statement::Expression {
            value: Expression::Index {
                left: Box::new(Expression::Identifier("myArray".into())),
                index: Box::new(Expression::InfixOperator {
                    operator: Token::PlusSign,
                    lh_expression: Box::new(Expression::Integer(1)),
                    rh_expression: Box::new(Expression::Integer(1)),
                }),
            }
        }
    )
}

