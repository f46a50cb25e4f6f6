//! Scenario tests: structural array typing, overloading, return-type
//! unification, recursion, the shape of the emitted instructions, and one
//! input for every failure the checker can report.

use till::{checking, parsing};
use till::checking::{Instruction, Value};
use till::stream::Position;

fn new_empty_checker() -> checking::Checker {
    let mut chkr = checking::Checker::new();
    chkr.begin_new_scope();
    chkr
}

fn ann(name: &str) -> parsing::Type {
    parsing::Type::Identifier(name.to_string())
}

fn num_lit(value: f64) -> parsing::Expression {
    parsing::Expression::NumberLiteral { pos: Position::new(), value: value.to_bits() }
}

#[test]
fn compatible_is_structural_with_any() {
    let num_array = checking::Type::Array(Box::new(checking::Type::Num));
    let any_array = checking::Type::Array(Box::new(checking::Type::Any));
    let nested = checking::Type::Array(Box::new(checking::Type::Array(Box::new(
        checking::Type::Num,
    ))));

    assert!(num_array.compatible(&num_array));
    assert!(any_array.compatible(&num_array));
    assert!(num_array.compatible(&any_array));
    assert!(nested.compatible(&checking::Type::Array(Box::new(any_array))));
    assert!(!num_array.compatible(&checking::Type::Num));
    assert!(!checking::Type::Num.compatible(&checking::Type::Bool));
}

#[test]
fn arrays_structural_accepts_empty_nested() {
    // grid: [[Num]] = [[1.0], []] — the empty inner literal has the
    // placeholder element type and is accepted at any depth.
    let mut chkr = new_empty_checker();
    let nested_ann = parsing::Type::Array(Box::new(parsing::Type::Array(Box::new(ann("Num")))));
    let value = parsing::Expression::Array {
        pos: Position::new(),
        elements: vec![
            parsing::Expression::Array { pos: Position::new(), elements: vec![num_lit(1.0)] },
            parsing::Expression::Array { pos: Position::new(), elements: vec![] },
        ],
    };
    assert_eq!(
        chkr.eval_inner_stmt(parsing::Statement::VariableDeclaration {
            identifier: "grid".to_string(),
            var_type: nested_ann,
            value: Some(value),
        }),
        Ok(None)
    );
}

#[test]
fn arrays_structural_rejects_mixed() {
    let mut chkr = new_empty_checker();
    let mixed = parsing::Expression::Array {
        pos: Position::new(),
        elements: vec![
            num_lit(1.0),
            parsing::Expression::BooleanLiteral { pos: Position::new(), value: true },
        ],
    };
    assert_eq!(
        chkr.eval_expr(mixed),
        Err(checking::Failure::UnexpectedType {
            pos: Position::new(),
            expected: checking::Type::Num,
            encountered: checking::Type::Bool,
        })
    );
}

#[test]
fn string_literal_is_char_array() {
    let mut chkr = new_empty_checker();
    let (t, _) = chkr
        .eval_expr(parsing::Expression::StringLiteral {
            pos: Position::new(),
            value: "ab".to_string(),
        })
        .unwrap();
    assert_eq!(t, checking::Type::Array(Box::new(checking::Type::Char)));
}

#[test]
fn empty_array_literal_type() {
    let mut chkr = new_empty_checker();
    let (t, _) = chkr
        .eval_expr(parsing::Expression::Array { pos: Position::new(), elements: vec![] })
        .unwrap();
    assert_eq!(t, checking::Type::Array(Box::new(checking::Type::Any)));
}

#[test]
fn overloads_by_signature() {
    let mut chkr = new_empty_checker();

    // Two functions named f, keyed apart by their parameter lists.
    for param in ["Num", "Char"] {
        assert_eq!(
            chkr.eval_top_level_stmt(parsing::Statement::FunctionDefinition {
                pos: Position::new(),
                identifier: "f".to_string(),
                parameters: vec![parsing::Parameter {
                    pos: Position::new(),
                    identifier: "x".to_string(),
                    param_type: ann(param),
                }],
                return_type: Some(ann("Num")),
                body: vec![parsing::Statement::Return(Some(num_lit(1.0)))],
            }),
            Ok(())
        );
    }

    // Each overload is reached by its own argument type.
    assert!(matches!(
        chkr.eval_expr(parsing::Expression::FunctionCall {
            pos: Position::new(),
            identifier: "f".to_string(),
            args: vec![num_lit(1.0)],
        }),
        Ok((checking::Type::Num, _))
    ));
    assert!(matches!(
        chkr.eval_expr(parsing::Expression::FunctionCall {
            pos: Position::new(),
            identifier: "f".to_string(),
            args: vec![parsing::Expression::CharLiteral { pos: Position::new(), value: 'c' }],
        }),
        Ok((checking::Type::Num, _))
    ));

    // An argument fitting neither overload is "function undefined", not a
    // type mismatch against one of them.
    match chkr.eval_expr(parsing::Expression::FunctionCall {
        pos: Position::new(),
        identifier: "f".to_string(),
        args: vec![parsing::Expression::BooleanLiteral { pos: Position::new(), value: true }],
    }) {
        Err(checking::Failure::FunctionUndefined(_, ident, args)) => {
            assert_eq!(ident, "f".to_string());
            assert_eq!(args, vec![checking::Type::Bool]);
        }
        other => panic!("expected FunctionUndefined, got {:?}", other),
    }
}

#[test]
fn return_type_unification_across_branches() {
    // One branch returns Char, a later path returns Num: the first-seen
    // type wins and the second return is the reported mismatch.
    let body = vec![
        parsing::Statement::If {
            condition: parsing::Expression::BooleanLiteral { pos: Position::new(), value: true },
            block: vec![parsing::Statement::Return(Some(parsing::Expression::CharLiteral {
                pos: Position::new(),
                value: 'c',
            }))],
        },
        parsing::Statement::Return(Some(num_lit(1.0))),
    ];
    assert_eq!(
        checking::input(vec![parsing::Statement::FunctionDefinition {
            pos: Position::new(),
            identifier: "g".to_string(),
            parameters: vec![],
            return_type: Some(ann("Char")),
            body,
        }]),
        Err(checking::Failure::UnexpectedType {
            pos: Position::new(),
            expected: checking::Type::Char,
            encountered: checking::Type::Num,
        })
    );
}

#[test]
fn recursion_self_call_resolves() {
    // The signature is registered before the body is checked, so a
    // function may call itself by name.
    let result = checking::input(vec![parsing::Statement::FunctionDefinition {
        pos: Position::new(),
        identifier: "fact".to_string(),
        parameters: vec![parsing::Parameter {
            pos: Position::new(),
            identifier: "n".to_string(),
            param_type: ann("Num"),
        }],
        return_type: Some(ann("Num")),
        body: vec![parsing::Statement::Return(Some(parsing::Expression::FunctionCall {
            pos: Position::new(),
            identifier: "fact".to_string(),
            args: vec![parsing::Expression::Variable {
                pos: Position::new(),
                identifier: "n".to_string(),
            }],
        }))],
    }]);
    assert!(result.is_ok());
}

#[test]
fn end_to_end_function_and_call() {
    // function add(a: Num, b: Num): Num { return a + b }, then a call
    // add(1.0, 2.0) from a second function's declaration initialiser.
    let add_def = parsing::Statement::FunctionDefinition {
        pos: Position::new(),
        identifier: "add".to_string(),
        parameters: vec![
            parsing::Parameter {
                pos: Position::new(),
                identifier: "a".to_string(),
                param_type: ann("Num"),
            },
            parsing::Parameter {
                pos: Position::new(),
                identifier: "b".to_string(),
                param_type: ann("Num"),
            },
        ],
        return_type: Some(ann("Num")),
        body: vec![parsing::Statement::Return(Some(parsing::Expression::Add(
            Box::new(parsing::Expression::Variable {
                pos: Position::new(),
                identifier: "a".to_string(),
            }),
            Box::new(parsing::Expression::Variable {
                pos: Position::new(),
                identifier: "b".to_string(),
            }),
        )))],
    };
    let caller_def = parsing::Statement::FunctionDefinition {
        pos: Position::new(),
        identifier: "main".to_string(),
        parameters: vec![],
        return_type: None,
        body: vec![parsing::Statement::VariableDeclaration {
            identifier: "result".to_string(),
            var_type: ann("Num"),
            value: Some(parsing::Expression::FunctionCall {
                pos: Position::new(),
                identifier: "add".to_string(),
                args: vec![num_lit(1.0), num_lit(2.0)],
            }),
        }],
    };

    let ir = checking::input(vec![add_def, caller_def]).unwrap();
    assert_eq!(
        ir,
        vec![
            // add: entry marker, the two parameter bindings (bound in
            // reverse), the pushes of the two arguments, the addition, and
            // the value return.
            Instruction::Function(0),
            Instruction::Parameter(1),
            Instruction::Parameter(2),
            Instruction::Push(Value::Variable(2)),
            Instruction::Push(Value::Variable(1)),
            Instruction::Add,
            Instruction::ReturnValue,
            // the caller: argument pushes in argument order, then the call.
            Instruction::Function(3),
            Instruction::Local(4),
            Instruction::Push(Value::Num(1.0f64.to_bits())),
            Instruction::Push(Value::Num(2.0f64.to_bits())),
            Instruction::CallExpectingValue(0),
            Instruction::Store(4),
        ]
    );
}

#[test]
fn end_to_end_while_string_condition() {
    // while "text" { } — the condition is an Array(Char), not a Bool.
    assert_eq!(
        checking::input(vec![parsing::Statement::FunctionDefinition {
            pos: Position::new(),
            identifier: "w".to_string(),
            parameters: vec![],
            return_type: None,
            body: vec![parsing::Statement::While {
                condition: parsing::Expression::StringLiteral {
                    pos: Position::new(),
                    value: "text".to_string(),
                },
                block: vec![],
            }],
        }]),
        Err(checking::Failure::UnexpectedType {
            pos: Position::new(),
            expected: checking::Type::Bool,
            encountered: checking::Type::Array(Box::new(checking::Type::Char)),
        })
    );
}

#[test]
fn redeclaration_reuses_id_and_allocation() {
    // Declaring the same name twice in one scope at the same type keeps
    // the first id and emits no second allocation.
    let ir = checking::input(vec![parsing::Statement::FunctionDefinition {
        pos: Position::new(),
        identifier: "p".to_string(),
        parameters: vec![],
        return_type: None,
        body: vec![
            parsing::Statement::VariableDeclaration {
                identifier: "x".to_string(),
                var_type: ann("Num"),
                value: None,
            },
            parsing::Statement::VariableDeclaration {
                identifier: "x".to_string(),
                var_type: ann("Num"),
                value: Some(num_lit(4.0)),
            },
        ],
    }])
    .unwrap();
    assert_eq!(
        ir,
        vec![
            Instruction::Function(0),
            Instruction::Local(1),
            Instruction::Push(Value::Num(4.0f64.to_bits())),
            Instruction::Store(1),
        ]
    );
}

#[test]
fn while_loop_ir_shape() {
    // Test-at-bottom translation: jump to the condition, loop body, the
    // condition label, the test, and a conditional jump back to the start.
    let ir = checking::input(vec![parsing::Statement::FunctionDefinition {
        pos: Position::new(),
        identifier: "w".to_string(),
        parameters: vec![],
        return_type: None,
        body: vec![parsing::Statement::While {
            condition: parsing::Expression::BooleanLiteral { pos: Position::new(), value: true },
            block: vec![],
        }],
    }])
    .unwrap();
    assert_eq!(
        ir,
        vec![
            Instruction::Function(0),
            Instruction::Jump(1),
            Instruction::Label(2),
            Instruction::Label(1),
            Instruction::Push(Value::Bool(true)),
            Instruction::JumpIfTrue(2),
        ]
    );
}

#[test]
fn if_ir_shape() {
    // Conditional skip over the block to a label placed after it.
    let ir = checking::input(vec![parsing::Statement::FunctionDefinition {
        pos: Position::new(),
        identifier: "i".to_string(),
        parameters: vec![],
        return_type: None,
        body: vec![parsing::Statement::If {
            condition: parsing::Expression::BooleanLiteral { pos: Position::new(), value: true },
            block: vec![],
        }],
    }])
    .unwrap();
    assert_eq!(
        ir,
        vec![
            Instruction::Function(0),
            Instruction::Push(Value::Bool(true)),
            Instruction::JumpIfFalse(1),
            Instruction::Label(1),
        ]
    );
}

#[test]
fn unary_minus_lowering() {
    // No negate opcode: push zero, push the operand, subtract.
    let ir = checking::input(vec![parsing::Statement::FunctionDefinition {
        pos: Position::new(),
        identifier: "m".to_string(),
        parameters: vec![],
        return_type: None,
        body: vec![parsing::Statement::VariableDeclaration {
            identifier: "x".to_string(),
            var_type: ann("Num"),
            value: Some(parsing::Expression::UnaryMinus(Box::new(num_lit(1.5)))),
        }],
    }])
    .unwrap();
    assert_eq!(
        ir,
        vec![
            Instruction::Function(0),
            Instruction::Local(1),
            Instruction::Push(Value::Num(0)),
            Instruction::Push(Value::Num(1.5f64.to_bits())),
            Instruction::Subtract,
            Instruction::Store(1),
        ]
    );
}

#[test]
fn empty_program_checks_to_nothing() {
    assert_eq!(checking::input(vec![]), Ok(vec![]));
}

#[test]
fn invalid_top_level_statement() {
    assert_eq!(
        checking::input(vec![parsing::Statement::Return(None)]),
        Err(checking::Failure::InvalidTopLevelStatement)
    );
}

#[test]
fn function_body_returns_wrong_type() {
    assert_eq!(
        checking::input(vec![parsing::Statement::FunctionDefinition {
            pos: Position::new(),
            identifier: "h".to_string(),
            parameters: vec![],
            return_type: Some(ann("Num")),
            body: vec![parsing::Statement::Return(Some(parsing::Expression::BooleanLiteral {
                pos: Position::new(),
                value: true,
            }))],
        }]),
        Err(checking::Failure::FunctionUnexpectedReturnType {
            pos: Position::new(),
            identifier: "h".to_string(),
            params: vec![],
            expected: checking::Type::Num,
            encountered: Some(checking::Type::Bool),
        })
    );
}

#[test]
fn assignment_to_undefined_variable() {
    let mut chkr = new_empty_checker();
    assert!(matches!(
        chkr.eval_inner_stmt(parsing::Statement::VariableAssignment {
            identifier: "missing".to_string(),
            assign_to: num_lit(1.0),
        }),
        Err(checking::Failure::VariableNotInScope(_, _))
    ));
}

#[test]
fn boolean_not_requires_bool() {
    let mut chkr = new_empty_checker();
    assert!(matches!(
        chkr.eval_expr(parsing::Expression::BooleanNot(Box::new(num_lit(1.0)))),
        Err(checking::Failure::UnexpectedType {
            expected: checking::Type::Bool,
            encountered: checking::Type::Num,
            pos: _
        })
    ));
    assert!(matches!(
        chkr.eval_expr(parsing::Expression::BooleanNot(Box::new(
            parsing::Expression::BooleanLiteral { pos: Position::new(), value: false }
        ))),
        Ok((checking::Type::Bool, _))
    ));
}

#[test]
fn empty_array_assignable_to_any_array_variable() {
    // x: [Num] = [] — the empty literal fits any declared array type.
    let mut chkr = new_empty_checker();
    assert_eq!(
        chkr.eval_inner_stmt(parsing::Statement::VariableDeclaration {
            identifier: "xs".to_string(),
            var_type: parsing::Type::Array(Box::new(ann("Num"))),
            value: Some(parsing::Expression::Array { pos: Position::new(), elements: vec![] }),
        }),
        Ok(None)
    );
}
