//! Checker behaviour on expressions, inner statements, top-level
//! statements, and the scope stack.

use till::{checking, parsing};
use till::stream::Position;

fn new_empty_checker() -> checking::Checker {
    let mut chkr = checking::Checker::new();
    chkr.begin_new_scope();
    chkr
}

fn ann(name: &str) -> parsing::Type {
    parsing::Type::Identifier(name.to_string())
}

#[test]
fn scoping() {
    let mut chkr = new_empty_checker();

    let pos = Position::new();

    chkr.add_variable_def_to_inner_scope("outer".to_string(), checking::Type::Num, false);
    assert_eq!(
        chkr.variable_lookup("outer", &pos),
        Ok(&checking::VariableDef {
            identifier: "outer".to_string(),
            var_type: checking::Type::Num,
            initialised: false,
            id: 0
        })
    );

    chkr.begin_new_scope();

    chkr.add_variable_def_to_inner_scope("inner".to_string(), checking::Type::Bool, false);

    assert!(chkr.variable_lookup("inner", &pos).is_ok());
    assert!(chkr.variable_lookup("outer", &pos).is_ok());

    chkr.end_scope();

    assert!(chkr.variable_lookup("inner", &pos).is_err());
    assert!(chkr.variable_lookup("outer", &pos).is_ok());
    assert!(chkr.variable_lookup("undefined", &pos).is_err());
}

#[test]
fn eval_exprs() {
    let mut chkr = new_empty_checker();

    assert!(matches!(
        chkr.eval_expr(parsing::Expression::NumberLiteral {
            pos: Position::new(),
            value: 10.5f64.to_bits()
        }),
        Ok((checking::Type::Num, _))
    ));

    assert!(matches!(
        chkr.eval_expr(parsing::Expression::BooleanLiteral { pos: Position::new(), value: true }),
        Ok((checking::Type::Bool, _))
    ));

    assert!(matches!(
        chkr.eval_expr(parsing::Expression::CharLiteral { pos: Position::new(), value: '話' }),
        Ok((checking::Type::Char, _))
    ));

    assert!(matches!(
        chkr.eval_expr(parsing::Expression::Equal(
            Box::new(parsing::Expression::CharLiteral { pos: Position::new(), value: 'x' }),
            Box::new(parsing::Expression::CharLiteral { pos: Position::new(), value: 'y' })
        )),
        Ok((checking::Type::Bool, _))
    ));

    assert!(matches!(
        chkr.eval_expr(parsing::Expression::Equal(
            Box::new(parsing::Expression::NumberLiteral {
                pos: Position::new(),
                value: 1.5f64.to_bits()
            }),
            Box::new(parsing::Expression::BooleanLiteral { pos: Position::new(), value: false })
        )),
        Err(checking::Failure::UnexpectedType {
            encountered: checking::Type::Bool,
            expected: checking::Type::Num,
            pos: _
        })
    ));

    assert!(matches!(
        chkr.eval_expr(parsing::Expression::GreaterThan(
            Box::new(parsing::Expression::NumberLiteral {
                pos: Position::new(),
                value: 1.34f64.to_bits()
            }),
            Box::new(parsing::Expression::NumberLiteral {
                pos: Position::new(),
                value: 0.95f64.to_bits()
            })
        )),
        Ok((checking::Type::Bool, _))
    ));

    assert!(matches!(
        chkr.eval_expr(parsing::Expression::LessThan(
            Box::new(parsing::Expression::CharLiteral { pos: Position::new(), value: 'b' }),
            Box::new(parsing::Expression::CharLiteral { pos: Position::new(), value: 'a' })
        )),
        Err(checking::Failure::UnexpectedType {
            encountered: checking::Type::Char,
            expected: checking::Type::Num,
            pos: _
        })
    ));

    assert!(matches!(
        chkr.eval_expr(parsing::Expression::Add(
            Box::new(parsing::Expression::NumberLiteral {
                pos: Position::new(),
                value: 10.0f64.to_bits()
            }),
            Box::new(parsing::Expression::NumberLiteral {
                pos: Position::new(),
                value: 11.2f64.to_bits()
            })
        )),
        Ok((checking::Type::Num, _))
    ));

    assert!(matches!(
        chkr.eval_expr(parsing::Expression::Divide(
            Box::new(parsing::Expression::CharLiteral { pos: Position::new(), value: 'x' }),
            Box::new(parsing::Expression::BooleanLiteral { pos: Position::new(), value: false })
        )),
        Err(checking::Failure::UnexpectedType {
            encountered: checking::Type::Char,
            expected: checking::Type::Num,
            pos: _
        })
    ));

    assert!(matches!(
        chkr.eval_expr(parsing::Expression::Variable {
            pos: Position::new(),
            identifier: "undefined".to_string()
        }),
        Err(checking::Failure::VariableNotInScope(_, _))
    ));

    chkr.add_variable_def_to_inner_scope("var".to_string(), checking::Type::Num, true);

    chkr.begin_new_scope();
    assert!(matches!(
        chkr.eval_expr(parsing::Expression::Variable {
            pos: Position::new(),
            identifier: "var".to_string()
        }),
        Ok((checking::Type::Num, _))
    ));
    chkr.end_scope();

    chkr.add_function_def("func".to_string(), vec![], Some(checking::Type::Num), 0);

    assert!(matches!(
        chkr.eval_expr(parsing::Expression::FunctionCall {
            pos: Position::new(),
            identifier: "func".to_string(),
            args: vec![]
        }),
        Ok((checking::Type::Num, _))
    ));

    match chkr.eval_expr(parsing::Expression::FunctionCall {
        pos: Position::new(),
        identifier: "func".to_string(),
        args: vec![parsing::Expression::NumberLiteral {
            pos: Position::new(),
            value: 1.5f64.to_bits(),
        }],
    }) {
        Err(checking::Failure::FunctionUndefined(_, ident, args)) => {
            assert_eq!(ident, "func".to_string());
            assert_eq!(args, vec![checking::Type::Num]);
        }
        _ => panic!(),
    }

    chkr.add_function_def("abc".to_string(), vec![checking::Type::Char], None, 1);

    assert!(matches!(
        chkr.eval_expr(parsing::Expression::FunctionCall {
            pos: Position::new(),
            identifier: "abc".to_string(),
            args: vec![parsing::Expression::CharLiteral { pos: Position::new(), value: 'x' }]
        }),
        Err(checking::Failure::VoidFunctionInExpr(_, _, _))
    ));
}

#[test]
fn eval_inner_stmts() {
    let mut chkr = new_empty_checker();

    assert_eq!(chkr.eval_inner_stmt(parsing::Statement::Return(None)), Ok(None));

    assert!(matches!(
        chkr.eval_inner_stmt(parsing::Statement::Return(Some(parsing::Expression::Add(
            Box::new(parsing::Expression::NumberLiteral {
                pos: Position::new(),
                value: 1.2f64.to_bits()
            }),
            Box::new(parsing::Expression::NumberLiteral {
                pos: Position::new(),
                value: 2.8f64.to_bits()
            })
        )))),
        Ok(Some((checking::Type::Num, _)))
    ));

    assert!(matches!(
        chkr.eval_inner_stmt(parsing::Statement::If {
            condition: parsing::Expression::BooleanLiteral { pos: Position::new(), value: true },
            block: vec![parsing::Statement::Return(Some(parsing::Expression::CharLiteral {
                pos: Position::new(),
                value: 'x'
            }))]
        }),
        Ok(Some((checking::Type::Char, _)))
    ));

    assert_eq!(
        chkr.eval_inner_stmt(parsing::Statement::VariableDeclaration {
            identifier: "pi".to_string(),
            var_type: ann("Num"),
            value: Some(parsing::Expression::NumberLiteral {
                pos: Position::new(),
                value: 3.14f64.to_bits()
            })
        }),
        Ok(None)
    );
    assert!(chkr.variable_lookup("pi", &Position::new()).is_ok());

    assert_eq!(
        chkr.eval_inner_stmt(parsing::Statement::VariableDeclaration {
            identifier: "xyz".to_string(),
            var_type: ann("Oops"),
            value: None
        }),
        Err(checking::Failure::NonexistentPrimitiveType("Oops".to_string()))
    );

    assert_eq!(
        chkr.eval_inner_stmt(parsing::Statement::VariableAssignment {
            identifier: "pi".to_string(),
            assign_to: parsing::Expression::NumberLiteral {
                pos: Position::new(),
                value: 3.1f64.to_bits()
            }
        }),
        Ok(None)
    );

    assert!(matches!(
        chkr.eval_inner_stmt(parsing::Statement::VariableAssignment {
            identifier: "pi".to_string(),
            assign_to: parsing::Expression::BooleanLiteral { pos: Position::new(), value: true }
        }),
        Err(checking::Failure::UnexpectedType {
            expected: checking::Type::Num,
            encountered: checking::Type::Bool,
            pos: _
        })
    ));

    assert!(matches!(
        chkr.eval_inner_stmt(parsing::Statement::FunctionDefinition {
            identifier: "nested".to_string(),
            parameters: vec![],
            return_type: None,
            body: vec![],
            pos: Position::new()
        }),
        Err(checking::Failure::NestedFunctions(_, _))
    ));
}

#[test]
fn eval_top_level_stmts() -> Result<(), checking::Failure> {
    let mut chkr = new_empty_checker();

    assert_eq!(
        chkr.eval_top_level_stmt(parsing::Statement::FunctionDefinition {
            identifier: "func".to_string(),
            parameters: vec![],
            return_type: None,
            body: vec![],
            pos: Position::new()
        }),
        Ok(())
    );
    assert!(chkr.function_lookup("func", &[], &Position::new())?.return_type.is_none());

    assert_eq!(
        chkr.eval_top_level_stmt(parsing::Statement::FunctionDefinition {
            identifier: "func".to_string(),
            parameters: vec![],
            return_type: Some(ann("Num")),
            body: vec![parsing::Statement::Return(Some(parsing::Expression::NumberLiteral {
                pos: Position::new(),
                value: 1.5f64.to_bits()
            }))],
            pos: Position::new()
        }),
        Err(checking::Failure::RedefinedExistingFunction("func".to_string(), vec![]))
    );

    assert!(matches!(
        chkr.eval_top_level_stmt(parsing::Statement::FunctionDefinition {
            identifier: "func".to_string(),
            parameters: vec![parsing::Parameter {
                pos: Position::new(),
                identifier: "x".to_string(),
                param_type: ann("Char")
            }],
            return_type: Some(ann("Num")),
            body: vec![],
            pos: Position::new()
        }),
        Err(checking::Failure::FunctionUnexpectedReturnType {
            pos: _,
            identifier: _,
            params: _,
            expected: checking::Type::Num,
            encountered: None
        })
    ));

    assert!(matches!(
        chkr.eval_top_level_stmt(parsing::Statement::FunctionDefinition {
            identifier: "xyz".to_string(),
            parameters: vec![],
            return_type: None,
            body: vec![parsing::Statement::Return(Some(parsing::Expression::BooleanLiteral {
                pos: Position::new(),
                value: true
            }))],
            pos: Position::new()
        }),
        Err(checking::Failure::VoidFunctionReturnsValue(_, _, _, checking::Type::Bool))
    ));

    assert_eq!(
        chkr.eval_top_level_stmt(parsing::Statement::FunctionDefinition {
            identifier: "useless_function".to_string(),
            parameters: vec![parsing::Parameter {
                pos: Position::new(),
                identifier: "x".to_string(),
                param_type: ann("Num")
            }],
            return_type: Some(ann("Num")),
            body: vec![parsing::Statement::Return(Some(parsing::Expression::Variable {
                pos: Position::new(),
                identifier: "x".to_string()
            }))],
            pos: Position::new()
        }),
        Ok(())
    );

    Ok(())
}

#[test]
fn variable_shadowing() -> Result<(), checking::Failure> {
    let mut chkr = new_empty_checker();

    let pos = Position::new();

    chkr.eval_inner_stmt(parsing::Statement::VariableDeclaration {
        identifier: "x".to_string(),
        var_type: ann("Num"),
        value: None,
    })?;

    chkr.begin_new_scope();

    // Shadow variable 'x' by declaring a variable in the inner scope of the
    // same name but a different type:
    chkr.eval_inner_stmt(parsing::Statement::VariableDeclaration {
        identifier: "x".to_string(),
        var_type: ann("Bool"),
        value: None,
    })?;

    assert_eq!(chkr.variable_lookup("x", &pos)?.var_type, checking::Type::Bool);

    chkr.end_scope();

    assert_eq!(chkr.variable_lookup("x", &pos)?.var_type, checking::Type::Num);

    assert_eq!(
        chkr.eval_inner_stmt(parsing::Statement::VariableDeclaration {
            identifier: "x".to_string(),
            var_type: ann("Char"),
            value: None
        }),
        Err(checking::Failure::VariableRedeclaredToDifferentType {
            identifier: "x".to_string(),
            expected: checking::Type::Num,
            encountered: checking::Type::Char
        })
    );

    Ok(())
}
