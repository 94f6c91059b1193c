use meanslang::ast::BinaryOperator;
use meanslang::ast::Expression;
use meanslang::ast::Program;
use meanslang::ast::Statement;
use meanslang::ast::Value as AstValue;
use meanslang::compiler::Compiler;
use meanslang::ops::Op;
use meanslang::value::Value;
use meanslang::vm::MeansVM;
use meanslang::vm::VMError;

#[test]
fn test_scope() {
    let mut compiler = Compiler::new();
    compiler.declare_local(String::from("var1"));
    compiler.declare_local(String::from("var2"));
    compiler.push_scope();
    compiler.declare_local(String::from("var3"));
    assert_eq!(compiler.locals.len(), 3);
    let push_ops = compiler.pop_scope();
    assert_eq!(push_ops, vec![Op::Pop]);
    assert_eq!(compiler.locals.len(), 2);
}

#[test]
fn compile_assignment_and_reference() {
    // x = 3.0; y = x;  — the reference resolves to x's stack slot, and the
    // run leaves 3.0 on top of the stack.
    let program = Program {
        statements: vec![
            Statement::Assignment {
                id: "x".to_owned(),
                expr: Expression::EVal(AstValue::Float(3.0f32.to_bits())),
            },
            Statement::Assignment {
                id: "y".to_owned(),
                expr: Expression::EVal(AstValue::Variable("x".to_owned())),
            },
        ],
    };
    let mut compiler = Compiler::new();
    let code = compiler.compile(program).expect("should compile");
    assert_eq!(code.code, vec![Op::Constant(0), Op::Local(0)]);
    assert_eq!(code.constants, vec![Value::Number(3.0f32.to_bits())]);
    let mut vm = MeansVM::create();
    assert_eq!(vm.run(&code), 0);
    assert_eq!(vm.peek_stack(), Some(Value::Number(3.0f32.to_bits())));
}

#[test]
fn compile_shadowing_resolves_to_second() {
    // x = 1; x = 2; y = x;  — the reference resolves to the second x.
    let program = Program {
        statements: vec![
            Statement::Assignment {
                id: "x".to_owned(),
                expr: Expression::EVal(AstValue::Float(1.0f32.to_bits())),
            },
            Statement::Assignment {
                id: "x".to_owned(),
                expr: Expression::EVal(AstValue::Float(2.0f32.to_bits())),
            },
            Statement::Assignment {
                id: "y".to_owned(),
                expr: Expression::EVal(AstValue::Variable("x".to_owned())),
            },
        ],
    };
    let mut compiler = Compiler::new();
    let code = compiler.compile(program).expect("should compile");
    assert_eq!(code.code, vec![Op::Constant(0), Op::Constant(1), Op::Local(1)]);
    let mut vm = MeansVM::create();
    assert_eq!(vm.run(&code), 0);
    assert_eq!(vm.last_error(), VMError::NoError);
    assert_eq!(vm.peek_stack(), Some(Value::Number(2.0f32.to_bits())));
}

#[test]
fn compile_undeclared_variable_fails() {
    let program = Program {
        statements: vec![Statement::Assignment {
            id: "x".to_owned(),
            expr: Expression::EVal(AstValue::Variable("nope".to_owned())),
        }],
    };
    let mut compiler = Compiler::new();
    let err = compiler.compile(program).expect_err("should fail");
    assert_eq!(err.message(), "Could not find variable nope");
}

#[test]
fn find_local_most_recent_wins() {
    let mut compiler = Compiler::new();
    compiler.declare_local("x".to_owned());
    compiler.declare_local("y".to_owned());
    compiler.declare_local("x".to_owned());
    assert_eq!(compiler.find_local("x".to_owned()), Some(2));
    assert_eq!(compiler.find_local("y".to_owned()), Some(1));
    assert_eq!(compiler.find_local("z".to_owned()), None);
}

#[test]
fn compile_expression_is_post_order() {
    // 1 + 2 * 3 (right-associative): operands first, operators after.
    let program = Program {
        statements: vec![Statement::Assignment {
            id: "x".to_owned(),
            expr: Expression::BinaryOp {
                op: BinaryOperator::Addition,
                left: Box::new(Expression::EVal(AstValue::Integer(1))),
                right: Box::new(Expression::BinaryOp {
                    op: BinaryOperator::Multiplication,
                    left: Box::new(Expression::EVal(AstValue::Integer(2))),
                    right: Box::new(Expression::EVal(AstValue::Integer(3))),
                }),
            },
        }],
    };
    let mut compiler = Compiler::new();
    let code = compiler.compile(program).expect("should compile");
    assert_eq!(
        code.code,
        vec![Op::Constant(0), Op::Constant(1), Op::Constant(2), Op::Mult, Op::Add]
    );
    assert_eq!(
        code.constants,
        vec![
            Value::Number(1.0f32.to_bits()),
            Value::Number(2.0f32.to_bits()),
            Value::Number(3.0f32.to_bits()),
        ]
    );
}

#[test]
fn get_precedence_values() {
    assert_eq!(BinaryOperator::Addition.get_precedence(), 13);
    assert_eq!(BinaryOperator::Subtraction.get_precedence(), 13);
    assert_eq!(BinaryOperator::Multiplication.get_precedence(), 14);
    assert_eq!(BinaryOperator::Division.get_precedence(), 14);
    assert_eq!(BinaryOperator::Modulo.get_precedence(), 14);
}
