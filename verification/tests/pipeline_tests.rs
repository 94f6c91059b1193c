use meanslang::compiler::Compiler;
use meanslang::lexer::MeansLexer;
use meanslang::parser::MeansParser;
use meanslang::value::Value;
use meanslang::vm::MeansVM;
use meanslang::vm::VMError;

fn run_source(src: &str) -> (u32, VMError, Option<f32>) {
    let lexer = MeansLexer::create();
    let (tokens, diags) = lexer.tokenise(src);
    assert_eq!(diags.len(), 0);
    let mut parser = MeansParser::new(tokens);
    let ast = parser.parse().expect("source should parse");
    let mut compiler = Compiler::new();
    let code = compiler.compile(ast).expect("source should compile");
    let mut vm = MeansVM::create();
    let exit = vm.run(&code);
    let top = vm.peek_stack().map(|v| match v {
        Value::Number(bits) => f32::from_bits(bits),
    });
    (exit, vm.last_error(), top)
}

#[test]
fn pipeline_example_program() {
    let (exit, err, top) = run_source("\nfoo = 3 + (4.0 * 5);\nbar = foo * 2 / foo;\n");
    assert_eq!(exit, 0);
    assert_eq!(err, VMError::NoError);
    // right-associative: bar = foo * (2 / foo) with foo = 23
    let foo = 3.0f32 + (4.0f32 * 5.0f32);
    let bar = foo * (2.0f32 / foo);
    assert_eq!(top.unwrap().to_bits(), bar.to_bits());
}

#[test]
fn pipeline_round_trip_matches_direct_eval() {
    // Compiling then executing equals evaluating directly under the
    // parser's right-associative reading: 1.5 + (2.25 * (4 - 3)).
    let (exit, _, top) = run_source("x = 1.5 + 2.25 * 4 - 3;");
    assert_eq!(exit, 0);
    let direct = 1.5f32 + (2.25f32 * (4.0f32 - 3.0f32));
    assert_eq!(top.unwrap().to_bits(), direct.to_bits());
}

#[test]
fn pipeline_right_associative_division() {
    let (exit, _, top) = run_source("x = 7 / 2 / 2;");
    assert_eq!(exit, 0);
    // 7 / (2 / 2), not (7 / 2) / 2
    assert_eq!(top.unwrap().to_bits(), 7.0f32.to_bits());
}

#[test]
fn pipeline_division_by_zero_is_not_an_error() {
    let (exit, err, top) = run_source("x = 1 / 0;");
    assert_eq!(exit, 0);
    assert_eq!(err, VMError::NoError);
    let v = top.unwrap();
    assert!(!v.is_finite());
    assert!(v.is_infinite());
}

#[test]
fn pipeline_modulo() {
    let (exit, _, top) = run_source("x = 7 % 3;");
    assert_eq!(exit, 0);
    assert_eq!(top.unwrap().to_bits(), 1.0f32.to_bits());
}

#[test]
fn pipeline_unary_negation() {
    let (exit, _, top) = run_source("x = -(2.5);");
    assert_eq!(exit, 0);
    assert_eq!(top.unwrap().to_bits(), (-2.5f32).to_bits());
}

#[test]
fn pipeline_float_literal_rounding() {
    // 0.1 has no exact binary32 representation: the literal must round
    // exactly as Rust's own float parsing does.
    let (exit, _, top) = run_source("x = 0.1;");
    assert_eq!(exit, 0);
    assert_eq!(top.unwrap().to_bits(), 0.1f32.to_bits());
}

#[test]
fn pipeline_integer_widening_rounds() {
    // 16777217 = 2^24 + 1 is not representable in binary32: widening must
    // round exactly as Rust's integer-to-float cast does.
    let (exit, _, top) = run_source("x = 16777217;");
    assert_eq!(exit, 0);
    assert_eq!(top.unwrap().to_bits(), (16777217i32 as f32).to_bits());
}

#[test]
fn pipeline_addition_rounds_like_hardware() {
    let (exit, _, top) = run_source("x = 0.1 + 0.2;");
    assert_eq!(exit, 0);
    assert_eq!(top.unwrap().to_bits(), (0.1f32 + 0.2f32).to_bits());
}

#[test]
fn pipeline_shadowing_uses_latest_binding() {
    let (exit, _, top) = run_source("x = 1; x = 2; y = x;");
    assert_eq!(exit, 0);
    assert_eq!(top.unwrap().to_bits(), 2.0f32.to_bits());
}
