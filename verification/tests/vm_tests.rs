use meanslang::code_block::CodeBlock;
use meanslang::ops::Op;
use meanslang::value::Value;
use meanslang::vm::MeansVM;
use meanslang::vm::VMError;

fn block(code: Vec<Op>, constants: Vec<f32>) -> CodeBlock {
    let mut blk = CodeBlock::create();
    for op in code {
        blk.add_op(op);
    }
    for c in constants {
        blk.add_constant(Value::Number(c.to_bits()));
    }
    blk
}

#[test]
fn vm_stack_overflow_halts() {
    // 101 pushes exceed the fixed capacity of 100.
    let blk = block(vec![Op::Constant(0); 101], vec![1.0]);
    let mut vm = MeansVM::create();
    let exit = vm.run(&blk);
    assert_ne!(exit, 0);
    assert_eq!(vm.last_error(), VMError::StackOver);
}

#[test]
fn vm_stack_exact_capacity_succeeds() {
    let blk = block(vec![Op::Constant(0); 100], vec![1.0]);
    let mut vm = MeansVM::create();
    assert_eq!(vm.run(&blk), 0);
    assert_eq!(vm.last_error(), VMError::NoError);
}

#[test]
fn vm_stack_underflow_halts() {
    let blk = block(vec![Op::Pop], vec![]);
    let mut vm = MeansVM::create();
    let exit = vm.run(&blk);
    assert_eq!(exit, 1);
    assert_eq!(vm.last_error(), VMError::StackUnder);
}

#[test]
fn vm_missing_constant_halts() {
    let blk = block(vec![Op::Constant(5)], vec![]);
    let mut vm = MeansVM::create();
    assert_eq!(vm.run(&blk), 1);
    assert_eq!(vm.last_error(), VMError::NoConstant);
}

#[test]
fn vm_invalid_local_halts() {
    let blk = block(vec![Op::Local(0)], vec![]);
    let mut vm = MeansVM::create();
    assert_eq!(vm.run(&blk), 1);
    assert_eq!(vm.last_error(), VMError::InvalidLocal);
}

#[test]
fn vm_halts_immediately_on_fault() {
    // The fault on the first instruction stops the run: the push after it
    // never executes, so the stack stays empty.
    let blk = block(vec![Op::Pop, Op::Constant(0)], vec![1.0]);
    let mut vm = MeansVM::create();
    assert_eq!(vm.run(&blk), 1);
    assert_eq!(vm.last_error(), VMError::StackUnder);
    assert_eq!(vm.peek_stack(), None);
}

#[test]
fn vm_print_logs_value() {
    let blk = block(vec![Op::Constant(0), Op::Print], vec![2.5]);
    let mut vm = MeansVM::create();
    assert_eq!(vm.run(&blk), 0);
    assert_eq!(vm.output(), &vec![Value::Number(2.5f32.to_bits())]);
    assert_eq!(vm.peek_stack(), None);
}

#[test]
fn vm_peek_empty_stack() {
    let vm = MeansVM::create();
    assert_eq!(vm.peek_stack(), None);
}

#[test]
fn vm_subtracts_left_to_right() {
    // Operands are combined as pushed: 10 - 4, not 4 - 10.
    let blk = block(vec![Op::Constant(0), Op::Constant(1), Op::Sub], vec![10.0, 4.0]);
    let mut vm = MeansVM::create();
    assert_eq!(vm.run(&blk), 0);
    assert_eq!(vm.peek_stack(), Some(Value::Number(6.0f32.to_bits())));
}

#[test]
fn vm_divides_left_to_right() {
    let blk = block(vec![Op::Constant(0), Op::Constant(1), Op::Divide], vec![10.0, 4.0]);
    let mut vm = MeansVM::create();
    assert_eq!(vm.run(&blk), 0);
    assert_eq!(vm.peek_stack(), Some(Value::Number(2.5f32.to_bits())));
}

#[test]
fn vm_modulo() {
    let blk = block(vec![Op::Constant(0), Op::Constant(1), Op::Modulo], vec![10.0, 4.0]);
    let mut vm = MeansVM::create();
    assert_eq!(vm.run(&blk), 0);
    assert_eq!(vm.peek_stack(), Some(Value::Number((10.0f32 % 4.0f32).to_bits())));
}

#[test]
fn vm_negate() {
    let blk = block(vec![Op::Constant(0), Op::Negate], vec![2.5]);
    let mut vm = MeansVM::create();
    assert_eq!(vm.run(&blk), 0);
    assert_eq!(vm.peek_stack(), Some(Value::Number((-2.5f32).to_bits())));
}

#[test]
fn vm_local_copies_slot() {
    let blk = block(vec![Op::Constant(0), Op::Constant(1), Op::Local(0)], vec![7.0, 8.0]);
    let mut vm = MeansVM::create();
    assert_eq!(vm.run(&blk), 0);
    assert_eq!(vm.peek_stack(), Some(Value::Number(7.0f32.to_bits())));
}

#[test]
fn vm_add_and_multiply() {
    let blk = block(
        vec![Op::Constant(0), Op::Constant(1), Op::Add, Op::Constant(2), Op::Mult],
        vec![1.5, 2.25, 4.0],
    );
    let mut vm = MeansVM::create();
    assert_eq!(vm.run(&blk), 0);
    assert_eq!(vm.peek_stack(), Some(Value::Number(((1.5f32 + 2.25f32) * 4.0f32).to_bits())));
}
