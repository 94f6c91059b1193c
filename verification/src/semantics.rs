//! What compiled programs compute.
//!
//! `eval_bits` evaluates an expression of literals directly, under the same
//! right-associative tree the parser builds; the round-trip law
//! (`lemma_compile_run_round_trip`) proves that compiling such an expression
//! and running the bytecode leaves exactly that value on the machine's
//! stack.  The module also states the machine's capacity laws: a push onto a
//! full stack faults with `StackOver`, a pop from an empty stack with
//! `StackUnder`, and a fault halts the run at once.

use vstd::prelude::*;

use crate::ast::BinaryOperator;
use crate::ast::ExpressionView;
use crate::ast::StatementView;
use crate::ast::UnaryOperator;
use crate::ast::ValueView;
use crate::compiler::emit_expression;
use crate::compiler::emit_program;
use crate::compiler::emit_statement;
use crate::compiler::spec_binary_op_code;
use crate::compiler::LocalView;
use crate::numeric::add_bits;
use crate::numeric::div_bits;
use crate::numeric::i32_to_bits;
use crate::numeric::mod_bits;
use crate::numeric::mul_bits;
use crate::numeric::neg_bits;
use crate::numeric::sub_bits;
use crate::ops::Op;
use crate::value::Value;
use crate::vm::spec_run;
use crate::vm::spec_step;
use crate::vm::VMError;
use crate::vm::VM_STACK_SIZE;

verus! {

/// The bit pattern a binary operator computes from its operands' bits (left
/// operand first).
pub open spec fn apply_binary(op: BinaryOperator, a: u32, b: u32) -> u32 {
    match op {
        BinaryOperator::Addition => add_bits(a, b),
        BinaryOperator::Subtraction => sub_bits(a, b),
        BinaryOperator::Multiplication => mul_bits(a, b),
        BinaryOperator::Division => div_bits(a, b),
        BinaryOperator::Modulo => mod_bits(a, b),
    }
}

/// Whether the expression is built from literals and operators alone — no
/// variable references.
pub open spec fn lit_only(e: ExpressionView) -> bool
    decreases e,
{
    match e {
        ExpressionView::BinaryOp { op, left, right } => lit_only(*left) && lit_only(*right),
        ExpressionView::UnaryOp { op, expr } => lit_only(*expr),
        ExpressionView::EVal(v) => !(v is Variable),
    }
}

/// Direct evaluation of a literal-only expression: the bit pattern of its
/// value, combining operands left-to-right exactly as the tree stands.
pub open spec fn eval_bits(e: ExpressionView) -> u32
    decreases e,
{
    match e {
        ExpressionView::BinaryOp { op, left, right } => apply_binary(
            op,
            eval_bits(*left),
            eval_bits(*right),
        ),
        ExpressionView::UnaryOp { op, expr } => neg_bits(eval_bits(*expr)),
        ExpressionView::EVal(ValueView::Float(b)) => b,
        ExpressionView::EVal(ValueView::Integer(n)) => i32_to_bits(n),
        ExpressionView::EVal(ValueView::Variable(_)) => arbitrary(),
    }
}

/// The stack head-room evaluating the expression's bytecode needs: a leaf
/// pushes one value; a binary operation holds its left operand while the
/// right is evaluated.
pub open spec fn max_stack(e: ExpressionView) -> nat
    decreases e,
{
    match e {
        ExpressionView::BinaryOp { op, left, right } => {
            let l = max_stack(*left);
            let r = 1 + max_stack(*right);
            if l >= r {
                l
            } else {
                r as nat
            }
        },
        ExpressionView::UnaryOp { op, expr } => max_stack(*expr),
        ExpressionView::EVal(_) => 1,
    }
}

/// Whether every `Constant` instruction in the code indexes below `n`.
pub open spec fn code_consts_bounded(code: Seq<Op>, n: nat) -> bool {
    forall|k: int|
        0 <= k < code.len() ==> (#[trigger] code[k] matches Op::Constant(i) ==> i < n)
}

/// A run reads the constant pool only below a bound the code respects: two
/// pools that agree below it drive the run identically.
pub proof fn lemma_run_consts_agree(
    code: Seq<Op>,
    consts1: Seq<Value>,
    consts2: Seq<Value>,
    stack: Seq<Value>,
    output: Seq<Value>,
    n: nat,
)
    requires
        code_consts_bounded(code, n),
        n <= consts1.len(),
        n <= consts2.len(),
        forall|i: int| 0 <= i < n ==> consts1[i] == consts2[i],
    ensures
        spec_run(code, consts1, stack, output) == spec_run(code, consts2, stack, output),
    decreases code.len(),
{
    if code.len() > 0 {
        assert(spec_step(consts1, stack, output, code[0]) == spec_step(
            consts2,
            stack,
            output,
            code[0],
        ));
        assert(code_consts_bounded(code.drop_first(), n)) by {
            assert(forall|k: int|
                0 <= k < code.drop_first().len() ==> code.drop_first()[k] == #[trigger] code[k
                    + 1]);
        }
        match spec_step(consts1, stack, output, code[0]) {
            Ok(next) => {
                lemma_run_consts_agree(code.drop_first(), consts1, consts2, next.0, next.1, n);
            },
            Err(_) => {},
        }
    }
}

/// Sequential composition: running concatenated code runs the first part,
/// and — unless it faulted — the second from where the first left off.
pub proof fn lemma_run_append(
    c1: Seq<Op>,
    c2: Seq<Op>,
    consts: Seq<Value>,
    stack: Seq<Value>,
    output: Seq<Value>,
)
    ensures
        ({
            let (s1, p1, e1) = spec_run(c1, consts, stack, output);
            spec_run(c1 + c2, consts, stack, output) == if e1 == VMError::NoError {
                spec_run(c2, consts, s1, p1)
            } else {
                (s1, p1, e1)
            }
        }),
    decreases c1.len(),
{
    if c1.len() == 0 {
        assert(c1 + c2 =~= c2);
    } else {
        assert((c1 + c2)[0] == c1[0]);
        assert((c1 + c2).drop_first() =~= c1.drop_first() + c2);
        match spec_step(consts, stack, output, c1[0]) {
            Ok(next) => {
                lemma_run_append(c1.drop_first(), c2, consts, next.0, next.1);
            },
            Err(_) => {},
        }
    }
}

/// Compiling a literal-only expression cannot fail: the one failure is an
/// undeclared variable, and there are none.
pub proof fn lemma_lit_only_emits(e: ExpressionView, locals: Seq<LocalView>, cbase: nat)
    requires
        lit_only(e),
    ensures
        emit_expression(e, locals, cbase).error is None,
    decreases e,
{
    match e {
        ExpressionView::BinaryOp { op, left, right } => {
            lemma_lit_only_emits(*left, locals, cbase);
            lemma_lit_only_emits(
                *right,
                locals,
                cbase + emit_expression(*left, locals, cbase).consts.len(),
            );
        },
        ExpressionView::UnaryOp { op, expr } => {
            lemma_lit_only_emits(*expr, locals, cbase);
        },
        ExpressionView::EVal(v) => {},
    }
}

/// Emitted code only reads constants it appended: all its `Constant`
/// indices lie in `[cbase, cbase + consts.len())`.
pub proof fn lemma_emit_bounded(e: ExpressionView, locals: Seq<LocalView>, cbase: nat)
    requires
        emit_expression(e, locals, cbase).error is None,
    ensures
        code_consts_bounded(
            emit_expression(e, locals, cbase).ops,
            cbase + emit_expression(e, locals, cbase).consts.len(),
        ),
    decreases e,
{
    let em = emit_expression(e, locals, cbase);
    match e {
        ExpressionView::BinaryOp { op, left, right } => {
            let l = emit_expression(*left, locals, cbase);
            let r = emit_expression(*right, locals, cbase + l.consts.len());
            lemma_emit_bounded(*left, locals, cbase);
            lemma_emit_bounded(*right, locals, cbase + l.consts.len());
            assert forall|k: int|
                0 <= k < em.ops.len() implies (#[trigger] em.ops[k] matches Op::Constant(i) ==> i
                < cbase + em.consts.len()) by {
                if k < l.ops.len() {
                    assert(em.ops[k] == l.ops[k]);
                } else if k < l.ops.len() + r.ops.len() {
                    assert(em.ops[k] == r.ops[k - l.ops.len()]);
                } else {
                    assert(em.ops[k] == spec_binary_op_code(op));
                }
            }
        },
        ExpressionView::UnaryOp { op, expr } => {
            let x = emit_expression(*expr, locals, cbase);
            lemma_emit_bounded(*expr, locals, cbase);
            assert forall|k: int|
                0 <= k < em.ops.len() implies (#[trigger] em.ops[k] matches Op::Constant(i) ==> i
                < cbase + em.consts.len()) by {
                if k < x.ops.len() {
                    assert(em.ops[k] == x.ops[k]);
                }
            }
        },
        ExpressionView::EVal(v) => {},
    }
}

/// Running the bytecode of a literal-only expression, with the pool holding
/// exactly the constants it appended from `cbase` on, pushes the
/// expression's direct value and nothing else — provided the stack has the
/// head-room `max_stack` asks for.
pub proof fn lemma_emit_expression_correct(
    e: ExpressionView,
    locals: Seq<LocalView>,
    consts: Seq<Value>,
    cbase: nat,
    stack: Seq<Value>,
    output: Seq<Value>,
)
    requires
        lit_only(e),
        consts.len() <= usize::MAX,
        cbase <= consts.len(),
        consts.len() == cbase + emit_expression(e, locals, cbase).consts.len(),
        consts.skip(cbase as int) == emit_expression(e, locals, cbase).consts,
        stack.len() + max_stack(e) <= VM_STACK_SIZE,
    ensures
        spec_run(emit_expression(e, locals, cbase).ops, consts, stack, output) == (
            stack.push(Value::Number(eval_bits(e))),
            output,
            VMError::NoError,
        ),
    decreases e,
{
    reveal_with_fuel(spec_run, 3);
    lemma_lit_only_emits(e, locals, cbase);
    let em = emit_expression(e, locals, cbase);
    match e {
        ExpressionView::EVal(v) => {
            match v {
                ValueView::Float(b) => {
                    assert(consts[cbase as int] == consts.skip(cbase as int)[0]);
                    assert(consts[cbase as int] == Value::Number(b));
                    assert(em.ops[0] == Op::Constant(cbase as usize));
                    assert(cbase as usize as int == cbase);
                    assert(spec_step(consts, stack, output, em.ops[0]) == Ok::<
                        (Seq<Value>, Seq<Value>),
                        VMError,
                    >((stack.push(Value::Number(b)), output)));
                    assert(em.ops.drop_first() =~= Seq::<Op>::empty());
                },
                ValueView::Integer(n) => {
                    assert(consts[cbase as int] == consts.skip(cbase as int)[0]);
                    assert(consts[cbase as int] == Value::Number(i32_to_bits(n)));
                    assert(em.ops[0] == Op::Constant(cbase as usize));
                    assert(cbase as usize as int == cbase);
                    assert(spec_step(consts, stack, output, em.ops[0]) == Ok::<
                        (Seq<Value>, Seq<Value>),
                        VMError,
                    >((stack.push(Value::Number(i32_to_bits(n))), output)));
                    assert(em.ops.drop_first() =~= Seq::<Op>::empty());
                },
                ValueView::Variable(_) => {},
            }
        },
        ExpressionView::UnaryOp { op, expr } => {
            let x = emit_expression(*expr, locals, cbase);
            lemma_emit_expression_correct(*expr, locals, consts, cbase, stack, output);
            lemma_run_append(x.ops, seq![Op::Negate], consts, stack, output);
            let stack1 = stack.push(Value::Number(eval_bits(*expr)));
            assert(stack1.take(stack1.len() - 1) =~= stack);
            assert(seq![Op::Negate].drop_first() =~= Seq::<Op>::empty());
            assert(stack1[stack1.len() - 1] == Value::Number(eval_bits(*expr)));
            assert(spec_step(consts, stack1, output, Op::Negate) == Ok::<
                (Seq<Value>, Seq<Value>),
                VMError,
            >((stack.push(Value::Number(neg_bits(eval_bits(*expr)))), output)));
            assert(seq![Op::Negate][0] == Op::Negate);
            assert(spec_run(seq![Op::Negate], consts, stack1, output) == (
                stack.push(Value::Number(neg_bits(eval_bits(*expr)))),
                output,
                VMError::NoError,
            ));
        },
        ExpressionView::BinaryOp { op, left, right } => {
            let l = emit_expression(*left, locals, cbase);
            let cmid = cbase + l.consts.len();
            let r = emit_expression(*right, locals, cmid);
            let consts1 = consts.take(cmid as int);
            assert(em.consts == l.consts + r.consts);
            assert(consts.skip(cbase as int) == l.consts + r.consts);
            assert forall|j: int| 0 <= j < l.consts.len() implies l.consts[j] == consts[cbase
                + j] by {
                assert((l.consts + r.consts)[j] == l.consts[j]);
                assert(consts.skip(cbase as int)[j] == consts[cbase + j]);
            }
            assert forall|j: int| 0 <= j < r.consts.len() implies r.consts[j] == consts[cmid
                + j] by {
                assert((l.consts + r.consts)[l.consts.len() + j] == r.consts[j]);
                assert(consts.skip(cbase as int)[l.consts.len() + j] == consts[cbase
                    + l.consts.len() + j]);
            }
            assert(consts1.skip(cbase as int) =~= l.consts);
            assert(consts.skip(cmid as int) =~= r.consts);
            lemma_emit_expression_correct(*left, locals, consts1, cbase, stack, output);
            lemma_emit_bounded(*left, locals, cbase);
            lemma_run_consts_agree(l.ops, consts1, consts, stack, output, cmid);
            let stack1 = stack.push(Value::Number(eval_bits(*left)));
            lemma_emit_expression_correct(*right, locals, consts, cmid, stack1, output);
            let stack2 = stack1.push(Value::Number(eval_bits(*right)));
            lemma_run_append(l.ops, r.ops, consts, stack, output);
            assert(spec_run(l.ops + r.ops, consts, stack, output) == (
                stack2,
                output,
                VMError::NoError,
            ));
            let opc = spec_binary_op_code(op);
            lemma_run_append(l.ops + r.ops, seq![opc], consts, stack, output);
            assert(em.ops == (l.ops + r.ops) + seq![opc]);
            assert(stack2.take(stack2.len() - 2) =~= stack);
            assert(stack2[stack2.len() - 2] == Value::Number(eval_bits(*left)));
            assert(stack2[stack2.len() - 1] == Value::Number(eval_bits(*right)));
            assert(seq![opc].drop_first() =~= Seq::<Op>::empty());
            assert(seq![opc][0] == opc);
            assert(spec_step(consts, stack2, output, opc) == Ok::<
                (Seq<Value>, Seq<Value>),
                VMError,
            >((stack.push(Value::Number(eval_bits(e))), output)));
            assert(spec_run(seq![opc], consts, stack2, output) == (
                stack.push(Value::Number(eval_bits(e))),
                output,
                VMError::NoError,
            ));
        },
    }
}

/// Round trip: compiling a single assignment of a literal-only expression
/// (into a fresh compiler) and executing the bytecode on a fresh machine
/// runs without fault and leaves exactly the expression's directly-evaluated
/// value on the stack — provided the expression's head-room fits the
/// machine's fixed capacity.
pub proof fn lemma_compile_run_round_trip(name: Seq<char>, e: ExpressionView)
    requires
        lit_only(e),
        max_stack(e) <= VM_STACK_SIZE,
        emit_expression(e, Seq::<LocalView>::empty(), 0).consts.len() <= usize::MAX,
    ensures
        ({
            let prog = seq![StatementView { id: name, expr: e }];
            let (em, locals2) = emit_program(prog, Seq::<LocalView>::empty(), 0, 0);
            &&& em.error is None
            &&& spec_run(em.ops, em.consts, Seq::<Value>::empty(), Seq::<Value>::empty()) == (
                seq![Value::Number(eval_bits(e))],
                Seq::<Value>::empty(),
                VMError::NoError,
            )
        }),
{
    reveal_with_fuel(emit_program, 2);
    let prog = seq![StatementView { id: name, expr: e }];
    let st = prog[0];
    assert(st == StatementView { id: name, expr: e });
    assert(st.expr == e);
    lemma_lit_only_emits(e, Seq::<LocalView>::empty(), 0);
    let ex = emit_expression(e, Seq::<LocalView>::empty(), 0);
    let (em1, locals1) = emit_statement(st, Seq::<LocalView>::empty(), 0, 0);
    assert(prog.drop_first() =~= Seq::<StatementView>::empty());
    let (em, locals2) = emit_program(prog, Seq::<LocalView>::empty(), 0, 0);
    assert(em1.ops == ex.ops);
    assert(em.ops =~= ex.ops + Seq::<Op>::empty());
    assert(em.ops =~= ex.ops);
    assert(em.consts =~= ex.consts);
    assert(ex.consts.skip(0) =~= ex.consts);
    lemma_emit_expression_correct(
        e,
        Seq::<LocalView>::empty(),
        ex.consts,
        0,
        Seq::<Value>::empty(),
        Seq::<Value>::empty(),
    );
    assert(Seq::<Value>::empty().push(Value::Number(eval_bits(e))) =~= seq![
        Value::Number(eval_bits(e)),
    ]);
}

/// Pushing onto a full stack faults with `StackOver`: a `Constant` or
/// `Local` whose index is in range still cannot grow the stack past its
/// capacity.
pub proof fn lemma_push_on_full_overflows(
    consts: Seq<Value>,
    stack: Seq<Value>,
    output: Seq<Value>,
    op: Op,
)
    requires
        stack.len() == VM_STACK_SIZE,
        (op matches Op::Constant(i) && i < consts.len()) || (op matches Op::Local(i) && i
            < stack.len()),
    ensures
        spec_step(consts, stack, output, op) == Err::<(Seq<Value>, Seq<Value>), VMError>(
            VMError::StackOver,
        ),
{
}

/// A faulting instruction halts the whole run at once, with the state just
/// before the fault.
pub proof fn lemma_fault_halts(
    code: Seq<Op>,
    consts: Seq<Value>,
    stack: Seq<Value>,
    output: Seq<Value>,
)
    requires
        code.len() > 0,
        spec_step(consts, stack, output, code[0]) is Err,
    ensures
        spec_run(code, consts, stack, output) == (
            stack,
            output,
            spec_step(consts, stack, output, code[0])->Err_0,
        ),
{
}

/// `Pop` against an empty stack halts the run with `StackUnder`, whatever
/// follows it.
pub proof fn lemma_pop_on_empty_underflows(code: Seq<Op>, consts: Seq<Value>, output: Seq<Value>)
    requires
        code.len() > 0,
        code[0] == Op::Pop,
    ensures
        spec_run(code, consts, Seq::empty(), output) == (
            Seq::<Value>::empty(),
            output,
            VMError::StackUnder,
        ),
{
}

/// A block of `k` pushes of the first constant.
pub open spec fn constant_fill_code(k: nat) -> Seq<Op> {
    Seq::new(k, |j: int| Op::Constant(0))
}

/// `k` copies of one value.
pub open spec fn repeated(v: Value, k: nat) -> Seq<Value> {
    Seq::new(k, |j: int| v)
}

/// Exceeding the fixed stack capacity halts with `StackOver`: a block of
/// `k` pushes runs to completion exactly when it fits, and otherwise fills
/// the stack and faults.
pub proof fn lemma_fill_overflow(k: nat, consts: Seq<Value>, stack: Seq<Value>, output: Seq<Value>)
    requires
        consts.len() > 0,
        stack.len() <= VM_STACK_SIZE,
    ensures
        ({
            let (s, p, e) = spec_run(constant_fill_code(k), consts, stack, output);
            &&& p == output
            &&& stack.len() + k <= VM_STACK_SIZE ==> e == VMError::NoError && s == stack + repeated(
                consts[0],
                k,
            )
            &&& stack.len() + k > VM_STACK_SIZE ==> e == VMError::StackOver && s == stack
                + repeated(consts[0], (VM_STACK_SIZE - stack.len()) as nat)
        }),
    decreases k,
{
    let code = constant_fill_code(k);
    if k == 0 {
        assert(code.len() == 0);
        assert(stack + repeated(consts[0], 0) =~= stack);
    } else {
        assert(code[0] == Op::Constant(0));
        if stack.len() == VM_STACK_SIZE {
            assert(stack + repeated(consts[0], 0) =~= stack);
        } else {
            let stack1 = stack.push(consts[0]);
            assert(code.drop_first() =~= constant_fill_code((k - 1) as nat));
            lemma_fill_overflow((k - 1) as nat, consts, stack1, output);
            if stack.len() + k <= VM_STACK_SIZE {
                assert(stack1 + repeated(consts[0], (k - 1) as nat) =~= stack + repeated(
                    consts[0],
                    k,
                ));
            } else {
                assert(stack1 + repeated(consts[0], (VM_STACK_SIZE - stack1.len()) as nat)
                    =~= stack + repeated(consts[0], (VM_STACK_SIZE - stack.len()) as nat));
            }
        }
    }
}

} // verus!
