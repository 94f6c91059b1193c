//! The bytecode compiler: walks the syntax tree and appends instructions and
//! constants to a `CodeBlock`, resolving variable names to absolute stack
//! positions through a scoped table of locals.
//!
//! An assignment evaluates its right-hand side (leaving the result on the
//! stack) and then declares the assigned name as a new local bound to that
//! stack position: the value's stack slot is its storage, so no store
//! instruction exists.  Redeclaring a name shadows the older local: lookup
//! scans the table from the most recent declaration backwards.  Referencing
//! a name that was never declared is the compiler's only failure, and it
//! halts the compilation.

use vstd::prelude::*;

use crate::ast::BinaryOperator;
use crate::ast::Expression;
use crate::ast::ExpressionView;
use crate::ast::Program;
use crate::ast::Statement;
use crate::ast::StatementView;
use crate::ast::UnaryOperator;
use crate::ast::ValueView;
use crate::code_block::CodeBlock;
use crate::numeric::i32_to_bits;
use crate::numeric::i32_to_bits_exec;
use crate::ops::Op;
use crate::value::Value;

verus! {

/// The mathematical image of a compiler error.
pub struct CompilerErrorView {
    pub message: Seq<char>,
}

/// The compiler's one failure: a reference to a variable that was never
/// declared.  The message names the missing variable.
#[derive(Debug)]
pub struct CompilerError {
    message: String,
}

impl View for CompilerError {
    type V = CompilerErrorView;

    closed spec fn view(&self) -> CompilerErrorView {
        CompilerErrorView { message: self.message@ }
    }
}

impl DeepView for CompilerError {
    type V = CompilerErrorView;

    open spec fn deep_view(&self) -> CompilerErrorView {
        self.view()
    }
}

impl CompilerError {
    pub fn message(&self) -> (r: &String)
        ensures
            r@ == self@.message,
    {
        &self.message
    }
}

/// The message of the error that a reference to the undeclared `name`
/// produces.
pub open spec fn spec_missing_variable_message(name: Seq<char>) -> Seq<char> {
    "Could not find variable "@ + name
}

/// Relies on String::push_str: appends the slice's characters to the string.
#[verifier::external_body]
fn append_str(s: &mut String, t: &str)
    ensures
        final(s)@ == old(s)@ + t@,
{
    s.push_str(t)
}

/// The mathematical image of a declared local.
pub struct LocalView {
    pub name: Seq<char>,
    pub depth: int,
}

/// A declared local variable: its name and the lexical depth at which it was
/// declared.  Its position in the table is its absolute stack slot.
#[derive(Debug)]
pub struct LocalVar {
    pub name: String,
    pub depth: i32,
}

impl LocalVar {
    pub fn new(name: String, depth: i32) -> (r: LocalVar)
        ensures
            r@ == (LocalView { name: name@, depth: depth as int }),
    {
        LocalVar { name, depth }
    }
}

impl View for LocalVar {
    type V = LocalView;

    open spec fn view(&self) -> LocalView {
        LocalView { name: self.name@, depth: self.depth as int }
    }
}

impl DeepView for LocalVar {
    type V = LocalView;

    open spec fn deep_view(&self) -> LocalView {
        self.view()
    }
}

/// The slot of the most recently declared local with the given name: the
/// table is scanned backwards, so later declarations shadow earlier ones.
pub open spec fn spec_find_local(locals: Seq<LocalView>, name: Seq<char>) -> Option<int>
    decreases locals.len(),
{
    if locals.len() == 0 {
        None
    } else if locals.last().name == name {
        Some(locals.len() - 1)
    } else {
        spec_find_local(locals.drop_last(), name)
    }
}

/// Shadowing: immediately after declaring a local, looking its name up
/// resolves to that declaration's slot, whatever older locals carry the same
/// name.
pub proof fn lemma_shadowing(locals: Seq<LocalView>, l: LocalView)
    ensures
        spec_find_local(locals.push(l), l.name) == Some(locals.len() as int),
{
    assert(locals.push(l).last() == l);
}

/// What compiling a fragment appends: instructions, constants, and — where
/// compilation halted — the error.  On an error, `ops` and `consts` hold
/// what had been appended before the halt.
pub struct EmitResult {
    pub ops: Seq<Op>,
    pub consts: Seq<Value>,
    pub error: Option<CompilerErrorView>,
}

/// The opcode of a binary operator.
pub open spec fn spec_binary_op_code(op: BinaryOperator) -> Op {
    match op {
        BinaryOperator::Addition => Op::Add,
        BinaryOperator::Subtraction => Op::Sub,
        BinaryOperator::Multiplication => Op::Mult,
        BinaryOperator::Division => Op::Divide,
        BinaryOperator::Modulo => Op::Modulo,
    }
}

/// The opcode of a unary operator.
pub open spec fn spec_unary_op_code(op: UnaryOperator) -> Op {
    match op {
        UnaryOperator::Negation => Op::Negate,
    }
}

/// What compiling a leaf value emits, against a local table and with
/// `cbase` constants already in the pool: literals append one constant and
/// load it; a variable reference loads its slot, or fails naming the
/// variable.
pub open spec fn emit_value(v: ValueView, locals: Seq<LocalView>, cbase: nat) -> EmitResult {
    match v {
        ValueView::Float(b) => EmitResult {
            ops: seq![Op::Constant(cbase as usize)],
            consts: seq![Value::Number(b)],
            error: None,
        },
        ValueView::Integer(n) => EmitResult {
            ops: seq![Op::Constant(cbase as usize)],
            consts: seq![Value::Number(i32_to_bits(n))],
            error: None,
        },
        ValueView::Variable(name) => match spec_find_local(locals, name) {
            None => EmitResult {
                ops: Seq::empty(),
                consts: Seq::empty(),
                error: Some(CompilerErrorView { message: spec_missing_variable_message(name) }),
            },
            Some(idx) => EmitResult {
                ops: seq![Op::Local(idx as usize)],
                consts: Seq::empty(),
                error: None,
            },
        },
    }
}

/// What compiling an expression emits: post-order, operands before their
/// combining operator's opcode.
pub open spec fn emit_expression(e: ExpressionView, locals: Seq<LocalView>, cbase: nat) -> EmitResult
    decreases e,
{
    match e {
        ExpressionView::BinaryOp { op, left, right } => {
            let l = emit_expression(*left, locals, cbase);
            if l.error is Some {
                l
            } else {
                let r = emit_expression(*right, locals, cbase + l.consts.len());
                if r.error is Some {
                    EmitResult { ops: l.ops + r.ops, consts: l.consts + r.consts, error: r.error }
                } else {
                    EmitResult {
                        ops: l.ops + r.ops + seq![spec_binary_op_code(op)],
                        consts: l.consts + r.consts,
                        error: None,
                    }
                }
            }
        },
        ExpressionView::UnaryOp { op, expr } => {
            let x = emit_expression(*expr, locals, cbase);
            if x.error is Some {
                x
            } else {
                EmitResult {
                    ops: x.ops + seq![spec_unary_op_code(op)],
                    consts: x.consts,
                    error: None,
                }
            }
        },
        ExpressionView::EVal(v) => emit_value(v, locals, cbase),
    }
}

/// What compiling a statement emits, and the local table after it: the
/// right-hand side's code, then the assigned name declared at the current
/// depth — bound to the stack slot the expression's result occupies.
pub open spec fn emit_statement(
    st: StatementView,
    locals: Seq<LocalView>,
    depth: int,
    cbase: nat,
) -> (EmitResult, Seq<LocalView>) {
    let em = emit_expression(st.expr, locals, cbase);
    if em.error is Some {
        (em, locals)
    } else {
        (em, locals.push(LocalView { name: st.id, depth }))
    }
}

/// What compiling a program emits: its statements in order, each against
/// the locals the previous ones declared; the first error halts.
pub open spec fn emit_program(
    stmts: Seq<StatementView>,
    locals: Seq<LocalView>,
    depth: int,
    cbase: nat,
) -> (EmitResult, Seq<LocalView>)
    decreases stmts.len(),
{
    if stmts.len() == 0 {
        (EmitResult { ops: Seq::empty(), consts: Seq::empty(), error: None }, locals)
    } else {
        let (em1, locals1) = emit_statement(stmts[0], locals, depth, cbase);
        if em1.error is Some {
            (em1, locals1)
        } else {
            let (em2, locals2) = emit_program(
                stmts.drop_first(),
                locals1,
                depth,
                cbase + em1.consts.len(),
            );
            (
                EmitResult {
                    ops: em1.ops + em2.ops,
                    consts: em1.consts + em2.consts,
                    error: em2.error,
                },
                locals2,
            )
        }
    }
}

/// The number of locals declared deeper than the given depth.
pub open spec fn spec_count_deeper(locals: Seq<LocalView>, depth: int) -> nat {
    locals.filter(|l: LocalView| l.depth > depth).len()
}

pub struct Compiler {
    pub locals: Vec<LocalVar>,
    scope_depth: i32,
    code: CodeBlock,
}

impl Compiler {
    pub closed spec fn spec_locals(self) -> Seq<LocalView> {
        self.locals.deep_view()
    }

    pub closed spec fn spec_depth(self) -> int {
        self.scope_depth as int
    }

    pub closed spec fn spec_code(self) -> Seq<Op> {
        self.code.code@
    }

    pub closed spec fn spec_constants(self) -> Seq<Value> {
        self.code.constants@
    }

    pub fn new() -> (r: Compiler)
        ensures
            r.spec_locals() =~= Seq::<LocalView>::empty(),
            r.spec_depth() == 0,
            r.spec_code() =~= Seq::<Op>::empty(),
            r.spec_constants() =~= Seq::<Value>::empty(),
    {
        let r = Compiler { locals: Vec::new(), scope_depth: 0, code: CodeBlock::create() };
        proof {
            assert(r.spec_locals() =~= Seq::<LocalView>::empty());
        }
        r
    }

    /// Opens a lexical scope: locals declared from here on belong to it.
    pub fn push_scope(&mut self)
        requires
            old(self).spec_depth() < i32::MAX,
        ensures
            final(self).spec_depth() == old(self).spec_depth() + 1,
            final(self).spec_locals() == old(self).spec_locals(),
            final(self).spec_code() == old(self).spec_code(),
            final(self).spec_constants() == old(self).spec_constants(),
    {
        self.scope_depth = self.scope_depth + 1;
    }

    /// Closes the innermost scope: drops every local declared deeper than
    /// the new depth from the table — last declared first, matching stack
    /// order — and returns one `Pop` per dropped local for the caller to
    /// emit.
    pub fn pop_scope(&mut self) -> (r: Vec<Op>)
        requires
            old(self).spec_depth() > i32::MIN,
        ensures
            final(self).spec_depth() == old(self).spec_depth() - 1,
            final(self).spec_code() == old(self).spec_code(),
            final(self).spec_constants() == old(self).spec_constants(),
            ({
                let count = spec_count_deeper(old(self).spec_locals(), old(self).spec_depth() - 1);
                &&& final(self).spec_locals() == old(self).spec_locals().take(
                    old(self).spec_locals().len() - count,
                )
                &&& r@.len() == count
                &&& forall|k: int| 0 <= k < r@.len() ==> r@[k] == Op::Pop
            }),
    {
        self.scope_depth = self.scope_depth - 1;
        let ghost lv = self.spec_locals();
        let ghost d = self.spec_depth();
        let mut pop_count: usize = 0;
        let mut i: usize = 0;
        while i < self.locals.len()
            invariant
                i <= self.locals.len(),
                lv == self.locals.deep_view(),
                d == self.scope_depth as int,
                pop_count == spec_count_deeper(lv.take(i as int), d),
                pop_count <= i,
            decreases self.locals.len() - i,
        {
            proof {
                reveal(Seq::filter);
                assert(lv.take(i as int + 1).drop_last() =~= lv.take(i as int));
                assert(lv.take(i as int + 1).last() == lv[i as int]);
            }
            if self.locals[i].depth > self.scope_depth {
                pop_count = pop_count + 1;
            }
            i = i + 1;
        }
        proof {
            assert(lv.take(self.locals.len() as int) =~= lv);
        }
        let keep = self.locals.len() - pop_count;
        self.locals.truncate(keep);
        proof {
            assert(self.locals.deep_view() =~= lv.take(keep as int));
        }
        let mut ops: Vec<Op> = Vec::new();
        let mut j: usize = 0;
        while j < pop_count
            invariant
                j <= pop_count,
                ops@.len() == j,
                forall|k: int| 0 <= k < ops@.len() ==> ops@[k] == Op::Pop,
            decreases pop_count - j,
        {
            ops.push(Op::Pop);
            j = j + 1;
        }
        ops
    }

    /// The slot of the most recently declared local named `name`, per
    /// `spec_find_local`.
    pub fn find_local(&mut self, name: String) -> (r: Option<usize>)
        ensures
            *final(self) == *old(self),
            match r {
                Some(u) => spec_find_local(old(self).spec_locals(), name@) == Some(u as int),
                None => spec_find_local(old(self).spec_locals(), name@) is None,
            },
    {
        let ghost lv = self.spec_locals();
        let mut i: usize = self.locals.len();
        proof {
            assert(lv.take(i as int) =~= lv);
        }
        while i > 0
            invariant
                i <= self.locals.len(),
                lv == self.locals.deep_view(),
                spec_find_local(lv, name@) == spec_find_local(lv.take(i as int), name@),
            decreases i,
        {
            i = i - 1;
            proof {
                assert(lv.take(i as int + 1).drop_last() =~= lv.take(i as int));
                assert(lv.take(i as int + 1).last() == lv[i as int]);
            }
            if self.locals[i].name == name {
                return Some(i);
            }
        }
        proof {
            assert(lv.take(0) =~= Seq::<LocalView>::empty());
        }
        None
    }

    /// Declares `name` as a new local at the current depth; its slot is the
    /// end of the table.  Redeclaration shadows (see `lemma_shadowing`).
    pub fn declare_local(&mut self, name: String)
        ensures
            final(self).spec_locals() == old(self).spec_locals().push(
                LocalView { name: name@, depth: old(self).spec_depth() },
            ),
            final(self).spec_depth() == old(self).spec_depth(),
            final(self).spec_code() == old(self).spec_code(),
            final(self).spec_constants() == old(self).spec_constants(),
    {
        let ghost pre = self.spec_locals();
        let depth = self.scope_depth;
        self.locals.push(LocalVar::new(name, depth));
        proof {
            assert(self.locals.deep_view() =~= pre.push(self.locals@.last()@));
        }
    }

    /// The opcode a binary operator compiles to, per `spec_binary_op_code`.
    pub fn binary_op_to_op(&mut self, op: BinaryOperator) -> (r: Op)
        ensures
            *final(self) == *old(self),
            r == spec_binary_op_code(op),
    {
        match op {
            BinaryOperator::Addition => Op::Add,
            BinaryOperator::Subtraction => Op::Sub,
            BinaryOperator::Multiplication => Op::Mult,
            BinaryOperator::Division => Op::Divide,
            BinaryOperator::Modulo => Op::Modulo,
        }
    }

    /// The opcode a unary operator compiles to, per `spec_unary_op_code`.
    pub fn unary_op_to_op(&mut self, op: UnaryOperator) -> (r: Op)
        ensures
            *final(self) == *old(self),
            r == spec_unary_op_code(op),
    {
        match op {
            UnaryOperator::Negation => Op::Negate,
        }
    }

    /// Compiles a leaf value, per `emit_value`.
    pub fn compile_value(&mut self, value: crate::ast::Value) -> (r: Result<(), CompilerError>)
        ensures
            final(self).spec_locals() == old(self).spec_locals(),
            final(self).spec_depth() == old(self).spec_depth(),
            ({
                let em = emit_value(
                    value.deep_view(),
                    old(self).spec_locals(),
                    old(self).spec_constants().len(),
                );
                &&& final(self).spec_code() == old(self).spec_code() + em.ops
                &&& final(self).spec_constants() == old(self).spec_constants() + em.consts
                &&& match (r, em.error) {
                    (Ok(_), None) => true,
                    (Err(e), Some(se)) => e@ == se,
                    _ => false,
                }
            }),
    {
        let ghost code0 = self.spec_code();
        let ghost consts0 = self.spec_constants();
        match value {
            crate::ast::Value::Float(b) => {
                let pos = self.code.add_constant(Value::Number(b));
                self.code.add_op(Op::Constant(pos));
                proof {
                    assert(self.spec_code() =~= code0 + seq![Op::Constant(consts0.len() as usize)]);
                    assert(self.spec_constants() =~= consts0 + seq![Value::Number(b)]);
                }
                Ok(())
            },
            crate::ast::Value::Integer(n) => {
                let bits = i32_to_bits_exec(n);
                let pos = self.code.add_constant(Value::Number(bits));
                self.code.add_op(Op::Constant(pos));
                proof {
                    assert(self.spec_code() =~= code0 + seq![Op::Constant(consts0.len() as usize)]);
                    assert(self.spec_constants() =~= consts0 + seq![Value::Number(i32_to_bits(n))]);
                }
                Ok(())
            },
            crate::ast::Value::Variable(name) => {
                let name_copy = name.clone();
                match self.find_local(name) {
                    None => {
                        let mut message = "Could not find variable ".to_owned();
                        append_str(&mut message, name_copy.as_str());
                        proof {
                            assert(self.spec_code() =~= code0 + Seq::<Op>::empty());
                            assert(self.spec_constants() =~= consts0 + Seq::<Value>::empty());
                        }
                        Err(CompilerError { message })
                    },
                    Some(pos) => {
                        self.code.add_op(Op::Local(pos));
                        proof {
                            assert(self.spec_code() =~= code0 + seq![Op::Local(pos)]);
                            assert(self.spec_constants() =~= consts0 + Seq::<Value>::empty());
                        }
                        Ok(())
                    },
                }
            },
        }
    }

    /// Compiles an expression, per `emit_expression`: post-order, operands
    /// before the combining operator's opcode.
    pub fn compile_expression(&mut self, expression: Expression) -> (r: Result<(), CompilerError>)
        ensures
            final(self).spec_locals() == old(self).spec_locals(),
            final(self).spec_depth() == old(self).spec_depth(),
            ({
                let em = emit_expression(
                    expression.deep_view(),
                    old(self).spec_locals(),
                    old(self).spec_constants().len(),
                );
                &&& final(self).spec_code() == old(self).spec_code() + em.ops
                &&& final(self).spec_constants() == old(self).spec_constants() + em.consts
                &&& match (r, em.error) {
                    (Ok(_), None) => true,
                    (Err(e), Some(se)) => e@ == se,
                    _ => false,
                }
            }),
        decreases expression,
    {
        let ghost code0 = self.spec_code();
        let ghost consts0 = self.spec_constants();
        match expression {
            Expression::BinaryOp { op, left, right } => {
                let ghost lv = left.deep_view();
                let ghost rv = right.deep_view();
                match self.compile_expression(*left) {
                    Err(e) => Err(e),
                    Ok(_) => {
                        let ghost eml = emit_expression(lv, old(self).spec_locals(), consts0.len());
                        match self.compile_expression(*right) {
                            Err(e) => {
                                proof {
                                    let emr = emit_expression(
                                        rv,
                                        old(self).spec_locals(),
                                        consts0.len() + eml.consts.len(),
                                    );
                                    assert(self.spec_code() =~= code0 + (eml.ops + emr.ops));
                                    assert(self.spec_constants() =~= consts0 + (eml.consts
                                        + emr.consts));
                                }
                                Err(e)
                            },
                            Ok(_) => {
                                let opcode = self.binary_op_to_op(op);
                                self.code.add_op(opcode);
                                proof {
                                    let emr = emit_expression(
                                        rv,
                                        old(self).spec_locals(),
                                        consts0.len() + eml.consts.len(),
                                    );
                                    assert(self.spec_code() =~= code0 + (eml.ops + emr.ops
                                        + seq![spec_binary_op_code(op)]));
                                    assert(self.spec_constants() =~= consts0 + (eml.consts
                                        + emr.consts));
                                }
                                Ok(())
                            },
                        }
                    },
                }
            },
            Expression::UnaryOp { op, expr } => {
                let ghost xv = expr.deep_view();
                match self.compile_expression(*expr) {
                    Err(e) => Err(e),
                    Ok(_) => {
                        let opcode = self.unary_op_to_op(op);
                        self.code.add_op(opcode);
                        proof {
                            let emx = emit_expression(xv, old(self).spec_locals(), consts0.len());
                            assert(self.spec_code() =~= code0 + (emx.ops
                                + seq![spec_unary_op_code(op)]));
                        }
                        Ok(())
                    },
                }
            },
            Expression::EVal(v) => self.compile_value(v),
        }
    }

    /// Compiles a statement, per `emit_statement`: the right-hand side's
    /// code, then the assigned name declared as a new local.
    pub fn compile_statement(&mut self, statement: Statement) -> (r: Result<(), CompilerError>)
        ensures
            final(self).spec_depth() == old(self).spec_depth(),
            ({
                let (em, locals2) = emit_statement(
                    statement.deep_view(),
                    old(self).spec_locals(),
                    old(self).spec_depth(),
                    old(self).spec_constants().len(),
                );
                &&& final(self).spec_code() == old(self).spec_code() + em.ops
                &&& final(self).spec_constants() == old(self).spec_constants() + em.consts
                &&& final(self).spec_locals() == locals2
                &&& match (r, em.error) {
                    (Ok(_), None) => true,
                    (Err(e), Some(se)) => e@ == se,
                    _ => false,
                }
            }),
    {
        match statement {
            Statement::Assignment { id, expr } => {
                match self.compile_expression(expr) {
                    Err(e) => Err(e),
                    Ok(_) => {
                        self.declare_local(id);
                        Ok(())
                    },
                }
            },
        }
    }

    /// Compiles a whole program, per `emit_program`: its statements in
    /// order, each seeing the locals the previous ones declared.
    pub fn compile_program(&mut self, program: Program) -> (r: Result<(), CompilerError>)
        ensures
            final(self).spec_depth() == old(self).spec_depth(),
            ({
                let (em, locals2) = emit_program(
                    program.deep_view(),
                    old(self).spec_locals(),
                    old(self).spec_depth(),
                    old(self).spec_constants().len(),
                );
                &&& final(self).spec_code() == old(self).spec_code() + em.ops
                &&& final(self).spec_constants() == old(self).spec_constants() + em.consts
                &&& final(self).spec_locals() == locals2
                &&& match (r, em.error) {
                    (Ok(_), None) => true,
                    (Err(e), Some(se)) => e@ == se,
                    _ => false,
                }
            }),
    {
        let ghost stmts0 = program.deep_view();
        let ghost locals0 = self.spec_locals();
        let ghost depth = self.spec_depth();
        let ghost code0 = self.spec_code();
        let ghost consts0 = self.spec_constants();
        let ghost whole = emit_program(stmts0, locals0, depth, consts0.len());
        let mut stmts = program.statements;
        proof {
            assert(code0.skip(code0.len() as int) =~= Seq::<Op>::empty());
            assert(consts0.skip(consts0.len() as int) =~= Seq::<Value>::empty());
            assert(code0 + Seq::<Op>::empty() =~= code0);
        }
        #[verifier::loop_isolation(false)]
        while stmts.len() > 0
            invariant
                self.spec_depth() == depth,
                code0.len() <= self.spec_code().len(),
                consts0.len() <= self.spec_constants().len(),
                self.spec_code().take(code0.len() as int) == code0,
                self.spec_constants().take(consts0.len() as int) == consts0,
                ({
                    let (emr, locr) = emit_program(
                        stmts.deep_view(),
                        self.spec_locals(),
                        depth,
                        self.spec_constants().len(),
                    );
                    &&& whole.0.ops == self.spec_code().skip(code0.len() as int) + emr.ops
                    &&& whole.0.consts == self.spec_constants().skip(consts0.len() as int)
                        + emr.consts
                    &&& whole.0.error == emr.error
                    &&& whole.1 == locr
                }),
            decreases stmts.len(),
        {
            let ghost stmts_pre = stmts.deep_view();
            let ghost locals_pre = self.spec_locals();
            let ghost code_pre = self.spec_code();
            let ghost consts_pre = self.spec_constants();
            let st = stmts.remove(0);
            proof {
                assert(stmts.deep_view() =~= stmts_pre.drop_first());
                assert(st.deep_view() == stmts_pre[0]);
            }
            match self.compile_statement(st) {
                Err(e) => {
                    proof {
                        let (em1, locals1) = emit_statement(
                            stmts_pre[0],
                            locals_pre,
                            depth,
                            consts_pre.len(),
                        );
                        assert(self.spec_code() =~= code_pre + em1.ops);
                        assert(code_pre =~= code0 + code_pre.skip(code0.len() as int));
                        assert(consts_pre =~= consts0 + consts_pre.skip(consts0.len() as int));
                        assert(whole.0.ops == code_pre.skip(code0.len() as int) + em1.ops);
                        assert(whole.0.consts == consts_pre.skip(consts0.len() as int)
                            + em1.consts);
                        assert(self.spec_code() =~= code0 + whole.0.ops);
                        assert(self.spec_constants() =~= consts0 + whole.0.consts);
                    }
                    return Err(e);
                },
                Ok(_) => {
                    proof {
                        let (em1, locals1) = emit_statement(
                            stmts_pre[0],
                            locals_pre,
                            depth,
                            consts_pre.len(),
                        );
                        let (em2, locals2) = emit_program(
                            stmts.deep_view(),
                            self.spec_locals(),
                            depth,
                            self.spec_constants().len(),
                        );
                        assert(self.spec_code().skip(code0.len() as int) =~= code_pre.skip(
                            code0.len() as int,
                        ) + em1.ops);
                        assert(self.spec_constants().skip(consts0.len() as int) =~= consts_pre.skip(
                            consts0.len() as int,
                        ) + em1.consts);
                        assert(self.spec_code().take(code0.len() as int) =~= code0);
                        assert(self.spec_constants().take(consts0.len() as int) =~= consts0);
                        assert(whole.0.ops =~= self.spec_code().skip(code0.len() as int)
                            + em2.ops);
                        assert(whole.0.consts =~= self.spec_constants().skip(consts0.len() as int)
                            + em2.consts);
                    }
                },
            }
        }
        proof {
            assert(stmts.deep_view() =~= Seq::<StatementView>::empty());
            assert(whole.0.ops =~= self.spec_code().skip(code0.len() as int));
            assert(whole.0.consts =~= self.spec_constants().skip(consts0.len() as int));
            assert(self.spec_code() =~= code0 + self.spec_code().skip(code0.len() as int));
            assert(self.spec_constants() =~= consts0 + self.spec_constants().skip(
                consts0.len() as int,
            ));
        }
        Ok(())
    }

    /// Compiles a program and returns the grown code block, per
    /// `emit_program` against the compiler's current state.
    pub fn compile(&mut self, program: Program) -> (r: Result<CodeBlock, CompilerError>)
        ensures
            final(self).spec_depth() == old(self).spec_depth(),
            ({
                let (em, locals2) = emit_program(
                    program.deep_view(),
                    old(self).spec_locals(),
                    old(self).spec_depth(),
                    old(self).spec_constants().len(),
                );
                &&& final(self).spec_code() == old(self).spec_code() + em.ops
                &&& final(self).spec_constants() == old(self).spec_constants() + em.consts
                &&& final(self).spec_locals() == locals2
                &&& match (r, em.error) {
                    (Ok(cb), None) => cb.code@ == final(self).spec_code() && cb.constants@
                        == final(self).spec_constants(),
                    (Err(e), Some(se)) => e@ == se,
                    _ => false,
                }
            }),
    {
        match self.compile_program(program) {
            Err(e) => Err(e),
            Ok(_) => Ok(self.code.duplicate()),
        }
    }
}

} // verus!
