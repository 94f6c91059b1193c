//! The stack-based virtual machine.
//!
//! Execution is a single linear pass over the instruction stream: the source
//! language has no control flow, so there are no jumps.  The machine owns a
//! fixed-capacity value stack; pushing onto a full stack or popping from an
//! empty one is a fault that halts the run immediately.  `Local`
//! instructions are bounds-checked against the current stack depth and fault
//! with `InvalidLocal` when out of range.  `Print` pops the top of the stack
//! onto an output log that the caller can inspect afterwards, so the machine
//! itself performs no I/O.

use vstd::prelude::*;

use crate::code_block::CodeBlock;
use crate::numeric::add_bits;
use crate::numeric::add_bits_exec;
use crate::numeric::div_bits;
use crate::numeric::div_bits_exec;
use crate::numeric::mod_bits;
use crate::numeric::mod_bits_exec;
use crate::numeric::mul_bits;
use crate::numeric::mul_bits_exec;
use crate::numeric::neg_bits;
use crate::numeric::neg_bits_exec;
use crate::numeric::sub_bits;
use crate::numeric::sub_bits_exec;
use crate::ops::Op;
use crate::value::Value;

verus! {

/// Capacity of the machine's value stack.
pub const VM_STACK_SIZE: usize = 100;

/// The machine's terminal fault conditions.  `NoError` means the whole
/// instruction stream was executed.
#[derive(Clone, Copy, Debug, PartialEq, Eq, Structural)]
pub enum VMError {
    NoError,
    StackOver,
    StackUnder,
    NoConstant,
    InvalidLocal,
}

/// The effect of one instruction on the machine's stack and output log:
/// either the new `(stack, output)` pair, or the fault that halts the run
/// (in which case the machine's state is left as it was before the
/// instruction).
pub open spec fn spec_step(
    consts: Seq<Value>,
    stack: Seq<Value>,
    output: Seq<Value>,
    op: Op,
) -> Result<(Seq<Value>, Seq<Value>), VMError> {
    let n = stack.len() as int;
    match op {
        Op::Pop => if n == 0 {
            Err(VMError::StackUnder)
        } else {
            Ok((stack.take(n - 1), output))
        },
        Op::Add => if n < 2 {
            Err(VMError::StackUnder)
        } else {
            Ok(
                (
                    stack.take(n - 2).push(
                        Value::Number(add_bits(stack[n - 2].spec_bits(), stack[n - 1].spec_bits())),
                    ),
                    output,
                ),
            )
        },
        Op::Sub => if n < 2 {
            Err(VMError::StackUnder)
        } else {
            Ok(
                (
                    stack.take(n - 2).push(
                        Value::Number(sub_bits(stack[n - 2].spec_bits(), stack[n - 1].spec_bits())),
                    ),
                    output,
                ),
            )
        },
        Op::Mult => if n < 2 {
            Err(VMError::StackUnder)
        } else {
            Ok(
                (
                    stack.take(n - 2).push(
                        Value::Number(mul_bits(stack[n - 2].spec_bits(), stack[n - 1].spec_bits())),
                    ),
                    output,
                ),
            )
        },
        Op::Divide => if n < 2 {
            Err(VMError::StackUnder)
        } else {
            Ok(
                (
                    stack.take(n - 2).push(
                        Value::Number(div_bits(stack[n - 2].spec_bits(), stack[n - 1].spec_bits())),
                    ),
                    output,
                ),
            )
        },
        Op::Modulo => if n < 2 {
            Err(VMError::StackUnder)
        } else {
            Ok(
                (
                    stack.take(n - 2).push(
                        Value::Number(mod_bits(stack[n - 2].spec_bits(), stack[n - 1].spec_bits())),
                    ),
                    output,
                ),
            )
        },
        Op::Negate => if n == 0 {
            Err(VMError::StackUnder)
        } else {
            Ok((stack.take(n - 1).push(Value::Number(neg_bits(stack[n - 1].spec_bits()))), output))
        },
        Op::Constant(i) => if i >= consts.len() {
            Err(VMError::NoConstant)
        } else if n >= VM_STACK_SIZE {
            Err(VMError::StackOver)
        } else {
            Ok((stack.push(consts[i as int]), output))
        },
        Op::Local(i) => if i >= stack.len() {
            Err(VMError::InvalidLocal)
        } else if n >= VM_STACK_SIZE {
            Err(VMError::StackOver)
        } else {
            Ok((stack.push(stack[i as int]), output))
        },
        Op::Print => if n == 0 {
            Err(VMError::StackUnder)
        } else {
            Ok((stack.take(n - 1), output.push(stack[n - 1])))
        },
    }
}

/// Runs the instructions in order from the given stack and output log.
/// Yields the final stack, the final output log, and `NoError` — or, at the
/// first faulting instruction, the state just before the fault together with
/// the fault.
pub open spec fn spec_run(
    code: Seq<Op>,
    consts: Seq<Value>,
    stack: Seq<Value>,
    output: Seq<Value>,
) -> (Seq<Value>, Seq<Value>, VMError)
    decreases code.len(),
{
    if code.len() == 0 {
        (stack, output, VMError::NoError)
    } else {
        match spec_step(consts, stack, output, code[0]) {
            Ok(next) => spec_run(code.drop_first(), consts, next.0, next.1),
            Err(e) => (stack, output, e),
        }
    }
}

pub struct MeansVM {
    pc: u32,
    exit_code: u32,
    error: VMError,
    stack: Vec<Value>,
    output: Vec<Value>,
}

impl MeansVM {
    /// The machine never holds more values than its fixed capacity.
    pub open spec fn wf(self) -> bool {
        self.spec_stack().len() <= VM_STACK_SIZE
    }

    pub closed spec fn spec_stack(self) -> Seq<Value> {
        self.stack@
    }

    pub closed spec fn spec_output(self) -> Seq<Value> {
        self.output@
    }

    pub closed spec fn spec_error(self) -> VMError {
        self.error
    }

    pub closed spec fn spec_exit_code(self) -> u32 {
        self.exit_code
    }

    pub closed spec fn spec_pc(self) -> u32 {
        self.pc
    }

    pub fn create() -> (r: MeansVM)
        ensures
            r.wf(),
            r.spec_stack() =~= Seq::<Value>::empty(),
            r.spec_output() =~= Seq::<Value>::empty(),
            r.spec_error() == VMError::NoError,
            r.spec_exit_code() == 0,
    {
        MeansVM {
            pc: 0,
            exit_code: 0,
            error: VMError::NoError,
            stack: Vec::new(),
            output: Vec::new(),
        }
    }

    /// Records a fault and makes the exit code nonzero.
    pub fn set_error(&mut self, error: VMError)
        ensures
            final(self).spec_error() == error,
            final(self).spec_exit_code() == 1,
            final(self).spec_stack() == old(self).spec_stack(),
            final(self).spec_output() == old(self).spec_output(),
            final(self).spec_pc() == old(self).spec_pc(),
    {
        self.exit_code = 1;
        self.error = error;
    }

    /// The last fault recorded, `NoError` if none.
    pub fn last_error(&self) -> (r: VMError)
        ensures
            r == self.spec_error(),
    {
        self.error
    }

    /// The values `Print` instructions have emitted, oldest first.
    pub fn output(&self) -> (r: &Vec<Value>)
        ensures
            r@ == self.spec_output(),
    {
        &self.output
    }

    /// The value on top of the stack, `None` when the stack is empty.
    pub fn peek_stack(&self) -> (r: Option<Value>)
        ensures
            self.spec_stack().len() == 0 ==> r is None,
            self.spec_stack().len() > 0 ==> r == Some(self.spec_stack().last()),
    {
        if self.stack.len() == 0 {
            None
        } else {
            Some(self.stack[self.stack.len() - 1])
        }
    }

    /// Executes the block against the machine's current stack, per
    /// `spec_run`, and returns the exit code: unchanged (zero for a fresh
    /// machine) if every instruction executed, 1 on a fault.
    pub fn run(&mut self, blk: &CodeBlock) -> (r: u32)
        requires
            old(self).wf(),
        ensures
            final(self).wf(),
            final(self).spec_pc() == old(self).spec_pc(),
            ({
                let (s, p, e) = spec_run(
                    blk.code@,
                    blk.constants@,
                    old(self).spec_stack(),
                    old(self).spec_output(),
                );
                &&& final(self).spec_stack() == s
                &&& final(self).spec_output() == p
                &&& (e == VMError::NoError ==> final(self).spec_error() == old(self).spec_error()
                    && final(self).spec_exit_code() == old(self).spec_exit_code()
                    && r == old(self).spec_exit_code())
                &&& (e != VMError::NoError ==> final(self).spec_error() == e
                    && final(self).spec_exit_code() == 1 && r == 1)
            }),
    {
        let ghost code = blk.code@;
        let ghost consts = blk.constants@;
        let ghost full = spec_run(code, consts, old(self).stack@, old(self).output@);
        let n = blk.code.len();
        let mut idx: usize = 0;
        let mut halted: bool = false;
        proof {
            assert(code.skip(0) =~= code);
        }
        while idx < n && !halted
            invariant
                n == code.len(),
                idx <= n,
                consts == blk.constants@,
                code == blk.code@,
                self.stack@.len() <= VM_STACK_SIZE,
                self.pc == old(self).pc,
                full == spec_run(code, consts, old(self).stack@, old(self).output@),
                !halted ==> {
                    &&& spec_run(code.skip(idx as int), consts, self.stack@, self.output@) == full
                    &&& self.error == old(self).error
                    &&& self.exit_code == old(self).exit_code
                },
                halted ==> {
                    &&& self.stack@ == full.0
                    &&& self.output@ == full.1
                    &&& full.2 != VMError::NoError
                    &&& self.error == full.2
                    &&& self.exit_code == 1
                },
            decreases n - idx,
        {
            let op = blk.code[idx];
            proof {
                assert(code.skip(idx as int).len() > 0);
                assert(code.skip(idx as int)[0] == op);
                assert(code.skip(idx as int).drop_first() =~= code.skip(idx as int + 1));
            }
            match op {
                Op::Pop => {
                    if self.stack.len() == 0 {
                        self.set_error(VMError::StackUnder);
                        halted = true;
                    } else {
                        let ghost pre = self.stack@;
                        self.stack.pop();
                        proof {
                            assert(self.stack@ =~= pre.take(pre.len() - 1));
                        }
                    }
                },
                Op::Add => {
                    if self.stack.len() < 2 {
                        self.set_error(VMError::StackUnder);
                        halted = true;
                    } else {
                        let ghost pre = self.stack@;
                        let v1 = self.stack.pop().unwrap();
                        let v2 = self.stack.pop().unwrap();
                        let res = add_bits_exec(v2.bits(), v1.bits());
                        self.stack.push(Value::Number(res));
                        proof {
                            assert(self.stack@ =~= pre.take(pre.len() - 2).push(
                                Value::Number(
                                    add_bits(
                                        pre[pre.len() - 2].spec_bits(),
                                        pre[pre.len() - 1].spec_bits(),
                                    ),
                                ),
                            ));
                        }
                    }
                },
                Op::Sub => {
                    if self.stack.len() < 2 {
                        self.set_error(VMError::StackUnder);
                        halted = true;
                    } else {
                        let ghost pre = self.stack@;
                        let v1 = self.stack.pop().unwrap();
                        let v2 = self.stack.pop().unwrap();
                        let res = sub_bits_exec(v2.bits(), v1.bits());
                        self.stack.push(Value::Number(res));
                        proof {
                            assert(self.stack@ =~= pre.take(pre.len() - 2).push(
                                Value::Number(
                                    sub_bits(
                                        pre[pre.len() - 2].spec_bits(),
                                        pre[pre.len() - 1].spec_bits(),
                                    ),
                                ),
                            ));
                        }
                    }
                },
                Op::Mult => {
                    if self.stack.len() < 2 {
                        self.set_error(VMError::StackUnder);
                        halted = true;
                    } else {
                        let ghost pre = self.stack@;
                        let v1 = self.stack.pop().unwrap();
                        let v2 = self.stack.pop().unwrap();
                        let res = mul_bits_exec(v2.bits(), v1.bits());
                        self.stack.push(Value::Number(res));
                        proof {
                            assert(self.stack@ =~= pre.take(pre.len() - 2).push(
                                Value::Number(
                                    mul_bits(
                                        pre[pre.len() - 2].spec_bits(),
                                        pre[pre.len() - 1].spec_bits(),
                                    ),
                                ),
                            ));
                        }
                    }
                },
                Op::Divide => {
                    if self.stack.len() < 2 {
                        self.set_error(VMError::StackUnder);
                        halted = true;
                    } else {
                        let ghost pre = self.stack@;
                        let v1 = self.stack.pop().unwrap();
                        let v2 = self.stack.pop().unwrap();
                        let res = div_bits_exec(v2.bits(), v1.bits());
                        self.stack.push(Value::Number(res));
                        proof {
                            assert(self.stack@ =~= pre.take(pre.len() - 2).push(
                                Value::Number(
                                    div_bits(
                                        pre[pre.len() - 2].spec_bits(),
                                        pre[pre.len() - 1].spec_bits(),
                                    ),
                                ),
                            ));
                        }
                    }
                },
                Op::Modulo => {
                    if self.stack.len() < 2 {
                        self.set_error(VMError::StackUnder);
                        halted = true;
                    } else {
                        let ghost pre = self.stack@;
                        let v1 = self.stack.pop().unwrap();
                        let v2 = self.stack.pop().unwrap();
                        let res = mod_bits_exec(v2.bits(), v1.bits());
                        self.stack.push(Value::Number(res));
                        proof {
                            assert(self.stack@ =~= pre.take(pre.len() - 2).push(
                                Value::Number(
                                    mod_bits(
                                        pre[pre.len() - 2].spec_bits(),
                                        pre[pre.len() - 1].spec_bits(),
                                    ),
                                ),
                            ));
                        }
                    }
                },
                Op::Negate => {
                    if self.stack.len() == 0 {
                        self.set_error(VMError::StackUnder);
                        halted = true;
                    } else {
                        let ghost pre = self.stack@;
                        let v = self.stack.pop().unwrap();
                        let res = neg_bits_exec(v.bits());
                        self.stack.push(Value::Number(res));
                        proof {
                            assert(self.stack@ =~= pre.take(pre.len() - 1).push(
                                Value::Number(neg_bits(pre[pre.len() - 1].spec_bits())),
                            ));
                        }
                    }
                },
                Op::Constant(i) => {
                    if i >= blk.constants.len() {
                        self.set_error(VMError::NoConstant);
                        halted = true;
                    } else if self.stack.len() >= VM_STACK_SIZE {
                        self.set_error(VMError::StackOver);
                        halted = true;
                    } else {
                        let v = blk.constants[i];
                        self.stack.push(v);
                    }
                },
                Op::Local(i) => {
                    if i >= self.stack.len() {
                        self.set_error(VMError::InvalidLocal);
                        halted = true;
                    } else if self.stack.len() >= VM_STACK_SIZE {
                        self.set_error(VMError::StackOver);
                        halted = true;
                    } else {
                        let v = self.stack[i];
                        self.stack.push(v);
                    }
                },
                Op::Print => {
                    if self.stack.len() == 0 {
                        self.set_error(VMError::StackUnder);
                        halted = true;
                    } else {
                        let ghost pre = self.stack@;
                        let v = self.stack.pop().unwrap();
                        self.output.push(v);
                        proof {
                            assert(self.stack@ =~= pre.take(pre.len() - 1));
                        }
                    }
                },
            }
            idx = idx + 1;
        }
        proof {
            if !halted {
                assert(code.skip(n as int) =~= Seq::<Op>::empty());
            }
        }
        self.exit_code
    }
}

} // verus!
