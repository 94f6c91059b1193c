use vstd::prelude::*;

use crate::ops::Op;
use crate::value::Value;

verus! {

/// The compiled artifact: a linear instruction stream together with the
/// constant pool its `Constant` instructions index into.  Append-only while
/// compiling, then read-only input to the virtual machine.
#[derive(Clone, Debug)]
pub struct CodeBlock {
    pub code: Vec<Op>,
    pub constants: Vec<Value>,
}

impl CodeBlock {
    pub fn create() -> (r: CodeBlock)
        ensures
            r.code@ =~= Seq::<Op>::empty(),
            r.constants@ =~= Seq::<Value>::empty(),
    {
        CodeBlock { code: Vec::new(), constants: Vec::new() }
    }

    pub fn add_op(&mut self, op: Op)
        ensures
            final(self).code@ == old(self).code@.push(op),
            final(self).constants == old(self).constants,
    {
        self.code.push(op);
    }

    /// Appends a constant to the pool and returns its index.
    pub fn add_constant(&mut self, val: Value) -> (r: usize)
        ensures
            final(self).constants@ == old(self).constants@.push(val),
            final(self).code == old(self).code,
            r == old(self).constants@.len(),
    {
        self.constants.push(val);
        self.constants.len() - 1
    }

    /// An element-wise copy whose contents Verus can relate to the original
    /// (the derived `Clone` carries no such guarantee).
    pub fn duplicate(&self) -> (r: CodeBlock)
        ensures
            r.code@ == self.code@,
            r.constants@ == self.constants@,
    {
        let mut code: Vec<Op> = Vec::new();
        let mut i: usize = 0;
        while i < self.code.len()
            invariant
                i <= self.code.len(),
                code@ =~= self.code@.take(i as int),
            decreases self.code.len() - i,
        {
            code.push(self.code[i]);
            i = i + 1;
            proof {
                assert(code@ =~= self.code@.take(i as int));
            }
        }
        let mut constants: Vec<Value> = Vec::new();
        let mut j: usize = 0;
        while j < self.constants.len()
            invariant
                j <= self.constants.len(),
                constants@ =~= self.constants@.take(j as int),
            decreases self.constants.len() - j,
        {
            constants.push(self.constants[j]);
            j = j + 1;
            proof {
                assert(constants@ =~= self.constants@.take(j as int));
            }
        }
        proof {
            assert(code@ =~= self.code@);
            assert(constants@ =~= self.constants@);
        }
        CodeBlock { code, constants }
    }
}

} // verus!
