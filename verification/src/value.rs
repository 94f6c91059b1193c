use vstd::prelude::*;

verus! {

/// A runtime value of the virtual machine.  The language is single-typed:
/// every value is an IEEE-754 binary32 number, held as its raw bit pattern.
#[derive(Clone, Copy, Debug, PartialEq, Eq, Structural)]
pub enum Value {
    Number(u32),
}

impl Value {
    /// The bit pattern of the number this value holds.
    pub open spec fn spec_bits(self) -> u32 {
        match self {
            Value::Number(b) => b,
        }
    }

    pub fn bits(self) -> (r: u32)
        ensures
            r == self.spec_bits(),
    {
        match self {
            Value::Number(b) => b,
        }
    }
}

impl View for Value {
    type V = u32;

    open spec fn view(&self) -> u32 {
        self.spec_bits()
    }
}

impl DeepView for Value {
    type V = u32;

    open spec fn deep_view(&self) -> u32 {
        self.spec_bits()
    }
}

} // verus!
