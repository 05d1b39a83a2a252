use vstd::prelude::*;

verus! {

/// An entry of the function table. `address` is the offset of the `NoOp`
/// that opens the function; arguments count among the `locals`.
#[derive(Debug, Copy, Clone, PartialEq, Eq, Structural)]
pub struct Function {
    pub address: usize,
    pub arity: u8,
    pub locals: u8,
}

} // verus!
