use crate::function::Function;
use crate::value::Value;
use vstd::prelude::*;

verus! {

/// An assembled program: where execution starts, the constant pool, the
/// function table and the code bytes.
#[derive(Debug)]
pub struct Bytecode {
    pub entry: usize,
    pub consts: Vec<Value>,
    pub functions: Vec<Function>,
    pub code: Vec<u8>,
}

} // verus!
