use vstd::prelude::*;

verus! {

/// A value of the machine.
///
/// Floats are carried as their IEEE-754 bit pattern; the arithmetic on them is
/// done by a [`crate::floats::FloatUnit`] that the host supplies. Boxed cells
/// and arrays are handles into the interpreter's heap, so every copy of such a
/// value aliases the same cell or array.
#[derive(Debug, Clone, PartialEq)]
pub enum Value {
    Null,
    Int(i64),
    Float(u64),
    Bool(bool),
    String(String),
    Ident(String),
    Boxed(usize),
    Array(usize),
    Function(usize),
}

/// A value as the contracts see it: text as its characters.
pub enum Lit {
    Null,
    Int(i64),
    Float(u64),
    Bool(bool),
    Str(Seq<char>),
    Ident(Seq<char>),
    Boxed(usize),
    Array(usize),
    Function(usize),
}

impl Value {
    pub open spec fn model(self) -> Lit {
        match self {
            Value::Null => Lit::Null,
            Value::Int(i) => Lit::Int(i),
            Value::Float(f) => Lit::Float(f),
            Value::Bool(b) => Lit::Bool(b),
            Value::String(s) => Lit::Str(s@),
            Value::Ident(s) => Lit::Ident(s@),
            Value::Boxed(h) => Lit::Boxed(h),
            Value::Array(h) => Lit::Array(h),
            Value::Function(i) => Lit::Function(i),
        }
    }

    /// Structural equality, with text compared by its characters.
    pub open spec fn same(self, other: Value) -> bool {
        self.model() == other.model()
    }

    /// A copy of this value; for a handle, the copy aliases the same cell.
    pub fn copy(&self) -> (r: Value)
        ensures
            r == *self,
    {
        match self {
            Value::Null => Value::Null,
            Value::Int(i) => Value::Int(*i),
            Value::Float(f) => Value::Float(*f),
            Value::Bool(b) => Value::Bool(*b),
            Value::String(s) => Value::String(s.clone()),
            Value::Ident(s) => Value::Ident(s.clone()),
            Value::Boxed(h) => Value::Boxed(*h),
            Value::Array(h) => Value::Array(*h),
            Value::Function(i) => Value::Function(*i),
        }
    }

    /// Structural equality, executable.
    pub fn same_as(&self, other: &Value) -> (r: bool)
        ensures
            r == self.same(*other),
    {
        match (self, other) {
            (Value::Null, Value::Null) => true,
            (Value::Int(a), Value::Int(b)) => *a == *b,
            (Value::Float(a), Value::Float(b)) => *a == *b,
            (Value::Bool(a), Value::Bool(b)) => *a == *b,
            (Value::String(a), Value::String(b)) => a.eq(b),
            (Value::Ident(a), Value::Ident(b)) => a.eq(b),
            (Value::Boxed(a), Value::Boxed(b)) => *a == *b,
            (Value::Array(a), Value::Array(b)) => *a == *b,
            (Value::Function(a), Value::Function(b)) => *a == *b,
            _ => false,
        }
    }
}

impl Default for Value {
    fn default() -> (r: Value)
        ensures
            r == Value::Null,
    {
        Value::Null
    }
}

} // verus!
