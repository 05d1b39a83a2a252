use crate::arith::{floor_div, int_div, int_floor_div, int_rem, trunc_div, trunc_rem, wrap64};
use crate::bytecode::Bytecode;
use crate::error::VMError;
use crate::floats::{float_is_zero, is_zero_bits, FloatUnit};
use crate::function::Function;
use crate::memory::{nulls, Frame, Stack};
use crate::opcode::OpCode;
use crate::value::Value;
use vstd::prelude::*;

verus! {

/// The whole state of the machine, as the contracts see it.
pub struct State {
    pub code: Seq<u8>,
    pub consts: Seq<Value>,
    pub functions: Seq<Function>,
    pub ip: int,
    pub globals: Seq<Value>,
    pub stack: Seq<Value>,
    pub frames: Seq<Frame>,
    pub max_stack: nat,
    pub cells: Seq<Value>,
    pub arrays: Seq<Seq<Value>>,
}

/// What the float unit answered during one step (at most one question is
/// asked per step): a float result, a comparison, or a floored quotient.
pub struct FloatAnswer {
    pub bits: u64,
    pub truth: bool,
    pub whole: i64,
}

/// The result of one step: the next state and what it printed, or the fault
/// that ends the run.
pub enum Outcome {
    Next(State, Option<Value>),
    Fault(VMError),
}

pub open spec fn u16_at(code: Seq<u8>, at: int) -> int {
    code[at] as int + 256 * code[at + 1] as int
}

pub open spec fn i16_at(code: Seq<u8>, at: int) -> int {
    let u = u16_at(code, at);
    if u >= 32768 {
        u - 65536
    } else {
        u
    }
}

pub open spec fn u32_at(code: Seq<u8>, at: int) -> int {
    code[at] as int + 256 * code[at + 1] as int + 65536 * code[at + 2] as int + 16777216 * code[at
        + 3] as int
}

/// The operand of the instruction at `ip`, little-endian, of the opcode's width.
pub open spec fn operand(code: Seq<u8>, ip: int, op: OpCode) -> int {
    if op.spec_width() == 1 {
        code[ip + 1] as int
    } else if op.spec_width() == 2 {
        if op == OpCode::PushImmediate {
            i16_at(code, ip + 1)
        } else {
            u16_at(code, ip + 1)
        }
    } else if op.spec_width() == 4 {
        u32_at(code, ip + 1)
    } else {
        0
    }
}

/// Where execution goes on after landing on `target`: one byte past it. A
/// target outside the code ends the run.
pub open spec fn landing(s: State, target: int) -> int {
    if target < s.code.len() {
        target + 1
    } else {
        s.code.len() as int
    }
}

/// The value `k` places below the top of the stack.
pub open spec fn top(s: State, k: int) -> Value {
    s.stack[s.stack.len() - 1 - k]
}

/// The state with `n` values popped.
pub open spec fn popped(s: State, n: int) -> State {
    State { stack: s.stack.subrange(0, s.stack.len() - n), ..s }
}

/// Push `v` and go on at `ip`, unless the stack is full.
pub open spec fn push_then(s: State, v: Value, ip: int) -> Outcome {
    if s.stack.len() >= s.max_stack {
        Outcome::Fault(VMError::StackOverflow)
    } else {
        Outcome::Next(State { stack: s.stack.push(v), ip, ..s }, None)
    }
}

/// Go on at `ip` with nothing else changed.
pub open spec fn goto(s: State, ip: int) -> Outcome {
    Outcome::Next(State { ip, ..s }, None)
}

/// Reading local `i` of the innermost frame.
pub open spec fn local_read(s: State, i: int) -> Result<Value, VMError> {
    if s.frames.len() == 0 {
        Err(VMError::NotInFrame)
    } else if i >= s.frames.last().locals || s.frames.last().base_pointer + i >= s.stack.len() {
        Err(VMError::InvalidLocalIndex(i as u16))
    } else {
        Ok(s.stack[s.frames.last().base_pointer + i])
    }
}

/// The heap index of an array value that names a live array.
pub open spec fn array_of(s: State, v: Value) -> Result<int, VMError> {
    match v {
        Value::Array(h) => if h < s.arrays.len() {
            Ok(h as int)
        } else {
            Err(VMError::InvalidStackValueType(Value::Array(0), v))
        },
        _ => Err(VMError::InvalidStackValueType(Value::Array(0), v)),
    }
}

/// The array and element that an (array, index) pair names.
pub open spec fn array_slot(s: State, arr: Value, idx: Value) -> Result<(int, int), VMError> {
    match array_of(s, arr) {
        Err(e) => Err(e),
        Ok(h) => match idx {
            Value::Int(i) => if 0 <= i < s.arrays[h].len() {
                Ok((h, i as int))
            } else {
                Err(VMError::IndexOutsideRangeOfArray(i, s.arrays[h].len() as usize))
            },
            _ => Err(VMError::InvalidStackValueType(Value::Int(0), idx)),
        },
    }
}

pub open spec fn is_binary(op: OpCode) -> bool {
    match op {
        OpCode::Add | OpCode::Sub | OpCode::Mul | OpCode::Div | OpCode::DivInt | OpCode::Mod
        | OpCode::Equal | OpCode::NotEqual | OpCode::LessThan | OpCode::GreaterThan
        | OpCode::GreaterEqual | OpCode::LessEqual | OpCode::LogicalAnd | OpCode::LogicalOr => true,
        _ => false,
    }
}

/// `Some` result of a two-operand instruction on two integers; `None` where
/// the instruction does not take integers.
pub open spec fn int_binary_spec(op: OpCode, a: i64, b: i64) -> Option<Result<Value, VMError>> {
    match op {
        OpCode::Add => Some(Ok(Value::Int(a.wrapping_add(b)))),
        OpCode::Sub => Some(Ok(Value::Int(a.wrapping_sub(b)))),
        OpCode::Mul => Some(Ok(Value::Int(a.wrapping_mul(b)))),
        OpCode::Div => Some(
            if b == 0 {
                Err(VMError::DivisionByZero)
            } else {
                Ok(Value::Int(wrap64(trunc_div(a as int, b as int))))
            },
        ),
        OpCode::DivInt => Some(
            if b == 0 {
                Err(VMError::DivisionByZero)
            } else {
                Ok(Value::Int(wrap64(floor_div(a as int, b as int))))
            },
        ),
        OpCode::Mod => Some(
            if b == 0 {
                Err(VMError::DivisionByZero)
            } else {
                Ok(Value::Int(trunc_rem(a as int, b as int) as i64))
            },
        ),
        OpCode::Equal => Some(Ok(Value::Bool(a == b))),
        OpCode::NotEqual => Some(Ok(Value::Bool(a != b))),
        OpCode::LessThan => Some(Ok(Value::Bool(a < b))),
        OpCode::GreaterThan => Some(Ok(Value::Bool(a > b))),
        OpCode::GreaterEqual => Some(Ok(Value::Bool(a >= b))),
        OpCode::LessEqual => Some(Ok(Value::Bool(a <= b))),
        _ => None,
    }
}

/// The same on two floats, whose divisor is `b`; `f` is the float unit's answer.
pub open spec fn float_binary_spec(op: OpCode, b: u64, f: FloatAnswer) -> Option<Result<Value, VMError>> {
    match op {
        OpCode::Add | OpCode::Sub | OpCode::Mul => Some(Ok(Value::Float(f.bits))),
        OpCode::Div | OpCode::Mod => Some(
            if is_zero_bits(b) {
                Err(VMError::DivisionByZero)
            } else {
                Ok(Value::Float(f.bits))
            },
        ),
        OpCode::DivInt => Some(
            if is_zero_bits(b) {
                Err(VMError::DivisionByZero)
            } else {
                Ok(Value::Int(f.whole))
            },
        ),
        OpCode::LessThan | OpCode::GreaterThan | OpCode::GreaterEqual | OpCode::LessEqual => Some(
            Ok(Value::Bool(f.truth)),
        ),
        _ => None,
    }
}

/// The same on two booleans.
pub open spec fn bool_binary_spec(op: OpCode, a: bool, b: bool) -> Option<Result<Value, VMError>> {
    match op {
        OpCode::Equal => Some(Ok(Value::Bool(a == b))),
        OpCode::NotEqual => Some(Ok(Value::Bool(a != b))),
        OpCode::LogicalAnd => Some(Ok(Value::Bool(a && b))),
        OpCode::LogicalOr => Some(Ok(Value::Bool(a || b))),
        _ => None,
    }
}

pub open spec fn or_operand_error(x: Option<Result<Value, VMError>>, l: Value, r: Value) -> Result<Value, VMError> {
    match x {
        Some(x) => x,
        None => Err(VMError::InvalidOperandType(l, r)),
    }
}

/// A two-operand instruction applied to `l` (pushed first) and `r`.
pub open spec fn binary_spec(op: OpCode, l: Value, r: Value, f: FloatAnswer) -> Result<Value, VMError> {
    match (l, r) {
        (Value::Int(a), Value::Int(b)) => or_operand_error(int_binary_spec(op, a, b), l, r),
        (Value::Float(_), Value::Float(b)) => or_operand_error(float_binary_spec(op, b, f), l, r),
        (Value::Bool(a), Value::Bool(b)) => or_operand_error(bool_binary_spec(op, a, b), l, r),
        _ => Err(VMError::InvalidOperandType(l, r)),
    }
}

/// The number of local slots a call of `f` opens: its locals, and at least
/// its arguments.
pub open spec fn frame_locals(f: Function) -> nat {
    if f.locals < f.arity {
        f.arity as nat
    } else {
        f.locals as nat
    }
}

/// The instructions that pop exactly one value before anything else.
pub open spec fn pops_one(op: OpCode) -> bool {
    match op {
        OpCode::Pop | OpCode::Print | OpCode::Not | OpCode::StoreLocal | OpCode::StoreGlobal
        | OpCode::JumpIfFalse | OpCode::JumpIfTrue | OpCode::Box | OpCode::Unbox
        | OpCode::ArrayPop | OpCode::ArrayLen | OpCode::Return => true,
        _ => false,
    }
}

/// The instructions that pop exactly two values before anything else.
pub open spec fn pops_two(op: OpCode) -> bool {
    op == OpCode::SetBox || op == OpCode::ArrayGet || op == OpCode::ArrayPush
}

pub open spec fn binary_step(s: State, op: OpCode, next: int, f: FloatAnswer) -> Outcome {
    if s.stack.len() < 2 {
        Outcome::Fault(VMError::StackUnderflow)
    } else {
        match binary_spec(op, top(s, 1), top(s, 0), f) {
            Ok(v) => push_then(popped(s, 2), v, next),
            Err(e) => Outcome::Fault(e),
        }
    }
}

pub open spec fn one_pop_step(s: State, op: OpCode, arg: int, next: int) -> Outcome {
    if s.stack.len() < 1 {
        Outcome::Fault(VMError::StackUnderflow)
    } else {
        one_pop_spec(popped(s, 1), op, top(s, 0), arg, next)
    }
}

pub open spec fn two_pop_step(s: State, op: OpCode, next: int) -> Outcome {
    if s.stack.len() < 2 {
        Outcome::Fault(VMError::StackUnderflow)
    } else {
        two_pop_spec(popped(s, 2), op, top(s, 1), top(s, 0), next)
    }
}

/// `ArraySet`: pop the value, the index, the array; write in place.
pub open spec fn array_set_step(s: State, next: int) -> Outcome {
    if s.stack.len() < 3 {
        Outcome::Fault(VMError::StackUnderflow)
    } else {
        let s1 = popped(s, 3);
        match array_slot(s1, top(s, 2), top(s, 1)) {
            Err(e) => Outcome::Fault(e),
            Ok((h, i)) => goto(
                State { arrays: s1.arrays.update(h, s1.arrays[h].update(i, top(s, 0))), ..s1 },
                next,
            ),
        }
    }
}

/// `Array n`: the top `n` values, in push order, become a new array.
pub open spec fn array_new_step(s: State, n: int, next: int) -> Outcome {
    let len = s.stack.len();
    if len < n {
        Outcome::Fault(VMError::StackUnderflow)
    } else {
        let s1 = popped(s, n);
        push_then(
            State { arrays: s1.arrays.push(s.stack.subrange(len - n, len as int)), ..s1 },
            Value::Array(s1.arrays.len() as usize),
            next,
        )
    }
}

/// `CallFunction idx`: the arguments stay where they are and become the
/// first locals of a new frame; the remaining locals start as `Null`.
pub open spec fn call_step(s: State, idx: int, next: int) -> Outcome {
    let n = s.stack.len();
    if idx >= s.functions.len() {
        Outcome::Fault(VMError::InvalidFunctionIndex(idx as u16))
    } else {
        let func = s.functions[idx];
        let locals = frame_locals(func);
        if n < func.arity {
            Outcome::Fault(VMError::StackUnderflow)
        } else if n - func.arity + locals > s.max_stack {
            Outcome::Fault(VMError::StackOverflow)
        } else {
            Outcome::Next(
                State {
                    stack: s.stack + nulls((locals - func.arity) as nat),
                    frames: s.frames.push(
                        Frame {
                            return_address: next as usize,
                            base_pointer: (n - func.arity) as usize,
                            locals: locals as usize,
                        },
                    ),
                    ip: landing(s, func.address as int),
                    ..s
                },
                None,
            )
        }
    }
}

/// The instructions that pop nothing.
pub open spec fn plain_step(s: State, op: OpCode, arg: int, next: int) -> Outcome {
    match op {
        OpCode::PushConst => if arg >= s.consts.len() {
            Outcome::Fault(VMError::InvalidConstantIndex(arg as u16))
        } else {
            push_then(s, s.consts[arg], next)
        },
        OpCode::PushImmediate => push_then(s, Value::Int(arg as i64), next),
        OpCode::PushLocal => match local_read(s, arg) {
            Ok(v) => push_then(s, v, next),
            Err(e) => Outcome::Fault(e),
        },
        OpCode::PushGlobal => if arg < s.globals.len() {
            push_then(s, s.globals[arg], next)
        } else {
            Outcome::Fault(VMError::InvalidGlobalIndex(arg as u16))
        },
        OpCode::Jump => goto(s, landing(s, arg)),
        // NoOp
        _ => goto(s, next),
    }
}

/// One instruction `op` with operand `arg`; `next` is the offset just past it.
pub open spec fn op_spec(s: State, op: OpCode, arg: int, next: int, f: FloatAnswer) -> Outcome {
    if is_binary(op) {
        binary_step(s, op, next, f)
    } else if pops_one(op) {
        one_pop_step(s, op, arg, next)
    } else if pops_two(op) {
        two_pop_step(s, op, next)
    } else if op == OpCode::ArraySet {
        array_set_step(s, next)
    } else if op == OpCode::Array {
        array_new_step(s, arg, next)
    } else if op == OpCode::CallFunction {
        call_step(s, arg, next)
    } else {
        plain_step(s, op, arg, next)
    }
}

/// The instructions that begin by popping `v`; `s` is the state after the pop.
pub open spec fn one_pop_spec(s: State, op: OpCode, v: Value, arg: int, next: int) -> Outcome {
    let n = s.stack.len();
    match op {
        OpCode::Print => Outcome::Next(State { ip: next, ..s }, Some(v)),
        OpCode::Not => match v {
            Value::Bool(b) => push_then(s, Value::Bool(!b), next),
            _ => Outcome::Fault(VMError::InvalidUnaryOperandType(v)),
        },
        OpCode::StoreLocal => match local_read(s, arg) {
            Ok(_) => goto(
                State { stack: s.stack.update(s.frames.last().base_pointer + arg, v), ..s },
                next,
            ),
            Err(e) => Outcome::Fault(e),
        },
        OpCode::StoreGlobal => if arg == s.globals.len() {
            goto(State { globals: s.globals.push(v), ..s }, next)
        } else if arg < s.globals.len() {
            goto(State { globals: s.globals.update(arg, v), ..s }, next)
        } else {
            Outcome::Fault(VMError::InvalidGlobalIndex(arg as u16))
        },
        OpCode::JumpIfFalse | OpCode::JumpIfTrue => match v {
            Value::Bool(b) => if b == (op == OpCode::JumpIfTrue) {
                goto(s, landing(s, arg))
            } else {
                goto(s, next)
            },
            _ => Outcome::Fault(VMError::InvalidStackValueType(Value::Bool(true), v)),
        },
        OpCode::Box => push_then(
            State { cells: s.cells.push(v), ..s },
            Value::Boxed(s.cells.len() as usize),
            next,
        ),
        OpCode::Unbox => match v {
            Value::Boxed(h) => if h < s.cells.len() {
                push_then(s, s.cells[h as int], next)
            } else {
                Outcome::Fault(VMError::InvalidStackValueType(Value::Boxed(0), v))
            },
            _ => Outcome::Fault(VMError::InvalidStackValueType(Value::Boxed(0), v)),
        },
        OpCode::ArrayPop => match array_of(s, v) {
            Err(e) => Outcome::Fault(e),
            Ok(h) => if s.arrays[h].len() == 0 {
                Outcome::Fault(VMError::CouldNotPopArray)
            } else {
                push_then(
                    State { arrays: s.arrays.update(h, s.arrays[h].drop_last()), ..s },
                    s.arrays[h].last(),
                    next,
                )
            },
        },
        OpCode::ArrayLen => match array_of(s, v) {
            Err(e) => Outcome::Fault(e),
            Ok(h) => push_then(s, Value::Int(s.arrays[h].len() as i64), next),
        },
        OpCode::Return => if s.frames.len() == 0 {
            Outcome::Fault(VMError::NotInFrame)
        } else if n < s.frames.last().base_pointer {
            Outcome::Fault(VMError::StackUnderflow)
        } else {
            Outcome::Next(
                State {
                    stack: s.stack.subrange(0, s.frames.last().base_pointer as int).push(v),
                    frames: s.frames.drop_last(),
                    ip: s.frames.last().return_address as int,
                    ..s
                },
                None,
            )
        },
        // Pop
        _ => goto(s, next),
    }
}

/// The instructions that pop `v` and then `w`; `s` is the state after both pops.
pub open spec fn two_pop_spec(s: State, op: OpCode, w: Value, v: Value, next: int) -> Outcome {
    match op {
        OpCode::SetBox => match w {
            Value::Boxed(h) => if h < s.cells.len() {
                goto(State { cells: s.cells.update(h as int, v), ..s }, next)
            } else {
                Outcome::Fault(VMError::InvalidStackValueType(Value::Boxed(0), w))
            },
            _ => Outcome::Fault(VMError::InvalidStackValueType(Value::Boxed(0), w)),
        },
        OpCode::ArrayGet => match array_slot(s, w, v) {
            Err(e) => Outcome::Fault(e),
            Ok((h, i)) => push_then(s, s.arrays[h][i], next),
        },
        // ArrayPush
        _ => match array_of(s, w) {
            Err(e) => Outcome::Fault(e),
            Ok(h) => goto(State { arrays: s.arrays.update(h, s.arrays[h].push(v)), ..s }, next),
        },
    }
}

/// One step from `s`, where `f` stands for what the float unit answers.
pub open spec fn step_spec(s: State, f: FloatAnswer) -> Outcome {
    let b = s.code[s.ip];
    match OpCode::spec_decode(b) {
        None => Outcome::Fault(VMError::InvalidOpcode(b)),
        Some(op) => if s.ip + op.spec_width() >= s.code.len() {
            Outcome::Fault(VMError::InvalidOperandSize(b, op.spec_width() as u8))
        } else {
            op_spec(s, op, operand(s.code, s.ip, op), s.ip + 1 + op.spec_width(), f)
        },
    }
}

/// Does the step that the implementation took (result `r`, then state `s2`)
/// agree with the outcome `o`?
pub open spec fn agrees(o: Outcome, r: Result<Option<Value>, VMError>, s2: State) -> bool {
    match o {
        Outcome::Next(s, out) => r == Ok::<Option<Value>, VMError>(out) && s2 == s,
        Outcome::Fault(e) => r == Err::<Option<Value>, VMError>(e),
    }
}

/// What a step printed.
pub open spec fn printed_by(o: Option<Value>) -> Seq<Value> {
    match o {
        Some(v) => seq![v],
        None => Seq::empty(),
    }
}

/// One step from `m`, which has not halted, leads to `t` and prints `o`.
pub open spec fn steps_to(m: State, t: State, o: Option<Value>) -> bool {
    m.ip < m.code.len() && exists|f: FloatAnswer| #[trigger] step_spec(m, f) == Outcome::Next(t, o)
}

/// One step from `m`, which has not halted, ends the run with `e`.
pub open spec fn faults_with(m: State, e: VMError) -> bool {
    m.ip < m.code.len() && exists|f: FloatAnswer| #[trigger] step_spec(m, f) == Outcome::Fault(e)
}

/// `n` steps lead from `s` to `t` and print `out`.
pub open spec fn runs(s: State, t: State, out: Seq<Value>, n: nat) -> bool
    decreases n,
{
    if n == 0 {
        t == s && out.len() == 0
    } else {
        exists|m: State, o: Option<Value>|
            #[trigger] steps_to(m, t, o) && out.len() >= printed_by(o).len() && out.subrange(
                out.len() - printed_by(o).len(),
                out.len() as int,
            ) == printed_by(o) && runs(
                s,
                m,
                out.subrange(0, out.len() - printed_by(o).len()),
                (n - 1) as nat,
            )
    }
}

/// The interpreter: a loaded program, the instruction pointer, the globals,
/// the value stack with its frames, and the heap of boxed cells and arrays.
pub struct VM {
    stack: Stack,
    consts: Vec<Value>,
    functions: Vec<Function>,
    globals: Vec<Value>,
    cells: Vec<Value>,
    arrays: Vec<Vec<Value>>,
    code: Vec<u8>,
    ip: usize,
}

impl View for VM {
    type V = State;

    closed spec fn view(&self) -> State {
        State {
            code: self.code@,
            consts: self.consts@,
            functions: self.functions@,
            ip: self.ip as int,
            globals: self.globals@,
            stack: self.stack@,
            frames: self.stack.frames(),
            max_stack: self.stack.max_size(),
            cells: self.cells@,
            arrays: self.arrays@.map_values(|a: Vec<Value>| a@),
        }
    }
}

impl VM {
    /// The stack stays within its maximum height.
    pub open spec fn wf(&self) -> bool {
        self@.stack.len() <= self@.max_stack
    }

    /// The run is over once the instruction pointer leaves the code.
    pub open spec fn halted(&self) -> bool {
        self@.ip >= self@.code.len()
    }

    /// A machine with no program, whose stack may grow to `usize::MAX` values.
    pub fn new(init_stack_cap: usize) -> (r: VM)
        ensures
            r.wf(),
            r@ == (State {
                code: Seq::empty(),
                consts: Seq::empty(),
                functions: Seq::empty(),
                ip: 0,
                globals: Seq::empty(),
                stack: Seq::empty(),
                frames: Seq::empty(),
                max_stack: usize::MAX as nat,
                cells: Seq::empty(),
                arrays: Seq::empty(),
            }),
    {
        VM::with_max_stack(init_stack_cap, usize::MAX)
    }

    /// A machine with no program, whose stack may grow to `max_stack` values.
    pub fn with_max_stack(init_stack_cap: usize, max_stack: usize) -> (r: VM)
        ensures
            r.wf(),
            r@ == (State {
                code: Seq::empty(),
                consts: Seq::empty(),
                functions: Seq::empty(),
                ip: 0,
                globals: Seq::empty(),
                stack: Seq::empty(),
                frames: Seq::empty(),
                max_stack: max_stack as nat,
                cells: Seq::empty(),
                arrays: Seq::empty(),
            }),
    {
        let r = VM {
            stack: Stack::new(init_stack_cap, max_stack),
            consts: Vec::new(),
            functions: Vec::new(),
            globals: Vec::new(),
            cells: Vec::new(),
            arrays: Vec::new(),
            code: Vec::new(),
            ip: 0,
        };
        assert(r@.arrays =~= Seq::<Seq<Value>>::empty());
        r
    }

    /// Loads a program; execution will start at its entry.
    pub fn load_code(&mut self, bytecode: Bytecode)
        requires
            old(self).wf(),
        ensures
            final(self).wf(),
            final(self)@ == (State {
                code: bytecode.code@,
                consts: bytecode.consts@,
                functions: bytecode.functions@,
                ip: bytecode.entry as int,
                ..old(self)@
            }),
    {
        self.code = bytecode.code;
        self.consts = bytecode.consts;
        self.functions = bytecode.functions;
        self.ip = bytecode.entry;
    }

    pub fn is_halted(&self) -> (r: bool)
        ensures
            r == self.halted(),
    {
        self.ip >= self.code.len()
    }

    /// The values on the stack, bottom first.
    pub fn stack_values(&self) -> (r: Vec<Value>)
        ensures
            r@ == self@.stack,
    {
        let n = self.stack.len();
        let mut r: Vec<Value> = Vec::new();
        let mut i: usize = 0;
        while i < n
            invariant
                n == self@.stack.len(),
                i <= n,
                r@ == self@.stack.subrange(0, i as int),
            decreases n - i,
        {
            r.push(self.stack.peek(i));
            i = i + 1;
        }
        assert(r@ =~= self@.stack);
        r
    }

    /// Executes the instruction at the instruction pointer. A printed value
    /// is handed back; a fault ends the run (the state after it is not
    /// specified).
    pub fn step<F: FloatUnit>(&mut self, fpu: &F) -> (r: Result<Option<Value>, VMError>)
        requires
            old(self).wf(),
            !old(self).halted(),
        ensures
            final(self).wf(),
            exists|f: FloatAnswer| agrees(#[trigger] step_spec(old(self)@, f), r, final(self)@),
    {
        let ghost s = self@;
        let ghost none = FloatAnswer { bits: 0, truth: false, whole: 0 };
        let b = self.code[self.ip];
        let op = match OpCode::from_byte(b) {
            Some(op) => op,
            None => {
                let r = Err(VMError::InvalidOpcode(b));
                assert(agrees(step_spec(s, none), r, self@));
                return r;
            },
        };
        let w = op.width();
        if w >= self.code.len() - self.ip {
            let r = Err(VMError::InvalidOperandSize(b, w as u8));
            assert(agrees(step_spec(s, none), r, self@));
            return r;
        }
        let at = self.ip + 1;
        let arg: u32 = if w == 1 {
            self.code[at] as u32
        } else if w == 2 {
            self.read_u16(at) as u32
        } else if w == 4 {
            self.read_u32(at)
        } else {
            0
        };
        let imm: i16 = if op == OpCode::PushImmediate {
            let u = self.read_u16(at);
            if u >= 32768 {
                (u as i32 - 65536) as i16
            } else {
                u as i16
            }
        } else {
            0
        };
        let next = at + w;
        let ghost arg_spec = operand(s.code, s.ip, op);
        assert(op != OpCode::PushImmediate ==> arg_spec == arg as int);
        assert(op == OpCode::PushImmediate ==> arg_spec == imm as int);
        let (r, fa) = if is_binary_op(op) {
            self.exec_binary(op, next, fpu)
        } else if pops_one_op(op) {
            (self.exec_one_pop(op, arg, next), Ghost(none))
        } else if op == OpCode::SetBox || op == OpCode::ArrayGet || op == OpCode::ArrayPush {
            (self.exec_two_pop(op, next), Ghost(none))
        } else if op == OpCode::ArraySet {
            (self.exec_array_set(next), Ghost(none))
        } else if op == OpCode::Array {
            (self.exec_array_new(arg as usize, next), Ghost(none))
        } else if op == OpCode::CallFunction {
            (self.exec_call(arg as u16, next), Ghost(none))
        } else {
            (self.exec_plain(op, arg, imm, next), Ghost(none))
        };
        assert(agrees(step_spec(s, fa@), r, self@));
        r
    }

    /// Runs at most `max_steps` steps, appending what is printed to
    /// `printed`. `Ok(true)`: the run is over; `Ok(false)`: the budget ran
    /// out first; `Err`: a fault ended the run.
    pub fn execute<F: FloatUnit>(&mut self, fpu: &F, max_steps: u64, printed: &mut Vec<Value>) -> (r:
        Result<bool, VMError>)
        requires
            old(self).wf(),
        ensures
            final(self).wf(),
            final(printed)@.len() >= old(printed)@.len(),
            final(printed)@.subrange(0, old(printed)@.len() as int) == old(printed)@,
            match r {
                Ok(done) => exists|n: nat|
                    #[trigger] runs(
                        old(self)@,
                        final(self)@,
                        final(printed)@.subrange(old(printed)@.len() as int, final(printed)@.len() as int),
                        n,
                    ) && n <= max_steps && (done ==> final(self).halted()) && (!done ==> n
                        == max_steps && !final(self).halted()),
                Err(e) => exists|n: nat, m: State|
                    #[trigger] runs(
                        old(self)@,
                        m,
                        final(printed)@.subrange(old(printed)@.len() as int, final(printed)@.len() as int),
                        n,
                    ) && n < max_steps && faults_with(m, e),
            },
    {
        let ghost s0 = self@;
        let ghost p0 = printed@;
        let ghost k0 = printed@.len() as int;
        let mut steps: u64 = 0;
        assert(runs(s0, self@, printed@.subrange(k0, printed@.len() as int), 0));
        loop
            invariant
                self.wf(),
                steps <= max_steps,
                printed@.len() >= k0,
                printed@.subrange(0, k0) == p0,
                k0 == old(printed)@.len(),
                p0 == old(printed)@,
                s0 == old(self)@,
                runs(s0, self@, printed@.subrange(k0, printed@.len() as int), steps as nat),
            decreases max_steps - steps,
        {
            if self.is_halted() {
                return Ok(true);
            }
            if steps == max_steps {
                return Ok(false);
            }
            let ghost prev = self@;
            let ghost out0 = printed@.subrange(k0, printed@.len() as int);
            match self.step(fpu) {
                Ok(o) => {
                    let ghost f = choose|f: FloatAnswer| agrees(#[trigger] step_spec(prev, f), Ok(o), self@);
                    assert(step_spec(prev, f) == Outcome::Next(self@, o));
                    assert(steps_to(prev, self@, o));
                    match o {
                        Some(v) => printed.push(v),
                        None => {},
                    }
                    let ghost out1 = printed@.subrange(k0, printed@.len() as int);
                    assert(out1.subrange(0, out1.len() - printed_by(o).len()) =~= out0);
                    assert(out1.subrange(out1.len() - printed_by(o).len(), out1.len() as int) =~= printed_by(o));
                    assert(printed@.subrange(0, k0) =~= p0);
                    assert(runs(s0, self@, out1, (steps + 1) as nat));
                },
                Err(e) => {
                    let ghost f = choose|f: FloatAnswer| agrees(#[trigger] step_spec(prev, f), Err::<Option<Value>, VMError>(e), self@);
                    assert(faults_with(prev, e));
                    return Err(e);
                },
            }
            steps = steps + 1;
        }
    }

    fn read_u16(&self, at: usize) -> (r: u16)
        requires
            at + 1 < self.code.len(),
        ensures
            r as int == u16_at(self@.code, at as int),
    {
        self.code[at] as u16 + self.code[at + 1] as u16 * 256
    }

    fn read_u32(&self, at: usize) -> (r: u32)
        requires
            at + 3 < self.code.len(),
        ensures
            r as int == u32_at(self@.code, at as int),
    {
        self.code[at] as u32 + self.code[at + 1] as u32 * 256 + self.code[at + 2] as u32 * 65536
            + self.code[at + 3] as u32 * 16777216
    }

    fn landing_ip(&self, target: usize) -> (r: usize)
        ensures
            r == landing(self@, target as int),
    {
        if target < self.code.len() {
            target + 1
        } else {
            self.code.len()
        }
    }

    /// Pushes `v` and moves on to `next`.
    fn push_and_go(&mut self, v: Value, next: usize) -> (r: Result<Option<Value>, VMError>)
        requires
            old(self).wf(),
        ensures
            final(self).wf(),
            agrees(push_then(old(self)@, v, next as int), r, final(self)@),
    {
        match self.stack.push(v) {
            Ok(()) => {
                self.ip = next;
                Ok(None)
            },
            Err(e) => Err(e),
        }
    }

    fn array_of(&self, v: &Value) -> (r: Result<usize, VMError>)
        ensures
            match array_of(self@, *v) {
                Ok(h) => r == Ok::<usize, VMError>(h as usize),
                Err(e) => r == Err::<usize, VMError>(e),
            },
    {
        match v {
            Value::Array(h) => if *h < self.arrays.len() {
                Ok(*h)
            } else {
                Err(VMError::InvalidStackValueType(Value::Array(0), v.copy()))
            },
            _ => Err(VMError::InvalidStackValueType(Value::Array(0), v.copy())),
        }
    }

    fn array_slot(&self, arr: &Value, idx: &Value) -> (r: Result<(usize, usize), VMError>)
        ensures
            match array_slot(self@, *arr, *idx) {
                Ok((h, i)) => r == Ok::<(usize, usize), VMError>((h as usize, i as usize)) && 0 <= h
                    < self.arrays@.len() && 0 <= i < self.arrays@[h].len(),
                Err(e) => r == Err::<(usize, usize), VMError>(e),
            },
    {
        let h = match self.array_of(arr) {
            Ok(h) => h,
            Err(e) => return Err(e),
        };
        let len = self.arrays[h].len();
        match idx {
            Value::Int(i) => if 0 <= *i && (*i as u128) < (len as u128) {
                Ok((h, *i as usize))
            } else {
                Err(VMError::IndexOutsideRangeOfArray(*i, len))
            },
            _ => Err(VMError::InvalidStackValueType(Value::Int(0), idx.copy())),
        }
    }

    fn exec_binary<F: FloatUnit>(&mut self, op: OpCode, next: usize, fpu: &F) -> (res: (
        Result<Option<Value>, VMError>,
        Ghost<FloatAnswer>,
    ))
        requires
            old(self).wf(),
            is_binary(op),
        ensures
            final(self).wf(),
            agrees(binary_step(old(self)@, op, next as int, res.1@), res.0, final(self)@),
    {
        let ghost s = self@;
        let none = Ghost(FloatAnswer { bits: 0, truth: false, whole: 0 });
        let r = match self.stack.pop() {
            Ok(v) => v,
            Err(e) => return (Err(e), none),
        };
        let l = match self.stack.pop() {
            Ok(v) => v,
            Err(e) => return (Err(e), none),
        };
        assert(self@ == popped(s, 2)) by {
            assert(self@.stack =~= popped(s, 2).stack);
        }
        let (v, fa) = binary(op, l, r, fpu);
        match v {
            Ok(v) => (self.push_and_go(v, next), fa),
            Err(e) => (Err(e), fa),
        }
    }

    fn exec_one_pop(&mut self, op: OpCode, arg: u32, next: usize) -> (r: Result<
        Option<Value>,
        VMError,
    >)
        requires
            old(self).wf(),
            pops_one(op),
            op.spec_width() == 1 ==> arg < 256,
            op.spec_width() == 2 ==> arg < 65536,
            next <= old(self)@.code.len(),
        ensures
            final(self).wf(),
            agrees(one_pop_step(old(self)@, op, arg as int, next as int), r, final(self)@),
    {
        let ghost s0 = self@;
        let v = match self.stack.pop() {
            Ok(v) => v,
            Err(e) => return Err(e),
        };
        let ghost s = self@;
        assert(s == popped(s0, 1)) by {
            assert(s.stack =~= popped(s0, 1).stack);
        }
        match op {
            OpCode::Print => {
                self.ip = next;
                Ok(Some(v))
            },
            OpCode::Not => match v {
                Value::Bool(b) => self.push_and_go(Value::Bool(!b), next),
                _ => Err(VMError::InvalidUnaryOperandType(v)),
            },
            OpCode::StoreLocal => match self.stack.set_local(arg as u8, v) {
                Ok(()) => {
                    self.ip = next;
                    Ok(None)
                },
                Err(e) => Err(e),
            },
            OpCode::StoreGlobal => {
                let idx = arg as usize;
                if idx == self.globals.len() {
                    self.globals.push(v);
                } else if idx < self.globals.len() {
                    self.globals.set(idx, v);
                } else {
                    return Err(VMError::InvalidGlobalIndex(arg as u16));
                }
                self.ip = next;
                Ok(None)
            },
            OpCode::JumpIfFalse | OpCode::JumpIfTrue => match v {
                Value::Bool(b) => {
                    if b == (op == OpCode::JumpIfTrue) {
                        self.ip = self.landing_ip(arg as usize);
                    } else {
                        self.ip = next;
                    }
                    Ok(None)
                },
                _ => Err(VMError::InvalidStackValueType(Value::Bool(true), v)),
            },
            OpCode::Box => {
                let h = self.cells.len();
                self.cells.push(v);
                self.push_and_go(Value::Boxed(h), next)
            },
            OpCode::Unbox => match v {
                Value::Boxed(h) => if h < self.cells.len() {
                    let c = self.cells[h].copy();
                    self.push_and_go(c, next)
                } else {
                    Err(VMError::InvalidStackValueType(Value::Boxed(0), v))
                },
                _ => Err(VMError::InvalidStackValueType(Value::Boxed(0), v)),
            },
            OpCode::ArrayPop => {
                let h = match self.array_of(&v) {
                    Ok(h) => h,
                    Err(e) => return Err(e),
                };
                match self.arrays[h].pop() {
                    Some(x) => {
                        assert(self@.arrays =~= s.arrays.update(h as int, s.arrays[h as int].drop_last()));
                        self.push_and_go(x, next)
                    },
                    None => Err(VMError::CouldNotPopArray),
                }
            },
            OpCode::ArrayLen => {
                let h = match self.array_of(&v) {
                    Ok(h) => h,
                    Err(e) => return Err(e),
                };
                let n = self.arrays[h].len();
                self.push_and_go(Value::Int(n as i64), next)
            },
            OpCode::Return => match self.stack.pop_frame() {
                Ok(ra) => {
                    match self.stack.push(v) {
                        Ok(()) => {},
                        Err(e) => return Err(e),
                    }
                    self.ip = ra;
                    Ok(None)
                },
                Err(e) => Err(e),
            },
            _ => {
                self.ip = next;
                Ok(None)
            },
        }
    }

    fn exec_two_pop(&mut self, op: OpCode, next: usize) -> (r: Result<Option<Value>, VMError>)
        requires
            old(self).wf(),
            pops_two(op),
        ensures
            final(self).wf(),
            agrees(two_pop_step(old(self)@, op, next as int), r, final(self)@),
    {
        let ghost s0 = self@;
        let v = match self.stack.pop() {
            Ok(v) => v,
            Err(e) => return Err(e),
        };
        let w = match self.stack.pop() {
            Ok(v) => v,
            Err(e) => return Err(e),
        };
        let ghost s = self@;
        assert(s == popped(s0, 2)) by {
            assert(s.stack =~= popped(s0, 2).stack);
        }
        match op {
            OpCode::SetBox => match w {
                Value::Boxed(h) => if h < self.cells.len() {
                    self.cells.set(h, v);
                    self.ip = next;
                    Ok(None)
                } else {
                    Err(VMError::InvalidStackValueType(Value::Boxed(0), w))
                },
                _ => Err(VMError::InvalidStackValueType(Value::Boxed(0), w)),
            },
            OpCode::ArrayGet => {
                let (h, i) = match self.array_slot(&w, &v) {
                    Ok(p) => p,
                    Err(e) => return Err(e),
                };
                let x = self.arrays[h][i].copy();
                assert(x == s.arrays[h as int][i as int]);
                self.push_and_go(x, next)
            },
            _ => {
                let h = match self.array_of(&w) {
                    Ok(h) => h,
                    Err(e) => return Err(e),
                };
                self.arrays[h].push(v);
                assert(self@.arrays =~= s.arrays.update(h as int, s.arrays[h as int].push(v)));
                self.ip = next;
                Ok(None)
            },
        }
    }

    fn exec_array_set(&mut self, next: usize) -> (r: Result<Option<Value>, VMError>)
        requires
            old(self).wf(),
        ensures
            final(self).wf(),
            agrees(array_set_step(old(self)@, next as int), r, final(self)@),
    {
        let ghost s0 = self@;
        let v = match self.stack.pop() {
            Ok(v) => v,
            Err(e) => return Err(e),
        };
        let idx = match self.stack.pop() {
            Ok(v) => v,
            Err(e) => return Err(e),
        };
        let arr = match self.stack.pop() {
            Ok(v) => v,
            Err(e) => return Err(e),
        };
        let ghost s = self@;
        assert(s == popped(s0, 3)) by {
            assert(s.stack =~= popped(s0, 3).stack);
        }
        let (h, i) = match self.array_slot(&arr, &idx) {
            Ok(p) => p,
            Err(e) => return Err(e),
        };
        self.arrays[h].set(i, v);
        assert(self@.arrays =~= s.arrays.update(h as int, s.arrays[h as int].update(i as int, v)));
        self.ip = next;
        Ok(None)
    }

    fn exec_array_new(&mut self, n: usize, next: usize) -> (r: Result<Option<Value>, VMError>)
        requires
            old(self).wf(),
        ensures
            final(self).wf(),
            agrees(array_new_step(old(self)@, n as int, next as int), r, final(self)@),
    {
        let ghost s0 = self@;
        let items = match self.stack.pop_many(n) {
            Ok(items) => items,
            Err(e) => return Err(e),
        };
        let ghost s1 = self@;
        assert(s1 == popped(s0, n as int)) by {
            assert(s1.stack =~= popped(s0, n as int).stack);
        }
        let h = self.arrays.len();
        self.arrays.push(items);
        assert(self@.arrays =~= s1.arrays.push(s0.stack.subrange(s0.stack.len() - n, s0.stack.len() as int)));
        self.push_and_go(Value::Array(h), next)
    }

    fn exec_call(&mut self, idx: u16, next: usize) -> (r: Result<Option<Value>, VMError>)
        requires
            old(self).wf(),
        ensures
            final(self).wf(),
            agrees(call_step(old(self)@, idx as int, next as int), r, final(self)@),
    {
        let ghost s0 = self@;
        let i = idx as usize;
        if i >= self.functions.len() {
            return Err(VMError::InvalidFunctionIndex(idx));
        }
        let func = self.functions[i];
        let arity = func.arity as usize;
        let locals = if func.locals < func.arity {
            arity
        } else {
            func.locals as usize
        };
        let args = match self.stack.pop_many(arity) {
            Ok(args) => args,
            Err(e) => return Err(e),
        };
        let ghost s1 = self@;
        match self.stack.push_frame(args, locals, next) {
            Ok(()) => {},
            Err(e) => return Err(e),
        }
        assert(self@.stack =~= s0.stack + nulls((locals - arity) as nat)) by {
            assert(s0.stack =~= s1.stack + args@);
        }
        self.ip = self.landing_ip(func.address);
        Ok(None)
    }

    fn exec_plain(&mut self, op: OpCode, arg: u32, imm: i16, next: usize) -> (r: Result<
        Option<Value>,
        VMError,
    >)
        requires
            old(self).wf(),
            !is_binary(op) && !pops_one(op) && !pops_two(op),
            op != OpCode::ArraySet && op != OpCode::Array && op != OpCode::CallFunction,
            op.spec_width() == 1 ==> arg < 256,
            op.spec_width() == 2 ==> arg < 65536,
            next <= old(self)@.code.len(),
        ensures
            final(self).wf(),
            agrees(
                plain_step(
                    old(self)@,
                    op,
                    if op == OpCode::PushImmediate {
                        imm as int
                    } else {
                        arg as int
                    },
                    next as int,
                ),
                r,
                final(self)@,
            ),
    {
        match op {
            OpCode::PushConst => {
                let i = arg as usize;
                if i >= self.consts.len() {
                    Err(VMError::InvalidConstantIndex(arg as u16))
                } else {
                    let c = self.consts[i].copy();
                    self.push_and_go(c, next)
                }
            },
            OpCode::PushImmediate => self.push_and_go(Value::Int(imm as i64), next),
            OpCode::PushLocal => match self.stack.peek_local(arg as u8) {
                Ok(v) => self.push_and_go(v, next),
                Err(e) => Err(e),
            },
            OpCode::PushGlobal => {
                let i = arg as usize;
                if i < self.globals.len() {
                    let g = self.globals[i].copy();
                    self.push_and_go(g, next)
                } else {
                    Err(VMError::InvalidGlobalIndex(arg as u16))
                }
            },
            OpCode::Jump => {
                self.ip = self.landing_ip(arg as usize);
                Ok(None)
            },
            _ => {
                self.ip = next;
                Ok(None)
            },
        }
    }
}

fn is_binary_op(op: OpCode) -> (r: bool)
    ensures
        r == is_binary(op),
{
    match op {
        OpCode::Add | OpCode::Sub | OpCode::Mul | OpCode::Div | OpCode::DivInt | OpCode::Mod
        | OpCode::Equal | OpCode::NotEqual | OpCode::LessThan | OpCode::GreaterThan
        | OpCode::GreaterEqual | OpCode::LessEqual | OpCode::LogicalAnd | OpCode::LogicalOr => true,
        _ => false,
    }
}

fn pops_one_op(op: OpCode) -> (r: bool)
    ensures
        r == pops_one(op),
{
    match op {
        OpCode::Pop | OpCode::Print | OpCode::Not | OpCode::StoreLocal | OpCode::StoreGlobal
        | OpCode::JumpIfFalse | OpCode::JumpIfTrue | OpCode::Box | OpCode::Unbox
        | OpCode::ArrayPop | OpCode::ArrayLen | OpCode::Return => true,
        _ => false,
    }
}

/// A two-operand instruction, with the float unit asked where both operands
/// are floats.
fn binary<F: FloatUnit>(op: OpCode, l: Value, r: Value, fpu: &F) -> (res: (
    Result<Value, VMError>,
    Ghost<FloatAnswer>,
))
    requires
        is_binary(op),
    ensures
        res.0 == binary_spec(op, l, r, res.1@),
{
    let none = Ghost(FloatAnswer { bits: 0, truth: false, whole: 0 });
    let (x, fa) = match (&l, &r) {
        (Value::Int(a), Value::Int(b)) => (int_binary(op, *a, *b), none),
        (Value::Float(a), Value::Float(b)) => float_binary(op, *a, *b, fpu),
        (Value::Bool(a), Value::Bool(b)) => (bool_binary(op, *a, *b), none),
        _ => (None, none),
    };
    match x {
        Some(x) => (x, fa),
        None => (Err(VMError::InvalidOperandType(l, r)), fa),
    }
}

fn int_binary(op: OpCode, a: i64, b: i64) -> (r: Option<Result<Value, VMError>>)
    ensures
        r == int_binary_spec(op, a, b),
{
    match op {
        OpCode::Add => Some(Ok(Value::Int(a.wrapping_add(b)))),
        OpCode::Sub => Some(Ok(Value::Int(a.wrapping_sub(b)))),
        OpCode::Mul => Some(Ok(Value::Int(a.wrapping_mul(b)))),
        OpCode::Div => Some(
            if b == 0 {
                Err(VMError::DivisionByZero)
            } else {
                Ok(Value::Int(int_div(a, b)))
            },
        ),
        OpCode::DivInt => Some(
            if b == 0 {
                Err(VMError::DivisionByZero)
            } else {
                Ok(Value::Int(int_floor_div(a, b)))
            },
        ),
        OpCode::Mod => Some(
            if b == 0 {
                Err(VMError::DivisionByZero)
            } else {
                Ok(Value::Int(int_rem(a, b)))
            },
        ),
        OpCode::Equal => Some(Ok(Value::Bool(a == b))),
        OpCode::NotEqual => Some(Ok(Value::Bool(a != b))),
        OpCode::LessThan => Some(Ok(Value::Bool(a < b))),
        OpCode::GreaterThan => Some(Ok(Value::Bool(a > b))),
        OpCode::GreaterEqual => Some(Ok(Value::Bool(a >= b))),
        OpCode::LessEqual => Some(Ok(Value::Bool(a <= b))),
        _ => None,
    }
}

fn float_binary<F: FloatUnit>(op: OpCode, a: u64, b: u64, fpu: &F) -> (res: (
    Option<Result<Value, VMError>>,
    Ghost<FloatAnswer>,
))
    ensures
        res.0 == float_binary_spec(op, b, res.1@),
{
    let zero = float_is_zero(b);
    match op {
        OpCode::Add | OpCode::Sub | OpCode::Mul => {
            let bits = match op {
                OpCode::Add => fpu.add(a, b),
                OpCode::Sub => fpu.sub(a, b),
                _ => fpu.mul(a, b),
            };
            (Some(Ok(Value::Float(bits))), Ghost(FloatAnswer { bits, truth: false, whole: 0 }))
        },
        OpCode::Div | OpCode::Mod => if zero {
            (Some(Err(VMError::DivisionByZero)), Ghost(FloatAnswer { bits: 0, truth: false, whole: 0 }))
        } else {
            let bits = if op == OpCode::Div {
                fpu.div(a, b)
            } else {
                fpu.rem(a, b)
            };
            (Some(Ok(Value::Float(bits))), Ghost(FloatAnswer { bits, truth: false, whole: 0 }))
        },
        OpCode::DivInt => if zero {
            (Some(Err(VMError::DivisionByZero)), Ghost(FloatAnswer { bits: 0, truth: false, whole: 0 }))
        } else {
            let whole = fpu.floor_div(a, b);
            (Some(Ok(Value::Int(whole))), Ghost(FloatAnswer { bits: 0, truth: false, whole }))
        },
        OpCode::LessThan | OpCode::GreaterThan | OpCode::GreaterEqual | OpCode::LessEqual => {
            let truth = match op {
                OpCode::LessThan => fpu.less(a, b),
                OpCode::GreaterThan => fpu.less(b, a),
                OpCode::LessEqual => fpu.less_eq(a, b),
                _ => fpu.less_eq(b, a),
            };
            (Some(Ok(Value::Bool(truth))), Ghost(FloatAnswer { bits: 0, truth, whole: 0 }))
        },
        _ => (None, Ghost(FloatAnswer { bits: 0, truth: false, whole: 0 })),
    }
}

fn bool_binary(op: OpCode, a: bool, b: bool) -> (r: Option<Result<Value, VMError>>)
    ensures
        r == bool_binary_spec(op, a, b),
{
    match op {
        OpCode::Equal => Some(Ok(Value::Bool(a == b))),
        OpCode::NotEqual => Some(Ok(Value::Bool(a != b))),
        OpCode::LogicalAnd => Some(Ok(Value::Bool(a && b))),
        OpCode::LogicalOr => Some(Ok(Value::Bool(a || b))),
        _ => None,
    }
}

} // verus!
