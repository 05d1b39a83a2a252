use fvm::bytecode::Bytecode;
use fvm::error::VMError;
use fvm::floats::FloatUnit;
use fvm::function::Function;
use fvm::opcode::OpCode;
use fvm::value::Value;
use fvm::vm::VM;

struct HostFloats;

impl FloatUnit for HostFloats {
    fn parse(&self, text: &str) -> Option<u64> {
        text.parse::<f64>().ok().map(|f| f.to_bits())
    }
    fn add(&self, l: u64, r: u64) -> u64 {
        (f64::from_bits(l) + f64::from_bits(r)).to_bits()
    }
    fn sub(&self, l: u64, r: u64) -> u64 {
        (f64::from_bits(l) - f64::from_bits(r)).to_bits()
    }
    fn mul(&self, l: u64, r: u64) -> u64 {
        (f64::from_bits(l) * f64::from_bits(r)).to_bits()
    }
    fn div(&self, l: u64, r: u64) -> u64 {
        (f64::from_bits(l) / f64::from_bits(r)).to_bits()
    }
    fn rem(&self, l: u64, r: u64) -> u64 {
        (f64::from_bits(l) % f64::from_bits(r)).to_bits()
    }
    fn floor_div(&self, l: u64, r: u64) -> i64 {
        (f64::from_bits(l) / f64::from_bits(r)).floor() as i64
    }
    fn less(&self, l: u64, r: u64) -> bool {
        f64::from_bits(l) < f64::from_bits(r)
    }
    fn less_eq(&self, l: u64, r: u64) -> bool {
        f64::from_bits(l) <= f64::from_bits(r)
    }
}

fn op(o: OpCode) -> u8 {
    o.to_byte()
}

fn machine(code: Vec<u8>, consts: Vec<Value>) -> VM {
    let mut vm = VM::new(16);
    vm.load_code(Bytecode { entry: 0, consts, functions: Vec::new(), code });
    vm
}

fn steps(vm: &mut VM, n: usize) -> Result<Vec<Value>, VMError> {
    let mut out = Vec::new();
    for _ in 0..n {
        if let Some(v) = vm.step(&HostFloats)? {
            out.push(v);
        }
    }
    Ok(out)
}

fn run_code(code: Vec<u8>, consts: Vec<Value>) -> (Result<bool, VMError>, Vec<Value>, VM) {
    let mut vm = machine(code, consts);
    let mut out = Vec::new();
    let r = vm.execute(&HostFloats, 1000, &mut out);
    (r, out, vm)
}

#[test]
fn push_const_then_pop_keeps_stack() {
    let code = vec![op(OpCode::PushImmediate), 9, 0, op(OpCode::PushConst), 0, 0, op(OpCode::Pop)];
    let mut vm = machine(code, vec![Value::Int(5)]);
    steps(&mut vm, 1).unwrap();
    let before = vm.stack_values();
    steps(&mut vm, 2).unwrap();
    assert_eq!(vm.stack_values(), before);
    assert_eq!(before, vec![Value::Int(9)]);
}

#[test]
fn box_then_unbox_is_identity() {
    let code = vec![op(OpCode::PushImmediate), 3, 0, op(OpCode::Box), op(OpCode::Unbox)];
    let mut vm = machine(code, vec![]);
    steps(&mut vm, 1).unwrap();
    let before = vm.stack_values();
    steps(&mut vm, 2).unwrap();
    assert_eq!(vm.stack_values(), before);
}

#[test]
fn array_then_len_pushes_count() {
    let code = vec![
        op(OpCode::PushImmediate), 1, 0,
        op(OpCode::PushImmediate), 2, 0,
        op(OpCode::PushImmediate), 3, 0,
        op(OpCode::Array), 3,
        op(OpCode::ArrayLen),
    ];
    let (r, _, vm) = run_code(code, vec![]);
    assert!(matches!(r, Ok(true)));
    assert_eq!(vm.stack_values(), vec![Value::Int(3)]);
}

#[test]
fn immediate_equal_to_itself() {
    for k in [-32768i16, -1, 0, 1, 32767] {
        let [lo, hi] = k.to_le_bytes();
        let code = vec![
            op(OpCode::PushImmediate), lo, hi,
            op(OpCode::PushImmediate), lo, hi,
            op(OpCode::Equal),
        ];
        let (r, _, vm) = run_code(code, vec![]);
        assert!(matches!(r, Ok(true)));
        assert_eq!(vm.stack_values(), vec![Value::Bool(true)]);
    }
}

#[test]
fn immediate_is_sign_extended() {
    let code = vec![op(OpCode::PushImmediate), 0x00, 0x80];
    let (_, _, vm) = run_code(code, vec![]);
    assert_eq!(vm.stack_values(), vec![Value::Int(-32768)]);
}

#[test]
fn pop_from_empty_array_fails() {
    let code = vec![op(OpCode::Array), 0, op(OpCode::ArrayPop)];
    let (r, _, _) = run_code(code, vec![]);
    assert!(matches!(r, Err(VMError::CouldNotPopArray)));
}

#[test]
fn array_get_at_length_fails_and_below_succeeds() {
    let mk = |i: u8| {
        vec![
            op(OpCode::PushImmediate), 10, 0,
            op(OpCode::PushImmediate), 20, 0,
            op(OpCode::Array), 2,
            op(OpCode::PushImmediate), i, 0,
            op(OpCode::ArrayGet),
        ]
    };
    let (r, _, _) = run_code(mk(2), vec![]);
    assert!(matches!(r, Err(VMError::IndexOutsideRangeOfArray(2, 2))));
    let (r, _, vm) = run_code(mk(1), vec![]);
    assert!(matches!(r, Ok(true)));
    assert_eq!(vm.stack_values(), vec![Value::Int(20)]);
}

#[test]
fn div_int_by_zero_fails() {
    let code = vec![op(OpCode::PushConst), 0, 0, op(OpCode::PushConst), 1, 0, op(OpCode::DivInt)];
    let (r, _, _) = run_code(code.clone(), vec![Value::Int(7), Value::Int(0)]);
    assert!(matches!(r, Err(VMError::DivisionByZero)));
    let floats = vec![Value::Float(7.5f64.to_bits()), Value::Float(0.0f64.to_bits())];
    let (r, _, _) = run_code(code.clone(), floats);
    assert!(matches!(r, Err(VMError::DivisionByZero)));
    let floats = vec![Value::Float(7.5f64.to_bits()), Value::Float((-0.0f64).to_bits())];
    let (r, _, _) = run_code(code, floats);
    assert!(matches!(r, Err(VMError::DivisionByZero)));
}

fn binary(consts: Vec<Value>, o: OpCode) -> Result<Vec<Value>, VMError> {
    let code = vec![op(OpCode::PushConst), 0, 0, op(OpCode::PushConst), 1, 0, op(o)];
    let (r, _, vm) = run_code(code, consts);
    r.map(|_| vm.stack_values())
}

#[test]
fn integer_arithmetic() {
    let ints = |a: i64, b: i64| vec![Value::Int(a), Value::Int(b)];
    assert_eq!(binary(ints(7, 2), OpCode::Add).unwrap(), vec![Value::Int(9)]);
    assert_eq!(binary(ints(7, 2), OpCode::Sub).unwrap(), vec![Value::Int(5)]);
    assert_eq!(binary(ints(7, 2), OpCode::Mul).unwrap(), vec![Value::Int(14)]);
    assert_eq!(binary(ints(-7, 2), OpCode::Div).unwrap(), vec![Value::Int(-3)]);
    assert_eq!(binary(ints(-7, 2), OpCode::DivInt).unwrap(), vec![Value::Int(-4)]);
    assert_eq!(binary(ints(7, -2), OpCode::DivInt).unwrap(), vec![Value::Int(-4)]);
    assert_eq!(binary(ints(-6, 2), OpCode::DivInt).unwrap(), vec![Value::Int(-3)]);
    assert_eq!(binary(ints(-7, 2), OpCode::Mod).unwrap(), vec![Value::Int(-1)]);
    assert_eq!(binary(ints(7, -2), OpCode::Mod).unwrap(), vec![Value::Int(1)]);
    assert_eq!(binary(ints(i64::MAX, 1), OpCode::Add).unwrap(), vec![Value::Int(i64::MIN)]);
    assert_eq!(binary(ints(i64::MIN, -1), OpCode::Div).unwrap(), vec![Value::Int(i64::MIN)]);
    assert_eq!(binary(ints(i64::MIN, -1), OpCode::Mod).unwrap(), vec![Value::Int(0)]);
    assert!(matches!(binary(ints(1, 0), OpCode::Div), Err(VMError::DivisionByZero)));
    assert!(matches!(binary(ints(1, 0), OpCode::Mod), Err(VMError::DivisionByZero)));
}

#[test]
fn comparisons_and_logic() {
    let ints = |a: i64, b: i64| vec![Value::Int(a), Value::Int(b)];
    let bools = |a: bool, b: bool| vec![Value::Bool(a), Value::Bool(b)];
    assert_eq!(binary(ints(1, 2), OpCode::LessThan).unwrap(), vec![Value::Bool(true)]);
    assert_eq!(binary(ints(1, 2), OpCode::GreaterThan).unwrap(), vec![Value::Bool(false)]);
    assert_eq!(binary(ints(2, 2), OpCode::GreaterEqual).unwrap(), vec![Value::Bool(true)]);
    assert_eq!(binary(ints(3, 2), OpCode::LessEqual).unwrap(), vec![Value::Bool(false)]);
    assert_eq!(binary(ints(3, 2), OpCode::NotEqual).unwrap(), vec![Value::Bool(true)]);
    assert_eq!(binary(bools(true, false), OpCode::LogicalAnd).unwrap(), vec![Value::Bool(false)]);
    assert_eq!(binary(bools(true, false), OpCode::LogicalOr).unwrap(), vec![Value::Bool(true)]);
    assert_eq!(binary(bools(true, true), OpCode::Equal).unwrap(), vec![Value::Bool(true)]);
    let r = binary(vec![Value::Int(1), Value::Bool(true)], OpCode::Add);
    assert!(matches!(r, Err(VMError::InvalidOperandType(Value::Int(1), Value::Bool(true)))));
    let r = binary(ints(1, 2), OpCode::LogicalAnd);
    assert!(matches!(r, Err(VMError::InvalidOperandType(_, _))));
}

#[test]
fn float_arithmetic_goes_through_the_float_unit() {
    let fl = |a: f64, b: f64| vec![Value::Float(a.to_bits()), Value::Float(b.to_bits())];
    assert_eq!(binary(fl(1.5, 2.25), OpCode::Add).unwrap(), vec![Value::Float(3.75f64.to_bits())]);
    assert_eq!(binary(fl(7.5, 2.0), OpCode::DivInt).unwrap(), vec![Value::Int(3)]);
    assert_eq!(binary(fl(-7.5, 2.0), OpCode::DivInt).unwrap(), vec![Value::Int(-4)]);
    assert_eq!(binary(fl(1.0, 2.0), OpCode::GreaterThan).unwrap(), vec![Value::Bool(false)]);
    assert_eq!(binary(fl(1.0, 2.0), OpCode::LessThan).unwrap(), vec![Value::Bool(true)]);
    let r = binary(fl(1.0, 1.0), OpCode::Equal);
    assert!(matches!(r, Err(VMError::InvalidOperandType(_, _))));
    let r = binary(vec![Value::Int(1), Value::Float(1.0f64.to_bits())], OpCode::LessThan);
    assert!(matches!(r, Err(VMError::InvalidOperandType(_, _))));
}

#[test]
fn vm_errors() {
    let (r, _, _) = run_code(vec![op(OpCode::Pop)], vec![]);
    assert!(matches!(r, Err(VMError::StackUnderflow)));
    let (r, _, _) = run_code(vec![0xEE], vec![]);
    assert!(matches!(r, Err(VMError::InvalidOpcode(0xEE))));
    let (r, _, _) = run_code(vec![op(OpCode::PushConst), 0], vec![]);
    assert!(matches!(r, Err(VMError::InvalidOperandSize(_, 2))));
    let (r, _, _) = run_code(vec![op(OpCode::PushConst), 4, 0], vec![]);
    assert!(matches!(r, Err(VMError::InvalidConstantIndex(4))));
    let (r, _, _) = run_code(vec![op(OpCode::PushGlobal), 0, 0], vec![]);
    assert!(matches!(r, Err(VMError::InvalidGlobalIndex(0))));
    let code = vec![op(OpCode::PushImmediate), 1, 0, op(OpCode::StoreGlobal), 1, 0];
    let (r, _, _) = run_code(code, vec![]);
    assert!(matches!(r, Err(VMError::InvalidGlobalIndex(1))));
    let (r, _, _) = run_code(vec![op(OpCode::PushLocal), 0], vec![]);
    assert!(matches!(r, Err(VMError::NotInFrame)));
    let (r, _, _) = run_code(vec![op(OpCode::CallFunction), 3, 0], vec![]);
    assert!(matches!(r, Err(VMError::InvalidFunctionIndex(3))));
    let code = vec![op(OpCode::PushImmediate), 1, 0, op(OpCode::Not)];
    let (r, _, _) = run_code(code, vec![]);
    assert!(matches!(r, Err(VMError::InvalidUnaryOperandType(Value::Int(1)))));
    let code = vec![op(OpCode::PushImmediate), 1, 0, op(OpCode::JumpIfTrue), 0, 0, 0, 0];
    let (r, _, _) = run_code(code, vec![]);
    assert!(matches!(r, Err(VMError::InvalidStackValueType(Value::Bool(true), Value::Int(1)))));
    let code = vec![op(OpCode::PushImmediate), 1, 0, op(OpCode::Unbox)];
    let (r, _, _) = run_code(code, vec![]);
    assert!(matches!(r, Err(VMError::InvalidStackValueType(_, Value::Int(1)))));
    let code = vec![op(OpCode::Return)];
    let (r, _, _) = run_code(vec![op(OpCode::PushImmediate), 1, 0].into_iter().chain(code).collect(), vec![]);
    assert!(matches!(r, Err(VMError::NotInFrame)));
}

#[test]
fn stack_never_exceeds_its_maximum() {
    let code = vec![op(OpCode::PushImmediate), 1, 0, op(OpCode::PushImmediate), 2, 0];
    let mut vm = VM::with_max_stack(1, 1);
    vm.load_code(Bytecode { entry: 0, consts: vec![], functions: vec![], code });
    let mut out = Vec::new();
    let r = vm.execute(&HostFloats, 10, &mut out);
    assert!(matches!(r, Err(VMError::StackOverflow)));
}

#[test]
fn return_restores_the_frame_base() {
    // f(a, b) = b, called with 7 below the arguments
    let code = vec![
        op(OpCode::NoOp),                     // 0: f
        op(OpCode::PushLocal), 1,             // 1
        op(OpCode::Return),                   // 3
        op(OpCode::NoOp),                     // 4: entry
        op(OpCode::PushImmediate), 7, 0,      // 5
        op(OpCode::PushImmediate), 1, 0,      // 8
        op(OpCode::PushImmediate), 2, 0,      // 11
        op(OpCode::CallFunction), 0, 0,       // 14
    ];
    let mut vm = VM::new(4);
    vm.load_code(Bytecode {
        entry: 4,
        consts: vec![],
        functions: vec![Function { address: 0, arity: 2, locals: 4 }],
        code,
    });
    let mut out = Vec::new();
    let r = vm.execute(&HostFloats, 100, &mut out);
    assert!(matches!(r, Ok(true)));
    assert_eq!(vm.stack_values(), vec![Value::Int(7), Value::Int(2)]);
}

#[test]
fn boxed_cell_seen_through_alias() {
    let code = vec![
        op(OpCode::PushImmediate), 5, 0,
        op(OpCode::Box),
        op(OpCode::StoreGlobal), 0, 0,
        op(OpCode::PushGlobal), 0, 0,
        op(OpCode::PushGlobal), 0, 0,
        op(OpCode::PushImmediate), 6, 0,
        op(OpCode::SetBox),
        op(OpCode::Unbox),
    ];
    let (r, _, vm) = run_code(code, vec![]);
    assert!(matches!(r, Ok(true)));
    assert_eq!(vm.stack_values(), vec![Value::Int(6)]);
}

#[test]
fn jump_lands_past_its_target() {
    let code = vec![op(OpCode::Jump), 6, 0, 0, 0, op(OpCode::Print), op(OpCode::NoOp)];
    let mut vm = machine(code, vec![]);
    steps(&mut vm, 1).unwrap();
    assert!(vm.is_halted());
}

#[test]
fn budget_runs_out_on_an_endless_loop() {
    let code = vec![op(OpCode::NoOp), op(OpCode::Jump), 0, 0, 0, 0];
    let mut vm = machine(code, vec![]);
    let mut out = Vec::new();
    let r = vm.execute(&HostFloats, 50, &mut out);
    assert!(matches!(r, Ok(false)));
}

#[test]
fn array_set_writes_in_place() {
    let code = vec![
        op(OpCode::PushImmediate), 1, 0,
        op(OpCode::Array), 1,
        op(OpCode::StoreGlobal), 0, 0,
        op(OpCode::PushGlobal), 0, 0,
        op(OpCode::PushImmediate), 0, 0,
        op(OpCode::PushImmediate), 9, 0,
        op(OpCode::ArraySet),
        op(OpCode::PushGlobal), 0, 0,
        op(OpCode::ArrayPop),
    ];
    let (r, _, vm) = run_code(code, vec![]);
    assert!(matches!(r, Ok(true)));
    assert_eq!(vm.stack_values(), vec![Value::Int(9)]);
}

#[test]
fn operand_widths() {
    assert_eq!(OpCode::PushConst.arg_sizecount(), vec![2]);
    assert_eq!(OpCode::PushLocal.arg_sizecount(), vec![1]);
    assert_eq!(OpCode::Jump.arg_sizecount(), vec![4]);
    assert_eq!(OpCode::Add.arg_sizecount(), vec![0]);
    assert_eq!(OpCode::from_byte(OpCode::CallFunction.to_byte()), Some(OpCode::CallFunction));
    assert_eq!(OpCode::from_byte(0xEE), None);
}
