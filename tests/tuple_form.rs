use fvm::error::AssemblerError;
use fvm::floats::FloatUnit;
use fvm::function::Function;
use fvm::jef::{assemble_json, check_arg_count, JEFValue, JEF};
use fvm::opcode::OpCode;
use fvm::value::Value;
use fvm::vm::VM;

struct HostFloats;

impl FloatUnit for HostFloats {
    fn parse(&self, text: &str) -> Option<u64> {
        text.parse::<f64>().ok().map(|f| f.to_bits())
    }
    fn add(&self, l: u64, r: u64) -> u64 {
        (f64::from_bits(l) + f64::from_bits(r)).to_bits()
    }
    fn sub(&self, l: u64, r: u64) -> u64 {
        (f64::from_bits(l) - f64::from_bits(r)).to_bits()
    }
    fn mul(&self, l: u64, r: u64) -> u64 {
        (f64::from_bits(l) * f64::from_bits(r)).to_bits()
    }
    fn div(&self, l: u64, r: u64) -> u64 {
        (f64::from_bits(l) / f64::from_bits(r)).to_bits()
    }
    fn rem(&self, l: u64, r: u64) -> u64 {
        (f64::from_bits(l) % f64::from_bits(r)).to_bits()
    }
    fn floor_div(&self, l: u64, r: u64) -> i64 {
        (f64::from_bits(l) / f64::from_bits(r)).floor() as i64
    }
    fn less(&self, l: u64, r: u64) -> bool {
        f64::from_bits(l) < f64::from_bits(r)
    }
    fn less_eq(&self, l: u64, r: u64) -> bool {
        f64::from_bits(l) <= f64::from_bits(r)
    }
}

fn entry(m: &str, args: Vec<JEFValue>) -> (String, Vec<JEFValue>) {
    (m.to_string(), args)
}

#[test]
fn tuple_form_runs() {
    let jef = JEF {
        consts: vec![JEFValue::Int(7), JEFValue::Int(8)],
        functions: vec![],
        code: vec![
            entry("Main", vec![]),
            entry("PushConst", vec![JEFValue::Int(1)]),
            entry("PushConst", vec![JEFValue::Int(0)]),
            entry("Add", vec![]),
            entry("Print", vec![]),
        ],
    };
    let bc = assemble_json(&jef).unwrap();
    assert_eq!(bc.consts, vec![Value::Int(7), Value::Int(8)]);
    let mut vm = VM::new(16);
    vm.load_code(bc);
    let mut out = Vec::new();
    assert!(matches!(vm.execute(&HostFloats, 100, &mut out), Ok(true)));
    assert_eq!(out, vec![Value::Int(15)]);
}

#[test]
fn tuple_form_pool_is_taken_verbatim() {
    let jef = JEF {
        consts: vec![JEFValue::Int(1), JEFValue::Int(1), JEFValue::String("s".to_string()),
            JEFValue::Float(2.5f64.to_bits()), JEFValue::Bool(true)],
        functions: vec![Function { address: 3, arity: 1, locals: 2 }],
        code: vec![],
    };
    let bc = assemble_json(&jef).unwrap();
    assert_eq!(
        bc.consts,
        vec![Value::Int(1), Value::Int(1), Value::String("s".to_string()),
            Value::Float(2.5f64.to_bits()), Value::Bool(true)]
    );
    assert_eq!(bc.functions, vec![Function { address: 3, arity: 1, locals: 2 }]);
    assert!(bc.code.is_empty());
}

#[test]
fn tuple_form_labels_and_jumps() {
    let jef = JEF {
        consts: vec![],
        functions: vec![],
        code: vec![
            entry("Jump", vec![JEFValue::String("end".to_string())]),
            entry("Label", vec![JEFValue::String("top".to_string())]),
            entry("Jump", vec![JEFValue::String("top".to_string())]),
            entry("Label", vec![JEFValue::String("end".to_string())]),
        ],
    };
    let bc = assemble_json(&jef).unwrap();
    assert_eq!(
        bc.code,
        vec![OpCode::Jump.to_byte(), 11, 0, 0, 0, 0xFF, OpCode::Jump.to_byte(), 5, 0, 0, 0, 0xFF]
    );
}

#[test]
fn tuple_form_duplicate_label() {
    let jef = JEF {
        consts: vec![],
        functions: vec![],
        code: vec![
            entry("Label", vec![JEFValue::String("a".to_string())]),
            entry("Label", vec![JEFValue::String("a".to_string())]),
        ],
    };
    assert!(matches!(assemble_json(&jef), Err(AssemblerError::DuplicateLabel(ref n)) if n == "a"));
}

#[test]
fn tuple_form_errors() {
    let one = |e: (String, Vec<JEFValue>)| {
        assemble_json(&JEF { consts: vec![], functions: vec![], code: vec![entry("NoOp", vec![]), e] })
    };
    assert!(matches!(one(entry("Frob", vec![])), Err(AssemblerError::InvalidOpcode(ref m, 1)) if m == "Frob"));
    assert!(matches!(one(entry("Add", vec![JEFValue::Int(1)])), Err(AssemblerError::InvalidArgument(_, 1))));
    assert!(matches!(one(entry("PushConst", vec![JEFValue::Bool(true)])), Err(AssemblerError::InvalidArgument(_, 1))));
    assert!(matches!(one(entry("CallFunction", vec![JEFValue::Int(0)])), Err(AssemblerError::InvalidArgument(_, 1))));
    assert!(matches!(
        one(entry("Jump", vec![JEFValue::String("x".to_string())])),
        Err(AssemblerError::InvalidJumpTarget(ref n)) if n == "x"
    ));
}

#[test]
fn tuple_form_operands_truncate() {
    let jef = JEF {
        consts: vec![JEFValue::Int(0), JEFValue::Int(1)],
        functions: vec![],
        code: vec![
            entry("PushConst", vec![JEFValue::Int(65537)]),
            entry("PushImmediate", vec![JEFValue::Int(-1)]),
            entry("Array", vec![JEFValue::Int(258)]),
        ],
    };
    let bc = assemble_json(&jef).unwrap();
    assert_eq!(
        bc.code,
        vec![OpCode::PushConst.to_byte(), 1, 0, OpCode::PushImmediate.to_byte(), 0xFF, 0xFF,
            OpCode::Array.to_byte(), 2]
    );
}

#[test]
fn tuple_form_call_and_main() {
    let jef = JEF {
        consts: vec![],
        functions: vec![Function { address: 0, arity: 0, locals: 0 }],
        code: vec![
            entry("NoOp", vec![]),
            entry("PushImmediate", vec![JEFValue::Int(5)]),
            entry("Return", vec![]),
            entry("Main", vec![]),
            entry("CallFunction", vec![JEFValue::Int(0)]),
            entry("Print", vec![]),
        ],
    };
    let bc = assemble_json(&jef).unwrap();
    assert_eq!(bc.entry, 5);
    assert_eq!(bc.functions[0].address, 0);
    let mut vm = VM::new(16);
    vm.load_code(bc);
    let mut out = Vec::new();
    assert!(matches!(vm.execute(&HostFloats, 100, &mut out), Ok(true)));
    assert_eq!(out, vec![Value::Int(5)]);
}

#[test]
fn arg_count_check() {
    let e = entry("Add", vec![JEFValue::Int(1)]);
    assert!(check_arg_count(&e, 1, 0).is_ok());
    assert!(matches!(check_arg_count(&e, 0, 4), Err(AssemblerError::InvalidArgument(_, 4))));
    match check_arg_count(&e, 12, 305) {
        Err(AssemblerError::InvalidArgument(msg, 305)) => {
            assert_eq!(msg, "Expected 12 arguments for opcode: Add, at location: 305")
        }
        other => panic!("unexpected {:?}", other),
    }
}

#[test]
fn tuple_form_plain_entries_give_one_byte_each() {
    let jef = JEF {
        consts: vec![],
        functions: vec![],
        code: vec![entry("Pop", vec![]), entry("Not", vec![]), entry("Return", vec![])],
    };
    let bc = assemble_json(&jef).unwrap();
    assert_eq!(bc.code, vec![OpCode::Pop.to_byte(), OpCode::Not.to_byte(), OpCode::Return.to_byte()]);
    assert_eq!(bc.entry, 0);
}

#[test]
fn tuple_form_constant_outside_pool() {
    let jef = JEF {
        consts: vec![JEFValue::Int(0)],
        functions: vec![],
        code: vec![entry("PushConst", vec![JEFValue::Int(1)])],
    };
    assert!(matches!(assemble_json(&jef), Err(AssemblerError::InvalidArgument(_, 0))));
}
