use fvm::assembler::assemble;
use fvm::bytecode::Bytecode;
use fvm::error::{AssemblerError, VMError};
use fvm::floats::FloatUnit;
use fvm::opcode::OpCode;
use fvm::value::Value;
use fvm::vm::VM;

struct HostFloats;

impl FloatUnit for HostFloats {
    fn parse(&self, text: &str) -> Option<u64> {
        text.parse::<f64>().ok().map(|f| f.to_bits())
    }
    fn add(&self, l: u64, r: u64) -> u64 {
        (f64::from_bits(l) + f64::from_bits(r)).to_bits()
    }
    fn sub(&self, l: u64, r: u64) -> u64 {
        (f64::from_bits(l) - f64::from_bits(r)).to_bits()
    }
    fn mul(&self, l: u64, r: u64) -> u64 {
        (f64::from_bits(l) * f64::from_bits(r)).to_bits()
    }
    fn div(&self, l: u64, r: u64) -> u64 {
        (f64::from_bits(l) / f64::from_bits(r)).to_bits()
    }
    fn rem(&self, l: u64, r: u64) -> u64 {
        (f64::from_bits(l) % f64::from_bits(r)).to_bits()
    }
    fn floor_div(&self, l: u64, r: u64) -> i64 {
        (f64::from_bits(l) / f64::from_bits(r)).floor() as i64
    }
    fn less(&self, l: u64, r: u64) -> bool {
        f64::from_bits(l) < f64::from_bits(r)
    }
    fn less_eq(&self, l: u64, r: u64) -> bool {
        f64::from_bits(l) <= f64::from_bits(r)
    }
}

fn lines(src: &[&str]) -> Vec<String> {
    src.iter().map(|l| l.to_string()).collect()
}

fn build(src: &[&str]) -> Bytecode {
    assemble(&lines(src), &HostFloats).unwrap()
}

fn run(src: &[&str]) -> (Result<bool, VMError>, Vec<Value>) {
    let mut vm = VM::new(256);
    vm.load_code(build(src));
    let mut out = Vec::new();
    let r = vm.execute(&HostFloats, 100_000, &mut out);
    (r, out)
}

#[test]
fn add_two_integers_and_print() {
    let (r, out) = run(&["main", "pshc 3", "pshc 4", "add", "prnt"]);
    assert!(matches!(r, Ok(true)));
    assert_eq!(out, vec![Value::Int(7)]);
}

#[test]
fn conditional_branch() {
    let (r, out) = run(&[
        "main", "pshc 1", "pshc 2", "lsth", "jmpf skip", "pshc 100", "prnt", "label skip",
        "pshc 200", "prnt",
    ]);
    assert!(matches!(r, Ok(true)));
    assert_eq!(out, vec![Value::Int(100), Value::Int(200)]);
}

#[test]
fn loop_counting_down() {
    let (r, out) = run(&[
        "main", "pshc 3", "strg n", "label top", "pshg n", "prnt", "pshg n", "pshc 1", "sub",
        "strg n", "pshg n", "pshc 0", "grth", "jmpt top",
    ]);
    assert!(matches!(r, Ok(true)));
    assert_eq!(out, vec![Value::Int(3), Value::Int(2), Value::Int(1)]);
}

#[test]
fn function_call_with_locals() {
    let (r, out) = run(&[
        "func inc 1", "pshl arg0", "pshc 1", "add", "endf", "main", "pshc 41", "callf inc", "prnt",
    ]);
    assert!(matches!(r, Ok(true)));
    assert_eq!(out, vec![Value::Int(42)]);
}

#[test]
fn boxed_aliasing() {
    let (r, out) = run(&[
        "main", "pshc 10", "box", "strg b", "pshg b", "pshg b", "pshc 99", "setbox", "unbox",
        "prnt",
    ]);
    assert!(matches!(r, Ok(true)));
    assert_eq!(out, vec![Value::Int(99)]);
}

#[test]
fn array_push_pop_len() {
    let (r, out) = run(&[
        "main", "pshc 1", "pshc 2", "array 2", "strg a", "pshg a", "pshc 3", "arraypush",
        "pshg a", "arraylen", "prnt",
    ]);
    assert!(matches!(r, Ok(true)));
    assert_eq!(out, vec![Value::Int(3)]);
}

#[test]
fn forward_jump_is_patched() {
    let bc = build(&["main", "jump end", "pshc 1", "prnt", "label end", "pshc 2", "prnt"]);
    // main NoOp at 0, the jump at 1 with its operand at 2..6
    assert_eq!(bc.code[1], OpCode::Jump.to_byte());
    let target = u32::from_le_bytes([bc.code[2], bc.code[3], bc.code[4], bc.code[5]]) as usize;
    assert_eq!(bc.code[target], OpCode::NoOp.to_byte());
    assert_eq!(target, 10);
    let (r, out) = run(&["main", "jump end", "pshc 1", "prnt", "label end", "pshc 2", "prnt"]);
    assert!(matches!(r, Ok(true)));
    assert_eq!(out, vec![Value::Int(2)]);
}

#[test]
fn backward_jump_resolved_at_once() {
    let bc = build(&["label top", "jump top"]);
    assert_eq!(bc.code, vec![0xFF, OpCode::Jump.to_byte(), 0, 0, 0, 0]);
}

#[test]
fn undefined_label_fails() {
    let r = assemble(&lines(&["main", "jump nowhere"]), &HostFloats);
    assert!(matches!(r, Err(AssemblerError::InvalidJumpTarget(ref n)) if n == "nowhere"));
}

#[test]
fn first_global_gets_id_zero() {
    let bc = build(&["pshc 1", "strg x", "pshg x", "pshc 2", "strg y", "pshg x"]);
    // PushConst (3 bytes), then StoreGlobal x with id 0
    assert_eq!(bc.code[3], OpCode::StoreGlobal.to_byte());
    assert_eq!((bc.code[4], bc.code[5]), (0, 0));
    assert_eq!((bc.code[7], bc.code[8]), (0, 0));
    // y is the second name: id 1; x again: id 0
    assert_eq!((bc.code[13], bc.code[14]), (1, 0));
    assert_eq!((bc.code[16], bc.code[17]), (0, 0));
}

#[test]
fn constants_are_shared() {
    let bc = build(&["pshc 7", "pshc \"s\"", "pshc 7", "pshc \"s\"", "pshc 8"]);
    assert_eq!(bc.consts, vec![Value::Int(7), Value::String("s".to_string()), Value::Int(8)]);
    assert_eq!((bc.code[7], bc.code[8]), (0, 0));
    assert_eq!((bc.code[10], bc.code[11]), (1, 0));
}

#[test]
fn comments_and_blank_lines_are_skipped() {
    let bc = build(&["", "# a comment", "; another", "main"]);
    assert_eq!(bc.code, vec![0xFF]);
    assert_eq!(bc.entry, 0);
}

#[test]
fn layout_of_each_operand_width() {
    let bc = build(&["pshi -2", "array 3", "pshc 5", "prnt"]);
    assert_eq!(
        bc.code,
        vec![
            OpCode::PushImmediate.to_byte(), 0xFE, 0xFF,
            OpCode::Array.to_byte(), 3,
            OpCode::PushConst.to_byte(), 0, 0,
            OpCode::Print.to_byte(),
        ]
    );
}

#[test]
fn function_entry_is_a_noop() {
    let bc = build(&["func f 2", "strl t", "pshl arg1", "endf", "main", "callf f"]);
    assert_eq!(bc.functions.len(), 1);
    assert_eq!(bc.functions[0].address, 0);
    assert_eq!(bc.functions[0].arity, 2);
    assert_eq!(bc.functions[0].locals, 3);
    assert_eq!(bc.code[0], OpCode::NoOp.to_byte());
    // the new local takes the slot after the arguments
    assert_eq!((bc.code[1], bc.code[2]), (OpCode::StoreLocal.to_byte(), 2));
    assert_eq!((bc.code[3], bc.code[4]), (OpCode::PushLocal.to_byte(), 1));
}

#[test]
fn assembler_errors() {
    let bad = |src: &[&str]| assemble(&lines(src), &HostFloats).unwrap_err();
    assert!(matches!(bad(&["frob"]), AssemblerError::InvalidOpcode(ref m, 1) if m == "frob"));
    assert!(matches!(bad(&["main", "add 1"]), AssemblerError::InvalidArgument(_, 2)));
    assert!(matches!(bad(&["pshc"]), AssemblerError::InvalidArgument(_, 1)));
    assert!(matches!(bad(&["pshc 1x"]), AssemblerError::InvalidLiteral(_, 1)));
    assert!(matches!(bad(&["func f 0", "func g 0"]), AssemblerError::InvalidFunctionLocation(2)));
    assert!(matches!(bad(&["endf"]), AssemblerError::InvalidFunctionEnd(1)));
    assert!(matches!(bad(&["callf g"]), AssemblerError::InvalidFunctionCall(ref n, 1) if n == "g"));
    assert!(matches!(bad(&["pshg q"]), AssemblerError::InvalidIdentifier(ref n, 1) if n == "q"));
    assert!(matches!(bad(&["func f 0", "pshl q"]), AssemblerError::InvalidIdentifier(_, 2)));
    assert!(matches!(bad(&["pshl x"]), AssemblerError::AccessLocalOutsideFunction(1)));
    assert!(matches!(bad(&["func f 0"]), AssemblerError::UnexpectedEof));
    assert!(matches!(bad(&["strg 5"]), AssemblerError::InvalidArgument(_, 1)));
    assert!(matches!(bad(&["pshi 40000"]), AssemblerError::InvalidArgument(_, 1)));
}

#[test]
fn relabelled_name_takes_the_later_offset() {
    let bc = build(&["label a", "label a", "jump a"]);
    assert_eq!(bc.code[3], 1);
}

#[test]
fn recursion_through_locals() {
    // factorial of 5
    let (r, out) = run(&[
        "func fact 1",
        "pshl arg0", "pshc 1", "lteq", "jmpf more",
        "pshc 1", "ret",
        "label more",
        "pshl arg0", "pshl arg0", "pshc 1", "sub", "callf fact", "mul",
        "endf",
        "main", "pshc 5", "callf fact", "prnt",
    ]);
    assert!(matches!(r, Ok(true)));
    assert_eq!(out, vec![Value::Int(120)]);
}

#[test]
fn zero_operand_lines_give_one_byte_each() {
    let bc = build(&["add", "# note", "", "prnt", "noop"]);
    assert_eq!(bc.code, vec![OpCode::Add.to_byte(), OpCode::Print.to_byte(), OpCode::NoOp.to_byte()]);
    assert_eq!(bc.entry, 0);
    assert!(bc.consts.is_empty());
}

#[test]
fn io_error_converts() {
    let e: AssemblerError = std::io::Error::new(std::io::ErrorKind::NotFound, "gone").into();
    assert!(matches!(e, AssemblerError::IoError(_)));
}
