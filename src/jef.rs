//! The tuple form of a program: a constant pool, a function table, and a list
//! of (mnemonic, arguments) entries. Decoding the JSON text into this form is
//! left to the host.
use crate::bytecode::Bytecode;
use crate::assembler::{bc_result, program_of, Program};
use crate::emit::{encode, find_in, finish_s, jump_s, label_s, lands_on_noop, well_formed, EmitSt, Emitter, CODE_LIMIT};
use crate::error::{AsmErr, AssemblerError};
use crate::function::Function;
use crate::opcode::OpCode;
use crate::text::{decimal, decimal_string, text_is};
use vstd::string::StringExecFns;
use crate::value::Value;
use vstd::prelude::*;

verus! {

/// A literal of the tuple form. Floats are IEEE-754 bit patterns.
#[derive(Debug, Clone)]
pub enum JEFValue {
    Int(i64),
    Float(u64),
    String(String),
    Bool(bool),
}

/// A program in tuple form.
#[derive(Debug)]
pub struct JEF {
    pub consts: Vec<JEFValue>,
    pub functions: Vec<Function>,
    pub code: Vec<(String, Vec<JEFValue>)>,
}

/// The value a literal of the pool stands for.
pub open spec fn const_value(j: JEFValue) -> Value {
    match j {
        JEFValue::Int(v) => Value::Int(v),
        JEFValue::Float(v) => Value::Float(v),
        JEFValue::String(s) => Value::String(s),
        JEFValue::Bool(b) => Value::Bool(b),
    }
}

/// What assembling a tuple-form program promises: its pool and function
/// table taken over as they are, whole instructions, jumps onto `NoOp`s,
/// calls of existing functions, an entry on a `NoOp` (or at 0 where no
/// `Main` was given), uses of constants in the pool.
pub open spec fn json_assembled_ok(jef: JEF, bc: Bytecode) -> bool {
    &&& bc.consts@.len() == jef.consts@.len()
    &&& forall|i: int| 0 <= i < bc.consts@.len() ==> #[trigger] bc.consts@[i] == const_value(jef.consts@[i])
    &&& bc.functions@ == jef.functions@
    &&& exists|starts: Seq<int>| well_formed(bc.code@, starts, bc.functions@.len() as int, bc.consts@.len() as int)
    &&& bc.entry == 0 || lands_on_noop(bc.code@, bc.entry as int)
}

/// The zero-operand instruction that a mnemonic of the tuple form names.
pub open spec fn plain_mnemonic(m: Seq<char>) -> Option<OpCode> {
    if m == "Add"@ {
        Some(OpCode::Add)
    } else if m == "Sub"@ {
        Some(OpCode::Sub)
    } else if m == "Mul"@ {
        Some(OpCode::Mul)
    } else if m == "Div"@ {
        Some(OpCode::Div)
    } else if m == "DivInt"@ {
        Some(OpCode::DivInt)
    } else if m == "Mod"@ {
        Some(OpCode::Mod)
    } else if m == "Pop"@ {
        Some(OpCode::Pop)
    } else if m == "Box"@ {
        Some(OpCode::Box)
    } else if m == "Unbox"@ {
        Some(OpCode::Unbox)
    } else if m == "SetBox"@ {
        Some(OpCode::SetBox)
    } else if m == "ArraySet"@ {
        Some(OpCode::ArraySet)
    } else if m == "ArrayGet"@ {
        Some(OpCode::ArrayGet)
    } else if m == "ArrayPush"@ {
        Some(OpCode::ArrayPush)
    } else if m == "ArrayPop"@ {
        Some(OpCode::ArrayPop)
    } else if m == "ArrayLen"@ {
        Some(OpCode::ArrayLen)
    } else if m == "Equal"@ {
        Some(OpCode::Equal)
    } else if m == "NotEqual"@ {
        Some(OpCode::NotEqual)
    } else if m == "LessThan"@ {
        Some(OpCode::LessThan)
    } else if m == "GreaterThan"@ {
        Some(OpCode::GreaterThan)
    } else if m == "GreaterEqual"@ {
        Some(OpCode::GreaterEqual)
    } else if m == "LessEqual"@ {
        Some(OpCode::LessEqual)
    } else if m == "Not"@ {
        Some(OpCode::Not)
    } else if m == "LogicalAnd"@ {
        Some(OpCode::LogicalAnd)
    } else if m == "LogicalOr"@ {
        Some(OpCode::LogicalOr)
    } else if m == "Return"@ {
        Some(OpCode::Return)
    } else if m == "Print"@ {
        Some(OpCode::Print)
    } else if m == "NoOp"@ {
        Some(OpCode::NoOp)
    } else {
        None
    }
}

/// The instruction with an integer operand that a mnemonic names.
pub open spec fn int_mnemonic(m: Seq<char>) -> Option<OpCode> {
    if m == "PushConst"@ {
        Some(OpCode::PushConst)
    } else if m == "PushLocal"@ {
        Some(OpCode::PushLocal)
    } else if m == "StoreLocal"@ {
        Some(OpCode::StoreLocal)
    } else if m == "PushGlobal"@ {
        Some(OpCode::PushGlobal)
    } else if m == "StoreGlobal"@ {
        Some(OpCode::StoreGlobal)
    } else if m == "PushImmediate"@ {
        Some(OpCode::PushImmediate)
    } else if m == "Array"@ {
        Some(OpCode::Array)
    } else if m == "CallFunction"@ {
        Some(OpCode::CallFunction)
    } else {
        None
    }
}

/// The jump that a mnemonic of the tuple form names.
pub open spec fn jump_mnemonic(m: Seq<char>) -> Option<OpCode> {
    if m == "Jump"@ {
        Some(OpCode::Jump)
    } else if m == "JumpIfFalse"@ {
        Some(OpCode::JumpIfFalse)
    } else if m == "JumpIfTrue"@ {
        Some(OpCode::JumpIfTrue)
    } else {
        None
    }
}

fn convert_const(j: &JEFValue) -> (r: Value)
    ensures
        r == const_value(*j),
{
    match j {
        JEFValue::Int(v) => Value::Int(*v),
        JEFValue::Float(v) => Value::Float(*v),
        JEFValue::String(s) => Value::String(s.clone()),
        JEFValue::Bool(b) => Value::Bool(*b),
    }
}

/// The message for an entry with the wrong number of arguments.
pub open spec fn arg_count_message(m: Seq<char>, expected: nat, code_idx: nat) -> Seq<char> {
    "Expected "@ + decimal(expected) + " arguments for opcode: "@ + m + ", at location: "@ + decimal(
        code_idx,
    )
}

/// Fails unless the entry has exactly `expected` arguments; the message
/// names the expected count, the mnemonic and the position.
pub fn check_arg_count(code: &(String, Vec<JEFValue>), expected: usize, code_idx: usize) -> (r:
    Result<(), AssemblerError>)
    ensures
        code.1@.len() == expected <==> r is Ok,
        r matches Err(e) ==> e matches AssemblerError::InvalidArgument(msg, at) && at == code_idx
            && msg@ == arg_count_message(code.0@, expected as nat, code_idx as nat),
{
    if code.1.len() != expected {
        let msg = "Expected ".to_owned().concat(decimal_string(expected).as_str()).concat(
            " arguments for opcode: ",
        ).concat(code.0.as_str()).concat(", at location: ").concat(
            decimal_string(code_idx).as_str(),
        );
        return Err(AssemblerError::InvalidArgument(msg, code_idx));
    }
    Ok(())
}

/// The zero-operand instruction that a mnemonic of the tuple form names.
fn plain_op(m: &str) -> (r: Option<OpCode>)
    ensures
        r == plain_mnemonic(m@),
        r matches Some(op) ==> op.spec_width() == 0 && !op.is_jump() && op != OpCode::CallFunction,
{
    if text_is(m, "Add") {
        Some(OpCode::Add)
    } else if text_is(m, "Sub") {
        Some(OpCode::Sub)
    } else if text_is(m, "Mul") {
        Some(OpCode::Mul)
    } else if text_is(m, "Div") {
        Some(OpCode::Div)
    } else if text_is(m, "DivInt") {
        Some(OpCode::DivInt)
    } else if text_is(m, "Mod") {
        Some(OpCode::Mod)
    } else if text_is(m, "Pop") {
        Some(OpCode::Pop)
    } else if text_is(m, "Box") {
        Some(OpCode::Box)
    } else if text_is(m, "Unbox") {
        Some(OpCode::Unbox)
    } else if text_is(m, "SetBox") {
        Some(OpCode::SetBox)
    } else if text_is(m, "ArraySet") {
        Some(OpCode::ArraySet)
    } else if text_is(m, "ArrayGet") {
        Some(OpCode::ArrayGet)
    } else if text_is(m, "ArrayPush") {
        Some(OpCode::ArrayPush)
    } else if text_is(m, "ArrayPop") {
        Some(OpCode::ArrayPop)
    } else if text_is(m, "ArrayLen") {
        Some(OpCode::ArrayLen)
    } else if text_is(m, "Equal") {
        Some(OpCode::Equal)
    } else if text_is(m, "NotEqual") {
        Some(OpCode::NotEqual)
    } else if text_is(m, "LessThan") {
        Some(OpCode::LessThan)
    } else if text_is(m, "GreaterThan") {
        Some(OpCode::GreaterThan)
    } else if text_is(m, "GreaterEqual") {
        Some(OpCode::GreaterEqual)
    } else if text_is(m, "LessEqual") {
        Some(OpCode::LessEqual)
    } else if text_is(m, "Not") {
        Some(OpCode::Not)
    } else if text_is(m, "LogicalAnd") {
        Some(OpCode::LogicalAnd)
    } else if text_is(m, "LogicalOr") {
        Some(OpCode::LogicalOr)
    } else if text_is(m, "Return") {
        Some(OpCode::Return)
    } else if text_is(m, "Print") {
        Some(OpCode::Print)
    } else if text_is(m, "NoOp") {
        Some(OpCode::NoOp)
    } else {
        None
    }
}

/// The instruction with an integer operand that a mnemonic names.
fn int_op(m: &str) -> (r: Option<OpCode>)
    ensures
        r == int_mnemonic(m@),
        r matches Some(op) ==> (op.spec_width() == 1 || op.spec_width() == 2) && !op.is_jump(),
{
    if text_is(m, "PushConst") {
        Some(OpCode::PushConst)
    } else if text_is(m, "PushLocal") {
        Some(OpCode::PushLocal)
    } else if text_is(m, "StoreLocal") {
        Some(OpCode::StoreLocal)
    } else if text_is(m, "PushGlobal") {
        Some(OpCode::PushGlobal)
    } else if text_is(m, "StoreGlobal") {
        Some(OpCode::StoreGlobal)
    } else if text_is(m, "PushImmediate") {
        Some(OpCode::PushImmediate)
    } else if text_is(m, "Array") {
        Some(OpCode::Array)
    } else if text_is(m, "CallFunction") {
        Some(OpCode::CallFunction)
    } else {
        None
    }
}

/// The jump that a mnemonic of the tuple form names.
fn jump_op(m: &str) -> (r: Option<OpCode>)
    ensures
        r == jump_mnemonic(m@),
        r matches Some(op) ==> op.is_jump(),
{
    if text_is(m, "Jump") {
        Some(OpCode::Jump)
    } else if text_is(m, "JumpIfFalse") {
        Some(OpCode::JumpIfFalse)
    } else if text_is(m, "JumpIfTrue") {
        Some(OpCode::JumpIfTrue)
    } else {
        None
    }
}

/// The low byte (`width` 1) or two bytes (`width` 2) of `v`, two's complement.
pub open spec fn low_spec(v: int, width: int) -> int {
    if width == 1 {
        v % 256
    } else {
        v % 65536
    }
}

/// The low `bits` bits of `v`, as the operand of that width.
fn low_bits(v: i64, width: usize) -> (r: u32)
    requires
        width == 1 || width == 2,
    ensures
        r == low_spec(v as int, width as int),
        width == 1 ==> r < 256,
        width == 2 ==> r < 65536,
{
    let m: u128 = if width == 1 {
        256
    } else {
        65536
    };
    if v >= 0 {
        ((v as u128) % m) as u32
    } else {
        let a = (-(v as i128)) as u128;
        let r = a % m;
        if r == 0 {
            0
        } else {
            (m - r) as u32
        }
    }
}

/// The tuple-form assembler's state as the contracts see it.
pub struct JSt {
    pub em: EmitSt,
    pub entry: int,
}

/// `op` with operand `v` appended to the code.
pub open spec fn jemit(st: JSt, op: OpCode, v: int) -> JSt {
    JSt { em: EmitSt { code: st.em.code + encode(op, v), ..st.em }, ..st }
}

/// The entry `e` at position `idx`, with `nfuncs` functions and `nconsts`
/// constants in the tables.
pub open spec fn entry_spec(st: JSt, e: (String, Vec<JEFValue>), idx: int, nfuncs: int, nconsts: int) -> Result<JSt, AsmErr> {
    let m = e.0@;
    let args = e.1@;
    if st.em.code.len() + 16 > CODE_LIMIT {
        Err(AsmErr::InvalidArgument(idx))
    } else if plain_mnemonic(m) is Some {
        if args.len() != 0 {
            Err(AsmErr::InvalidArgument(idx))
        } else {
            Ok(jemit(st, plain_mnemonic(m)->Some_0, 0))
        }
    } else if int_mnemonic(m) is Some {
        let op = int_mnemonic(m)->Some_0;
        if args.len() != 1 {
            Err(AsmErr::InvalidArgument(idx))
        } else {
            match args[0] {
                JEFValue::Int(v) => if op == OpCode::CallFunction {
                    if v < 0 || v >= 65536 || v >= nfuncs {
                        Err(AsmErr::InvalidArgument(idx))
                    } else {
                        Ok(jemit(st, op, v as int))
                    }
                } else if op == OpCode::PushConst && low_spec(v as int, 2) >= nconsts {
                    Err(AsmErr::InvalidArgument(idx))
                } else {
                    Ok(jemit(st, op, low_spec(v as int, op.spec_width() as int)))
                },
                _ => Err(AsmErr::InvalidArgument(idx)),
            }
        }
    } else if jump_mnemonic(m) is Some {
        if args.len() != 1 {
            Err(AsmErr::InvalidArgument(idx))
        } else {
            match args[0] {
                JEFValue::String(label) => Ok(JSt { em: jump_s(st.em, jump_mnemonic(m)->Some_0, label@), ..st }),
                _ => Err(AsmErr::InvalidArgument(idx)),
            }
        }
    } else if m == "Main"@ {
        if args.len() != 0 {
            Err(AsmErr::InvalidArgument(idx))
        } else {
            Ok(JSt { em: EmitSt { code: st.em.code.push(OpCode::NoOp.spec_byte()), ..st.em }, entry: st.em.code.len() as int })
        }
    } else if m == "Label"@ {
        if args.len() != 1 {
            Err(AsmErr::InvalidArgument(idx))
        } else {
            match args[0] {
                JEFValue::String(label) => if find_in(st.em.labels, label@) is Some {
                    Err(AsmErr::DuplicateLabel(label@))
                } else {
                    Ok(JSt { em: label_s(st.em, label@), ..st })
                },
                _ => Err(AsmErr::InvalidArgument(idx)),
            }
        }
    } else {
        Err(AsmErr::InvalidOpcode(m, idx))
    }
}

/// The entries `es` in turn; the first failing one ends the run.
pub open spec fn json_entries(es: Seq<(String, Vec<JEFValue>)>, nfuncs: int, nconsts: int) -> Result<JSt, AsmErr>
    decreases es.len(),
{
    if es.len() == 0 {
        Ok(JSt { em: EmitSt { code: Seq::empty(), labels: Seq::empty(), fixups: Seq::empty() }, entry: 0 })
    } else {
        match json_entries(es.drop_last(), nfuncs, nconsts) {
            Err(e) => Err(e),
            Ok(st) => entry_spec(st, es.last(), es.len() - 1, nfuncs, nconsts),
        }
    }
}

/// What assembling `jef` gives: the entries in turn, then every jump still
/// waiting patched with its label's offset (`InvalidJumpTarget` for a label
/// never declared); the pool and the function table as they are.
pub open spec fn json_spec(jef: JEF) -> Result<Program, AsmErr> {
    match json_entries(jef.code@, jef.functions@.len() as int, jef.consts@.len() as int) {
        Err(e) => Err(e),
        Ok(st) => match finish_s(st.em.code, st.em.labels, st.em.fixups, 0) {
            Err(e) => Err(e),
            Ok(code) => Ok(
                Program {
                    entry: st.entry,
                    consts: jef.consts@.map_values(|c: JEFValue| const_value(c).model()),
                    functions: jef.functions@,
                    code,
                },
            ),
        },
    }
}

proof fn lemma_json_failure_sticks(es: Seq<(String, Vec<JEFValue>)>, nf: int, nc: int, k: int)
    requires
        0 <= k <= es.len(),
        json_entries(es.subrange(0, k), nf, nc) is Err,
    ensures
        json_entries(es, nf, nc) == json_entries(es.subrange(0, k), nf, nc),
    decreases es.len(),
{
    if es.len() == k {
        assert(es.subrange(0, k) =~= es);
    } else {
        assert(es.drop_last().subrange(0, k) =~= es.subrange(0, k));
        lemma_json_failure_sticks(es.drop_last(), nf, nc, k);
    }
}

/// Assembles a program in tuple form: exactly what [`json_spec`] says. The
/// constant pool and the function table are taken over as they are; labels
/// are declared by `Label` entries (each name once) and may be used before
/// they are declared.
pub fn assemble_json(jef: &JEF) -> (r: Result<Bytecode, AssemblerError>)
    ensures
        bc_result(r) == json_spec(*jef),
        r matches Ok(bc) ==> json_assembled_ok(*jef, bc),
{
    let mut consts: Vec<Value> = Vec::new();
    let mut i: usize = 0;
    while i < jef.consts.len()
        invariant
            i <= jef.consts@.len(),
            consts@.len() == i,
            forall|j: int| 0 <= j < i ==> #[trigger] consts@[j] == const_value(jef.consts@[j]),
        decreases jef.consts@.len() - i,
    {
        consts.push(convert_const(&jef.consts[i]));
        i = i + 1;
    }
    let mut functions: Vec<Function> = Vec::new();
    let mut i: usize = 0;
    while i < jef.functions.len()
        invariant
            i <= jef.functions@.len(),
            functions@ == jef.functions@.subrange(0, i as int),
        decreases jef.functions@.len() - i,
    {
        functions.push(jef.functions[i]);
        i = i + 1;
    }
    assert(functions@ =~= jef.functions@);
    let nfuncs = functions.len();
    let nconsts = consts.len();
    let ghost es = jef.code@;
    let mut em = Emitter::new(nfuncs, nconsts);
    let mut entry: usize = 0;
    let mut idx: usize = 0;
    assert(em.espec().labels =~= Seq::<(Seq<char>, int)>::empty());
    assert(em.espec().fixups =~= Seq::<(int, Seq<char>)>::empty());
    assert(es.subrange(0, 0) =~= Seq::<(String, Vec<JEFValue>)>::empty());
    assert(em.espec().code =~= Seq::<u8>::empty());
    while idx < jef.code.len()
        invariant
            em.wf(),
            em.nfuncs == nfuncs,
            em.nconsts == nconsts,
            nfuncs == functions@.len(),
            nconsts == consts@.len(),
            nconsts == jef.consts@.len(),
            nfuncs == jef.functions@.len(),
            es == jef.code@,
            idx <= jef.code@.len(),
            entry == 0 || lands_on_noop(em.code@, entry as int),
            json_entries(es.subrange(0, idx as int), nfuncs as int, nconsts as int) == Ok::<JSt, AsmErr>(
                JSt { em: em.espec(), entry: entry as int },
            ),
        decreases jef.code@.len() - idx,
    {
        let ghost st0 = JSt { em: em.espec(), entry: entry as int };
        let ghost e2 = es.subrange(0, idx + 1);
        proof {
            assert(e2.drop_last() =~= es.subrange(0, idx as int));
            assert(e2.last() == es[idx as int]);
        }
        let r = json_entry(&mut em, &mut entry, &jef.code[idx], idx, nfuncs, nconsts);
        match r {
            Ok(()) => {},
            Err(e) => {
                proof {
                    lemma_json_failure_sticks(es, nfuncs as int, nconsts as int, idx + 1);
                }
                return Err(e);
            },
        }
        idx = idx + 1;
    }
    proof {
        assert(es.subrange(0, idx as int) =~= es);
    }
    let ghost code0 = em.code@;
    let (code, starts) = match em.finish() {
        Ok(p) => p,
        Err(e) => return Err(e),
    };
    proof {
        if entry != 0 {
            assert(lands_on_noop(code0, entry as int));
        }
    }
    let bc = Bytecode { entry, consts, functions, code };
    assert(well_formed(bc.code@, starts@, bc.functions@.len() as int, bc.consts@.len() as int));
    assert(program_of(bc).consts =~= jef.consts@.map_values(|c: JEFValue| const_value(c).model()));
    Ok(bc)
}

/// One entry of the tuple form.
fn json_entry(em: &mut Emitter, entry: &mut usize, item: &(String, Vec<JEFValue>), idx: usize, nfuncs: usize, nconsts: usize) -> (r: Result<(), AssemblerError>)
    requires
        old(em).wf(),
        old(em).nfuncs == nfuncs,
        old(em).nconsts == nconsts,
        *old(entry) == 0 || lands_on_noop(old(em).code@, *old(entry) as int),
    ensures
        r is Ok ==> final(em).wf() && final(em).nfuncs == nfuncs && final(em).nconsts == nconsts && (
        *final(entry) == 0 || lands_on_noop(final(em).code@, *final(entry) as int)),
        match entry_spec(JSt { em: old(em).espec(), entry: *old(entry) as int }, *item, idx as int, nfuncs as int, nconsts as int) {
            Ok(s) => r is Ok && s == (JSt { em: final(em).espec(), entry: *final(entry) as int }),
            Err(e) => r matches Err(x) && x.model() == e,
        },
{
    if !em.has_room() {
        return Err(AssemblerError::InvalidArgument("program too long".to_owned(), idx));
    }
    let ghost e0 = em.espec();
    let m = item.0.as_str();
    if let Some(op) = plain_op(m) {
        match check_arg_count(item, 0, idx) {
            Ok(()) => {},
            Err(e) => return Err(e),
        }
        em.emit(op, 0);
        assert(em.espec().labels =~= e0.labels);
        assert(em.espec().fixups =~= e0.fixups);
        Ok(())
    } else if let Some(op) = int_op(m) {
        match check_arg_count(item, 1, idx) {
            Ok(()) => {},
            Err(e) => return Err(e),
        }
        match &item.1[0] {
            JEFValue::Int(v) => {
                if op == OpCode::CallFunction {
                    if *v < 0 || *v >= 65536 || *v as usize >= nfuncs {
                        return Err(AssemblerError::InvalidArgument("no such function".to_owned(), idx));
                    }
                    em.emit(op, *v as u32);
                } else {
                    let w = op.width();
                    let operand = low_bits(*v, w);
                    if op == OpCode::PushConst && operand as usize >= nconsts {
                        return Err(AssemblerError::InvalidArgument("no such constant".to_owned(), idx));
                    }
                    em.emit(op, operand);
                }
                assert(em.espec().labels =~= e0.labels);
                assert(em.espec().fixups =~= e0.fixups);
                Ok(())
            },
            _ => Err(AssemblerError::InvalidArgument("expected an integer".to_owned(), idx)),
        }
    } else if let Some(op) = jump_op(m) {
        match check_arg_count(item, 1, idx) {
            Ok(()) => {},
            Err(e) => return Err(e),
        }
        match &item.1[0] {
            JEFValue::String(label) => {
                em.emit_jump(op, label.clone());
                Ok(())
            },
            _ => Err(AssemblerError::InvalidArgument("expected a label name".to_owned(), idx)),
        }
    } else if text_is(m, "Main") {
        match check_arg_count(item, 0, idx) {
            Ok(()) => {},
            Err(e) => return Err(e),
        }
        *entry = em.mark();
        Ok(())
    } else if text_is(m, "Label") {
        match check_arg_count(item, 1, idx) {
            Ok(()) => {},
            Err(e) => return Err(e),
        }
        match &item.1[0] {
            JEFValue::String(label) => {
                if em.find_label(label).is_some() {
                    return Err(AssemblerError::DuplicateLabel(label.clone()));
                }
                em.define_label(label.clone());
                Ok(())
            },
            _ => Err(AssemblerError::InvalidArgument("expected a label name".to_owned(), idx)),
        }
    } else {
        Err(AssemblerError::InvalidOpcode(m.to_owned(), idx))
    }
}

} // verus!
