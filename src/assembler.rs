//! The text assembler: one statement per line, mnemonic and arguments
//! separated by single spaces.
use crate::bytecode::Bytecode;
use crate::emit::{encode, finish_s, jump_s, label_s, lands_on_noop, well_formed, EmitSt, Emitter, CODE_LIMIT};
use crate::error::{AsmErr, AssemblerError};
use crate::floats::FloatUnit;
use crate::function::Function;
use crate::opcode::OpCode;
use crate::text::{
    alphabetic, has_char, int_literal, is_alphabetic, parse_int, split_spaces, split_spec, text_is,
    texts, trim_view, trimmed, all_digits, digits_value, lemma_digits_nonneg,
};
use crate::value::{Lit, Value};
use vstd::prelude::*;
use vstd::string::StrSliceExecFns;

verus! {

/// Enclosed in a pair of double or of single quotes.
pub open spec fn is_quoted(t: Seq<char>) -> bool {
    t.len() >= 2 && ((t[0] == '"' && t.last() == '"') || (t[0] == '\'' && t.last() == '\''))
}

pub open spec fn is_bool_word(t: Seq<char>) -> bool {
    t == "true"@ || t == "false"@
}

/// What a (trimmed) literal token is, tried in this order: a quoted string,
/// `true` or `false`, a float (it holds a `.`; `fl` is what the float unit
/// read from it), an integer, an identifier (it starts with a letter). `line`
/// is reported with an error.
pub open spec fn classify_spec(t: Seq<char>, line: int, fl: Option<u64>) -> Result<Lit, AsmErr> {
    if is_quoted(t) {
        Ok(Lit::Str(t.subrange(1, t.len() - 1)))
    } else if is_bool_word(t) {
        Ok(Lit::Bool(t == "true"@))
    } else if t.contains('.') {
        match fl {
            Some(bits) => Ok(Lit::Float(bits)),
            None => Err(AsmErr::InvalidLiteral(line)),
        }
    } else if int_literal(t) is Some {
        Ok(Lit::Int(int_literal(t)->Some_0))
    } else if t.len() > 0 && is_alphabetic(t[0]) {
        Ok(Lit::Ident(t))
    } else {
        Err(AsmErr::InvalidLiteral(line))
    }
}

/// A token that the float unit is asked to read.
pub open spec fn float_token(t: Seq<char>) -> bool {
    !is_quoted(t) && !is_bool_word(t) && t.contains('.')
}

pub open spec fn lit_result(r: Result<Value, AssemblerError>) -> Result<Lit, AsmErr> {
    match r {
        Ok(v) => Ok(v.model()),
        Err(e) => Err(e.model()),
    }
}

/// Is the (trimmed) token one that the float unit must read?
pub fn is_float_token(t: &str) -> (r: bool)
    ensures
        r == float_token(t@),
{
    let n = t.unicode_len();
    if n >= 2 {
        let first = t.get_char(0);
        let last = t.get_char(n - 1);
        if (first == '"' && last == '"') || (first == '\'' && last == '\'') {
            return false;
        }
    }
    if text_is(t, "true") || text_is(t, "false") {
        return false;
    }
    has_char(t, '.')
}

/// Reads a literal token that is already trimmed, given what the float unit
/// read from it (`None` where it was not asked).
pub fn literal_with(t: &str, line: usize, fl: Option<u64>) -> (r: Result<Value, AssemblerError>)
    ensures
        lit_result(r) == classify_spec(t@, line as int, fl),
{
    let n = t.unicode_len();
    if n >= 2 {
        let first = t.get_char(0);
        let last = t.get_char(n - 1);
        if (first == '"' && last == '"') || (first == '\'' && last == '\'') {
            return Ok(Value::String(t.substring_char(1, n - 1).to_owned()));
        }
    }
    if text_is(t, "true") {
        return Ok(Value::Bool(true));
    }
    if text_is(t, "false") {
        proof {
            reveal_strlit("true");
            reveal_strlit("false");
        }
        return Ok(Value::Bool(false));
    }
    if has_char(t, '.') {
        return match fl {
            Some(bits) => Ok(Value::Float(bits)),
            None => Err(AssemblerError::InvalidLiteral("invalid float".to_owned(), line)),
        };
    }
    match parse_int(t) {
        Some(v) => Ok(Value::Int(v)),
        None => {
            if n > 0 && alphabetic(t.get_char(0)) {
                Ok(Value::Ident(t.to_owned()))
            } else {
                Err(AssemblerError::InvalidLiteral("invalid literal".to_owned(), line))
            }
        },
    }
}

/// Reads a trimmed token, asking the float unit where it must; also hands
/// back what the unit answered.
fn classify_answer<F: FloatUnit>(t: &str, line: usize, floats: &F) -> (res: (
    Result<Value, AssemblerError>,
    Ghost<Option<u64>>,
))
    ensures
        lit_result(res.0) == classify_spec(t@, line as int, res.1@),
        !float_token(t@) ==> res.1@ is None,
{
    let fl = if is_float_token(t) {
        floats.parse(t)
    } else {
        None
    };
    (literal_with(t, line, fl), Ghost(fl))
}

/// Reads a literal token that is already trimmed; the float unit reads a
/// float token.
pub fn classify_literal<F: FloatUnit>(t: &str, line: usize, floats: &F) -> (r: Result<
    Value,
    AssemblerError,
>)
    ensures
        exists|fl: Option<u64>| lit_result(r) == #[trigger] classify_spec(t@, line as int, fl),
        !float_token(t@) ==> lit_result(r) == classify_spec(t@, line as int, None),
{
    let (r, _) = classify_answer(t, line, floats);
    r
}

/// Reads a literal token: it is trimmed, then read as [`classify_literal`]
/// says; also hands back what the float unit answered.
fn parse_answer<F: FloatUnit>(s: &str, line: usize, floats: &F) -> (res: (
    Result<Value, AssemblerError>,
    Ghost<Option<u64>>,
))
    ensures
        lit_result(res.0) == classify_spec(trim_view(s@), line as int, res.1@),
        !float_token(trim_view(s@)) ==> res.1@ is None,
{
    classify_answer(trimmed(s), line, floats)
}

/// Reads a literal token: the token is trimmed, then read as
/// [`classify_literal`] says.
pub fn parse_literal<F: FloatUnit>(s: &str, line: usize, floats: &F) -> (r: Result<
    Value,
    AssemblerError,
>)
    ensures
        exists|fl: Option<u64>| lit_result(r) == #[trigger] classify_spec(trim_view(s@), line as int, fl),
        !float_token(trim_view(s@)) ==> lit_result(r) == classify_spec(trim_view(s@), line as int, None),
{
    let (r, _) = parse_answer(s, line, floats);
    r
}

/// No two constants are structurally equal.
pub open spec fn distinct_values(vs: Seq<Value>) -> bool {
    forall|i: int, j: int| 0 <= i < j < vs.len() ==> !(#[trigger] vs[i]).same(#[trigger] vs[j])
}

/// No name occurs twice.
pub open spec fn distinct_names(names: Seq<String>) -> bool {
    forall|i: int, j: int| 0 <= i < j < names.len() ==> (#[trigger] names[i])@ != (#[trigger] names[j])@
}

/// Interning `name` into the table `before` gave `id` and left `after`: an
/// existing name keeps its id, a new one gets the next id.
pub open spec fn interned(before: Seq<Seq<char>>, name: Seq<char>, id: int, after: Seq<Seq<char>>) -> bool {
    if before.contains(name) {
        0 <= id < before.len() && before[id] == name && after == before
    } else {
        id == before.len() && after == before.push(name)
    }
}

/// The texts of a table of names.
pub open spec fn names_of(names: Seq<String>) -> Seq<Seq<char>> {
    texts(names)
}

/// The first place of `x` in `s`.
pub open spec fn first_index<T>(s: Seq<T>, x: T) -> Option<int> {
    if s.contains(x) {
        Some(
            choose|i: int| 0 <= i < s.len() && s[i] == x && forall|j: int| 0 <= j < i ==> s[j] != x,
        )
    } else {
        None
    }
}

proof fn lemma_first_index<T>(s: Seq<T>, x: T, i: int)
    requires
        0 <= i < s.len(),
        s[i] == x,
        forall|j: int| 0 <= j < i ==> s[j] != x,
    ensures
        first_index(s, x) == Some(i),
{
    assert(s.contains(x));
    assert(0 <= i < s.len() && s[i] == x && forall|j: int| 0 <= j < i ==> s[j] != x);
    let c = choose|c: int| 0 <= c < s.len() && s[c] == x && forall|j: int| 0 <= j < c ==> s[j] != x;
    if c < i {
        assert(s[c] != x);
    } else if c > i {
        assert(s[i] != x);
    }
}

proof fn lemma_no_index<T>(s: Seq<T>, x: T)
    requires
        forall|j: int| 0 <= j < s.len() ==> s[j] != x,
    ensures
        first_index(s, x) is None,
{
    if s.contains(x) {
        let j = choose|j: int| 0 <= j < s.len() && s[j] == x;
        assert(s[j] != x);
    }
}

/// Where `name` stands in `names`.
fn find_name(names: &Vec<String>, name: &String) -> (r: Option<usize>)
    ensures
        match r {
            Some(i) => first_index(texts(names@), name@) == Some(i as int),
            None => first_index(texts(names@), name@) is None,
        },
        match r {
            Some(i) => i < names@.len() && names@[i as int]@ == name@,
            None => !names_of(names@).contains(name@),
        },
{
    let mut i: usize = 0;
    while i < names.len()
        invariant
            i <= names@.len(),
            forall|j: int| 0 <= j < i ==> names@[j]@ != name@,
        decreases names@.len() - i,
    {
        if names[i].eq(name) {
            proof {
                lemma_first_index(texts(names@), name@, i as int);
            }
            return Some(i);
        }
        i = i + 1;
    }
    proof {
        if names_of(names@).contains(name@) {
            let j = choose|j: int| 0 <= j < names@.len() && names_of(names@)[j] == name@;
            assert(names@[j]@ == name@);
        }
        assert forall|j: int| 0 <= j < texts(names@).len() implies texts(names@)[j] != name@ by {
            assert(names@[j]@ != name@);
        }
        lemma_no_index(texts(names@), name@);
    }
    None
}

/// The id of `name` in `names`, which grows by `name` where it is new.
pub fn intern_name(names: &mut Vec<String>, name: String) -> (r: usize)
    requires
        distinct_names(old(names)@),
    ensures
        interned(names_of(old(names)@), name@, r as int, names_of(final(names)@)),
        match first_index(texts(old(names)@), name@) {
            Some(k) => r == k && texts(final(names)@) == texts(old(names)@),
            None => r == old(names)@.len() && texts(final(names)@) == texts(old(names)@).push(name@),
        },
        distinct_names(final(names)@),
        final(names)@.len() <= old(names)@.len() + 1,
        r < final(names)@.len(),
{
    match find_name(names, &name) {
        Some(i) => {
            assert(names_of(names@)[i as int] == name@);
            i
        },
        None => {
            let n = names.len();
            let ghost before = names@;
            names.push(name);
            assert(names_of(names@) =~= names_of(before).push(name@));
            assert forall|i: int, j: int| 0 <= i < j < names@.len() implies (#[trigger] names@[i])@
                != (#[trigger] names@[j])@ by {
                if j == n {
                    assert(names_of(before)[i] == names@[i]@);
                }
            }
            n
        },
    }
}

/// The zero-operand instruction that a mnemonic names.
pub open spec fn simple_mnemonic(m: Seq<char>) -> Option<OpCode> {
    if m == "add"@ {
        Some(OpCode::Add)
    } else if m == "sub"@ {
        Some(OpCode::Sub)
    } else if m == "mul"@ {
        Some(OpCode::Mul)
    } else if m == "div"@ {
        Some(OpCode::Div)
    } else if m == "divi"@ {
        Some(OpCode::DivInt)
    } else if m == "mod"@ {
        Some(OpCode::Mod)
    } else if m == "equl"@ {
        Some(OpCode::Equal)
    } else if m == "nteq"@ {
        Some(OpCode::NotEqual)
    } else if m == "lsth"@ {
        Some(OpCode::LessThan)
    } else if m == "grth"@ {
        Some(OpCode::GreaterThan)
    } else if m == "gteq"@ {
        Some(OpCode::GreaterEqual)
    } else if m == "lteq"@ {
        Some(OpCode::LessEqual)
    } else if m == "not"@ {
        Some(OpCode::Not)
    } else if m == "and"@ {
        Some(OpCode::LogicalAnd)
    } else if m == "or"@ {
        Some(OpCode::LogicalOr)
    } else if m == "pop"@ {
        Some(OpCode::Pop)
    } else if m == "box"@ {
        Some(OpCode::Box)
    } else if m == "unbox"@ {
        Some(OpCode::Unbox)
    } else if m == "setbox"@ {
        Some(OpCode::SetBox)
    } else if m == "arrayset"@ {
        Some(OpCode::ArraySet)
    } else if m == "arrayget"@ {
        Some(OpCode::ArrayGet)
    } else if m == "arraypush"@ {
        Some(OpCode::ArrayPush)
    } else if m == "arraypop"@ {
        Some(OpCode::ArrayPop)
    } else if m == "arraylen"@ {
        Some(OpCode::ArrayLen)
    } else if m == "ret"@ {
        Some(OpCode::Return)
    } else if m == "prnt"@ {
        Some(OpCode::Print)
    } else if m == "noop"@ {
        Some(OpCode::NoOp)
    } else {
        None
    }
}

/// The jump that a mnemonic names.
pub open spec fn jump_word(m: Seq<char>) -> Option<OpCode> {
    if m == "jump"@ {
        Some(OpCode::Jump)
    } else if m == "jmpf"@ {
        Some(OpCode::JumpIfFalse)
    } else if m == "jmpt"@ {
        Some(OpCode::JumpIfTrue)
    } else {
        None
    }
}

/// A line whose first token is empty or begins with `#` or `;` is skipped.
pub open spec fn is_skipped(m: Seq<char>) -> bool {
    m.len() == 0 || m[0] == '#' || m[0] == ';'
}

/// The number of arguments that the mnemonic `m` takes; `None` where `m`
/// names nothing.
pub open spec fn line_arity(m: Seq<char>) -> Option<nat> {
    if simple_mnemonic(m) is Some {
        Some(0)
    } else if jump_word(m) is Some {
        Some(1)
    } else if m == "main"@ || m == "endf"@ {
        Some(0)
    } else if m == "func"@ {
        Some(2)
    } else if m == "pshc"@ || m == "pshi"@ || m == "pshg"@ || m == "strg"@ || m == "pshl"@ || m
        == "strl"@ || m == "label"@ || m == "callf"@ || m == "array"@ {
        Some(1)
    } else {
        None
    }
}

/// The zero-operand instruction that a mnemonic names.
fn simple_op(m: &str) -> (r: Option<OpCode>)
    ensures
        r == simple_mnemonic(m@),
        r matches Some(op) ==> op.spec_width() == 0 && !op.is_jump() && op != OpCode::CallFunction,
{
    if text_is(m, "add") {
        Some(OpCode::Add)
    } else if text_is(m, "sub") {
        Some(OpCode::Sub)
    } else if text_is(m, "mul") {
        Some(OpCode::Mul)
    } else if text_is(m, "div") {
        Some(OpCode::Div)
    } else if text_is(m, "divi") {
        Some(OpCode::DivInt)
    } else if text_is(m, "mod") {
        Some(OpCode::Mod)
    } else if text_is(m, "equl") {
        Some(OpCode::Equal)
    } else if text_is(m, "nteq") {
        Some(OpCode::NotEqual)
    } else if text_is(m, "lsth") {
        Some(OpCode::LessThan)
    } else if text_is(m, "grth") {
        Some(OpCode::GreaterThan)
    } else if text_is(m, "gteq") {
        Some(OpCode::GreaterEqual)
    } else if text_is(m, "lteq") {
        Some(OpCode::LessEqual)
    } else if text_is(m, "not") {
        Some(OpCode::Not)
    } else if text_is(m, "and") {
        Some(OpCode::LogicalAnd)
    } else if text_is(m, "or") {
        Some(OpCode::LogicalOr)
    } else if text_is(m, "pop") {
        Some(OpCode::Pop)
    } else if text_is(m, "box") {
        Some(OpCode::Box)
    } else if text_is(m, "unbox") {
        Some(OpCode::Unbox)
    } else if text_is(m, "setbox") {
        Some(OpCode::SetBox)
    } else if text_is(m, "arrayset") {
        Some(OpCode::ArraySet)
    } else if text_is(m, "arrayget") {
        Some(OpCode::ArrayGet)
    } else if text_is(m, "arraypush") {
        Some(OpCode::ArrayPush)
    } else if text_is(m, "arraypop") {
        Some(OpCode::ArrayPop)
    } else if text_is(m, "arraylen") {
        Some(OpCode::ArrayLen)
    } else if text_is(m, "ret") {
        Some(OpCode::Return)
    } else if text_is(m, "prnt") {
        Some(OpCode::Print)
    } else if text_is(m, "noop") {
        Some(OpCode::NoOp)
    } else {
        None
    }
}

/// The jump that a mnemonic names.
fn jump_op(m: &str) -> (r: Option<OpCode>)
    ensures
        r == jump_word(m@),
        r matches Some(op) ==> op.is_jump(),
{
    if text_is(m, "jump") {
        Some(OpCode::Jump)
    } else if text_is(m, "jmpf") {
        Some(OpCode::JumpIfFalse)
    } else if text_is(m, "jmpt") {
        Some(OpCode::JumpIfTrue)
    } else {
        None
    }
}

/// The slot that the name `argK` stands for in a function of `arity`
/// arguments: `K`, written without leading zeros, where `K < arity`.
pub open spec fn arg_slot_spec(name: Seq<char>, arity: int) -> Option<int> {
    if name.len() >= 4 && name[0] == 'a' && name[1] == 'r' && name[2] == 'g' && !(name[3] == '0'
        && name.len() > 4) && all_digits(name.skip(3)) && digits_value(name.skip(3)) < arity {
        Some(digits_value(name.skip(3)))
    } else {
        None
    }
}

/// The slot of the argument name `argK` in a function of `arity` arguments.
fn arg_slot(name: &str, arity: u8) -> (r: Option<usize>)
    ensures
        match r {
            Some(k) => arg_slot_spec(name@, arity as int) == Some(k as int),
            None => arg_slot_spec(name@, arity as int) is None,
        },
        r matches Some(k) ==> k < arity,
{
    let n = name.unicode_len();
    if n < 4 || name.get_char(0) != 'a' || name.get_char(1) != 'r' || name.get_char(2) != 'g' {
        return None;
    }
    if name.get_char(3) == '0' && n > 4 {
        return None;
    }
    let ghost body = name@.skip(3);
    // the value so far, held at no more than 256, above every arity
    let mut k: usize = 0;
    let mut i: usize = 3;
    while i < n
        invariant
            n == name@.len(),
            3 <= i <= n,
            body == name@.skip(3),
            all_digits(body.subrange(0, i - 3)),
            k == if digits_value(body.subrange(0, i - 3)) < 256 {
                digits_value(body.subrange(0, i - 3))
            } else {
                256
            },
        decreases n - i,
    {
        let c = name.get_char(i);
        if c < '0' || c > '9' {
            assert(!all_digits(body)) by {
                assert(body[i - 3] == c);
            }
            return None;
        }
        let ghost prev = body.subrange(0, i - 3);
        let ghost next = body.subrange(0, i + 1 - 3);
        assert(next.drop_last() =~= prev);
        assert(next.last() == c);
        proof {
            lemma_digits_nonneg(prev);
        }
        k = k * 10 + (c as u32 - '0' as u32) as usize;
        if k > 256 {
            k = 256;
        }
        i = i + 1;
        assert(all_digits(next));
    }
    assert(body.subrange(0, n - 3) =~= body);
    if k < arity as usize {
        Some(k)
    } else {
        None
    }
}

/// One run of the text assembler as the contracts see it: code and labels,
/// the constant pool, global names, functions and their names, the function
/// being defined (its arity and named locals), and the entry.
pub struct AsmSt {
    pub em: EmitSt,
    pub consts: Seq<Lit>,
    pub globals: Seq<Seq<char>>,
    pub functions: Seq<Function>,
    pub fnames: Seq<Seq<char>>,
    pub in_function: bool,
    pub arity: u8,
    pub locals: Seq<Seq<char>>,
    pub entry: int,
}

pub open spec fn init_st() -> AsmSt {
    AsmSt {
        em: EmitSt { code: Seq::empty(), labels: Seq::empty(), fixups: Seq::empty() },
        consts: Seq::empty(),
        globals: Seq::empty(),
        functions: Seq::empty(),
        fnames: Seq::empty(),
        in_function: false,
        arity: 0,
        locals: Seq::empty(),
        entry: 0,
    }
}

/// The literal that an argument token spells.
pub open spec fn lit_of(tok: Seq<char>, line: int, fl: Option<u64>) -> Result<Lit, AsmErr> {
    classify_spec(trim_view(tok), line, fl)
}

/// The identifier that an argument token spells.
pub open spec fn ident_of(tok: Seq<char>, line: int, fl: Option<u64>) -> Result<Seq<char>, AsmErr> {
    match lit_of(tok, line, fl) {
        Ok(Lit::Ident(n)) => Ok(n),
        Ok(_) => Err(AsmErr::InvalidArgument(line)),
        Err(e) => Err(e),
    }
}

/// The integer in `lo..=hi` that an argument token spells.
pub open spec fn int_of(tok: Seq<char>, lo: int, hi: int, line: int, fl: Option<u64>) -> Result<int, AsmErr> {
    match lit_of(tok, line, fl) {
        Ok(Lit::Int(v)) => if lo <= v <= hi {
            Ok(v as int)
        } else {
            Err(AsmErr::InvalidArgument(line))
        },
        Ok(_) => Err(AsmErr::InvalidArgument(line)),
        Err(e) => Err(e),
    }
}

/// `op` with operand `v` appended to the code.
pub open spec fn emit_s(st: AsmSt, op: OpCode, v: int) -> AsmSt {
    AsmSt { em: EmitSt { code: st.em.code + encode(op, v), ..st.em }, ..st }
}

/// The slot of a local name in the function being defined: an argument
/// `argK`, else the named locals after the arguments.
pub open spec fn local_slot_spec(st: AsmSt, name: Seq<char>) -> Option<int> {
    match arg_slot_spec(name, st.arity as int) {
        Some(k) => Some(k),
        None => match first_index(st.locals, name) {
            Some(i) => Some(st.arity + i),
            None => None,
        },
    }
}

/// The mnemonics that take one argument and are not jumps.
pub open spec fn one_arg_word(m: Seq<char>) -> bool {
    m == "pshc"@ || m == "pshi"@ || m == "pshg"@ || m == "strg"@ || m == "pshl"@ || m == "strl"@
        || m == "label"@ || m == "callf"@ || m == "array"@
}

/// `endf`: the function's local count is written back and it returns.
pub open spec fn end_function(st: AsmSt) -> AsmSt {
    emit_s(
        AsmSt {
            functions: st.functions.update(
                st.functions.len() - 1,
                Function { locals: (st.arity + st.locals.len()) as u8, ..st.functions.last() },
            ),
            in_function: false,
            locals: Seq::empty(),
            ..st
        },
        OpCode::Return,
        0,
    )
}

/// `func name arity` (tokens `t`).
pub open spec fn func_spec(st: AsmSt, t: Seq<Seq<char>>, line: int, fl: Option<u64>) -> Result<AsmSt, AsmErr> {
    if t.len() != 3 {
        Err(AsmErr::InvalidArgument(line))
    } else if st.in_function {
        Err(AsmErr::InvalidFunctionLocation(line))
    } else {
        match ident_of(t[1], line, fl) {
            Err(e) => Err(e),
            Ok(name) => match int_of(t[2], 0, 255, line, fl) {
                Err(e) => Err(e),
                Ok(a) => if st.functions.len() >= 65536 {
                    Err(AsmErr::InvalidArgument(line))
                } else {
                    Ok(
                        AsmSt {
                            em: EmitSt { code: st.em.code.push(OpCode::NoOp.spec_byte()), ..st.em },
                            functions: st.functions.push(
                                Function {
                                    address: st.em.code.len() as usize,
                                    arity: a as u8,
                                    locals: a as u8,
                                },
                            ),
                            fnames: st.fnames.push(name),
                            in_function: true,
                            arity: a as u8,
                            locals: Seq::empty(),
                            ..st
                        },
                    )
                },
            },
        }
    }
}

/// A mnemonic `m` with its one argument `tok`.
pub open spec fn one_arg_spec(st: AsmSt, m: Seq<char>, tok: Seq<char>, line: int, fl: Option<u64>) -> Result<AsmSt, AsmErr> {
    if m == "pshc"@ {
        match lit_of(tok, line, fl) {
            Err(e) => Err(e),
            Ok(v) => match first_index(st.consts, v) {
                Some(k) => Ok(emit_s(st, OpCode::PushConst, k)),
                None => if st.consts.len() >= 65536 {
                    Err(AsmErr::InvalidArgument(line))
                } else {
                    Ok(emit_s(AsmSt { consts: st.consts.push(v), ..st }, OpCode::PushConst, st.consts.len() as int))
                },
            },
        }
    } else if m == "pshi"@ {
        match int_of(tok, -32768, 32767, line, fl) {
            Err(e) => Err(e),
            Ok(k) => Ok(emit_s(st, OpCode::PushImmediate, if k < 0 { k + 65536 } else { k })),
        }
    } else if m == "array"@ {
        match int_of(tok, 0, 255, line, fl) {
            Err(e) => Err(e),
            Ok(n) => Ok(emit_s(st, OpCode::Array, n)),
        }
    } else if m == "pshg"@ || m == "strg"@ {
        match ident_of(tok, line, fl) {
            Err(e) => Err(e),
            Ok(name) => if m == "strg"@ {
                if st.globals.len() >= 65536 {
                    Err(AsmErr::InvalidArgument(line))
                } else {
                    match first_index(st.globals, name) {
                        Some(id) => Ok(emit_s(st, OpCode::StoreGlobal, id)),
                        None => Ok(emit_s(AsmSt { globals: st.globals.push(name), ..st }, OpCode::StoreGlobal, st.globals.len() as int)),
                    }
                }
            } else {
                match first_index(st.globals, name) {
                    Some(id) => Ok(emit_s(st, OpCode::PushGlobal, id)),
                    None => Err(AsmErr::InvalidIdentifier(name, line)),
                }
            },
        }
    } else if m == "pshl"@ || m == "strl"@ {
        if !st.in_function {
            Err(AsmErr::AccessLocalOutsideFunction(line))
        } else {
            match ident_of(tok, line, fl) {
                Err(e) => Err(e),
                Ok(name) => {
                    let op = if m == "strl"@ { OpCode::StoreLocal } else { OpCode::PushLocal };
                    match local_slot_spec(st, name) {
                        Some(k) => Ok(emit_s(st, op, k)),
                        None => if m != "strl"@ {
                            Err(AsmErr::InvalidIdentifier(name, line))
                        } else if st.arity + st.locals.len() >= 255 {
                            Err(AsmErr::InvalidArgument(line))
                        } else {
                            Ok(emit_s(AsmSt { locals: st.locals.push(name), ..st }, op, st.arity + st.locals.len()))
                        },
                    }
                },
            }
        }
    } else if m == "label"@ {
        match ident_of(tok, line, fl) {
            Err(e) => Err(e),
            Ok(name) => Ok(AsmSt { em: label_s(st.em, name), ..st }),
        }
    } else if m == "callf"@ {
        match ident_of(tok, line, fl) {
            Err(e) => Err(e),
            Ok(name) => match first_index(st.fnames, name) {
                Some(i) => Ok(emit_s(st, OpCode::CallFunction, i)),
                None => Err(AsmErr::InvalidFunctionCall(name, line)),
            },
        }
    } else {
        Err(AsmErr::InvalidOpcode(m, line))
    }
}

/// One line, split into its tokens `t`, at line number `line`; `fl` is what
/// the float unit read, where it was asked (at most once a line).
pub open spec fn stmt_spec(st: AsmSt, t: Seq<Seq<char>>, line: int, fl: Option<u64>) -> Result<AsmSt, AsmErr> {
    let m = t[0];
    let argc = t.len() - 1;
    if st.em.code.len() + 16 > CODE_LIMIT {
        Err(AsmErr::InvalidArgument(line))
    } else if is_skipped(m) {
        Ok(st)
    } else if simple_mnemonic(m) is Some {
        if argc != 0 {
            Err(AsmErr::InvalidArgument(line))
        } else {
            Ok(emit_s(st, simple_mnemonic(m)->Some_0, 0))
        }
    } else if jump_word(m) is Some {
        if argc != 1 {
            Err(AsmErr::InvalidArgument(line))
        } else {
            match ident_of(t[1], line, fl) {
                Err(e) => Err(e),
                Ok(name) => Ok(AsmSt { em: jump_s(st.em, jump_word(m)->Some_0, name), ..st }),
            }
        }
    } else if m == "main"@ || m == "endf"@ {
        if argc != 0 {
            Err(AsmErr::InvalidArgument(line))
        } else if m == "main"@ {
            Ok(
                AsmSt {
                    em: EmitSt { code: st.em.code.push(OpCode::NoOp.spec_byte()), ..st.em },
                    entry: st.em.code.len() as int,
                    ..st
                },
            )
        } else if !st.in_function {
            Err(AsmErr::InvalidFunctionEnd(line))
        } else {
            Ok(end_function(st))
        }
    } else if m == "func"@ {
        func_spec(st, t, line, fl)
    } else if argc != 1 {
        if one_arg_word(m) {
            Err(AsmErr::InvalidArgument(line))
        } else {
            Err(AsmErr::InvalidOpcode(m, line))
        }
    } else {
        one_arg_spec(st, m, t[1], line, fl)
    }
}

/// The lines `ls` in turn, the float unit having answered `orc[i]` on line
/// `i` (where it was asked); the first failing line ends the run.
pub open spec fn asm_lines(ls: Seq<Seq<char>>, orc: Seq<Option<u64>>) -> Result<AsmSt, AsmErr>
    decreases ls.len(),
{
    if ls.len() == 0 {
        Ok(init_st())
    } else {
        match asm_lines(ls.drop_last(), orc.drop_last()) {
            Err(e) => Err(e),
            Ok(st) => stmt_spec(st, split_spec(ls.last()), ls.len() as int, orc.last()),
        }
    }
}

/// An assembled program as the contracts see it.
pub struct Program {
    pub entry: int,
    pub consts: Seq<Lit>,
    pub functions: Seq<Function>,
    pub code: Seq<u8>,
}

/// What assembling `ls` gives: after the last line, a function still open
/// is `UnexpectedEof`; then every jump still waiting is patched with its
/// label's offset (`InvalidJumpTarget` for a label never defined).
pub open spec fn assemble_spec(ls: Seq<Seq<char>>, orc: Seq<Option<u64>>) -> Result<Program, AsmErr> {
    match asm_lines(ls, orc) {
        Err(e) => Err(e),
        Ok(st) => if st.in_function {
            Err(AsmErr::UnexpectedEof)
        } else {
            match finish_s(st.em.code, st.em.labels, st.em.fixups, 0) {
                Err(e) => Err(e),
                Ok(code) => Ok(Program { entry: st.entry, consts: st.consts, functions: st.functions, code }),
            }
        },
    }
}

pub open spec fn program_of(bc: Bytecode) -> Program {
    Program {
        entry: bc.entry as int,
        consts: bc.consts@.map_values(|v: Value| v.model()),
        functions: bc.functions@,
        code: bc.code@,
    }
}

pub open spec fn bc_result(r: Result<Bytecode, AssemblerError>) -> Result<Program, AsmErr> {
    match r {
        Ok(bc) => Ok(program_of(bc)),
        Err(e) => Err(e.model()),
    }
}

/// Does a step that returned `r` and left `st2` agree with `o`?
pub open spec fn agrees_st(o: Result<AsmSt, AsmErr>, r: Result<(), AssemblerError>, st2: AsmSt) -> bool {
    match o {
        Ok(s) => r is Ok && st2 == s,
        Err(e) => r matches Err(x) && x.model() == e,
    }
}

/// Global ids go in order of first introduction: the first name stored gets
/// id 0, and storing or pushing it again uses id 0 again.
pub proof fn lemma_first_global_is_zero(
    st: AsmSt,
    tok: Seq<char>,
    line1: int,
    line2: int,
    line3: int,
    fl: Option<u64>,
    name: Seq<char>,
)
    requires
        st.globals.len() == 0,
        ident_of(tok, line1, fl) == Ok::<Seq<char>, AsmErr>(name),
        ident_of(tok, line2, fl) == Ok::<Seq<char>, AsmErr>(name),
        ident_of(tok, line3, fl) == Ok::<Seq<char>, AsmErr>(name),
    ensures
        one_arg_spec(st, "strg"@, tok, line1, fl) matches Ok(s1) && s1.em.code == st.em.code + encode(
            OpCode::StoreGlobal,
            0,
        ) && s1.globals == seq![name] && (one_arg_spec(s1, "strg"@, tok, line2, fl) matches Ok(s2)
            && s2.em.code == s1.em.code + encode(OpCode::StoreGlobal, 0)) && (one_arg_spec(
            s1,
            "pshg"@,
            tok,
            line3,
            fl,
        ) matches Ok(s3) && s3.em.code == s1.em.code + encode(OpCode::PushGlobal, 0)),
{
    reveal_strlit("strg");
    reveal_strlit("pshg");
    reveal_strlit("pshc");
    reveal_strlit("pshi");
    reveal_strlit("array");
    assert("strg"@ != "pshc"@) by {
        assert("strg"@[1] != "pshc"@[1]);
    }
    assert("strg"@ != "pshi"@) by {
        assert("strg"@[1] != "pshi"@[1]);
    }
    assert("strg"@ != "array"@) by {
        assert("strg"@[0] != "array"@[0]);
    }
    assert("pshg"@ != "pshc"@) by {
        assert("pshg"@[3] != "pshc"@[3]);
    }
    assert("pshg"@ != "pshi"@) by {
        assert("pshg"@[3] != "pshi"@[3]);
    }
    assert("pshg"@ != "array"@) by {
        assert("pshg"@[0] != "array"@[0]);
    }
    assert("pshg"@ != "strg"@) by {
        assert("pshg"@[0] != "strg"@[0]);
    }
    lemma_no_index(st.globals, name);
    let g = Seq::<Seq<char>>::empty().push(name);
    assert(st.globals.push(name) =~= g);
    lemma_first_index(g, name, 0);
}

/// Once a prefix of the lines fails, so does the whole.
proof fn lemma_failure_sticks(ls: Seq<Seq<char>>, orc: Seq<Option<u64>>, k: int)
    requires
        0 <= k <= ls.len(),
        ls.len() == orc.len(),
        asm_lines(ls.subrange(0, k), orc.subrange(0, k)) is Err,
    ensures
        asm_lines(ls, orc) == asm_lines(ls.subrange(0, k), orc.subrange(0, k)),
    decreases ls.len(),
{
    if ls.len() == k {
        assert(ls.subrange(0, k) =~= ls);
        assert(orc.subrange(0, k) =~= orc);
    } else {
        assert(ls.drop_last().subrange(0, k) =~= ls.subrange(0, k));
        assert(orc.drop_last().subrange(0, k) =~= orc.subrange(0, k));
        lemma_failure_sticks(ls.drop_last(), orc.drop_last(), k);
    }
}

/// What an assembled program promises: whole instructions, jumps onto
/// `NoOp`s, uses of existing constants, calls of existing functions whose
/// entries are `NoOp`s, an entry on a `NoOp` (or at 0 where no `main` was
/// given), and a constant pool with no two equal entries.
pub open spec fn assembled_ok(bc: Bytecode) -> bool {
    &&& exists|starts: Seq<int>| well_formed(bc.code@, starts, bc.functions@.len() as int, bc.consts@.len() as int)
    &&& forall|f: int|
        0 <= f < bc.functions@.len() ==> lands_on_noop(bc.code@, (#[trigger] bc.functions@[f]).address as int)
            && bc.functions@[f].locals >= bc.functions@[f].arity
    &&& bc.entry == 0 || lands_on_noop(bc.code@, bc.entry as int)
    &&& distinct_values(bc.consts@)
    &&& bc.consts@.len() <= 65536
}

/// The state of one run of the text assembler.
struct TextAsm {
    em: Emitter,
    consts: Vec<Value>,
    globals: Vec<String>,
    functions: Vec<Function>,
    function_names: Vec<String>,
    in_function: bool,
    arity: u8,
    locals: Vec<String>,
    entry: usize,
}

impl TextAsm {
    spec fn view(&self) -> AsmSt {
        AsmSt {
            em: self.em.espec(),
            consts: self.consts@.map_values(|v: Value| v.model()),
            globals: texts(self.globals@),
            functions: self.functions@,
            fnames: texts(self.function_names@),
            in_function: self.in_function,
            arity: self.arity,
            locals: texts(self.locals@),
            entry: self.entry as int,
        }
    }

    spec fn wf(&self) -> bool {
        &&& self.em.wf()
        &&& self.em.nfuncs == self.functions@.len()
        &&& self.em.nconsts == self.consts@.len()
        &&& self.functions@.len() == self.function_names@.len()
        &&& self.functions@.len() <= 65536
        &&& forall|f: int|
            0 <= f < self.functions@.len() ==> lands_on_noop(
                self.em.code@,
                (#[trigger] self.functions@[f]).address as int,
            ) && self.functions@[f].locals >= self.functions@[f].arity
        &&& self.entry == 0 || lands_on_noop(self.em.code@, self.entry as int)
        &&& distinct_values(self.consts@)
        &&& self.consts@.len() <= 65536
        &&& distinct_names(self.globals@)
        &&& self.globals@.len() <= 65536
        &&& distinct_names(self.locals@)
        &&& self.in_function ==> self.functions@.len() > 0 && self.arity as int + self.locals@.len()
            <= 255 && self.functions@.last().arity == self.arity
    }

    fn new() -> (r: TextAsm)
        ensures
            r.wf(),
            r.view() == init_st(),
    {
        let r = TextAsm {
            em: Emitter::new(0, 0),
            consts: Vec::new(),
            globals: Vec::new(),
            functions: Vec::new(),
            function_names: Vec::new(),
            in_function: false,
            arity: 0,
            locals: Vec::new(),
            entry: 0,
        };
        assert(r.view().em.labels =~= Seq::<(Seq<char>, int)>::empty());
        assert(r.view().em.fixups =~= Seq::<(int, Seq<char>)>::empty());
        assert(r.view().em.code =~= Seq::<u8>::empty());
        assert(r.view().consts =~= Seq::<Lit>::empty());
        assert(r.view().globals =~= Seq::<Seq<char>>::empty());
        assert(r.view().fnames =~= Seq::<Seq<char>>::empty());
        assert(r.view().locals =~= Seq::<Seq<char>>::empty());
        assert(r.view().functions =~= Seq::<Function>::empty());
        r
    }

    /// Emits `op` and its operand, keeping the tables as they are.
    fn put(&mut self, op: OpCode, operand: u32)
        requires
            old(self).wf(),
            old(self).em.code@.len() + 16 <= CODE_LIMIT,
            op.is_jump() ==> lands_on_noop(old(self).em.code@, operand as int),
            op.spec_width() == 1 ==> operand < 256,
            op.spec_width() == 2 ==> operand < 65536,
            op == OpCode::CallFunction ==> operand < old(self).functions@.len(),
            op == OpCode::PushConst ==> operand < old(self).consts@.len(),
        ensures
            final(self).wf(),
            final(self).view() == emit_s(old(self).view(), op, operand as int),
    {
        let ghost e0 = self.em.espec();
        self.em.emit(op, operand);
        assert(self.em.espec().labels =~= e0.labels);
        assert(self.em.espec().fixups =~= e0.fixups);
    }

    /// The constant's index in the pool, which grows by it where it is new.
    fn intern_const(&mut self, v: Value, line: usize) -> (r: Result<u16, AssemblerError>)
        requires
            old(self).wf(),
        ensures
            match first_index(old(self).view().consts, v.model()) {
                Some(k) => r == Ok::<u16, AssemblerError>(k as u16) && final(self).view() == old(self).view()
                    && k < old(self).consts@.len(),
                None => if old(self).consts@.len() >= 65536 {
                    r matches Err(x) && x.model() == AsmErr::InvalidArgument(line as int)
                } else {
                    r == Ok::<u16, AssemblerError>(old(self).consts@.len() as u16) && final(self).view() == (AsmSt {
                        consts: old(self).view().consts.push(v.model()),
                        ..old(self).view()
                    })
                },
            },
            r is Ok ==> final(self).wf() && r->Ok_0 < final(self).consts@.len()
                && final(self).em.code@ == old(self).em.code@ && final(self).functions@ == old(self).functions@,
    {
        let n = self.consts.len();
        let mut i: usize = 0;
        while i < n
            invariant
                *self == *old(self),
                self.wf(),
                n == self.consts@.len(),
                n <= 65536,
                i <= n,
                forall|j: int| 0 <= j < i ==> !self.consts@[j].same(v),
            decreases n - i,
        {
            if self.consts[i].same_as(&v) {
                proof {
                    lemma_first_index(self.view().consts, v.model(), i as int);
                }
                return Ok(i as u16);
            }
            i = i + 1;
        }
        proof {
            lemma_no_index(self.view().consts, v.model());
        }
        if n >= 65536 {
            return Err(AssemblerError::InvalidArgument("too many constants".to_owned(), line));
        }
        let ghost before = self.consts@;
        let ghost v0 = self.view();
        self.consts.push(v);
        self.em.set_const_count(n + 1);
        assert forall|a: int, b: int| 0 <= a < b < self.consts@.len() implies !(#[trigger] self.consts@[a]).same(
            #[trigger] self.consts@[b],
        ) by {
            if b == n {
                assert(!before[a].same(v));
            } else {
                assert(!before[a].same(before[b]));
            }
        }
        assert(self.view().consts =~= v0.consts.push(v.model()));
        assert(self.view().em == v0.em);
        Ok(n as u16)
    }

    /// The slot of a local name inside the current function.
    fn local_slot(&self, name: &String) -> (r: Option<usize>)
        requires
            self.wf(),
            self.in_function,
        ensures
            match r {
                Some(k) => local_slot_spec(self.view(), name@) == Some(k as int) && k < 255,
                None => local_slot_spec(self.view(), name@) is None,
            },
    {
        match arg_slot(name.as_str(), self.arity) {
            Some(k) => Some(k),
            None => match find_name(&self.locals, name) {
                Some(i) => Some(self.arity as usize + i),
                None => None,
            },
        }
    }

    /// `func name arity` (all of the line's tokens).
    fn stmt_func<F: FloatUnit>(&mut self, tokens: &Vec<String>, line: usize, floats: &F) -> (res: (
        Result<(), AssemblerError>,
        Ghost<Option<u64>>,
    ))
        requires
            old(self).wf(),
            old(self).em.code@.len() + 16 <= CODE_LIMIT,
            tokens@.len() >= 1,
        ensures
            agrees_st(func_spec(old(self).view(), texts(tokens@), line as int, res.1@), res.0, final(self).view()),
            res.0 is Ok ==> final(self).wf(),
    {
        let ghost t = texts(tokens@);
        let none = Ghost(None);
        if tokens.len() != 3 {
            return (Err(AssemblerError::InvalidArgument("expected two arguments".to_owned(), line)), none);
        }
        if self.in_function {
            return (Err(AssemblerError::InvalidFunctionLocation(line)), none);
        }
        let (name, a1) = ident_arg(tokens[1].as_str(), line, floats);
        let name = match name {
            Ok(name) => name,
            Err(e) => return (Err(e), a1),
        };
        let (arity, a2) = int_arg(tokens[2].as_str(), 0, 255, line, floats);
        let arity = match arity {
            Ok(a) => a as u8,
            Err(e) => return (Err(e), a2),
        };
        if self.functions.len() >= 65536 {
            return (Err(AssemblerError::InvalidArgument("too many functions".to_owned(), line)), a2);
        }
        let ghost v0 = self.view();
        let address = self.em.mark();
        let ghost nm = name@;
        self.functions.push(Function { address, arity, locals: arity });
        self.function_names.push(name);
        self.em.set_function_count(self.functions.len());
        self.in_function = true;
        self.arity = arity;
        self.locals = Vec::new();
        proof {
            assert(self.view().fnames =~= v0.fnames.push(nm));
            assert(self.view().locals =~= Seq::<Seq<char>>::empty());
            assert(self.view().em == EmitSt { code: v0.em.code.push(OpCode::NoOp.spec_byte()), ..v0.em });
        }
        (Ok(()), a2)
    }

    /// A mnemonic `m` with its one argument `tok`.
    fn stmt_one_arg<F: FloatUnit>(&mut self, m: &str, tok: &str, line: usize, floats: &F) -> (res: (
        Result<(), AssemblerError>,
        Ghost<Option<u64>>,
    ))
        requires
            old(self).wf(),
            old(self).em.code@.len() + 16 <= CODE_LIMIT,
        ensures
            agrees_st(one_arg_spec(old(self).view(), m@, tok@, line as int, res.1@), res.0, final(self).view()),
            res.0 is Ok ==> final(self).wf(),
    {
        let ghost v0 = self.view();
        if text_is(m, "pshc") {
            let (v, fl) = parse_answer(tok, line, floats);
            let v = match v {
                Ok(v) => v,
                Err(e) => return (Err(e), fl),
            };
            let idx = match self.intern_const(v, line) {
                Ok(idx) => idx,
                Err(e) => return (Err(e), fl),
            };
            self.put(OpCode::PushConst, idx as u32);
            (Ok(()), fl)
        } else if text_is(m, "pshi") {
            let (k, fl) = int_arg(tok, -32768, 32767, line, floats);
            let k = match k {
                Ok(k) => k,
                Err(e) => return (Err(e), fl),
            };
            let operand: u32 = if k < 0 {
                (k + 65536) as u32
            } else {
                k as u32
            };
            self.put(OpCode::PushImmediate, operand);
            (Ok(()), fl)
        } else if text_is(m, "array") {
            let (n, fl) = int_arg(tok, 0, 255, line, floats);
            let n = match n {
                Ok(n) => n,
                Err(e) => return (Err(e), fl),
            };
            self.put(OpCode::Array, n as u32);
            (Ok(()), fl)
        } else if text_is(m, "pshg") || text_is(m, "strg") {
            let store = text_is(m, "strg");
            let (name, fl) = ident_arg(tok, line, floats);
            let name = match name {
                Ok(name) => name,
                Err(e) => return (Err(e), fl),
            };
            let id = if store {
                if self.globals.len() >= 65536 {
                    return (Err(AssemblerError::InvalidArgument("too many globals".to_owned(), line)), fl);
                }
                intern_name(&mut self.globals, name)
            } else {
                match find_name(&self.globals, &name) {
                    Some(id) => id,
                    None => return (Err(AssemblerError::InvalidIdentifier(name, line)), fl),
                }
            };
            let op = if store {
                OpCode::StoreGlobal
            } else {
                OpCode::PushGlobal
            };
            self.put(op, id as u32);
            (Ok(()), fl)
        } else if text_is(m, "pshl") || text_is(m, "strl") {
            if !self.in_function {
                return (Err(AssemblerError::AccessLocalOutsideFunction(line)), Ghost(None));
            }
            let store = text_is(m, "strl");
            let (name, fl) = ident_arg(tok, line, floats);
            let name = match name {
                Ok(name) => name,
                Err(e) => return (Err(e), fl),
            };
            let op = if store {
                OpCode::StoreLocal
            } else {
                OpCode::PushLocal
            };
            let slot = match self.local_slot(&name) {
                Some(k) => k,
                None => {
                    if !store {
                        return (Err(AssemblerError::InvalidIdentifier(name, line)), fl);
                    }
                    if self.arity as usize + self.locals.len() >= 255 {
                        return (Err(AssemblerError::InvalidArgument("too many locals".to_owned(), line)), fl);
                    }
                    let k = self.arity as usize + self.locals.len();
                    intern_name(&mut self.locals, name);
                    k
                },
            };
            self.put(op, slot as u32);
            (Ok(()), fl)
        } else if text_is(m, "label") {
            let (name, fl) = ident_arg(tok, line, floats);
            let name = match name {
                Ok(name) => name,
                Err(e) => return (Err(e), fl),
            };
            self.em.define_label(name);
            (Ok(()), fl)
        } else if text_is(m, "callf") {
            let (name, fl) = ident_arg(tok, line, floats);
            let name = match name {
                Ok(name) => name,
                Err(e) => return (Err(e), fl),
            };
            match find_name(&self.function_names, &name) {
                Some(idx) => {
                    self.put(OpCode::CallFunction, idx as u32);
                    (Ok(()), fl)
                },
                None => (Err(AssemblerError::InvalidFunctionCall(name, line)), fl),
            }
        } else {
            (Err(AssemblerError::InvalidOpcode(m.to_owned(), line)), Ghost(None))
        }
    }

    /// Assembles one line, split into its tokens.
    fn statement<F: FloatUnit>(&mut self, tokens: &Vec<String>, line: usize, floats: &F) -> (res: (
        Result<(), AssemblerError>,
        Ghost<Option<u64>>,
    ))
        requires
            old(self).wf(),
            tokens@.len() >= 1,
        ensures
            agrees_st(stmt_spec(old(self).view(), texts(tokens@), line as int, res.1@), res.0, final(self).view()),
            res.0 is Ok ==> final(self).wf(),
    {
        let none = Ghost(None);
        if !self.em.has_room() {
            return (Err(AssemblerError::InvalidArgument("program too long".to_owned(), line)), none);
        }
        let m = tokens[0].as_str();
        let argc = tokens.len() - 1;
        if m.unicode_len() == 0 || m.get_char(0) == '#' || m.get_char(0) == ';' {
            return (Ok(()), none);
        }
        if let Some(op) = simple_op(m) {
            if argc != 0 {
                return (Err(AssemblerError::InvalidArgument("expected no argument".to_owned(), line)), none);
            }
            self.put(op, 0);
            return (Ok(()), none);
        }
        if let Some(op) = jump_op(m) {
            if argc != 1 {
                return (Err(AssemblerError::InvalidArgument("expected one argument".to_owned(), line)), none);
            }
            let (name, fl) = ident_arg(tokens[1].as_str(), line, floats);
            let name = match name {
                Ok(name) => name,
                Err(e) => return (Err(e), fl),
            };
            self.em.emit_jump(op, name);
            return (Ok(()), fl);
        }
        if text_is(m, "main") || text_is(m, "endf") {
            if argc != 0 {
                return (Err(AssemblerError::InvalidArgument("expected no argument".to_owned(), line)), none);
            }
            if text_is(m, "main") {
                self.entry = self.em.mark();
            } else {
                if !self.in_function {
                    return (Err(AssemblerError::InvalidFunctionEnd(line)), none);
                }
                let last = self.functions.len() - 1;
                let mut f = self.functions[last];
                f.locals = self.arity + self.locals.len() as u8;
                self.functions.set(last, f);
                self.in_function = false;
                self.locals = Vec::new();
                assert(self.view().locals =~= Seq::<Seq<char>>::empty());
                self.put(OpCode::Return, 0);
            }
            return (Ok(()), none);
        }
        if text_is(m, "func") {
            return self.stmt_func(tokens, line, floats);
        }
        if argc != 1 {
            if text_is(m, "pshc") || text_is(m, "pshi") || text_is(m, "pshg") || text_is(m, "strg")
                || text_is(m, "pshl") || text_is(m, "strl") || text_is(m, "label") || text_is(
                m,
                "callf",
            ) || text_is(m, "array") {
                return (Err(AssemblerError::InvalidArgument("expected one argument".to_owned(), line)), none);
            }
            return (Err(AssemblerError::InvalidOpcode(m.to_owned(), line)), none);
        }
        self.stmt_one_arg(m, tokens[1].as_str(), line, floats)
    }
}

pub open spec fn str_result(r: Result<String, AssemblerError>) -> Result<Seq<char>, AsmErr> {
    match r {
        Ok(s) => Ok(s@),
        Err(e) => Err(e.model()),
    }
}

pub open spec fn int_result(r: Result<i64, AssemblerError>) -> Result<int, AsmErr> {
    match r {
        Ok(v) => Ok(v as int),
        Err(e) => Err(e.model()),
    }
}

/// The identifier that an argument token names, and what the float unit
/// answered on the way.
fn ident_arg<F: FloatUnit>(tok: &str, line: usize, floats: &F) -> (res: (
    Result<String, AssemblerError>,
    Ghost<Option<u64>>,
))
    ensures
        str_result(res.0) == ident_of(tok@, line as int, res.1@),
        !float_token(trim_view(tok@)) ==> res.1@ is None,
{
    let (r, fl) = parse_answer(tok, line, floats);
    let r = match r {
        Ok(Value::Ident(name)) => Ok(name),
        Ok(_) => Err(AssemblerError::InvalidArgument("expected an identifier".to_owned(), line)),
        Err(e) => Err(e),
    };
    (r, fl)
}

/// The integer that an argument token spells, if it lies in `lo..=hi`.
fn int_arg<F: FloatUnit>(tok: &str, lo: i64, hi: i64, line: usize, floats: &F) -> (res: (
    Result<i64, AssemblerError>,
    Ghost<Option<u64>>,
))
    ensures
        int_result(res.0) == int_of(tok@, lo as int, hi as int, line as int, res.1@),
        res.0 matches Ok(v) ==> lo <= v <= hi,
        !float_token(trim_view(tok@)) ==> res.1@ is None,
{
    let (r, fl) = parse_answer(tok, line, floats);
    let r = match r {
        Ok(Value::Int(v)) => if lo <= v && v <= hi {
            Ok(v)
        } else {
            Err(AssemblerError::InvalidArgument("integer out of range".to_owned(), line))
        },
        Ok(_) => Err(AssemblerError::InvalidArgument("expected an integer".to_owned(), line)),
        Err(e) => Err(e),
    };
    (r, fl)
}

/// Assembles a program from its source lines. The result is what
/// [`assemble_spec`] gives for the lines, where the float unit answered as it
/// did; a successful result is also well-formed ([`assembled_ok`]).
pub fn assemble<F: FloatUnit>(lines: &Vec<String>, floats: &F) -> (r: Result<Bytecode, AssemblerError>)
    ensures
        exists|orc: Seq<Option<u64>>|
            orc.len() == lines@.len() && #[trigger] assemble_spec(texts(lines@), orc) == bc_result(r),
        r matches Ok(bc) ==> assembled_ok(bc),
{
    let mut a = TextAsm::new();
    let ghost ls = texts(lines@);
    let ghost mut orc: Seq<Option<u64>> = Seq::empty();
    let mut i: usize = 0;
    assert(ls.subrange(0, 0) =~= Seq::<Seq<char>>::empty());
    while i < lines.len()
        invariant
            a.wf(),
            i <= lines@.len(),
            ls == texts(lines@),
            orc.len() == i,
            asm_lines(ls.subrange(0, i as int), orc) == Ok::<AsmSt, AsmErr>(a.view()),
        decreases lines@.len() - i,
    {
        let tokens = split_spaces(lines[i].as_str());
        let ghost v0 = a.view();
        let (res, fl) = a.statement(&tokens, i + 1, floats);
        proof {
            let o2 = orc.push(fl@);
            let l2 = ls.subrange(0, i + 1);
            assert(l2.drop_last() =~= ls.subrange(0, i as int));
            assert(o2.drop_last() =~= orc);
            assert(l2.last() == lines@[i as int]@);
            orc = o2;
        }
        match res {
            Ok(()) => {},
            Err(e) => {
                proof {
                    let full = orc + Seq::new((lines@.len() - i - 1) as nat, |k: int| None::<u64>);
                    assert(full.subrange(0, i + 1) =~= orc);
                    lemma_failure_sticks(ls, full, i + 1);
                    assert(assemble_spec(ls, full) == bc_result(Err::<Bytecode, AssemblerError>(e)));
                }
                return Err(e);
            },
        }
        i = i + 1;
    }
    proof {
        assert(ls.subrange(0, i as int) =~= ls);
    }
    if a.in_function {
        assert(assemble_spec(ls, orc) == bc_result(Err::<Bytecode, AssemblerError>(AssemblerError::UnexpectedEof)));
        return Err(AssemblerError::UnexpectedEof);
    }
    let ghost code0 = a.em.code@;
    let ghost st = a.view();
    let (code, starts) = match a.em.finish() {
        Ok(p) => p,
        Err(e) => {
            assert(assemble_spec(ls, orc) == bc_result(Err::<Bytecode, AssemblerError>(e)));
            return Err(e);
        },
    };
    let bc = Bytecode { entry: a.entry, consts: a.consts, functions: a.functions, code };
    proof {
        assert(well_formed(bc.code@, starts@, bc.functions@.len() as int, bc.consts@.len() as int));
        assert forall|f: int| 0 <= f < bc.functions@.len() implies lands_on_noop(
            bc.code@,
            (#[trigger] bc.functions@[f]).address as int,
        ) && bc.functions@[f].locals >= bc.functions@[f].arity by {
            assert(lands_on_noop(code0, bc.functions@[f].address as int));
        }
        if bc.entry != 0 {
            assert(lands_on_noop(code0, bc.entry as int));
        }
        assert(assemble_spec(ls, orc) == bc_result(Ok::<Bytecode, AssemblerError>(bc)));
    }
    Ok(bc)
}

} // verus!
