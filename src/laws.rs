//! Properties of the interpreter's step relation, stated over the spec-level
//! [`State`] that [`crate::vm::VM::step`] is specified against.
use crate::emit::{lands_on_noop, lemma_next_start_bound, op_at, well_formed};
use crate::floats::is_zero_bits;
use crate::opcode::OpCode;
use crate::value::Value;
use crate::vm::{array_slot, i16_at, operand, popped, push_then, step_spec, top, FloatAnswer, Outcome, State};
use crate::error::VMError;
use vstd::prelude::*;

verus! {

/// The opcode at offset `at` is `op`.
pub open spec fn at_op(s: State, at: int, op: OpCode) -> bool {
    0 <= at < s.code.len() && s.code[at] == op.spec_byte()
}

/// The heap's sizes are those a machine can hold: every handle fits in `usize`.
pub open spec fn heap_fits(s: State) -> bool {
    s.cells.len() < usize::MAX && s.arrays.len() < usize::MAX
}

/// A step never takes the stack above its maximum height, and never changes
/// that maximum.
pub proof fn lemma_stack_stays_bounded(s: State, f: FloatAnswer)
    requires
        0 <= s.ip < s.code.len(),
        s.stack.len() <= s.max_stack,
    ensures
        step_spec(s, f) matches Outcome::Next(t, _) ==> t.stack.len() <= t.max_stack && t.max_stack
            == s.max_stack,
{
}

/// After `Return`, the stack holds exactly what lay below the frame's base,
/// and then the return value.
pub proof fn lemma_return_restores_height(s: State, f: FloatAnswer)
    requires
        at_op(s, s.ip, OpCode::Return),
    ensures
        step_spec(s, f) matches Outcome::Next(t, _) ==> s.frames.len() > 0 && t.stack.len()
            == s.frames.last().base_pointer + 1 && t.stack.last() == s.stack.last()
            && t.frames == s.frames.drop_last() && t.ip == s.frames.last().return_address,
{
}

/// Two aliases of one boxed cell: after `SetBox` through the one on top, the
/// other (at stack position `j`) still names the cell, which now holds `v`;
/// where the other lies just below, an `Unbox` through it gives `v`.
pub proof fn lemma_boxed_alias(
    s: State,
    f1: FloatAnswer,
    f2: FloatAnswer,
    h: usize,
    v: Value,
    j: int,
)
    requires
        at_op(s, s.ip, OpCode::SetBox),
        s.stack.len() >= 3,
        s.stack.len() <= s.max_stack,
        top(s, 0) == v,
        top(s, 1) == Value::Boxed(h),
        0 <= j < s.stack.len() - 2,
        s.stack[j] == Value::Boxed(h),
        h < s.cells.len(),
    ensures
        step_spec(s, f1) matches Outcome::Next(s1, None) && s1.ip == s.ip + 1 && s1.stack[j]
            == Value::Boxed(h) && s1.cells[h as int] == v && (j == s.stack.len() - 3 && at_op(
            s,
            s.ip + 1,
            OpCode::Unbox,
        ) ==> (step_spec(s1, f2) matches Outcome::Next(s2, None) && s2.stack == s.stack.subrange(
            0,
            s.stack.len() - 3,
        ).push(v))),
{
    let s1 = step_spec(s, f1)->Next_0;
    assert(s1.stack[j] == s.stack[j]);
}

/// `PushConst i; Pop` leaves the stack as it was.
pub proof fn lemma_push_const_pop(s: State, f1: FloatAnswer, f2: FloatAnswer)
    requires
        at_op(s, s.ip, OpCode::PushConst),
        at_op(s, s.ip + 3, OpCode::Pop),
        crate::vm::u16_at(s.code, s.ip + 1) < s.consts.len(),
        s.stack.len() < s.max_stack,
    ensures
        step_spec(s, f1) matches Outcome::Next(s1, None) && s1.ip == s.ip + 3 && (step_spec(
            s1,
            f2,
        ) matches Outcome::Next(s2, None) && s2.stack == s.stack && s2.ip == s.ip + 4),
{
    let s1 = step_spec(s, f1)->Next_0;
    assert(s1.stack.subrange(0, s1.stack.len() - 1) =~= s.stack);
}

/// `Box; Unbox` leaves the top of the stack as it was.
pub proof fn lemma_box_unbox(s: State, f1: FloatAnswer, f2: FloatAnswer)
    requires
        at_op(s, s.ip, OpCode::Box),
        at_op(s, s.ip + 1, OpCode::Unbox),
        heap_fits(s),
        s.stack.len() >= 1,
        s.stack.len() <= s.max_stack,
    ensures
        step_spec(s, f1) matches Outcome::Next(s1, None) && s1.ip == s.ip + 1 && (step_spec(
            s1,
            f2,
        ) matches Outcome::Next(s2, None) && s2.stack == s.stack),
{
    let p = popped(s, 1);
    assert(step_spec(s, f1) == push_then(
        State { cells: p.cells.push(top(s, 0)), ..p },
        Value::Boxed(p.cells.len() as usize),
        s.ip + 1,
    ));
    let s1 = step_spec(s, f1)->Next_0;
    assert(popped(s1, 1).stack =~= p.stack);
    assert(p.stack.push(top(s, 0)) =~= s.stack);
}

/// `Array n; ArrayLen` replaces the top `n` values by `Int(n)`.
pub proof fn lemma_array_len(s: State, f1: FloatAnswer, f2: FloatAnswer)
    requires
        at_op(s, s.ip, OpCode::Array),
        at_op(s, s.ip + 2, OpCode::ArrayLen),
        heap_fits(s),
        s.code[s.ip + 1] <= s.stack.len(),
        s.stack.len() - s.code[s.ip + 1] < s.max_stack,
    ensures
        step_spec(s, f1) matches Outcome::Next(s1, None) && s1.ip == s.ip + 2 && (step_spec(
            s1,
            f2,
        ) matches Outcome::Next(s2, None) && s2.stack == s.stack.subrange(
            0,
            s.stack.len() - s.code[s.ip + 1],
        ).push(Value::Int(s.code[s.ip + 1] as i64))),
{
    let n = s.code[s.ip + 1] as int;
    assert(operand(s.code, s.ip, OpCode::Array) == n);
    let s1 = step_spec(s, f1)->Next_0;
    assert(popped(s1, 1).stack =~= popped(s, n).stack);
}

/// `PushImmediate k; PushImmediate k; Equal` pushes `Bool(true)`.
pub proof fn lemma_immediate_equal(
    s: State,
    f1: FloatAnswer,
    f2: FloatAnswer,
    f3: FloatAnswer,
    k: int,
)
    requires
        at_op(s, s.ip, OpCode::PushImmediate),
        at_op(s, s.ip + 3, OpCode::PushImmediate),
        at_op(s, s.ip + 6, OpCode::Equal),
        i16_at(s.code, s.ip + 1) == k,
        i16_at(s.code, s.ip + 4) == k,
        s.stack.len() + 2 <= s.max_stack,
    ensures
        step_spec(s, f1) matches Outcome::Next(s1, None) && (step_spec(s1, f2) matches Outcome::Next(
            s2,
            None,
        ) && (step_spec(s2, f3) matches Outcome::Next(s3, None) && s3.stack == s.stack.push(
            Value::Bool(true),
        ) && s3.ip == s.ip + 7)),
{
    let s1 = step_spec(s, f1)->Next_0;
    let s2 = step_spec(s1, f2)->Next_0;
    assert(s2.stack.subrange(0, s2.stack.len() - 2) =~= s.stack);
}

/// `Array 0` makes an empty array, and `ArrayPop` on it fails.
pub proof fn lemma_pop_empty_array(s: State, f1: FloatAnswer, f2: FloatAnswer)
    requires
        at_op(s, s.ip, OpCode::Array),
        at_op(s, s.ip + 2, OpCode::ArrayPop),
        heap_fits(s),
        s.code[s.ip + 1] == 0,
        s.stack.len() < s.max_stack,
    ensures
        step_spec(s, f1) matches Outcome::Next(s1, None) && s1.arrays.last().len() == 0 && (
        step_spec(s1, f2) == Outcome::Fault(VMError::CouldNotPopArray)),
{
    assert(operand(s.code, s.ip, OpCode::Array) == 0);
    assert(s.stack.subrange(s.stack.len() - 0, s.stack.len() as int) =~= Seq::<Value>::empty());
    let s1 = step_spec(s, f1)->Next_0;
    assert(s1.arrays.last() =~= Seq::<Value>::empty());
    assert(top(s1, 0) == Value::Array(s.arrays.len() as usize));
}

/// `ArrayGet` at the array's length fails; at one less it succeeds.
pub proof fn lemma_array_get_bounds(s: State, f: FloatAnswer, h: usize, i: i64)
    requires
        at_op(s, s.ip, OpCode::ArrayGet),
        s.stack.len() >= 2,
        s.stack.len() <= s.max_stack,
        top(s, 0) == Value::Int(i),
        top(s, 1) == Value::Array(h),
        h < s.arrays.len(),
        s.arrays[h as int].len() <= usize::MAX,
    ensures
        i == s.arrays[h as int].len() ==> step_spec(s, f) == Outcome::Fault(
            VMError::IndexOutsideRangeOfArray(i, s.arrays[h as int].len() as usize),
        ),
        i == s.arrays[h as int].len() - 1 >= 0 ==> (step_spec(s, f) matches Outcome::Next(t, None)
            && t.stack.last() == s.arrays[h as int][i as int]),
{
    if i == s.arrays[h as int].len() - 1 >= 0 {
        assert(array_slot(popped(s, 2), top(s, 1), top(s, 0)) == Ok::<(int, int), VMError>(
            (h as int, i as int),
        ));
    }
}

/// `DivInt` by a zero of either numeric kind fails with `DivisionByZero`.
pub proof fn lemma_div_int_by_zero(s: State, f: FloatAnswer)
    requires
        at_op(s, s.ip, OpCode::DivInt),
        s.stack.len() >= 2,
        (top(s, 1) is Int && top(s, 0) == Value::Int(0)) || (top(s, 1) is Float && top(s, 0) is Float
            && is_zero_bits(top(s, 0)->Float_0)),
    ensures
        step_spec(s, f) == Outcome::Fault(VMError::DivisionByZero),
{
}

/// A `Jump` lands one byte past its target, the `NoOp` that a label marks.
pub proof fn lemma_jump_lands(s: State, f: FloatAnswer)
    requires
        at_op(s, s.ip, OpCode::Jump),
        s.ip + 4 < s.code.len(),
        crate::vm::u32_at(s.code, s.ip + 1) < s.code.len(),
    ensures
        step_spec(s, f) matches Outcome::Next(t, None) && t.ip == crate::vm::u32_at(s.code, s.ip + 1)
            + 1 && t.stack == s.stack,
{
}

/// In a well-formed program (what both assemblers produce), a `Jump` lands
/// one byte past the `NoOp` that its operand names.
pub proof fn lemma_assembled_jump_lands(
    s: State,
    f: FloatAnswer,
    starts: Seq<int>,
    k: int,
    nfuncs: int,
    nconsts: int,
)
    requires
        well_formed(s.code, starts, nfuncs, nconsts),
        0 <= k < starts.len(),
        s.ip == starts[k],
        op_at(s.code, starts[k]) == OpCode::Jump,
    ensures
        lands_on_noop(s.code, crate::vm::u32_at(s.code, s.ip + 1)),
        step_spec(s, f) matches Outcome::Next(t, None) && t.ip == crate::vm::u32_at(s.code, s.ip + 1)
            + 1 && t.stack == s.stack,
{
    lemma_next_start_bound(s.code, starts, k);
    OpCode::lemma_decode_byte(OpCode::Jump);
    lemma_jump_lands(s, f);
}

} // verus!
