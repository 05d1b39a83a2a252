//! Building code: whole instructions appended one after another, jumps to
//! labels resolved once every label is known.
use crate::error::{AsmErr, AssemblerError};
use crate::opcode::OpCode;
use crate::vm::{u16_at, u32_at};
use vstd::prelude::*;

verus! {

/// The opcode whose byte stands at `at`.
pub open spec fn op_at(code: Seq<u8>, at: int) -> OpCode {
    OpCode::spec_decode(code[at])->Some_0
}

/// Where the instruction after the `k`-th begins (the end, after the last).
pub open spec fn next_start(code: Seq<u8>, starts: Seq<int>, k: int) -> int {
    if k + 1 < starts.len() {
        starts[k + 1]
    } else {
        code.len() as int
    }
}

/// The `k`-th instruction is an opcode followed by exactly its operand bytes.
pub open spec fn whole_instr(code: Seq<u8>, starts: Seq<int>, k: int) -> bool {
    &&& 0 <= starts[k] < code.len()
    &&& OpCode::spec_decode(code[starts[k]]) is Some
    &&& next_start(code, starts, k) == starts[k] + 1 + op_at(code, starts[k]).spec_width()
}

/// The code is a run of whole instructions, which begin at `starts`.
pub open spec fn layout(code: Seq<u8>, starts: Seq<int>) -> bool {
    &&& starts.len() == 0 ==> code.len() == 0
    &&& starts.len() > 0 ==> starts[0] == 0
    &&& forall|k: int| 0 <= k < starts.len() ==> #[trigger] whole_instr(code, starts, k)
    &&& forall|i: int, j: int| 0 <= i < j < starts.len() ==> starts[i] < starts[j]
}

/// Offset `t` holds a `NoOp`.
pub open spec fn lands_on_noop(code: Seq<u8>, t: int) -> bool {
    0 <= t < code.len() && code[t] == OpCode::NoOp.spec_byte()
}

/// The instructions whose operand indexes a table: a call (the function
/// table) and `PushConst` (the constant pool).
pub open spec fn is_indexed(op: OpCode) -> bool {
    op == OpCode::CallFunction || op == OpCode::PushConst
}

/// The size of the table that an indexed instruction indexes.
pub open spec fn table_size(op: OpCode, nfuncs: int, nconsts: int) -> int {
    if op == OpCode::CallFunction {
        nfuncs
    } else {
        nconsts
    }
}

/// Every jump targets a `NoOp`; every call names one of `nfuncs` functions,
/// and every `PushConst` one of `nconsts` constants.
pub open spec fn operands_ok(code: Seq<u8>, starts: Seq<int>, nfuncs: int, nconsts: int) -> bool {
    &&& forall|k: int|
        0 <= k < starts.len() && (#[trigger] op_at(code, starts[k])).is_jump() ==> lands_on_noop(
            code,
            u32_at(code, starts[k] + 1),
        )
    &&& forall|k: int|
        0 <= k < starts.len() && is_indexed(#[trigger] op_at(code, starts[k])) ==> u16_at(
            code,
            starts[k] + 1,
        ) < table_size(op_at(code, starts[k]), nfuncs, nconsts)
}

/// A well-formed program text: whole instructions, jumps onto `NoOp`s, calls
/// of functions and uses of constants that exist.
pub open spec fn well_formed(code: Seq<u8>, starts: Seq<int>, nfuncs: int, nconsts: int) -> bool {
    layout(code, starts) && operands_ok(code, starts, nfuncs, nconsts)
}

/// No instruction begins inside the `k`-th.
proof fn lemma_no_start_inside(code: Seq<u8>, starts: Seq<int>, k: int, j: int)
    requires
        layout(code, starts),
        0 <= k < starts.len(),
        0 <= j < starts.len(),
    ensures
        starts[j] <= starts[k] || starts[j] >= next_start(code, starts, k),
{
    if j > k + 1 {
        assert(starts[k + 1] < starts[j]);
    }
}

/// Every instruction ends within the code.
pub proof fn lemma_next_start_bound(code: Seq<u8>, starts: Seq<int>, k: int)
    requires
        layout(code, starts),
        0 <= k < starts.len(),
    ensures
        next_start(code, starts, k) <= code.len(),
        whole_instr(code, starts, k),
{
    if k + 1 < starts.len() {
        assert(whole_instr(code, starts, k + 1));
    }
}

/// Two different instructions do not overlap.
proof fn lemma_disjoint(code: Seq<u8>, starts: Seq<int>, k: int, j: int)
    requires
        layout(code, starts),
        0 <= k < starts.len(),
        0 <= j < starts.len(),
        j != k,
    ensures
        next_start(code, starts, j) <= starts[k] || starts[j] >= next_start(code, starts, k),
{
    if j < k {
        if j + 1 < k {
            assert(starts[j + 1] < starts[k]);
        }
    } else {
        if k + 1 < j {
            assert(starts[k + 1] < starts[j]);
        }
    }
}

fn copy_bytes(v: &Vec<u8>) -> (r: Vec<u8>)
    ensures
        r@ == v@,
{
    let mut r: Vec<u8> = Vec::with_capacity(v.len());
    let mut i: usize = 0;
    while i < v.len()
        invariant
            i <= v@.len(),
            r@ == v@.subrange(0, i as int),
        decreases v@.len() - i,
    {
        r.push(v[i]);
        i = i + 1;
    }
    assert(r@ =~= v@);
    r
}

/// Writes `t` little-endian over the four bytes at `p`.
fn patch(code: &mut Vec<u8>, p: usize, t: u32)
    requires
        p + 4 <= old(code).len(),
    ensures
        final(code)@.len() == old(code)@.len(),
        u32_at(final(code)@, p as int) == t,
        final(code)@ == patch_s(old(code)@, p as int, t as int),
        forall|q: int| 0 <= q < old(code)@.len() && (q < p || q >= p + 4) ==> #[trigger] final(code)@[q] == old(code)@[q],
{
    code.set(p, (t % 256) as u8);
    code.set(p + 1, (t / 256 % 256) as u8);
    code.set(p + 2, (t / 65536 % 256) as u8);
    code.set(p + 3, (t / 16777216 % 256) as u8);
}

/// Code under construction as the contracts see it: the bytes, each label's
/// name and offset, and each pending jump's operand offset and label name.
pub struct EmitSt {
    pub code: Seq<u8>,
    pub labels: Seq<(Seq<char>, int)>,
    pub fixups: Seq<(int, Seq<char>)>,
}

/// `v` little-endian in `w` bytes.
pub open spec fn le_bytes(v: int, w: nat) -> Seq<u8> {
    if w == 1 {
        seq![(v % 256) as u8]
    } else if w == 2 {
        seq![(v % 256) as u8, (v / 256 % 256) as u8]
    } else if w == 4 {
        seq![(v % 256) as u8, (v / 256 % 256) as u8, (v / 65536 % 256) as u8, (v / 16777216 % 256) as u8]
    } else {
        Seq::empty()
    }
}

/// The bytes of `op` with operand `v`.
pub open spec fn encode(op: OpCode, v: int) -> Seq<u8> {
    seq![op.spec_byte()] + le_bytes(v, op.spec_width() as nat)
}

/// Where the label `name` stands in the table, if it is there.
pub open spec fn find_in(labels: Seq<(Seq<char>, int)>, name: Seq<char>) -> Option<int> {
    if exists|i: int| 0 <= i < labels.len() && labels[i].0 == name {
        Some(choose|i: int| 0 <= i < labels.len() && labels[i].0 == name)
    } else {
        None
    }
}

/// A jump to `name`: to the label's offset where it is known, else to a
/// placeholder that waits in the fixups.
pub open spec fn jump_s(e: EmitSt, op: OpCode, name: Seq<char>) -> EmitSt {
    match find_in(e.labels, name) {
        Some(i) => EmitSt { code: e.code + encode(op, e.labels[i].1), ..e },
        None => EmitSt {
            code: e.code + encode(op, 0),
            fixups: e.fixups.push((e.code.len() as int + 1, name)),
            ..e
        },
    }
}

/// A label: a `NoOp`, whose offset the name now stands for.
pub open spec fn label_s(e: EmitSt, name: Seq<char>) -> EmitSt {
    EmitSt {
        code: e.code.push(OpCode::NoOp.spec_byte()),
        labels: match find_in(e.labels, name) {
            Some(i) => e.labels.update(i, (name, e.code.len() as int)),
            None => e.labels.push((name, e.code.len() as int)),
        },
        ..e
    }
}

/// `t` written little-endian over the four bytes at `at`.
pub open spec fn patch_s(code: Seq<u8>, at: int, t: int) -> Seq<u8> {
    code.update(at, (t % 256) as u8).update(at + 1, (t / 256 % 256) as u8).update(
        at + 2,
        (t / 65536 % 256) as u8,
    ).update(at + 3, (t / 16777216 % 256) as u8)
}

/// Resolving the fixups from the `i`-th on, in order: each is patched with
/// its label's offset; the first whose label is not defined fails.
pub open spec fn finish_s(
    code: Seq<u8>,
    labels: Seq<(Seq<char>, int)>,
    fixups: Seq<(int, Seq<char>)>,
    i: int,
) -> Result<Seq<u8>, AsmErr>
    decreases fixups.len() - i,
{
    if i >= fixups.len() || i < 0 {
        Ok(code)
    } else {
        match find_in(labels, fixups[i].1) {
            None => Err(AsmErr::InvalidJumpTarget(fixups[i].1)),
            Some(l) => finish_s(patch_s(code, fixups[i].0, labels[l].1), labels, fixups, i + 1),
        }
    }
}

/// Reading back a patched operand gives what was written.
pub proof fn lemma_patch_reads_back(code: Seq<u8>, at: int, t: int)
    requires
        0 <= at,
        at + 4 <= code.len(),
        0 <= t < 0x1_0000_0000,
    ensures
        u32_at(patch_s(code, at, t), at) == t,
        patch_s(code, at, t).len() == code.len(),
        forall|q: int| 0 <= q < code.len() && (q < at || q >= at + 4) ==> #[trigger] patch_s(code, at, t)[q] == code[q],
{
    let p = patch_s(code, at, t);
    assert(p[at] == (t % 256) as u8);
    assert(p[at + 1] == (t / 256 % 256) as u8);
    assert(p[at + 2] == (t / 65536 % 256) as u8);
    assert(p[at + 3] == (t / 16777216 % 256) as u8);
    assert((t % 256) + 256 * (t / 256 % 256) + 65536 * (t / 65536 % 256) + 16777216 * (t / 16777216 % 256) == t) by (nonlinear_arith)
        requires
            0 <= t < 0x1_0000_0000,
    ;
}

/// Resolving jumps gives every pending jump, from the `i`-th on, the offset
/// of the label it names, where the operands do not overlap.
pub proof fn lemma_finish_resolves(
    code: Seq<u8>,
    labels: Seq<(Seq<char>, int)>,
    fixups: Seq<(int, Seq<char>)>,
    i: int,
)
    requires
        0 <= i <= fixups.len(),
        forall|a: int| 0 <= a < fixups.len() ==> 0 <= #[trigger] fixups[a].0 && fixups[a].0 + 4 <= code.len(),
        forall|a: int, b: int|
            i <= a < fixups.len() && i <= b < fixups.len() && a != b ==> #[trigger] fixups[a].0 + 4
                <= #[trigger] fixups[b].0 || fixups[b].0 + 4 <= fixups[a].0,
        forall|l: int| 0 <= l < labels.len() ==> 0 <= #[trigger] labels[l].1 < 0x1_0000_0000,
        finish_s(code, labels, fixups, i) is Ok,
    ensures
        forall|a: int|
            i <= a < fixups.len() ==> (#[trigger] find_in(labels, fixups[a].1)) is Some && u32_at(
                finish_s(code, labels, fixups, i)->Ok_0,
                fixups[a].0,
            ) == labels[find_in(labels, fixups[a].1)->Some_0].1,
        finish_s(code, labels, fixups, i)->Ok_0.len() == code.len(),
        forall|q: int|
            0 <= q < code.len() && (forall|a: int|
                i <= a < fixups.len() ==> q < #[trigger] fixups[a].0 || q >= fixups[a].0 + 4)
                ==> #[trigger] finish_s(code, labels, fixups, i)->Ok_0[q] == code[q],
    decreases fixups.len() - i,
{
    if i < fixups.len() {
        let l = find_in(labels, fixups[i].1)->Some_0;
        let t = labels[l].1;
        let code2 = patch_s(code, fixups[i].0, t);
        lemma_patch_reads_back(code, fixups[i].0, t);
        lemma_finish_resolves(code2, labels, fixups, i + 1);
        let c = finish_s(code, labels, fixups, i)->Ok_0;
        assert(c == finish_s(code2, labels, fixups, i + 1)->Ok_0);
        assert forall|q: int|
            fixups[i].0 <= q < fixups[i].0 + 4 implies c[q] == code2[q] by {
            assert forall|a: int| i + 1 <= a < fixups.len() implies q < #[trigger] fixups[a].0 || q
                >= fixups[a].0 + 4 by {
                assert(fixups[i].0 + 4 <= fixups[a].0 || fixups[a].0 + 4 <= fixups[i].0);
            }
        }
        assert(u32_at(c, fixups[i].0) == u32_at(code2, fixups[i].0));
    }
}

/// The most code an emitter holds, so that every offset fits a jump operand.
pub const CODE_LIMIT: usize = 0xFFFF_FF00;

/// Code under construction.
pub struct Emitter {
    pub code: Vec<u8>,
    /// Label name and the offset of its `NoOp`.
    pub labels: Vec<(String, u32)>,
    /// Offset of a jump operand, and the label it waits for.
    pub fixups: Vec<(usize, String)>,
    /// Calls may name functions below this count.
    pub nfuncs: usize,
    /// `PushConst` may name constants below this count.
    pub nconsts: usize,
    pub starts: Ghost<Seq<int>>,
    /// The instruction index of each label's `NoOp`.
    pub label_at: Ghost<Seq<int>>,
    /// The instruction index of each fixup's jump.
    pub fixup_at: Ghost<Seq<int>>,
}

impl Emitter {
    pub open spec fn espec(&self) -> EmitSt {
        EmitSt {
            code: self.code@,
            labels: self.labels@.map_values(|l: (String, u32)| (l.0@, l.1 as int)),
            fixups: self.fixups@.map_values(|f: (usize, String)| (f.0 as int, f.1@)),
        }
    }

    pub open spec fn wf(&self) -> bool {
        let code = self.code@;
        let starts = self.starts@;
        &&& layout(code, starts)
        &&& forall|i: int, j: int|
            0 <= i < j < self.labels@.len() ==> (#[trigger] self.labels@[i]).0@ != (
            #[trigger] self.labels@[j]).0@
        &&& code.len() <= CODE_LIMIT
        &&& self.label_at@.len() == self.labels@.len()
        &&& forall|l: int|
            0 <= l < self.labels@.len() ==> 0 <= #[trigger] self.label_at@[l] < starts.len()
                && starts[self.label_at@[l]] == self.labels@[l].1 && op_at(
                code,
                starts[self.label_at@[l]],
            ) == OpCode::NoOp
        &&& self.fixup_at@.len() == self.fixups@.len()
        &&& forall|i: int|
            0 <= i < self.fixups@.len() ==> 0 <= #[trigger] self.fixup_at@[i] < starts.len()
                && op_at(code, starts[self.fixup_at@[i]]).is_jump() && self.fixups@[i].0
                == starts[self.fixup_at@[i]] + 1
        &&& forall|i: int, j: int|
            0 <= i < j < self.fixup_at@.len() ==> self.fixup_at@[i] < self.fixup_at@[j]
        &&& forall|i: int|
            0 <= i < self.fixups@.len() ==> u32_at(code, #[trigger] self.fixups@[i].0 as int) == 0
        &&& forall|k: int|
            0 <= k < starts.len() && (#[trigger] op_at(code, starts[k])).is_jump() ==> (
            lands_on_noop(code, u32_at(code, starts[k] + 1)) || self.fixup_at@.contains(k))
        &&& forall|k: int|
            0 <= k < starts.len() && is_indexed(#[trigger] op_at(code, starts[k])) ==> u16_at(
                code,
                starts[k] + 1,
            ) < table_size(op_at(code, starts[k]), self.nfuncs as int, self.nconsts as int)
    }

    /// What appending keeps: earlier instructions, labels and fixups as they were.
    pub open spec fn extends(&self, old: Emitter) -> bool {
        &&& self.code@.len() >= old.code@.len()
        &&& self.code@.subrange(0, old.code@.len() as int) == old.code@
        &&& self.starts@.len() >= old.starts@.len()
        &&& self.starts@.subrange(0, old.starts@.len() as int) == old.starts@
        &&& self.nfuncs == old.nfuncs
        &&& self.nconsts == old.nconsts
    }

    pub fn new(nfuncs: usize, nconsts: usize) -> (r: Emitter)
        ensures
            r.wf(),
            r.code@.len() == 0,
            r.labels@.len() == 0,
            r.fixups@.len() == 0,
            r.nfuncs == nfuncs,
            r.nconsts == nconsts,
    {
        Emitter {
            code: Vec::new(),
            labels: Vec::new(),
            fixups: Vec::new(),
            nfuncs,
            nconsts,
            starts: Ghost(Seq::empty()),
            label_at: Ghost(Seq::empty()),
            fixup_at: Ghost(Seq::empty()),
        }
    }

    /// Is there room for a few more instructions?
    pub fn has_room(&self) -> (r: bool)
        ensures
            r == (self.code@.len() + 16 <= CODE_LIMIT),
    {
        self.code.len() <= CODE_LIMIT - 16
    }

    /// Appends `op` with its operand, little-endian, of the opcode's width.
    fn append(&mut self, op: OpCode, operand: u32)
        requires
            layout(old(self).code@, old(self).starts@),
            old(self).code@.len() + 5 <= CODE_LIMIT,
            op.spec_width() == 1 ==> operand < 256,
            op.spec_width() == 2 ==> operand < 65536,
        ensures
            layout(final(self).code@, final(self).starts@),
            final(self).extends(*old(self)),
            final(self).starts@ == old(self).starts@.push(old(self).code@.len() as int),
            final(self).code@.len() == old(self).code@.len() + 1 + op.spec_width(),
            op_at(final(self).code@, old(self).code@.len() as int) == op,
            final(self).code@ == old(self).code@ + encode(op, operand as int),
            op.spec_width() == 0 ==> final(self).code@ == old(self).code@.push(op.spec_byte()),
            op.spec_width() == 1 ==> final(self).code@[old(self).code@.len() as int + 1] == operand,
            op.spec_width() == 2 ==> u16_at(final(self).code@, old(self).code@.len() as int + 1) == operand,
            op.spec_width() == 4 ==> u32_at(final(self).code@, old(self).code@.len() as int + 1) == operand,
            forall|i: int| 0 <= i < old(self).code@.len() ==> final(self).code@[i] == old(self).code@[i],
            forall|k: int| 0 <= k < old(self).starts@.len() ==> final(self).starts@[k] == old(self).starts@[k],
            forall|k: int|
                0 <= k < old(self).starts@.len() ==> op_at(final(self).code@, #[trigger] old(self).starts@[k]) == op_at(
                    old(self).code@,
                    old(self).starts@[k],
                ) && u32_at(final(self).code@, old(self).starts@[k] + 1) == (if op_at(old(self).code@, old(self).starts@[k]).spec_width() == 4 {
                    u32_at(old(self).code@, old(self).starts@[k] + 1)
                } else {
                    u32_at(final(self).code@, old(self).starts@[k] + 1)
                }) && u16_at(final(self).code@, old(self).starts@[k] + 1) == (if op_at(old(self).code@, old(self).starts@[k]).spec_width() >= 2 {
                    u16_at(old(self).code@, old(self).starts@[k] + 1)
                } else {
                    u16_at(final(self).code@, old(self).starts@[k] + 1)
                }),
            forall|t: int| lands_on_noop(old(self).code@, t) ==> #[trigger] lands_on_noop(final(self).code@, t),
            final(self).labels@ == old(self).labels@,
            final(self).label_at@ == old(self).label_at@,
            final(self).fixups@ == old(self).fixups@,
            final(self).fixup_at@ == old(self).fixup_at@,
    {
        let ghost old_code = self.code@;
        let at = self.code.len();
        self.code.push(op.to_byte());
        let w = op.width();
        if w == 1 {
            self.code.push(operand as u8);
        } else if w == 2 {
            self.code.push((operand % 256) as u8);
            self.code.push((operand / 256 % 256) as u8);
        } else if w == 4 {
            self.code.push((operand % 256) as u8);
            self.code.push((operand / 256 % 256) as u8);
            self.code.push((operand / 65536 % 256) as u8);
            self.code.push((operand / 16777216 % 256) as u8);
        }
        assert(self.code@ =~= old_code + encode(op, operand as int));
        let ghost old_starts = self.starts@;
        self.starts = Ghost(self.starts@.push(at as int));
        proof {
            OpCode::lemma_decode_byte(op);
            assert(self.code@.subrange(0, old_code.len() as int) =~= old_code);
            assert(self.starts@.subrange(0, old_starts.len() as int) =~= old_starts);
            self.lemma_appended(old_code, old_starts);
        }
    }

    /// After `append` from `old`, the old parts of the well-formedness still hold.
    proof fn lemma_wf_after_append(&self, old: Emitter)
        requires
            old.wf(),
            layout(self.code@, self.starts@),
            self.code@.len() <= CODE_LIMIT,
            self.nfuncs == old.nfuncs,
            self.starts@.len() == old.starts@.len() + 1,
            forall|k: int| 0 <= k < old.starts@.len() ==> self.starts@[k] == old.starts@[k],
            forall|k: int|
                0 <= k < old.starts@.len() ==> op_at(self.code@, #[trigger] old.starts@[k]) == op_at(
                    old.code@,
                    old.starts@[k],
                ) && u32_at(self.code@, old.starts@[k] + 1) == (if op_at(old.code@, old.starts@[k]).spec_width() == 4 {
                    u32_at(old.code@, old.starts@[k] + 1)
                } else {
                    u32_at(self.code@, old.starts@[k] + 1)
                }) && u16_at(self.code@, old.starts@[k] + 1) == (if op_at(old.code@, old.starts@[k]).spec_width() >= 2 {
                    u16_at(old.code@, old.starts@[k] + 1)
                } else {
                    u16_at(self.code@, old.starts@[k] + 1)
                }),
            forall|t: int| lands_on_noop(old.code@, t) ==> #[trigger] lands_on_noop(self.code@, t),
            self.labels@ == old.labels@,
            self.label_at@ == old.label_at@,
            self.fixups@.len() == self.fixup_at@.len(),
            self.fixups@.len() >= old.fixups@.len(),
            self.fixups@.subrange(0, old.fixups@.len() as int) == old.fixups@,
            self.fixup_at@.subrange(0, old.fixup_at@.len() as int) == old.fixup_at@,
            forall|i: int|
                old.fixups@.len() <= i < self.fixups@.len() ==> 0 <= #[trigger] self.fixup_at@[i]
                    < self.starts@.len() && op_at(self.code@, self.starts@[self.fixup_at@[i]]).is_jump()
                    && self.fixups@[i].0 == self.starts@[self.fixup_at@[i]] + 1 && u32_at(
                    self.code@,
                    self.fixups@[i].0 as int,
                ) == 0 && self.fixup_at@[i] >= old.starts@.len(),
            self.fixups@.len() <= old.fixups@.len() + 1,
            // the new instruction's own obligations
            op_at(self.code@, self.starts@.last()).is_jump() ==> lands_on_noop(
                self.code@,
                u32_at(self.code@, self.starts@.last() + 1),
            ) || self.fixup_at@.contains(self.starts@.len() - 1),
            is_indexed(op_at(self.code@, self.starts@.last())) ==> u16_at(
                self.code@,
                self.starts@.last() + 1,
            ) < table_size(op_at(self.code@, self.starts@.last()), self.nfuncs as int, self.nconsts as int),
            self.nconsts == old.nconsts,
        ensures
            self.wf(),
    {
        let code = self.code@;
        let starts = self.starts@;
        let old_code = old.code@;
        let old_starts = old.starts@;
        assert forall|l: int| 0 <= l < self.labels@.len() implies 0 <= #[trigger] self.label_at@[l] < starts.len()
            && starts[self.label_at@[l]] == self.labels@[l].1 && op_at(code, starts[self.label_at@[l]])
            == OpCode::NoOp by {
            assert(old_starts[self.label_at@[l]] == starts[self.label_at@[l]]);
        }
        assert forall|i: int| 0 <= i < self.fixups@.len() implies 0 <= #[trigger] self.fixup_at@[i]
            < starts.len() && op_at(code, starts[self.fixup_at@[i]]).is_jump() && self.fixups@[i].0
            == starts[self.fixup_at@[i]] + 1 by {
            if i < old.fixups@.len() {
                assert(self.fixup_at@.subrange(0, old.fixup_at@.len() as int)[i] == self.fixup_at@[i]);
                assert(self.fixups@.subrange(0, old.fixups@.len() as int)[i] == self.fixups@[i]);
                assert(old_starts[self.fixup_at@[i]] == starts[self.fixup_at@[i]]);
            }
        }
        assert forall|i: int, j: int| 0 <= i < j < self.fixup_at@.len() implies self.fixup_at@[i]
            < self.fixup_at@[j] by {
            assert(self.fixup_at@.subrange(0, old.fixup_at@.len() as int)[i] == self.fixup_at@[i]);
            if j < old.fixup_at@.len() {
                assert(self.fixup_at@.subrange(0, old.fixup_at@.len() as int)[j] == self.fixup_at@[j]);
            }
        }
        assert forall|i: int| 0 <= i < self.fixups@.len() implies u32_at(
            code,
            #[trigger] self.fixups@[i].0 as int,
        ) == 0 by {
            if i < old.fixups@.len() {
                assert(self.fixup_at@.subrange(0, old.fixup_at@.len() as int)[i] == self.fixup_at@[i]);
                assert(self.fixups@.subrange(0, old.fixups@.len() as int)[i] == self.fixups@[i]);
                let k = old.fixup_at@[i];
                assert(op_at(old_code, old_starts[k]).is_jump());
                assert(old_starts[k] == starts[k]);
            }
        }
        assert forall|k: int| 0 <= k < starts.len() && (#[trigger] op_at(code, starts[k])).is_jump()
            implies lands_on_noop(code, u32_at(code, starts[k] + 1)) || self.fixup_at@.contains(k) by {
            if k < old_starts.len() {
                if old.fixup_at@.contains(k) {
                    let i = choose|i: int| 0 <= i < old.fixup_at@.len() && old.fixup_at@[i] == k;
                    assert(self.fixup_at@.subrange(0, old.fixup_at@.len() as int)[i] == self.fixup_at@[i]);
                }
                assert(old_starts[k] == starts[k]);
                assert(op_at(old_code, old_starts[k]).is_jump());
                if lands_on_noop(old_code, u32_at(old_code, old_starts[k] + 1)) {
                    assert(lands_on_noop(code, u32_at(old_code, old_starts[k] + 1)));
                }
            }
        }
        assert forall|k: int| 0 <= k < starts.len() && is_indexed(#[trigger] op_at(code, starts[k]))
            implies u16_at(code, starts[k] + 1) < table_size(op_at(code, starts[k]), self.nfuncs as int, self.nconsts as int) by {
            if k < old_starts.len() {
                assert(old_starts[k] == starts[k]);
                assert(is_indexed(op_at(old_code, old_starts[k])));
            }
        }
    }

    /// Appends `op` with its operand; a jump's operand is a `NoOp` already emitted.
    pub fn emit(&mut self, op: OpCode, operand: u32)
        requires
            old(self).wf(),
            old(self).code@.len() + 5 <= CODE_LIMIT,
            op.is_jump() ==> lands_on_noop(old(self).code@, operand as int),
            op.spec_width() == 1 ==> operand < 256,
            op.spec_width() == 2 ==> operand < 65536,
            op == OpCode::CallFunction ==> operand < old(self).nfuncs,
            op == OpCode::PushConst ==> operand < old(self).nconsts,
        ensures
            final(self).wf(),
            final(self).extends(*old(self)),
            final(self).starts@ == old(self).starts@.push(old(self).code@.len() as int),
            final(self).code@.len() == old(self).code@.len() + 1 + op.spec_width(),
            op_at(final(self).code@, old(self).code@.len() as int) == op,
            final(self).code@ == old(self).code@ + encode(op, operand as int),
            op.spec_width() == 0 ==> final(self).code@ == old(self).code@.push(op.spec_byte()),
            final(self).labels@ == old(self).labels@,
            final(self).label_at@ == old(self).label_at@,
            final(self).fixups@ == old(self).fixups@,
            forall|t: int| lands_on_noop(old(self).code@, t) ==> #[trigger] lands_on_noop(final(self).code@, t),
    {
        let ghost old_self = *self;
        self.append(op, operand);
        proof {
            assert(self.fixups@.subrange(0, old_self.fixups@.len() as int) =~= old_self.fixups@);
            assert(self.fixup_at@.subrange(0, old_self.fixup_at@.len() as int) =~= old_self.fixup_at@);
            self.lemma_wf_after_append(old_self);
        }
    }

    /// The index of the label named `name`.
    pub fn find_label(&self, name: &String) -> (r: Option<usize>)
        requires
            self.wf(),
        ensures
            match r {
                Some(i) => find_in(self.espec().labels, name@) == Some(i as int),
                None => find_in(self.espec().labels, name@) is None,
            },
            match r {
                Some(i) => i < self.labels@.len() && self.labels@[i as int].0@ == name@,
                None => forall|i: int| 0 <= i < self.labels@.len() ==> self.labels@[i].0@ != name@,
            },
    {
        let mut i: usize = 0;
        while i < self.labels.len()
            invariant
                self.wf(),
                i <= self.labels@.len(),
                forall|j: int| 0 <= j < i ==> self.labels@[j].0@ != name@,
            decreases self.labels@.len() - i,
        {
            if self.labels[i].0.eq(name) {
                proof {
                    let ls = self.espec().labels;
                    assert(ls[i as int].0 == name@);
                    let c = choose|c: int| 0 <= c < ls.len() && ls[c].0 == name@;
                    if c != i {
                        if c < i {
                            assert(self.labels@[c].0@ != self.labels@[i as int].0@);
                        } else {
                            assert(self.labels@[i as int].0@ != self.labels@[c].0@);
                        }
                    }
                }
                return Some(i);
            }
            i = i + 1;
        }
        proof {
            let ls = self.espec().labels;
            if exists|c: int| 0 <= c < ls.len() && ls[c].0 == name@ {
                let c = choose|c: int| 0 <= c < ls.len() && ls[c].0 == name@;
                assert(self.labels@[c].0@ == name@);
            }
        }
        None
    }

    /// Appends a jump to `label`: resolved now where the label is known,
    /// else left for [`Emitter::finish`].
    pub fn emit_jump(&mut self, op: OpCode, label: String)
        requires
            old(self).wf(),
            old(self).code@.len() + 5 <= CODE_LIMIT,
            op.is_jump(),
        ensures
            final(self).wf(),
            final(self).extends(*old(self)),
            final(self).starts@ == old(self).starts@.push(old(self).code@.len() as int),
            final(self).code@.len() == old(self).code@.len() + 5,
            op_at(final(self).code@, old(self).code@.len() as int) == op,
            final(self).labels@ == old(self).labels@,
            final(self).label_at@ == old(self).label_at@,
            forall|t: int| lands_on_noop(old(self).code@, t) ==> #[trigger] lands_on_noop(final(self).code@, t),
            final(self).espec() == jump_s(old(self).espec(), op, label@),
    {
        let ghost e0 = self.espec();
        match self.find_label(&label) {
            Some(i) => {
                let t = self.labels[i].1;
                proof {
                    assert(op_at(self.code@, self.starts@[self.label_at@[i as int]]) == OpCode::NoOp);
                    let k = self.label_at@[i as int];
                    assert(whole_instr(self.code@, self.starts@, k));
                }
                self.emit(op, t);
                assert(self.espec().labels =~= e0.labels);
                assert(self.espec().fixups =~= e0.fixups);
            },
            None => {
                let ghost old_self = *self;
                let at = self.code.len();
                self.append(op, 0);
                self.fixups.push((at + 1, label));
                self.fixup_at = Ghost(self.fixup_at@.push(old_self.starts@.len() as int));
                proof {
                    assert(self.fixups@.subrange(0, old_self.fixups@.len() as int) =~= old_self.fixups@);
                    assert(self.fixup_at@.subrange(0, old_self.fixup_at@.len() as int) =~= old_self.fixup_at@);
                    assert(self.fixup_at@[self.fixup_at@.len() - 1] == self.starts@.len() - 1);
                    self.lemma_wf_after_append(old_self);
                    assert(self.espec().labels =~= e0.labels);
                    assert(self.espec().fixups =~= e0.fixups.push((e0.code.len() as int + 1, label@)));
                }
            },
        }
    }

    /// Appends a `NoOp` and hands back its offset.
    pub fn mark(&mut self) -> (r: usize)
        requires
            old(self).wf(),
            old(self).code@.len() + 5 <= CODE_LIMIT,
        ensures
            final(self).wf(),
            final(self).extends(*old(self)),
            r == old(self).code@.len(),
            final(self).code@.len() == r + 1,
            final(self).code@ == old(self).code@.push(OpCode::NoOp.spec_byte()),
            final(self).fixups@ == old(self).fixups@,
            final(self).espec() == (EmitSt { code: old(self).code@.push(OpCode::NoOp.spec_byte()), ..old(self).espec() }),
            final(self).starts@ == old(self).starts@.push(r as int),
            lands_on_noop(final(self).code@, r as int),
            final(self).labels@ == old(self).labels@,
            final(self).label_at@ == old(self).label_at@,
            forall|t: int| lands_on_noop(old(self).code@, t) ==> #[trigger] lands_on_noop(final(self).code@, t),
    {
        let at = self.code.len();
        let ghost before = self.code@;
        self.emit(OpCode::NoOp, 0);
        proof {
            OpCode::lemma_decode_byte(OpCode::NoOp);
            assert(whole_instr(self.code@, self.starts@, self.starts@.len() - 1));
            OpCode::lemma_byte_of_decode(self.code@[at as int]);
            assert(self.code@ =~= before.push(OpCode::NoOp.spec_byte())) by {
                assert(self.code@.subrange(0, at as int) == before);
                assert forall|q: int| 0 <= q < at implies self.code@[q] == before[q] by {
                    assert(self.code@.subrange(0, at as int)[q] == self.code@[q]);
                }
            }
        }
        at
    }

    /// Appends a `NoOp` and names its offset `name`; a name given before now
    /// names the new offset.
    pub fn define_label(&mut self, name: String)
        requires
            old(self).wf(),
            old(self).code@.len() + 5 <= CODE_LIMIT,
        ensures
            final(self).wf(),
            final(self).extends(*old(self)),
            final(self).code@.len() == old(self).code@.len() + 1,
            forall|t: int| lands_on_noop(old(self).code@, t) ==> #[trigger] lands_on_noop(final(self).code@, t),
            final(self).espec() == label_s(old(self).espec(), name@),
    {
        let ghost e0 = self.espec();
        let at = self.mark();
        let ghost k = self.starts@.len() - 1;
        proof {
            assert(whole_instr(self.code@, self.starts@, k));
        }
        match self.find_label(&name) {
            Some(i) => {
                let ghost nm = name@;
                self.labels.set(i, (name, at as u32));
                self.label_at = Ghost(self.label_at@.update(i as int, k));
                assert(self.espec().labels =~= e0.labels.update(i as int, (nm, at as int)));
            },
            None => {
                let ghost nm = name@;
                self.labels.push((name, at as u32));
                self.label_at = Ghost(self.label_at@.push(k));
                assert(self.espec().labels =~= e0.labels.push((nm, at as int)));
            },
        }
    }

    /// Lets `PushConst` name constants below `n`.
    pub fn set_const_count(&mut self, n: usize)
        requires
            old(self).wf(),
            n >= old(self).nconsts,
        ensures
            final(self).wf(),
            final(self).nconsts == n,
            final(self).nfuncs == old(self).nfuncs,
            final(self).espec() == old(self).espec(),
            final(self).code@ == old(self).code@,
            final(self).starts@ == old(self).starts@,
    {
        self.nconsts = n;
    }

    /// Lets calls name functions below `n`.
    pub fn set_function_count(&mut self, n: usize)
        requires
            old(self).wf(),
            n >= old(self).nfuncs,
        ensures
            final(self).wf(),
            final(self).nfuncs == n,
            final(self).nconsts == old(self).nconsts,
            final(self).espec() == old(self).espec(),
            final(self).code@ == old(self).code@,
            final(self).starts@ == old(self).starts@,
    {
        self.nfuncs = n;
    }

    /// Resolves every jump still waiting for its label. Fails with
    /// `InvalidJumpTarget` exactly when some such label was never defined.
    pub fn finish(self) -> (r: Result<(Vec<u8>, Ghost<Seq<int>>), AssemblerError>)
        requires
            self.wf(),
        ensures
            match finish_s(self.code@, self.espec().labels, self.espec().fixups, 0) {
                Ok(c) => r matches Ok((code, _)) && code@ == c,
                Err(e) => r matches Err(x) && x.model() == e,
            },
            (forall|i: int| 0 <= i < self.fixups@.len() ==> #[trigger] self.has_label(self.fixups@[i].1@))
                <==> r is Ok,
            match r {
                Ok((code, starts)) => {
                    &&& self.fixups@.len() == 0 ==> code@ == self.code@
                    &&& well_formed(code@, starts@, self.nfuncs as int, self.nconsts as int)
                    &&& starts@ == self.starts@
                    &&& code@.len() == self.code@.len()
                    &&& forall|t: int| lands_on_noop(self.code@, t) ==> #[trigger] lands_on_noop(code@, t)
                },
                Err(e) => exists|i: int|
                    0 <= i < self.fixups@.len() && !#[trigger] self.has_label(self.fixups@[i].1@) && e
                        is InvalidJumpTarget && e->InvalidJumpTarget_0@ == self.fixups@[i].1@,
            },
    {
        let ghost code0 = self.code@;
        let ghost starts = self.starts@;
        let ghost fixup_at = self.fixup_at@;
        let mut code = copy_bytes(&self.code);
        let n = self.fixups.len();
        let mut i: usize = 0;
        while i < n
            invariant
                self.wf(),
                code0 == self.code@,
                starts == self.starts@,
                fixup_at == self.fixup_at@,
                n == self.fixups@.len(),
                i <= n,
                code@.len() == code0.len(),
                i == 0 ==> code@ == code0,
                finish_s(code0, self.espec().labels, self.espec().fixups, 0) == finish_s(
                    code@,
                    self.espec().labels,
                    self.espec().fixups,
                    i as int,
                ),
                forall|j: int| 0 <= j < i ==> #[trigger] self.has_label(self.fixups@[j].1@),
                forall|k: int| 0 <= k < starts.len() ==> code@[#[trigger] starts[k]] == code0[starts[k]],
                forall|t: int| lands_on_noop(code0, t) ==> #[trigger] lands_on_noop(code@, t),
                forall|k: int|
                    0 <= k < starts.len() && is_indexed(#[trigger] op_at(code0, starts[k]))
                        ==> u16_at(code@, starts[k] + 1) == u16_at(code0, starts[k] + 1),
                forall|j: int| i <= j < n ==> u32_at(code@, #[trigger] self.fixups@[j].0 as int) == 0,
                forall|k: int|
                    0 <= k < starts.len() && (#[trigger] op_at(code0, starts[k])).is_jump() ==> (
                    lands_on_noop(code@, u32_at(code@, starts[k] + 1)) || exists|j: int|
                        i <= j < n && fixup_at[j] == k),
            decreases n - i,
        {
            let l = match self.find_label(&self.fixups[i].1) {
                Some(l) => l,
                None => {
                    proof {
                        assert(!self.has_label(self.fixups@[i as int].1@));
                        assert(self.espec().fixups[i as int].1 == self.fixups@[i as int].1@);
                    }
                    return Err(AssemblerError::InvalidJumpTarget(self.fixups[i].1.clone()));
                },
            };
            let p = self.fixups[i].0;
            let t = self.labels[l].1;
            let ghost k = fixup_at[i as int];
            let ghost old_code = code@;
            proof {
                assert(whole_instr(code0, starts, k));
                if k + 1 < starts.len() {
                    assert(whole_instr(code0, starts, k + 1));
                }
                assert(whole_instr(code0, starts, self.label_at@[l as int]));
            }
            proof {
                assert(self.espec().fixups[i as int] == (p as int, self.fixups@[i as int].1@));
                assert(self.espec().labels[l as int].1 == t as int);
            }
            patch(&mut code, p, t);
            proof {
                assert(self.has_label(self.fixups@[i as int].1@));
                assert forall|k2: int| 0 <= k2 < starts.len() implies code@[#[trigger] starts[k2]] == code0[starts[k2]] by {
                    lemma_no_start_inside(code0, starts, k, k2);
                    assert(whole_instr(code0, starts, k2));
                    assert(old_code[starts[k2]] == code0[starts[k2]]);
                }
                assert forall|t2: int| lands_on_noop(code0, t2) implies #[trigger] lands_on_noop(code@, t2) by {
                    assert(lands_on_noop(old_code, t2));
                }
                assert forall|k2: int|
                    0 <= k2 < starts.len() && is_indexed(#[trigger] op_at(code0, starts[k2]))
                        implies u16_at(code@, starts[k2] + 1) == u16_at(code0, starts[k2] + 1) by {
                    lemma_disjoint(code0, starts, k, k2);
                    lemma_next_start_bound(code0, starts, k2);
                    lemma_next_start_bound(code0, starts, k);
                }
                assert forall|j: int| i + 1 <= j < n implies u32_at(code@, #[trigger] self.fixups@[j].0 as int) == 0 by {
                    assert(fixup_at[i as int] < fixup_at[j]);
                    lemma_disjoint(code0, starts, k, fixup_at[j]);
                    lemma_next_start_bound(code0, starts, fixup_at[j]);
                    lemma_next_start_bound(code0, starts, k);
                    assert(u32_at(old_code, self.fixups@[j].0 as int) == 0);
                }
                assert forall|k2: int|
                    0 <= k2 < starts.len() && (#[trigger] op_at(code0, starts[k2])).is_jump() implies (
                    lands_on_noop(code@, u32_at(code@, starts[k2] + 1)) || exists|j: int|
                        i + 1 <= j < n && fixup_at[j] == k2) by {
                    if k2 == k {
                        assert(lands_on_noop(code@, t as int));
                    } else {
                        lemma_disjoint(code0, starts, k, k2);
                        lemma_next_start_bound(code0, starts, k2);
                        lemma_next_start_bound(code0, starts, k);
                        assert(u32_at(code@, starts[k2] + 1) == u32_at(old_code, starts[k2] + 1));
                        if lands_on_noop(old_code, u32_at(old_code, starts[k2] + 1)) {
                        } else {
                            let j = choose|j: int| i <= j < n && fixup_at[j] == k2;
                            assert(j != i);
                        }
                    }
                }
            }
            i = i + 1;
        }
        proof {
            assert forall|k: int| 0 <= k < starts.len() implies #[trigger] whole_instr(code@, starts, k) by {
                assert(whole_instr(code0, starts, k));
                if k + 1 < starts.len() {
                    assert(code@[starts[k]] == code0[starts[k]]);
                }
            }
            assert forall|k: int|
                0 <= k < starts.len() && (#[trigger] op_at(code@, starts[k])).is_jump() implies lands_on_noop(
                code@,
                u32_at(code@, starts[k] + 1),
            ) by {
                assert(code@[starts[k]] == code0[starts[k]]);
                assert(op_at(code0, starts[k]).is_jump());
            }
            assert forall|k: int|
                0 <= k < starts.len() && is_indexed(#[trigger] op_at(code@, starts[k])) implies u16_at(
                code@,
                starts[k] + 1,
            ) < table_size(op_at(code@, starts[k]), self.nfuncs as int, self.nconsts as int) by {
                assert(code@[starts[k]] == code0[starts[k]]);
                assert(is_indexed(op_at(code0, starts[k])));
            }
        }
        Ok((code, Ghost(starts)))
    }

    /// Some label is named `name`.
    pub open spec fn has_label(&self, name: Seq<char>) -> bool {
        exists|l: int| 0 <= l < self.labels@.len() && self.labels@[l].0@ == name
    }

    /// After whole instructions were appended to `old_code` (whose layout was
    /// `old_starts`), what held of the old instructions still holds.
    proof fn lemma_appended(&self, old_code: Seq<u8>, old_starts: Seq<int>)
        requires
            layout(old_code, old_starts),
            self.code@.len() >= old_code.len(),
            self.code@.subrange(0, old_code.len() as int) == old_code,
            self.starts@.len() == old_starts.len() + 1,
            self.starts@.subrange(0, old_starts.len() as int) == old_starts,
            self.starts@.last() == old_code.len(),
            OpCode::spec_decode(self.code@[old_code.len() as int]) is Some,
            self.code@.len() == old_code.len() + 1 + op_at(self.code@, old_code.len() as int).spec_width(),
        ensures
            layout(self.code@, self.starts@),
            forall|i: int| 0 <= i < old_code.len() ==> self.code@[i] == old_code[i],
            forall|k: int| 0 <= k < old_starts.len() ==> self.starts@[k] == old_starts[k],
            forall|k: int|
                0 <= k < old_starts.len() ==> op_at(self.code@, #[trigger] old_starts[k]) == op_at(
                    old_code,
                    old_starts[k],
                ) && u32_at(self.code@, old_starts[k] + 1) == (if op_at(old_code, old_starts[k]).spec_width() == 4 {
                    u32_at(old_code, old_starts[k] + 1)
                } else {
                    u32_at(self.code@, old_starts[k] + 1)
                }) && u16_at(self.code@, old_starts[k] + 1) == (if op_at(old_code, old_starts[k]).spec_width() >= 2 {
                    u16_at(old_code, old_starts[k] + 1)
                } else {
                    u16_at(self.code@, old_starts[k] + 1)
                }),
            forall|t: int| lands_on_noop(old_code, t) ==> #[trigger] lands_on_noop(self.code@, t),
    {
        let code = self.code@;
        let starts = self.starts@;
        assert forall|i: int| 0 <= i < old_code.len() implies code[i] == old_code[i] by {
            assert(code.subrange(0, old_code.len() as int)[i] == code[i]);
        }
        assert forall|k: int| 0 <= k < old_starts.len() implies starts[k] == old_starts[k] by {
            assert(starts.subrange(0, old_starts.len() as int)[k] == starts[k]);
        }
        assert forall|k: int| 0 <= k < starts.len() implies #[trigger] whole_instr(code, starts, k) by {
            if k < old_starts.len() {
                assert(whole_instr(old_code, old_starts, k));
                if k + 1 < old_starts.len() {
                    assert(starts[k + 1] == old_starts[k + 1]);
                }
            }
        }
        assert forall|i: int, j: int| 0 <= i < j < starts.len() implies starts[i] < starts[j] by {
            if j >= old_starts.len() {
                assert(whole_instr(old_code, old_starts, i));
            }
        }
        assert forall|k: int| 0 <= k < old_starts.len() implies op_at(code, #[trigger] old_starts[k]) == op_at(
            old_code,
            old_starts[k],
        ) && u32_at(code, old_starts[k] + 1) == (if op_at(old_code, old_starts[k]).spec_width() == 4 {
            u32_at(old_code, old_starts[k] + 1)
        } else {
            u32_at(code, old_starts[k] + 1)
        }) && u16_at(code, old_starts[k] + 1) == (if op_at(old_code, old_starts[k]).spec_width() >= 2 {
            u16_at(old_code, old_starts[k] + 1)
        } else {
            u16_at(code, old_starts[k] + 1)
        }) by {
            assert(whole_instr(old_code, old_starts, k));
        }
    }
}

} // verus!
