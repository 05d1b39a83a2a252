use crate::error::VMError;
use crate::value::Value;
use vstd::prelude::*;

verus! {

/// A call record: where to resume, where the callee's locals begin on the
/// value stack, and how many locals it has.
#[derive(Debug, Copy, Clone, PartialEq, Eq, Structural)]
pub struct Frame {
    pub return_address: usize,
    pub base_pointer: usize,
    pub locals: usize,
}

/// The operand stack, bounded by a configured maximum height, with the stack
/// of call frames beside it.
#[derive(Debug)]
pub struct Stack {
    values: Vec<Value>,
    frames: Vec<Frame>,
    max_size: usize,
}

/// `n` copies of `Null`.
pub open spec fn nulls(n: nat) -> Seq<Value> {
    Seq::new(n, |i: int| Value::Null)
}

impl View for Stack {
    type V = Seq<Value>;

    /// The values on the stack, bottom first.
    closed spec fn view(&self) -> Seq<Value> {
        self.values@
    }
}

impl Stack {
    /// The frames, outermost first.
    pub closed spec fn frames(&self) -> Seq<Frame> {
        self.frames@
    }

    /// The height the stack may not exceed.
    pub closed spec fn max_size(&self) -> nat {
        self.max_size as nat
    }

    /// The height never exceeds the configured maximum.
    pub open spec fn wf(&self) -> bool {
        self@.len() <= self.max_size()
    }

    /// The local slot `i` of the innermost frame, as a stack position.
    pub open spec fn local_slot(&self, i: int) -> int {
        self.frames().last().base_pointer + i
    }

    /// What reading local `i` of the innermost frame gives.
    pub open spec fn spec_peek_local(&self, i: int) -> Result<Value, VMError> {
        if self.frames().len() == 0 {
            Err(VMError::NotInFrame)
        } else if i >= self.frames().last().locals || self.local_slot(i) >= self@.len() {
            Err(VMError::InvalidLocalIndex(i as u16))
        } else {
            Ok(self@[self.local_slot(i)])
        }
    }

    pub fn new(init_capacity: usize, max_size: usize) -> (r: Stack)
        ensures
            r@ == Seq::<Value>::empty(),
            r.frames() == Seq::<Frame>::empty(),
            r.max_size() == max_size,
            r.wf(),
    {
        Stack { values: Vec::with_capacity(init_capacity), frames: Vec::new(), max_size }
    }

    pub fn len(&self) -> (r: usize)
        ensures
            r == self@.len(),
    {
        self.values.len()
    }

    pub fn frame_count(&self) -> (r: usize)
        ensures
            r == self.frames().len(),
    {
        self.frames.len()
    }

    /// The value at position `i`, counted from the bottom.
    pub fn peek(&self, i: usize) -> (r: Value)
        requires
            i < self@.len(),
        ensures
            r == self@[i as int],
    {
        self.values[i].copy()
    }

    /// Pushes `val`, or fails with `StackOverflow` at the maximum height.
    pub fn push(&mut self, val: Value) -> (r: Result<(), VMError>)
        requires
            old(self).wf(),
        ensures
            final(self).wf(),
            final(self).frames() == old(self).frames(),
            final(self).max_size() == old(self).max_size(),
            old(self)@.len() < old(self).max_size() ==> r is Ok && final(self)@ == old(self)@.push(val),
            old(self)@.len() >= old(self).max_size() ==> r == Err::<(), VMError>(
                VMError::StackOverflow,
            ) && final(self)@ == old(self)@,
    {
        if self.values.len() < self.max_size {
            self.values.push(val);
            Ok(())
        } else {
            Err(VMError::StackOverflow)
        }
    }

    /// Pops the top value, or fails with `StackUnderflow` on an empty stack.
    pub fn pop(&mut self) -> (r: Result<Value, VMError>)
        requires
            old(self).wf(),
        ensures
            final(self).wf(),
            final(self).frames() == old(self).frames(),
            final(self).max_size() == old(self).max_size(),
            old(self)@.len() > 0 ==> r == Ok::<Value, VMError>(old(self)@.last()) && final(self)@ == old(self)@.drop_last(),
            old(self)@.len() == 0 ==> r == Err::<Value, VMError>(VMError::StackUnderflow)
                && final(self)@ == old(self)@,
    {
        match self.values.pop() {
            Some(v) => Ok(v),
            None => Err(VMError::StackUnderflow),
        }
    }

    /// Removes the top `n` values and hands them back in push order.
    pub fn pop_many(&mut self, n: usize) -> (r: Result<Vec<Value>, VMError>)
        requires
            old(self).wf(),
        ensures
            final(self).wf(),
            final(self).frames() == old(self).frames(),
            final(self).max_size() == old(self).max_size(),
            n <= old(self)@.len() ==> r is Ok && r->Ok_0@ == old(self)@.subrange(
                old(self)@.len() - n,
                old(self)@.len() as int,
            ) && final(self)@ == old(self)@.subrange(0, old(self)@.len() - n),
            n > old(self)@.len() ==> r == Err::<Vec<Value>, VMError>(VMError::StackUnderflow)
                && final(self)@ == old(self)@,
    {
        let len = self.values.len();
        if n > len {
            return Err(VMError::StackUnderflow);
        }
        Ok(self.values.split_off(len - n))
    }

    /// Opens a frame: the arguments, then `locals - args.len()` further
    /// slots holding `Null`, all above the current height, which becomes the
    /// frame's base.
    pub fn push_frame(&mut self, args: Vec<Value>, locals: usize, return_address: usize) -> (r:
        Result<(), VMError>)
        requires
            old(self).wf(),
            args@.len() <= locals,
        ensures
            final(self).wf(),
            final(self).max_size() == old(self).max_size(),
            old(self)@.len() + locals <= old(self).max_size() ==> r is Ok && final(self)@ == old(self)@ + args@ + nulls((locals - args@.len()) as nat) && final(self).frames() == old(self).frames().push(
                Frame { return_address, base_pointer: old(self)@.len() as usize, locals },
            ),
            old(self)@.len() + locals > old(self).max_size() ==> r == Err::<(), VMError>(
                VMError::StackOverflow,
            ) && final(self)@ == old(self)@ && final(self).frames() == old(self).frames(),
    {
        let base = self.values.len();
        if locals > self.max_size - base {
            return Err(VMError::StackOverflow);
        }
        let ghost start = self.values@;
        let n = args.len();
        let mut i: usize = 0;
        while i < n
            invariant
                i <= n,
                n == args@.len(),
                n <= locals,
                base == start.len(),
                base + locals <= self.max_size,
                self.values@ == start + args@.subrange(0, i as int),
                self.frames@ == old(self).frames@,
                self.max_size == old(self).max_size,
            decreases n - i,
        {
            self.values.push(args[i].copy());
            i = i + 1;
        }
        let mut j: usize = n;
        while j < locals
            invariant
                n <= j <= locals,
                n == args@.len(),
                base == start.len(),
                base + locals <= self.max_size,
                self.values@ == start + args@ + nulls((j - n) as nat),
                self.frames@ == old(self).frames@,
                self.max_size == old(self).max_size,
            decreases locals - j,
        {
            proof {
                assert(args@.subrange(0, n as int) =~= args@);
            }
            self.values.push(Value::Null);
            assert(nulls((j - n) as nat).push(Value::Null) =~= nulls((j + 1 - n) as nat));
            j = j + 1;
        }
        self.frames.push(Frame { return_address, base_pointer: base, locals });
        Ok(())
    }

    /// Closes the innermost frame: the stack drops back to the frame's base
    /// and its return address is handed back.
    pub fn pop_frame(&mut self) -> (r: Result<usize, VMError>)
        requires
            old(self).wf(),
        ensures
            final(self).wf(),
            final(self).max_size() == old(self).max_size(),
            old(self).frames().len() == 0 ==> r == Err::<usize, VMError>(VMError::NotInFrame)
                && final(self)@ == old(self)@ && final(self).frames() == old(self).frames(),
            old(self).frames().len() > 0 && old(self)@.len() < old(self).frames().last().base_pointer
                ==> r == Err::<usize, VMError>(VMError::StackUnderflow) && final(self)@ == old(self)@
                && final(self).frames() == old(self).frames(),
            old(self).frames().len() > 0 && old(self).frames().last().base_pointer <= old(self)@.len()
                ==> r == Ok::<usize, VMError>(old(self).frames().last().return_address)
                && final(self)@ == old(self)@.subrange(0, old(self).frames().last().base_pointer as int)
                && final(self).frames() == old(self).frames().drop_last(),
    {
        let n = self.frames.len();
        if n == 0 {
            return Err(VMError::NotInFrame);
        }
        let frame = self.frames[n - 1];
        if self.values.len() < frame.base_pointer {
            return Err(VMError::StackUnderflow);
        }
        self.values.truncate(frame.base_pointer);
        self.frames.pop();
        Ok(frame.return_address)
    }

    /// Reads local `i` of the innermost frame.
    pub fn peek_local(&self, i: u8) -> (r: Result<Value, VMError>)
        ensures
            r == self.spec_peek_local(i as int),
    {
        let n = self.frames.len();
        if n == 0 {
            return Err(VMError::NotInFrame);
        }
        let frame = self.frames[n - 1];
        let idx = i as usize;
        if idx >= frame.locals || idx >= self.values.len() || frame.base_pointer >= self.values.len()
            - idx {
            return Err(VMError::InvalidLocalIndex(i as u16));
        }
        Ok(self.values[frame.base_pointer + idx].copy())
    }

    /// Overwrites local `i` of the innermost frame.
    pub fn set_local(&mut self, i: u8, val: Value) -> (r: Result<(), VMError>)
        requires
            old(self).wf(),
        ensures
            final(self).wf(),
            final(self).max_size() == old(self).max_size(),
            final(self).frames() == old(self).frames(),
            old(self).spec_peek_local(i as int) is Err ==> r == Err::<(), VMError>(
                old(self).spec_peek_local(i as int)->Err_0,
            ) && final(self)@ == old(self)@,
            old(self).spec_peek_local(i as int) is Ok ==> r is Ok && final(self)@ == old(self)@.update(
                old(self).local_slot(i as int),
                val,
            ),
    {
        let n = self.frames.len();
        if n == 0 {
            return Err(VMError::NotInFrame);
        }
        let frame = self.frames[n - 1];
        let idx = i as usize;
        if idx >= frame.locals || idx >= self.values.len() || frame.base_pointer >= self.values.len()
            - idx {
            return Err(VMError::InvalidLocalIndex(i as u16));
        }
        self.values.set(frame.base_pointer + idx, val);
        Ok(())
    }
}

} // verus!
