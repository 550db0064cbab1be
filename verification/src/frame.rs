//! The runtime state of one function or method call of the bytecode machine: its
//! locals, operand stack and control registers.
use vstd::prelude::*;
use crate::storage::{empty_cells, LocalStorage};
use crate::vm::FrameState;

verus! {

/// What a pop takes off `stack` and the stack it leaves: the top value, or nothing
/// (the machine's nil) from an empty stack, which then stays empty.
pub open spec fn pop_of<V>(stack: Seq<V>) -> (Option<V>, Seq<V>) {
    if stack.len() == 0 {
        (None, stack)
    } else {
        (Some(stack.last()), stack.drop_last())
    }
}

/// Runtime state for a single function/method call.
pub struct Frame<V> {
    pub locals: LocalStorage<V>,
    pub instruction_ptr: i32,
    pub frame_index: usize,
    pub stack: Vec<V>,
    pub return_value: Option<V>,
    pub state: FrameState,
    pub try_catch_target: Option<i32>,
    pub static_base: usize,
    /// The index of the next child frame defined by this frame.
    pub local_def_counter: usize,
    /// The variable that the last push read, for a later write-back.
    pub last_var_push_index: i32,
    pub last_var_push_static: bool,
    /// The value of a switch, kept across its consecutive cases.
    pub switch_value: Option<V>,
    /// Where a switch jumps when no case matches.
    pub switch_default: Option<i32>,
    /// The cases of a switch left to check.
    pub switch_remaining: usize,
}

impl<V> Frame<V> {
    /// A running frame at its first instruction, with `local_count` empty locals, an
    /// empty stack and every register cleared.
    pub fn new(frame_index: usize, stack_size: i32, local_count: i32, static_base: usize) -> (f: Self)
        ensures
            f.locals.cells() == empty_cells::<V>(if local_count > 0 { local_count as int } else { 0 }),
            f.instruction_ptr == 0,
            f.frame_index == frame_index,
            f.stack@.len() == 0,
            f.return_value is None,
            f.state == FrameState::Running,
            f.try_catch_target is None,
            f.static_base == static_base,
            f.local_def_counter == 0,
            f.last_var_push_index == 0,
            !f.last_var_push_static,
            f.switch_value is None,
            f.switch_default is None,
            f.switch_remaining == 0,
    {
        let capacity: usize = if stack_size > 1 { stack_size as usize } else { 1 };
        Frame {
            locals: LocalStorage::new(local_count),
            instruction_ptr: 0,
            frame_index,
            stack: Vec::with_capacity(capacity),
            return_value: None,
            state: FrameState::Running,
            try_catch_target: None,
            static_base,
            local_def_counter: 0,
            last_var_push_index: 0,
            last_var_push_static: false,
            switch_value: None,
            switch_default: None,
            switch_remaining: 0,
        }
    }

    /// Pushes `val` on the operand stack.
    pub fn push(&mut self, val: V)
        ensures
            final(self).stack@ == old(self).stack@.push(val),
            final(self).locals == old(self).locals,
            final(self).instruction_ptr == old(self).instruction_ptr,
            final(self).state == old(self).state,
            final(self).frame_index == old(self).frame_index,
            final(self).return_value == old(self).return_value,
            final(self).try_catch_target == old(self).try_catch_target,
            final(self).static_base == old(self).static_base,
            final(self).local_def_counter == old(self).local_def_counter,
            final(self).last_var_push_index == old(self).last_var_push_index,
            final(self).last_var_push_static == old(self).last_var_push_static,
            final(self).switch_value == old(self).switch_value,
            final(self).switch_default == old(self).switch_default,
            final(self).switch_remaining == old(self).switch_remaining,
    {
        self.stack.push(val);
    }

    /// Takes the top value off the operand stack (see `pop_of`).
    pub fn pop(&mut self) -> (r: Option<V>)
        ensures
            (r, final(self).stack@) == pop_of(old(self).stack@),
            final(self).locals == old(self).locals,
            final(self).instruction_ptr == old(self).instruction_ptr,
            final(self).state == old(self).state,
            final(self).frame_index == old(self).frame_index,
            final(self).return_value == old(self).return_value,
            final(self).try_catch_target == old(self).try_catch_target,
            final(self).static_base == old(self).static_base,
            final(self).local_def_counter == old(self).local_def_counter,
            final(self).last_var_push_index == old(self).last_var_push_index,
            final(self).last_var_push_static == old(self).last_var_push_static,
            final(self).switch_value == old(self).switch_value,
            final(self).switch_default == old(self).switch_default,
            final(self).switch_remaining == old(self).switch_remaining,
    {
        self.stack.pop()
    }

    /// The top value of the operand stack, left in place; nothing when it is empty.
    pub fn peek(&self) -> (r: Option<&V>)
        ensures
            match r {
                Some(v) => pop_of(self.stack@).0 == Some(*v),
                None => pop_of(self.stack@).0 is None,
            },
    {
        let n = self.stack.len();
        if n == 0 {
            None
        } else {
            Some(&self.stack[n - 1])
        }
    }
}

/// A pop takes back exactly what the last push put on the stack, and leaves the
/// stack as it was before that push.
pub proof fn lemma_pop_undoes_push<V>(stack: Seq<V>, val: V)
    ensures
        pop_of(stack.push(val)) == (Some(val), stack),
{
    assert(stack.push(val).drop_last() =~= stack);
}

} // verus!
