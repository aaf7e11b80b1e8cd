use vstd::prelude::*;
use crate::instr::{RunError, StackVal};

verus! {

/// The operand stack, addressed only from its top.
pub struct Stack {
    stack: Vec<StackVal>,
}

impl View for Stack {
    type V = Seq<StackVal>;

    /// Bottom first, top last.
    closed spec fn view(&self) -> Seq<StackVal> {
        self.stack@
    }
}

impl Stack {
    pub fn new() -> (s: Stack)
        ensures
            s@ == Seq::<StackVal>::empty(),
    {
        Stack { stack: Vec::new() }
    }

    pub fn len(&self) -> (n: usize)
        ensures
            n == self@.len(),
    {
        self.stack.len()
    }

    /// The top value, left in place.
    pub fn peek(&self) -> (r: Option<StackVal>)
        ensures
            self@.len() == 0 ==> r == None::<StackVal>,
            self@.len() > 0 ==> r == Some(self@.last()),
    {
        if self.stack.len() == 0 {
            None
        } else {
            Some(self.stack[self.stack.len() - 1])
        }
    }

    pub fn push(&mut self, val: StackVal)
        ensures
            final(self)@ == old(self)@.push(val),
    {
        self.stack.push(val);
    }

    /// Removes the top value; an empty stack underflows and stays empty.
    pub fn pop(&mut self) -> (r: Result<StackVal, RunError>)
        ensures
            old(self)@.len() == 0 ==> r == Err::<StackVal, RunError>(RunError::StackUnderflow)
                && final(self)@ == old(self)@,
            old(self)@.len() > 0 ==> r == Ok::<StackVal, RunError>(old(self)@.last())
                && final(self)@ == old(self)@.drop_last(),
    {
        match self.stack.pop() {
            Some(v) => Ok(v),
            None => Err(RunError::StackUnderflow),
        }
    }

    /// Removes the top value and returns the number it carries.
    pub fn pop_number(&mut self) -> (r: Result<i32, RunError>)
        ensures
            old(self)@.len() == 0 ==> r == Err::<i32, RunError>(RunError::StackUnderflow)
                && final(self)@ == old(self)@,
            old(self)@.len() > 0 ==> r == Ok::<i32, RunError>(old(self)@.last().num())
                && final(self)@ == old(self)@.drop_last(),
    {
        match self.pop() {
            Ok(StackVal::Number(n)) => Ok(n),
            Err(e) => Err(e),
        }
    }
}

} // verus!
