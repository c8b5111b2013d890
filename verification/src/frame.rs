//! Frames of the script stack, by address.
use vstd::prelude::*;

verus! {

/// A frame, by its address, and where in a call it is: about to make the call, or back from it.
#[derive(Debug, Clone, Copy, PartialEq, Eq, Structural)]
pub enum StackFramePtr {
    PreCall(usize),
    PostCall(usize),
}

impl StackFramePtr {
    /// The address of the frame.
    pub open spec fn addr(self) -> usize {
        match self {
            StackFramePtr::PreCall(ptr) => ptr,
            StackFramePtr::PostCall(ptr) => ptr,
        }
    }

    /// The address of the frame.
    pub fn as_ptr(&self) -> (r: usize)
        ensures
            r == self.addr(),
    {
        match self {
            StackFramePtr::PreCall(ptr) => *ptr,
            StackFramePtr::PostCall(ptr) => *ptr,
        }
    }

    /// Where the call instruction lies, counted from the position of the frame in its code: one
    /// opcode back before the call, and after it the call and one more opcode further back.
    pub fn call_offset(&self, opcode_size: isize, call_instr_size: isize) -> (r: isize)
        requires
            0 <= opcode_size,
            0 <= call_instr_size,
            2 * opcode_size + call_instr_size <= isize::MAX,
        ensures
            self is PreCall ==> r == -opcode_size,
            self is PostCall ==> r == -(2 * opcode_size + call_instr_size),
    {
        match self {
            StackFramePtr::PreCall(_) => 0 - opcode_size,
            StackFramePtr::PostCall(_) => 0 - opcode_size - call_instr_size - opcode_size,
        }
    }
}

} // verus!
