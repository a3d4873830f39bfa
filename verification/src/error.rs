use vstd::prelude::*;

verus! {

/// The fatal conditions the interpreter can surface to its host.
///
/// None of these is recovered internally: a step either completes atomically
/// or reports one of these and leaves the machine untouched.
#[derive(Clone, Copy, Debug, PartialEq, Eq, Structural)]
pub enum Chip8Error {
    /// The fetched word matches no recognized encoding; carries the raw
    /// word and the program counter at which it was fetched.
    IllegalOpcode { word: u16, pc: u16 },
    /// A program image larger than the space above the reserved region was
    /// handed to the loader.  Load-time only.
    OversizedProgram,
    /// A `call` would push beyond the fixed depth of the call stack.
    StackOverflow,
    /// A `return` was executed with an empty call stack.
    StackUnderflow,
    /// A register value used as a key index falls outside the pad's 16 lines.
    InvalidKeyIndex { key: u8 },
}

impl Chip8Error {
    /// A short human-readable description, for hosts that report the fault.
    pub fn describe(&self) -> (r: &'static str)
        ensures
            r@.len() > 0,
    {
        proof {
            reveal_strlit("illegal opcode");
            reveal_strlit("program image too large");
            reveal_strlit("call stack overflow");
            reveal_strlit("call stack underflow");
            reveal_strlit("key index out of range");
        }
        match self {
            Chip8Error::IllegalOpcode { .. } => "illegal opcode",
            Chip8Error::OversizedProgram => "program image too large",
            Chip8Error::StackOverflow => "call stack overflow",
            Chip8Error::StackUnderflow => "call stack underflow",
            Chip8Error::InvalidKeyIndex { .. } => "key index out of range",
        }
    }
}

} // verus!
