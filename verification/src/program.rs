//! The bytecode instruction set and the program type the compiler consumes.

use vstd::prelude::*;

verus! {

/// One operation of the stack-based bytecode.
///
/// The operand stack the instructions speak of is realized on the native
/// call stack by the generated code.  Binary operations pop the right
/// operand first and the left operand second, so `[Load(a), Load(b), Sub]`
/// leaves `a - b` on the stack.
#[derive(Debug, Clone, Copy)]
pub enum Instruction {
    /// Push an immediate value.
    Load(i64),
    /// Push a copy of the top of the stack.
    Dup,
    /// Drop the top of the stack.
    Pop,
    /// Exchange the two topmost values.
    Swap,
    /// Pop `b`, pop `a`, push `a + b`.
    Add,
    /// Pop `b`, pop `a`, push `a - b`.
    Sub,
    /// Pop `b`, pop `a`, push `a * b` (signed).
    Mul,
    /// Pop `b`, pop `a`, push `a / b` (signed, truncating toward zero).
    Div,
    /// Pop `b`, pop `a`, push `a % b` (signed remainder).
    Mod,
    /// Negate the top of the stack.
    Neg,
    /// Pop `b`, pop `a`, push `1` if `a == b` else `0`.
    Eq,
    /// Pop `b`, pop `a`, push `1` if `a != b` else `0`.
    Ne,
    /// Pop `b`, pop `a`, push `1` if `a < b` (signed) else `0`.
    Lt,
    /// Pop `b`, pop `a`, push `1` if `a > b` (signed) else `0`.
    Gt,
    /// Pop `b`, pop `a`, push `1` if `a <= b` (signed) else `0`.
    Lte,
    /// Pop `b`, pop `a`, push `1` if `a >= b` (signed) else `0`.
    Gte,
    /// Pop `b`, pop `a`, push their bitwise and (used as logical and).
    And,
    /// Pop `b`, pop `a`, push their bitwise or (used as logical or).
    Or,
    /// Pop `a`, push `1` if `a == 0` else `0`.
    Not,
    /// Pop `b`, pop `a`, push bitwise `a & b`.
    Band,
    /// Pop `b`, pop `a`, push bitwise `a | b`.
    Bor,
    /// Pop `b`, pop `a`, push bitwise `a ^ b`.
    Bxor,
    /// Pop `a`, push bitwise complement `!a`.
    Bnot,
    /// Pop `b`, pop `a`, push `a << b` (count from the low bits of `b`).
    Shl,
    /// Pop `b`, pop `a`, push `a >> b` (arithmetic, sign-preserving).
    Shr,
    /// Pop the top of the stack into local variable slot `id`.
    Store(u32),
    /// Push the value of local variable slot `id`.
    LoadVar(u32),
    /// Unconditional jump to a label.
    Jmp(u32),
    /// Pop `a`; jump to the label if `a != 0`.
    JmpIf(u32),
    /// Pop `a`; jump to the label if `a == 0`.
    JmpIfNot(u32),
    /// Define the jump target `id` at the current position.
    Label(u32),
    /// Call a function via label.  Declared but not lowered by this
    /// backend; compiling it reports an error.
    Call(u32),
    /// Write the top of the stack.  Declared but not lowered by this
    /// backend; compiling it reports an error.
    Write,
    /// Write the top of the stack as a character.  Declared but not
    /// lowered by this backend; compiling it reports an error.
    WriteChar,
    /// Read an integer.  Declared but not lowered by this backend;
    /// compiling it reports an error.
    Read,
    /// Pop the top of the stack and return it from the generated function.
    Ret,
    /// Stop: end code generation for this program.
    Halt,
}

/// A bytecode program: an ordered, immutable sequence of instructions.
///
/// A program's view is that sequence; it has no identity beyond its
/// contents.
pub struct Program {
    pub(crate) insts: Vec<Instruction>,
}

impl View for Program {
    type V = Seq<Instruction>;

    closed spec fn view(&self) -> Seq<Instruction> {
        self.insts@
    }
}

impl Program {
    /// Wrap an instruction sequence as a program.
    pub fn new(insts: Vec<Instruction>) -> (p: Program)
        ensures
            p@ == insts@,
    {
        Program { insts }
    }

    /// The program's instruction sequence.
    pub fn instructions(&self) -> (r: &Vec<Instruction>)
        ensures
            r@ == self@,
    {
        &self.insts
    }
}

} // verus!
