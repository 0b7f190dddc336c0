//! The code generator: lowers a bytecode program to x86-64 machine code.
//!
//! [`Compiler::compile`] emits a prologue, one encoding per instruction,
//! the patched jump displacements and an epilogue, and is proved to
//! return exactly the byte sequence given by
//! [`spec_compile`](crate::encoding::spec_compile) — a function of the
//! program alone, so compiling never depends on what the generator did
//! before.

use std::collections::HashMap;

use vstd::arithmetic::div_mod::lemma_fundamental_div_mod;
use vstd::arithmetic::div_mod::lemma_mod_bound;
use vstd::arithmetic::div_mod::lemma_mod_multiples_vanish;
use vstd::prelude::*;

use crate::encoding::compiles;
use crate::encoding::epilogue_bytes;
use crate::encoding::init_state;
use crate::encoding::lemma_compile_ok_iff;
use crate::encoding::inst_bytes;
use crate::encoding::jump_inst;
use crate::encoding::lemma_run_stable;
use crate::encoding::lemma_step_in_bounds;
use crate::encoding::mod32;
use crate::encoding::patch_and_close;
use crate::encoding::patch_one;
use crate::encoding::patch_rec;
use crate::encoding::patches_in_bounds;
use crate::encoding::prologue_bytes;
use crate::encoding::run_all;
use crate::encoding::run_upto;
use crate::encoding::slot_disp;
use crate::encoding::spec_compile;
use crate::encoding::step;
use crate::encoding::with_code;
use crate::encoding::CodegenError;
use crate::encoding::GenState;
use crate::encoding::GenStep;
use crate::program::Instruction;
use crate::program::Program;

verus! {

broadcast use vstd::std_specs::hash::group_hash_axioms;

/// The instructions lowered by the shared two-operand emitter.
spec fn is_binop(i: Instruction) -> bool {
    match i {
        Instruction::Add | Instruction::Sub | Instruction::Mul | Instruction::Div
        | Instruction::Mod | Instruction::And | Instruction::Or | Instruction::Band
        | Instruction::Bor | Instruction::Bxor | Instruction::Shl | Instruction::Shr => true,
        _ => false,
    }
}

/// The instructions lowered by the shared comparison emitter.
spec fn is_cmp(i: Instruction) -> bool {
    match i {
        Instruction::Eq | Instruction::Ne | Instruction::Lt | Instruction::Lte
        | Instruction::Gt | Instruction::Gte => true,
        _ => false,
    }
}

/// The instructions lowered by the shared one-operand emitter.
spec fn is_unary(i: Instruction) -> bool {
    match i {
        Instruction::Neg | Instruction::Bnot | Instruction::Not => true,
        _ => false,
    }
}

/// A nonnegative integer negated modulo 2^32: `(-x) % 2^32` equals
/// `(2^32 - x % 2^32) % 2^32`, the form the executable code computes.
proof fn lemma_neg_mod(x: int)
    requires
        x >= 0,
    ensures
        (-x) % 0x1_0000_0000 == (0x1_0000_0000 - x % 0x1_0000_0000) % 0x1_0000_0000,
{
    let m = 0x1_0000_0000 as int;
    lemma_fundamental_div_mod(x, m);
    let q = x / m;
    let r = x % m;
    assert(m * (-q - 1) + (m - r) == -x);
    lemma_mod_multiples_vanish(-q - 1, m - r, m);
}

/// The 32-bit displacement field for a jump from the site ending at
/// `site + 4` to `target`.
fn disp_field(target: usize, site: usize) -> (d: u32)
    requires
        site + 4 <= usize::MAX,
    ensures
        d == mod32(target - (site + 4)),
{
    let t = target as u64;
    let e = (site + 4) as u64;
    if t >= e {
        let d64 = (t - e) % 0x1_0000_0000;
        proof {
            lemma_mod_bound((t - e) as int, 0x1_0000_0000);
        }
        d64 as u32
    } else {
        let x = e - t;
        let r = x % 0x1_0000_0000;
        let d64 = (0x1_0000_0000 - r) % 0x1_0000_0000;
        proof {
            lemma_neg_mod(x as int);
            lemma_mod_bound(x as int, 0x1_0000_0000);
            lemma_mod_bound(0x1_0000_0000 - r, 0x1_0000_0000);
        }
        d64 as u32
    }
}

/// The 32-bit field holding a value negated modulo 2^32.
fn neg_field(off: u64) -> (d: u32)
    ensures
        d == mod32(-(off as int)),
{
    let r = off % 0x1_0000_0000;
    let d64 = (0x1_0000_0000 - r) % 0x1_0000_0000;
    proof {
        lemma_neg_mod(off as int);
        lemma_mod_bound(off as int, 0x1_0000_0000);
        lemma_mod_bound(0x1_0000_0000 - r, 0x1_0000_0000);
    }
    d64 as u32
}

/// An element-for-element copy of a byte buffer.
fn clone_bytes(v: &Vec<u8>) -> (r: Vec<u8>)
    ensures
        r@ == v@,
{
    let mut r: Vec<u8> = Vec::new();
    let mut i: usize = 0;
    while i < v.len()
        invariant
            i <= v.len(),
            r@ == v@.take(i as int),
        decreases v.len() - i,
    {
        r.push(v[i]);
        proof {
            assert(r@ =~= v@.take(i as int + 1));
        }
        i += 1;
    }
    proof {
        assert(v@.take(v@.len() as int) =~= v@);
    }
    r
}

/// A code generator instance: the output buffer, a running stack-depth
/// counter in bytes (diagnostic bookkeeping only), the byte offset
/// recorded for each label, and the queued relocation sites.
pub struct Compiler {
    bytecode: Vec<u8>,
    stk_offset: i32,
    labels: HashMap<u32, usize>,
    label_patches: Vec<(usize, u32)>,
}

impl Compiler {
    /// The generator's state as the emission model sees it.
    pub closed spec fn gen_state(self) -> GenState {
        GenState { code: self.bytecode@, labels: self.labels@, patches: self.label_patches@ }
    }

    /// A generator holding no output, no labels and no relocation sites.
    pub open spec fn is_reset(self) -> bool {
        self.gen_state() == (GenState {
            code: Seq::<u8>::empty(),
            labels: Map::<u32, usize>::empty(),
            patches: Seq::<(usize, u32)>::empty(),
        })
    }

    /// A fresh generator.
    pub fn new() -> (r: Compiler)
        ensures
            r.is_reset(),
    {
        let r = Compiler {
            bytecode: Vec::new(),
            stk_offset: 0,
            labels: HashMap::new(),
            label_patches: Vec::new(),
        };
        proof {
            assert(r.gen_state() =~= (GenState {
                code: Seq::<u8>::empty(),
                labels: Map::<u32, usize>::empty(),
                patches: Seq::<(usize, u32)>::empty(),
            }));
        }
        r
    }

    /// Append one byte to the output buffer.
    fn emit(&mut self, b: u8)
        ensures
            final(self).bytecode@ == old(self).bytecode@.push(b),
            final(self).labels@ == old(self).labels@,
            final(self).label_patches@ == old(self).label_patches@,
            final(self).stk_offset == old(self).stk_offset,
    {
        self.bytecode.push(b);
    }

    /// Append the four little-endian bytes of a 32-bit field.
    fn emit_le32(&mut self, x: u32)
        ensures
            final(self).gen_state() == with_code(old(self).gen_state(), crate::encoding::le32_bytes(x)),
            final(self).stk_offset == old(self).stk_offset,
    {
        let b0: u8 = #[verifier::truncate] ((x & 0xff) as u8);
        let b1: u8 = #[verifier::truncate] (((x >> 8) & 0xff) as u8);
        let b2: u8 = #[verifier::truncate] (((x >> 16) & 0xff) as u8);
        let b3: u8 = #[verifier::truncate] (((x >> 24) & 0xff) as u8);
        self.emit(b0);
        self.emit(b1);
        self.emit(b2);
        self.emit(b3);
        proof {
            assert(self.gen_state() =~= with_code(
                old(self).gen_state(),
                crate::encoding::le32_bytes(x),
            ));
        }
    }

    /// Emit the function prologue: save the frame pointer and reserve the
    /// 1024-byte local-variable frame.
    fn emit_fn_prologue(&mut self)
        ensures
            final(self).gen_state() == with_code(old(self).gen_state(), prologue_bytes()),
    {
        self.emit(0x55); // push rbp
        self.emit(0x48); // mov rbp, rsp
        self.emit(0x89);
        self.emit(0xE5);
        self.emit(0x48); // sub rsp, 1024
        self.emit(0x81);
        self.emit(0xEC);
        self.emit(0x00);
        self.emit(0x04);
        self.emit(0x00);
        self.emit(0x00);
        proof {
            assert(self.gen_state() =~= with_code(old(self).gen_state(), prologue_bytes()));
        }
    }

    /// Emit the function epilogue: restore the frame pointer and return.
    fn emit_fn_epilogue(&mut self)
        ensures
            final(self).gen_state() == with_code(old(self).gen_state(), epilogue_bytes()),
    {
        self.emit(0x48); // mov rsp, rbp
        self.emit(0x89);
        self.emit(0xEC);
        self.emit(0x5D); // pop rbp
        self.emit(0xC3); // ret
        proof {
            assert(self.gen_state() =~= with_code(old(self).gen_state(), epilogue_bytes()));
        }
    }

    /// Load an immediate value: move it into rax and push it.
    fn emit_load_imm(&mut self, val: i64)
        ensures
            final(self).gen_state() == with_code(
                old(self).gen_state(),
                inst_bytes(Instruction::Load(val)),
            ),
    {
        self.emit(0x48); // mov rax, imm64
        self.emit(0xB8);
        let b0: u8 = #[verifier::truncate] ((val & 0xff) as u8);
        let b1: u8 = #[verifier::truncate] (((val >> 8) & 0xff) as u8);
        let b2: u8 = #[verifier::truncate] (((val >> 16) & 0xff) as u8);
        let b3: u8 = #[verifier::truncate] (((val >> 24) & 0xff) as u8);
        let b4: u8 = #[verifier::truncate] (((val >> 32) & 0xff) as u8);
        let b5: u8 = #[verifier::truncate] (((val >> 40) & 0xff) as u8);
        let b6: u8 = #[verifier::truncate] (((val >> 48) & 0xff) as u8);
        let b7: u8 = #[verifier::truncate] (((val >> 56) & 0xff) as u8);
        self.emit(b0);
        self.emit(b1);
        self.emit(b2);
        self.emit(b3);
        self.emit(b4);
        self.emit(b5);
        self.emit(b6);
        self.emit(b7);
        self.emit(0x50); // push rax
        self.stk_offset = self.stk_offset.wrapping_add(8);
        proof {
            assert(self.gen_state() =~= with_code(
                old(self).gen_state(),
                inst_bytes(Instruction::Load(val)),
            ));
        }
    }

    /// Duplicate the top of the stack.
    fn emit_dup(&mut self)
        ensures
            final(self).gen_state() == with_code(
                old(self).gen_state(),
                inst_bytes(Instruction::Dup),
            ),
    {
        self.emit(0x48); // mov rax, [rsp]
        self.emit(0x8B);
        self.emit(0x04);
        self.emit(0x24);
        self.emit(0x50); // push rax
        self.stk_offset = self.stk_offset.wrapping_add(8);
        proof {
            assert(self.gen_state() =~= with_code(
                old(self).gen_state(),
                inst_bytes(Instruction::Dup),
            ));
        }
    }

    /// Drop the top of the stack.
    fn emit_pop(&mut self)
        ensures
            final(self).gen_state() == with_code(
                old(self).gen_state(),
                inst_bytes(Instruction::Pop),
            ),
    {
        self.emit(0x58); // pop rax
        self.stk_offset = self.stk_offset.wrapping_sub(8);
        proof {
            assert(self.gen_state() =~= with_code(
                old(self).gen_state(),
                inst_bytes(Instruction::Pop),
            ));
        }
    }

    /// Exchange the two topmost stack values.
    fn emit_swap(&mut self)
        ensures
            final(self).gen_state() == with_code(
                old(self).gen_state(),
                inst_bytes(Instruction::Swap),
            ),
    {
        self.emit(0x5B); // pop rbx
        self.emit(0x58); // pop rax
        self.emit(0x53); // push rbx
        self.emit(0x50); // push rax
        proof {
            assert(self.gen_state() =~= with_code(
                old(self).gen_state(),
                inst_bytes(Instruction::Swap),
            ));
        }
    }

    /// Lower a two-operand instruction: pop the right operand into rbx,
    /// the left into rax, combine, push the result.
    fn emit_binop(&mut self, i: Instruction)
        requires
            is_binop(i),
        ensures
            final(self).gen_state() == with_code(old(self).gen_state(), inst_bytes(i)),
    {
        self.emit(0x5B); // pop rbx (right operand)
        self.emit(0x58); // pop rax (left operand)
        match i {
            Instruction::Add => {
                self.emit(0x48); // add rax, rbx
                self.emit(0x01);
                self.emit(0xD8);
            }
            Instruction::Sub => {
                self.emit(0x48); // sub rax, rbx
                self.emit(0x29);
                self.emit(0xD8);
            }
            Instruction::Mul => {
                self.emit(0x48); // imul rax, rbx
                self.emit(0x0F);
                self.emit(0xAF);
                self.emit(0xC3);
            }
            Instruction::Div => {
                self.emit(0x48); // cqo: sign-extend rax into rdx:rax
                self.emit(0x99);
                self.emit(0x48); // idiv rbx
                self.emit(0xF7);
                self.emit(0xFB);
            }
            Instruction::Mod => {
                self.emit(0x48); // cqo
                self.emit(0x99);
                self.emit(0x48); // idiv rbx
                self.emit(0xF7);
                self.emit(0xFB);
                self.emit(0x48); // mov rax, rdx: keep the remainder
                self.emit(0x89);
                self.emit(0xD0);
            }
            Instruction::And | Instruction::Or => {
                // Normalize both operands to 0 or 1 (nonzero counts as
                // true), then combine bitwise.
                self.emit(0x48); // test rax, rax
                self.emit(0x85);
                self.emit(0xC0);
                self.emit(0xB8); // mov eax, 0 (keeps the flags)
                self.emit(0x00);
                self.emit(0x00);
                self.emit(0x00);
                self.emit(0x00);
                self.emit(0x0F); // setne al
                self.emit(0x95);
                self.emit(0xC0);
                self.emit(0x48); // test rbx, rbx
                self.emit(0x85);
                self.emit(0xDB);
                self.emit(0xBB); // mov ebx, 0 (keeps the flags)
                self.emit(0x00);
                self.emit(0x00);
                self.emit(0x00);
                self.emit(0x00);
                self.emit(0x0F); // setne bl
                self.emit(0x95);
                self.emit(0xC3);
                self.emit(0x48); // and/or rax, rbx
                match i {
                    Instruction::And => self.emit(0x21),
                    _ => self.emit(0x09),
                }
                self.emit(0xD8);
            }
            Instruction::Band => {
                self.emit(0x48); // and rax, rbx
                self.emit(0x21);
                self.emit(0xD8);
            }
            Instruction::Bor => {
                self.emit(0x48); // or rax, rbx
                self.emit(0x09);
                self.emit(0xD8);
            }
            Instruction::Bxor => {
                self.emit(0x48); // xor rax, rbx
                self.emit(0x31);
                self.emit(0xD8);
            }
            Instruction::Shl => {
                self.emit(0x48); // mov rcx, rbx
                self.emit(0x89);
                self.emit(0xD9);
                self.emit(0x48); // shl rax, cl
                self.emit(0xD3);
                self.emit(0xE0);
            }
            Instruction::Shr => {
                self.emit(0x48); // mov rcx, rbx
                self.emit(0x89);
                self.emit(0xD9);
                self.emit(0x48); // sar rax, cl: arithmetic, sign-preserving
                self.emit(0xD3);
                self.emit(0xF8);
            }
            _ => {}
        }
        self.emit(0x50); // push rax
        self.stk_offset = self.stk_offset.wrapping_sub(8);
        proof {
            assert(self.gen_state() =~= with_code(old(self).gen_state(), inst_bytes(i)));
        }
    }

    /// Lower a comparison: compare rax against rbx, zero rax with a
    /// flags-preserving move, then set the low byte from the condition.
    fn emit_cmp(&mut self, i: Instruction)
        requires
            is_cmp(i),
        ensures
            final(self).gen_state() == with_code(old(self).gen_state(), inst_bytes(i)),
    {
        self.emit(0x5B); // pop rbx (right operand)
        self.emit(0x58); // pop rax (left operand)
        self.emit(0x48); // cmp rax, rbx
        self.emit(0x39);
        self.emit(0xD8);
        self.emit(0xB8); // mov eax, 0 (keeps the flags)
        self.emit(0x00);
        self.emit(0x00);
        self.emit(0x00);
        self.emit(0x00);
        self.emit(0x0F); // setcc al
        match i {
            Instruction::Eq => self.emit(0x94),
            Instruction::Ne => self.emit(0x95),
            Instruction::Lt => self.emit(0x9C),
            Instruction::Lte => self.emit(0x9E),
            Instruction::Gt => self.emit(0x9F),
            _ => self.emit(0x9D),
        }
        self.emit(0xC0);
        self.emit(0x50); // push rax
        self.stk_offset = self.stk_offset.wrapping_sub(8);
        proof {
            assert(self.gen_state() =~= with_code(old(self).gen_state(), inst_bytes(i)));
        }
    }

    /// Lower a one-operand instruction: pop into rax, transform, push.
    fn emit_unary(&mut self, i: Instruction)
        requires
            is_unary(i),
        ensures
            final(self).gen_state() == with_code(old(self).gen_state(), inst_bytes(i)),
    {
        self.emit(0x58); // pop rax
        match i {
            Instruction::Neg => {
                self.emit(0x48); // neg rax
                self.emit(0xF7);
                self.emit(0xD8);
            }
            Instruction::Bnot => {
                self.emit(0x48); // not rax
                self.emit(0xF7);
                self.emit(0xD0);
            }
            Instruction::Not => {
                self.emit(0x48); // test rax, rax
                self.emit(0x85);
                self.emit(0xC0);
                self.emit(0xB8); // mov eax, 0 (keeps the flags)
                self.emit(0x00);
                self.emit(0x00);
                self.emit(0x00);
                self.emit(0x00);
                self.emit(0x0F); // sete al
                self.emit(0x94);
                self.emit(0xC0);
            }
            _ => {}
        }
        self.emit(0x50); // push rax
        proof {
            assert(self.gen_state() =~= with_code(old(self).gen_state(), inst_bytes(i)));
        }
    }

    /// Store the top of the stack to a local variable slot.
    fn emit_store(&mut self, id: u32)
        ensures
            final(self).gen_state() == with_code(
                old(self).gen_state(),
                inst_bytes(Instruction::Store(id)),
            ),
    {
        let disp = neg_field((id as u64 + 1) * 8);
        self.emit(0x58); // pop rax
        self.emit(0x48); // mov [rbp + disp], rax
        self.emit(0x89);
        self.emit(0x85);
        self.emit_le32(disp);
        self.stk_offset = self.stk_offset.wrapping_sub(8);
        proof {
            assert(disp == slot_disp(id));
            assert(self.gen_state() =~= with_code(
                old(self).gen_state(),
                inst_bytes(Instruction::Store(id)),
            ));
        }
    }

    /// Push the value of a local variable slot.
    fn emit_load_var(&mut self, id: u32)
        ensures
            final(self).gen_state() == with_code(
                old(self).gen_state(),
                inst_bytes(Instruction::LoadVar(id)),
            ),
    {
        let disp = neg_field((id as u64 + 1) * 8);
        self.emit(0x48); // mov rax, [rbp + disp]
        self.emit(0x8B);
        self.emit(0x85);
        self.emit_le32(disp);
        self.emit(0x50); // push rax
        self.stk_offset = self.stk_offset.wrapping_add(8);
        proof {
            assert(disp == slot_disp(id));
            assert(self.gen_state() =~= with_code(
                old(self).gen_state(),
                inst_bytes(Instruction::LoadVar(id)),
            ));
        }
    }

    /// Emit a jump: its opcode bytes, then a 4-byte placeholder
    /// displacement whose offset is queued for the patch pass.
    fn emit_jmp(&mut self, label: u32, is_conditional_jmp: Option<bool>)
        ensures
            step(old(self).gen_state(), jump_inst(is_conditional_jmp, label))
                == GenStep::Running(final(self).gen_state()),
    {
        match is_conditional_jmp {
            None => {
                self.emit(0xE9); // jmp rel32
                let pos = self.bytecode.len();
                self.label_patches.push((pos, label));
                self.emit(0x00);
                self.emit(0x00);
                self.emit(0x00);
                self.emit(0x00);
                proof {
                    assert(self.gen_state() =~= (GenState {
                        code: old(self).gen_state().code + seq![
                            0xE9u8, 0x00u8, 0x00u8, 0x00u8, 0x00u8,
                        ],
                        labels: old(self).gen_state().labels,
                        patches: old(self).gen_state().patches.push(
                            ((old(self).gen_state().code.len() + 1) as usize, label),
                        ),
                    }));
                }
            }
            Some(true) => {
                self.emit(0x58); // pop rax
                self.emit(0x48); // test rax, rax
                self.emit(0x85);
                self.emit(0xC0);
                self.emit(0x0F); // jnz rel32
                self.emit(0x85);
                let pos = self.bytecode.len();
                self.label_patches.push((pos, label));
                self.emit(0x00);
                self.emit(0x00);
                self.emit(0x00);
                self.emit(0x00);
                self.stk_offset = self.stk_offset.wrapping_sub(8);
                proof {
                    assert(self.gen_state() =~= (GenState {
                        code: old(self).gen_state().code + seq![
                            0x58u8, 0x48u8, 0x85u8, 0xC0u8, 0x0Fu8, 0x85u8, 0x00u8, 0x00u8,
                            0x00u8, 0x00u8,
                        ],
                        labels: old(self).gen_state().labels,
                        patches: old(self).gen_state().patches.push(
                            ((old(self).gen_state().code.len() + 6) as usize, label),
                        ),
                    }));
                }
            }
            Some(false) => {
                self.emit(0x58); // pop rax
                self.emit(0x48); // test rax, rax
                self.emit(0x85);
                self.emit(0xC0);
                self.emit(0x0F); // jz rel32
                self.emit(0x84);
                let pos = self.bytecode.len();
                self.label_patches.push((pos, label));
                self.emit(0x00);
                self.emit(0x00);
                self.emit(0x00);
                self.emit(0x00);
                self.stk_offset = self.stk_offset.wrapping_sub(8);
                proof {
                    assert(self.gen_state() =~= (GenState {
                        code: old(self).gen_state().code + seq![
                            0x58u8, 0x48u8, 0x85u8, 0xC0u8, 0x0Fu8, 0x84u8, 0x00u8, 0x00u8,
                            0x00u8, 0x00u8,
                        ],
                        labels: old(self).gen_state().labels,
                        patches: old(self).gen_state().patches.push(
                            ((old(self).gen_state().code.len() + 6) as usize, label),
                        ),
                    }));
                }
            }
        }
    }

    /// The patch pass: rewrite each queued relocation site with the
    /// relative displacement of its target label, or report the first
    /// site whose label was never defined.
    fn patch_jumps(&mut self) -> (r: Result<(), CodegenError>)
        requires
            patches_in_bounds(old(self).gen_state()),
        ensures
            final(self).labels@ == old(self).labels@,
            final(self).label_patches@ == old(self).label_patches@,
            (r is Ok ==> patch_rec(
                old(self).gen_state().code,
                old(self).gen_state().labels,
                old(self).gen_state().patches,
            ) == Ok::<Seq<u8>, CodegenError>(final(self).bytecode@)),
            (r matches Err(e) ==> patch_rec(
                old(self).gen_state().code,
                old(self).gen_state().labels,
                old(self).gen_state().patches,
            ) == Err::<Seq<u8>, CodegenError>(e)),
    {
        let ghost emitted = old(self).gen_state();
        proof {
            assert(emitted.patches.skip(0) =~= emitted.patches);
        }

        let m = self.label_patches.len();
        let mut k: usize = 0;
        while k < m
            invariant
                k <= m,
                m == emitted.patches.len(),
                emitted == old(self).gen_state(),
                self.labels@ == old(self).labels@,
                self.label_patches@ == old(self).label_patches@,
                self.labels@ == emitted.labels,
                self.label_patches@ == emitted.patches,
                self.bytecode@.len() == emitted.code.len(),
                patches_in_bounds(emitted),
                patch_rec(emitted.code, emitted.labels, emitted.patches) == patch_rec(
                    self.bytecode@,
                    emitted.labels,
                    emitted.patches.skip(k as int),
                ),
            decreases m - k,
        {
            let (pos, lab) = self.label_patches[k];
            let cur_len = self.bytecode.len();
            let ghost code_before = self.bytecode@;
            proof {
                assert((pos, lab) == emitted.patches[k as int]);
                assert(emitted.patches[k as int].0 + 4 <= emitted.code.len());
                assert(pos + 4 <= cur_len);
            }
            match self.labels.get(&lab) {
                Some(t) => {
                    let target = *t;
                    let d = disp_field(target, pos);
                    let p0: u8 = #[verifier::truncate] ((d & 0xff) as u8);
                    let p1: u8 = #[verifier::truncate] (((d >> 8) & 0xff) as u8);
                    let p2: u8 = #[verifier::truncate] (((d >> 16) & 0xff) as u8);
                    let p3: u8 = #[verifier::truncate] (((d >> 24) & 0xff) as u8);
                    self.bytecode[pos] = p0;
                    self.bytecode[pos + 1] = p1;
                    self.bytecode[pos + 2] = p2;
                    self.bytecode[pos + 3] = p3;
                    proof {
                        assert(self.bytecode@ =~= patch_one(
                            code_before,
                            pos as int,
                            target as int,
                        ));
                        assert(emitted.patches.skip(k as int).drop_first() =~= emitted.patches.skip(
                            k as int + 1,
                        ));
                        assert(emitted.patches.skip(k as int)[0] == emitted.patches[k as int]);
                        assert(patch_rec(code_before, emitted.labels, emitted.patches.skip(k as int))
                            == patch_rec(
                            self.bytecode@,
                            emitted.labels,
                            emitted.patches.skip(k as int + 1),
                        ));
                    }
                }
                None => {
                    proof {
                        assert(emitted.patches.skip(k as int)[0] == emitted.patches[k as int]);
                        assert(patch_rec(emitted.code, emitted.labels, emitted.patches)
                            == Err::<Seq<u8>, CodegenError>(CodegenError::UndefinedLabel(lab)));
                    }
                    return Err(CodegenError::UndefinedLabel(lab));
                }
            }
            k += 1;
        }
        proof {
            assert(emitted.patches.skip(m as int) =~= Seq::<(usize, u32)>::empty());
            assert(patch_rec(emitted.code, emitted.labels, emitted.patches)
                == Ok::<Seq<u8>, CodegenError>(self.bytecode@));
        }
        Ok(())
    }

    /// Compile a program to a self-contained native function.
    ///
    /// Starts from a fully reset internal state, so the result is a
    /// function of the program alone (the same whether the generator is
    /// fresh or reused): exactly the byte sequence
    /// [`spec_compile`](crate::encoding::spec_compile) gives, or its
    /// error — `UnsupportedInstruction` for the first `Call`, `Write`,
    /// `WriteChar` or `Read` reached before a terminator, else
    /// `UndefinedLabel` for the first jump whose target is never defined.
    /// Succeeds exactly on programs that
    /// [`compiles`](crate::encoding::compiles) describes: every reached
    /// instruction is supported and every reached jump targets a defined
    /// label.
    pub fn compile(&mut self, program: &Program) -> (r: Result<Vec<u8>, CodegenError>)
        ensures
            (r matches Ok(code) ==> spec_compile(program@) == Ok::<Seq<u8>, CodegenError>(code@)),
            (r matches Ok(code) ==> final(self).gen_state().code == code@),
            (r matches Err(e) ==> spec_compile(program@) == Err::<Seq<u8>, CodegenError>(e)),
            r is Ok <==> compiles(program@),
    {
        let insts_ref = program.instructions();
        let n = insts_ref.len();
        let ghost insts = program@;

        // Every compilation starts from a clean state: nothing carries
        // over from an earlier program.
        self.bytecode = Vec::new();
        self.stk_offset = 0;
        self.labels = HashMap::new();
        self.label_patches = Vec::new();
        self.emit_fn_prologue();
        proof {
            assert(self.gen_state() =~= init_state());
        }

        let mut idx: usize = 0;
        while idx < n
            invariant_except_break
                idx <= n,
                run_upto(insts, idx as int) == GenStep::Running(self.gen_state()),
            invariant
                n == insts.len(),
                insts == program@,
                insts_ref@ == insts,
                patches_in_bounds(self.gen_state()),
            ensures
                run_all(insts) == GenStep::Running(self.gen_state()) || run_all(insts)
                    == GenStep::Done(self.gen_state()),
            decreases n - idx,
        {
            let ghost pre = self.gen_state();
            let inst = insts_ref[idx];
            match inst {
                Instruction::Load(v) => self.emit_load_imm(v),
                Instruction::Dup => self.emit_dup(),
                Instruction::Pop => self.emit_pop(),
                Instruction::Swap => self.emit_swap(),
                Instruction::Add | Instruction::Sub | Instruction::Mul | Instruction::Div
                | Instruction::Mod | Instruction::And | Instruction::Or | Instruction::Band
                | Instruction::Bor | Instruction::Bxor | Instruction::Shl | Instruction::Shr => {
                    self.emit_binop(inst)
                }
                Instruction::Neg | Instruction::Bnot | Instruction::Not => self.emit_unary(inst),
                Instruction::Eq | Instruction::Ne | Instruction::Lt | Instruction::Lte
                | Instruction::Gt | Instruction::Gte => self.emit_cmp(inst),
                Instruction::Store(id) => self.emit_store(id),
                Instruction::LoadVar(id) => self.emit_load_var(id),
                Instruction::Jmp(l) => self.emit_jmp(l, None),
                Instruction::JmpIf(l) => self.emit_jmp(l, Some(true)),
                Instruction::JmpIfNot(l) => self.emit_jmp(l, Some(false)),
                Instruction::Label(id) => {
                    let here = self.bytecode.len();
                    self.labels.insert(id, here);
                    proof {
                        assert(self.gen_state() =~= (GenState {
                            code: pre.code,
                            labels: pre.labels.insert(id, pre.code.len() as usize),
                            patches: pre.patches,
                        }));
                    }
                }
                Instruction::Call(_) | Instruction::Write | Instruction::WriteChar
                | Instruction::Read => {
                    proof {
                        assert(run_upto(insts, idx as int + 1) == GenStep::Failed(
                            CodegenError::UnsupportedInstruction,
                        ));
                        lemma_run_stable(insts, idx as int + 1, insts.len() as int);
                        assert(spec_compile(insts) == Err::<Seq<u8>, CodegenError>(
                            CodegenError::UnsupportedInstruction,
                        ));
                        lemma_compile_ok_iff(insts);
                    }
                    return Err(CodegenError::UnsupportedInstruction);
                }
                Instruction::Ret => {
                    self.emit(0x58); // pop rax: the return value
                    proof {
                        assert(self.gen_state() =~= (GenState {
                            code: pre.code + seq![0x58u8],
                            labels: pre.labels,
                            patches: pre.patches,
                        }));
                        assert(run_upto(insts, idx as int + 1) == GenStep::Done(self.gen_state()));
                        lemma_step_in_bounds(pre, inst);
                        lemma_run_stable(insts, idx as int + 1, insts.len() as int);
                    }
                    break;
                }
                Instruction::Halt => {
                    proof {
                        assert(run_upto(insts, idx as int + 1) == GenStep::Done(self.gen_state()));
                        lemma_run_stable(insts, idx as int + 1, insts.len() as int);
                    }
                    break;
                }
            }
            proof {
                assert(step(pre, inst) == GenStep::Running(self.gen_state()));
                assert(run_upto(insts, idx as int + 1) == GenStep::Running(self.gen_state()));
                lemma_step_in_bounds(pre, inst);
            }
            idx += 1;
        }

        let ghost emitted = self.gen_state();
        match self.patch_jumps() {
            Ok(()) => {}
            Err(e) => {
                proof {
                    assert(spec_compile(insts) == Err::<Seq<u8>, CodegenError>(e));
                    lemma_compile_ok_iff(insts);
                }
                return Err(e);
            }
        }

        let ghost patched = self.bytecode@;
        self.emit_fn_epilogue();
        let out = clone_bytes(&self.bytecode);
        proof {
            assert(self.bytecode@ == patched + epilogue_bytes());
            assert(patch_and_close(emitted) == Ok::<Seq<u8>, CodegenError>(self.bytecode@));
            assert(spec_compile(insts) == Ok::<Seq<u8>, CodegenError>(out@));
            lemma_compile_ok_iff(insts);
        }
        Ok(out)
    }
}

} // verus!
