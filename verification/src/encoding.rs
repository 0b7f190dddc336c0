//! The mathematical model of code generation.
//!
//! [`spec_compile`] gives, for any instruction sequence, either the exact
//! x86-64 byte sequence the compiler produces for it or the error it
//! reports.  Generation is modelled as the original single emission pass:
//! a fold ([`run_upto`]) over the instructions that grows the code buffer,
//! records each label's byte offset at the moment the label is reached,
//! and queues a relocation site for every jump, followed by a patch pass
//! ([`patch_rec`]) that rewrites each relocation site with the relative
//! displacement of its target, and finally the function epilogue.

use vstd::prelude::*;

use crate::program::Instruction;

verus! {

/// Why code generation failed.
#[derive(Debug, Clone, Copy, PartialEq, Eq, Structural)]
pub enum CodegenError {
    /// The program contains an instruction this backend does not lower
    /// (`Call`, `Write`, `WriteChar` or `Read`).
    UnsupportedInstruction,
    /// A jump references a label that is never defined before generation
    /// ends.
    UndefinedLabel(u32),
}

/// The generator's state during the emission pass: the code buffer, the
/// byte offset recorded for each label seen so far, and the queued
/// relocation sites as (offset of the 4-byte displacement field, target
/// label) pairs.
#[verifier::ext_equal]
pub ghost struct GenState {
    pub code: Seq<u8>,
    pub labels: Map<u32, usize>,
    pub patches: Seq<(usize, u32)>,
}

/// The emission pass after some number of instructions: still running,
/// finished early at a terminator, or failed.
pub ghost enum GenStep {
    Running(GenState),
    Done(GenState),
    Failed(CodegenError),
}

/// The function prologue: push rbp; mov rbp, rsp; sub rsp, 1024.
pub open spec fn prologue_bytes() -> Seq<u8> {
    seq![0x55u8, 0x48u8, 0x89u8, 0xE5u8, 0x48u8, 0x81u8, 0xECu8, 0x00u8, 0x04u8, 0x00u8, 0x00u8]
}

/// The function epilogue: mov rsp, rbp; pop rbp; ret.
pub open spec fn epilogue_bytes() -> Seq<u8> {
    seq![0x48u8, 0x89u8, 0xECu8, 0x5Du8, 0xC3u8]
}

/// The little-endian bytes of a 64-bit immediate.
pub open spec fn le64_bytes(v: i64) -> Seq<u8> {
    seq![
        (v & 0xff) as u8,
        ((v >> 8) & 0xff) as u8,
        ((v >> 16) & 0xff) as u8,
        ((v >> 24) & 0xff) as u8,
        ((v >> 32) & 0xff) as u8,
        ((v >> 40) & 0xff) as u8,
        ((v >> 48) & 0xff) as u8,
        ((v >> 56) & 0xff) as u8,
    ]
}

/// The little-endian bytes of a 32-bit field.
pub open spec fn le32_bytes(x: u32) -> Seq<u8> {
    seq![
        (x & 0xff) as u8,
        ((x >> 8) & 0xff) as u8,
        ((x >> 16) & 0xff) as u8,
        ((x >> 24) & 0xff) as u8,
    ]
}

/// An integer reduced to a 32-bit field value (two's complement for
/// negative arguments).
pub open spec fn mod32(n: int) -> u32 {
    (n % 0x1_0000_0000) as u32
}

/// The displacement field that addresses local variable slot `id`:
/// `-(id + 1) * 8` relative to the frame base, reduced to 32 bits.  The
/// frame holds 1024 bytes, so slots above 127 address memory outside it;
/// the generator encodes them all the same (no bounds check).
pub open spec fn slot_disp(id: u32) -> u32 {
    mod32(-((id + 1) * 8))
}

/// The bytes emitted for a straight-line instruction (no label, jump,
/// terminator, or unsupported instruction).
pub open spec fn inst_bytes(i: Instruction) -> Seq<u8> {
    match i {
        // mov rax, imm64; push rax
        Instruction::Load(v) => seq![0x48u8, 0xB8u8] + le64_bytes(v) + seq![0x50u8],
        // mov rax, [rsp]; push rax
        Instruction::Dup => seq![0x48u8, 0x8Bu8, 0x04u8, 0x24u8, 0x50u8],
        // pop rax
        Instruction::Pop => seq![0x58u8],
        // pop rbx; pop rax; push rbx; push rax
        Instruction::Swap => seq![0x5Bu8, 0x58u8, 0x53u8, 0x50u8],
        // pop rbx; pop rax; op rax, rbx; push rax
        Instruction::Add => seq![0x5Bu8, 0x58u8, 0x48u8, 0x01u8, 0xD8u8, 0x50u8],
        Instruction::Sub => seq![0x5Bu8, 0x58u8, 0x48u8, 0x29u8, 0xD8u8, 0x50u8],
        Instruction::Mul => seq![0x5Bu8, 0x58u8, 0x48u8, 0x0Fu8, 0xAFu8, 0xC3u8, 0x50u8],
        // pop rbx; pop rax; cqo; idiv rbx; push rax (or the remainder from rdx)
        Instruction::Div => seq![0x5Bu8, 0x58u8, 0x48u8, 0x99u8, 0x48u8, 0xF7u8, 0xFBu8, 0x50u8],
        Instruction::Mod => seq![
            0x5Bu8, 0x58u8, 0x48u8, 0x99u8, 0x48u8, 0xF7u8, 0xFBu8, 0x48u8, 0x89u8, 0xD0u8, 0x50u8,
        ],
        Instruction::Band => seq![0x5Bu8, 0x58u8, 0x48u8, 0x21u8, 0xD8u8, 0x50u8],
        Instruction::Bor => seq![0x5Bu8, 0x58u8, 0x48u8, 0x09u8, 0xD8u8, 0x50u8],
        Instruction::Bxor => seq![0x5Bu8, 0x58u8, 0x48u8, 0x31u8, 0xD8u8, 0x50u8],
        // pop rbx; pop rax; mov rcx, rbx; shl/sar rax, cl; push rax
        Instruction::Shl => seq![
            0x5Bu8, 0x58u8, 0x48u8, 0x89u8, 0xD9u8, 0x48u8, 0xD3u8, 0xE0u8, 0x50u8,
        ],
        Instruction::Shr => seq![
            0x5Bu8, 0x58u8, 0x48u8, 0x89u8, 0xD9u8, 0x48u8, 0xD3u8, 0xF8u8, 0x50u8,
        ],
        // The logical variants treat any nonzero operand as true: each
        // operand is normalized to 0 or 1 (test; mov imm, which keeps the
        // flags; setne) before the bitwise combination.
        Instruction::And => seq![
            0x5Bu8, 0x58u8, 0x48u8, 0x85u8, 0xC0u8, 0xB8u8, 0x00u8, 0x00u8, 0x00u8, 0x00u8,
            0x0Fu8, 0x95u8, 0xC0u8, 0x48u8, 0x85u8, 0xDBu8, 0xBBu8, 0x00u8, 0x00u8, 0x00u8,
            0x00u8, 0x0Fu8, 0x95u8, 0xC3u8, 0x48u8, 0x21u8, 0xD8u8, 0x50u8,
        ],
        Instruction::Or => seq![
            0x5Bu8, 0x58u8, 0x48u8, 0x85u8, 0xC0u8, 0xB8u8, 0x00u8, 0x00u8, 0x00u8, 0x00u8,
            0x0Fu8, 0x95u8, 0xC0u8, 0x48u8, 0x85u8, 0xDBu8, 0xBBu8, 0x00u8, 0x00u8, 0x00u8,
            0x00u8, 0x0Fu8, 0x95u8, 0xC3u8, 0x48u8, 0x09u8, 0xD8u8, 0x50u8,
        ],
        // pop rax; neg/not rax; push rax
        Instruction::Neg => seq![0x58u8, 0x48u8, 0xF7u8, 0xD8u8, 0x50u8],
        Instruction::Bnot => seq![0x58u8, 0x48u8, 0xF7u8, 0xD0u8, 0x50u8],
        // pop rax; test rax, rax; mov eax, 0 (keeps the flags); sete al;
        // push rax
        Instruction::Not => seq![
            0x58u8, 0x48u8, 0x85u8, 0xC0u8, 0xB8u8, 0x00u8, 0x00u8, 0x00u8, 0x00u8, 0x0Fu8,
            0x94u8, 0xC0u8, 0x50u8,
        ],
        // pop rbx; pop rax; cmp rax, rbx; mov eax, 0 (keeps the flags);
        // setcc al; push rax
        Instruction::Eq => cmp_bytes(0x94u8),
        Instruction::Ne => cmp_bytes(0x95u8),
        Instruction::Lt => cmp_bytes(0x9Cu8),
        Instruction::Lte => cmp_bytes(0x9Eu8),
        Instruction::Gt => cmp_bytes(0x9Fu8),
        Instruction::Gte => cmp_bytes(0x9Du8),
        // pop rax; mov [rbp + disp], rax
        Instruction::Store(id) => seq![0x58u8, 0x48u8, 0x89u8, 0x85u8] + le32_bytes(slot_disp(id)),
        // mov rax, [rbp + disp]; push rax
        Instruction::LoadVar(id) => seq![0x48u8, 0x8Bu8, 0x85u8] + le32_bytes(slot_disp(id))
            + seq![0x50u8],
        _ => Seq::empty(),
    }
}

/// The shared comparison shape, closed by the given setcc opcode byte.
pub open spec fn cmp_bytes(cc: u8) -> Seq<u8> {
    seq![
        0x5Bu8, 0x58u8, 0x48u8, 0x39u8, 0xD8u8, 0xB8u8, 0x00u8, 0x00u8, 0x00u8, 0x00u8, 0x0Fu8,
        cc, 0xC0u8, 0x50u8,
    ]
}

/// A state with bytes appended to its code buffer and nothing else
/// changed.
pub open spec fn with_code(st: GenState, extra: Seq<u8>) -> GenState {
    GenState { code: st.code + extra, labels: st.labels, patches: st.patches }
}

/// The jump instruction selected by the conditional-jump flag: `None`
/// jumps unconditionally, `Some(true)` on nonzero, `Some(false)` on zero.
pub open spec fn jump_inst(cond: Option<bool>, label: u32) -> Instruction {
    match cond {
        None => Instruction::Jmp(label),
        Some(true) => Instruction::JmpIf(label),
        Some(false) => Instruction::JmpIfNot(label),
    }
}

/// The generator's state before any instruction: the prologue has been
/// emitted, no label is recorded, no relocation is pending.
pub open spec fn init_state() -> GenState {
    GenState { code: prologue_bytes(), labels: Map::empty(), patches: Seq::empty() }
}

/// One instruction of the emission pass.
///
/// A label records the current length of the code buffer as its offset
/// (duplicate definitions are last-write-wins).  A jump emits its opcode
/// bytes followed by a 4-byte placeholder displacement and queues the
/// placeholder's offset for the patch pass.  `Ret` and `Halt` finish the
/// pass early; the unimplemented instructions fail it.
pub open spec fn step(st: GenState, i: Instruction) -> GenStep {
    match i {
        Instruction::Label(id) => GenStep::Running(
            GenState { labels: st.labels.insert(id, st.code.len() as usize), ..st },
        ),
        // jmp rel32
        Instruction::Jmp(l) => GenStep::Running(
            GenState {
                code: st.code + seq![0xE9u8, 0x00u8, 0x00u8, 0x00u8, 0x00u8],
                labels: st.labels,
                patches: st.patches.push(((st.code.len() + 1) as usize, l)),
            },
        ),
        // pop rax; test rax, rax; jnz rel32
        Instruction::JmpIf(l) => GenStep::Running(
            GenState {
                code: st.code + seq![
                    0x58u8, 0x48u8, 0x85u8, 0xC0u8, 0x0Fu8, 0x85u8, 0x00u8, 0x00u8, 0x00u8, 0x00u8,
                ],
                labels: st.labels,
                patches: st.patches.push(((st.code.len() + 6) as usize, l)),
            },
        ),
        // pop rax; test rax, rax; jz rel32
        Instruction::JmpIfNot(l) => GenStep::Running(
            GenState {
                code: st.code + seq![
                    0x58u8, 0x48u8, 0x85u8, 0xC0u8, 0x0Fu8, 0x84u8, 0x00u8, 0x00u8, 0x00u8, 0x00u8,
                ],
                labels: st.labels,
                patches: st.patches.push(((st.code.len() + 6) as usize, l)),
            },
        ),
        // pop rax into the return register, then stop emitting.
        Instruction::Ret => GenStep::Done(GenState { code: st.code + seq![0x58u8], ..st }),
        Instruction::Halt => GenStep::Done(st),
        Instruction::Call(_) => GenStep::Failed(CodegenError::UnsupportedInstruction),
        Instruction::Write => GenStep::Failed(CodegenError::UnsupportedInstruction),
        Instruction::WriteChar => GenStep::Failed(CodegenError::UnsupportedInstruction),
        Instruction::Read => GenStep::Failed(CodegenError::UnsupportedInstruction),
        _ => GenStep::Running(with_code(st, inst_bytes(i))),
    }
}

/// The emission pass after the first `n` instructions.  Once the pass has
/// finished or failed, later instructions change nothing.
pub open spec fn run_upto(insts: Seq<Instruction>, n: int) -> GenStep
    decreases n,
{
    if n <= 0 {
        GenStep::Running(init_state())
    } else {
        match run_upto(insts, n - 1) {
            GenStep::Running(st) => step(st, insts[n - 1]),
            done_or_failed => done_or_failed,
        }
    }
}

/// The emission pass over the whole program.
pub open spec fn run_all(insts: Seq<Instruction>) -> GenStep {
    run_upto(insts, insts.len() as int)
}

/// One relocation site rewritten: the 4 placeholder bytes at `pos` become
/// the little-endian relative displacement `target - (pos + 4)`, the
/// convention of the encoded rel32 jumps.
pub open spec fn patch_one(code: Seq<u8>, pos: int, target: int) -> Seq<u8> {
    let d = le32_bytes(mod32(target - (pos + 4)));
    code.update(pos, d[0]).update(pos + 1, d[1]).update(pos + 2, d[2]).update(pos + 3, d[3])
}

/// The patch pass: rewrite each queued relocation site in order; fail on
/// the first site whose target label was never defined.
pub open spec fn patch_rec(
    code: Seq<u8>,
    labels: Map<u32, usize>,
    patches: Seq<(usize, u32)>,
) -> Result<Seq<u8>, CodegenError>
    decreases patches.len(),
{
    if patches.len() == 0 {
        Ok(code)
    } else {
        let pos = patches[0].0;
        let lab = patches[0].1;
        if labels.contains_key(lab) {
            patch_rec(
                patch_one(code, pos as int, labels[lab] as int),
                labels,
                patches.drop_first(),
            )
        } else {
            Err(CodegenError::UndefinedLabel(lab))
        }
    }
}

/// The patch pass applied to a finished emission state, then the
/// epilogue.
pub open spec fn patch_and_close(st: GenState) -> Result<Seq<u8>, CodegenError> {
    match patch_rec(st.code, st.labels, st.patches) {
        Ok(code) => Ok(code + epilogue_bytes()),
        Err(e) => Err(e),
    }
}

/// What compilation returns for a program: the emission pass over the
/// instructions, the patch pass over its relocation sites, and the
/// epilogue; or the first error either pass meets.  This is a function of
/// the instruction sequence alone, so compiling a program is independent
/// of whatever a generator did before.
pub open spec fn spec_compile(insts: Seq<Instruction>) -> Result<Seq<u8>, CodegenError> {
    match run_all(insts) {
        GenStep::Running(st) => patch_and_close(st),
        GenStep::Done(st) => patch_and_close(st),
        GenStep::Failed(e) => Err(e),
    }
}

/// An instruction this backend lowers.  `Call` and the I/O placeholders
/// are declared but have no lowering; compiling them reports an error
/// rather than silently emitting nothing.
pub open spec fn supported(i: Instruction) -> bool {
    match i {
        Instruction::Call(_) | Instruction::Write | Instruction::WriteChar
        | Instruction::Read => false,
        _ => true,
    }
}

/// An instruction that ends the emission pass.
pub open spec fn is_terminator(i: Instruction) -> bool {
    match i {
        Instruction::Ret | Instruction::Halt => true,
        _ => false,
    }
}

/// The emission pass reaches index `j`: no terminator stands strictly
/// before it.
pub open spec fn reached(insts: Seq<Instruction>, j: int) -> bool {
    forall|k: int| #![trigger insts[k]] 0 <= k < j ==> !is_terminator(insts[k])
}

/// The label a jump instruction targets, if the instruction is a jump.
pub open spec fn jump_target(i: Instruction) -> Option<u32> {
    match i {
        Instruction::Jmp(l) => Some(l),
        Instruction::JmpIf(l) => Some(l),
        Instruction::JmpIfNot(l) => Some(l),
        _ => None,
    }
}

/// Label `l` is defined at some position the emission pass reaches.
pub open spec fn label_defined(insts: Seq<Instruction>, l: u32) -> bool {
    exists|k: int|
        0 <= k < insts.len() && reached(insts, k) && insts[k] == Instruction::Label(l)
}

/// When compilation succeeds: every instruction the emission pass
/// reaches is supported, and every jump it reaches targets a label that
/// is defined at a reached position.  [`lemma_compile_ok_iff`] proves
/// this equivalent to [`spec_compile`] returning `Ok`.
pub open spec fn compiles(insts: Seq<Instruction>) -> bool {
    &&& (forall|j: int|
        #![trigger insts[j]]
        0 <= j < insts.len() && reached(insts, j) ==> supported(insts[j]))
    &&& (forall|j: int|
        #![trigger jump_target(insts[j])]
        0 <= j < insts.len() && reached(insts, j) && jump_target(insts[j]) is Some
            ==> label_defined(insts, jump_target(insts[j]).unwrap()))
}

/// Every queued relocation site lies wholly inside the code buffer.
pub open spec fn patches_in_bounds(st: GenState) -> bool {
    forall|j: int|
        0 <= j < st.patches.len() ==> #[trigger] st.patches[j].0 + 4 <= st.code.len()
}

/// A step of the emission pass keeps every relocation site inside the
/// (only ever growing) code buffer.
pub proof fn lemma_step_in_bounds(st: GenState, i: Instruction)
    requires
        patches_in_bounds(st),
    ensures
        step(st, i) matches GenStep::Running(st2) ==> patches_in_bounds(st2) && st2.code.len()
            >= st.code.len(),
        step(st, i) matches GenStep::Done(st2) ==> patches_in_bounds(st2) && st2.code.len()
            >= st.code.len(),
{
}

/// Once the emission pass has finished or failed, running it further
/// changes nothing.
pub proof fn lemma_run_stable(insts: Seq<Instruction>, m: int, n: int)
    requires
        0 <= m <= n,
        !(run_upto(insts, m) is Running),
    ensures
        run_upto(insts, n) == run_upto(insts, m),
    decreases n - m,
{
    if n > m {
        lemma_run_stable(insts, m, n - 1);
    }
}

/// Label `l` is defined somewhere in the first `n` instructions.
spec fn has_label_before(insts: Seq<Instruction>, n: int, l: u32) -> bool {
    exists|k: int| 0 <= k < n && insts[k] == Instruction::Label(l)
}

/// Some jump in the first `n` instructions targets label `l`.
spec fn jump_before(insts: Seq<Instruction>, n: int, l: u32) -> bool {
    exists|k: int| 0 <= k < n && jump_target(insts[k]) == Some(l)
}

/// Some queued relocation site targets label `l`.
spec fn patch_with(st: GenState, l: u32) -> bool {
    exists|p: int| 0 <= p < st.patches.len() && st.patches[p].1 == l
}

/// The label table and relocation queue reflect exactly the first `n`
/// instructions: a label is recorded iff one of them defines it, and the
/// queued targets are exactly the targets of the jumps among them.
spec fn tables_track(insts: Seq<Instruction>, n: int, st: GenState) -> bool {
    &&& (forall|l: u32|
        #![trigger st.labels.contains_key(l)]
        st.labels.contains_key(l) <==> has_label_before(insts, n, l))
    &&& (forall|p: int|
        #![trigger st.patches[p]]
        0 <= p < st.patches.len() ==> jump_before(insts, n, st.patches[p].1))
    &&& (forall|k: int|
        #![trigger jump_target(insts[k])]
        0 <= k < n && jump_target(insts[k]) is Some ==> patch_with(
            st,
            jump_target(insts[k]).unwrap(),
        ))
}

/// The emission pass finished at the terminator at index `t`, with the
/// tables reflecting the instructions before it.
spec fn done_at(insts: Seq<Instruction>, t: int, st: GenState) -> bool {
    &&& is_terminator(insts[t])
    &&& reached(insts, t)
    &&& (forall|j: int| #![trigger insts[j]] 0 <= j < t ==> supported(insts[j]))
    &&& tables_track(insts, t, st)
}

spec fn done_before(insts: Seq<Instruction>, n: int, st: GenState) -> bool {
    exists|t: int| 0 <= t < n && #[trigger] done_at(insts, t, st)
}

/// Some reached instruction among the first `n` is unsupported.
spec fn has_unsupported_before(insts: Seq<Instruction>, n: int) -> bool {
    exists|j: int| 0 <= j < n && reached(insts, j) && !(#[trigger] supported(insts[j]))
}

/// Tracking carries over to a state with the same tables.
proof fn lemma_tables_same(insts: Seq<Instruction>, n: int, st: GenState, st2: GenState)
    requires
        tables_track(insts, n, st),
        st2.labels == st.labels,
        st2.patches == st.patches,
    ensures
        tables_track(insts, n, st2),
{
    assert forall|l: u32| st2.labels.contains_key(l) <==> has_label_before(insts, n, l) by {
        assert(st2.labels.contains_key(l) == st.labels.contains_key(l));
    }
    assert forall|p: int| 0 <= p < st2.patches.len() implies jump_before(
        insts,
        n,
        st2.patches[p].1,
    ) by {
        assert(st2.patches[p] == st.patches[p]);
    }
    assert forall|k: int| 0 <= k < n && jump_target(insts[k]) is Some implies patch_with(
        st2,
        jump_target(insts[k]).unwrap(),
    ) by {
        let q = jump_target(insts[k]).unwrap();
        assert(patch_with(st, q));
        let p = choose|p: int| 0 <= p < st.patches.len() && st.patches[p].1 == q;
        assert(st2.patches[p] == st.patches[p]);
        assert(0 <= p < st2.patches.len() && st2.patches[p].1 == q);
    }
}

/// Extending the tracked prefix past an instruction that neither
/// defines a label nor jumps.
proof fn lemma_tables_extend_plain(insts: Seq<Instruction>, n: int, st: GenState)
    requires
        1 <= n <= insts.len(),
        tables_track(insts, n - 1, st),
        !(insts[n - 1] matches Instruction::Label(_)),
        jump_target(insts[n - 1]) is None,
    ensures
        tables_track(insts, n, st),
{
    assert forall|l: u32| st.labels.contains_key(l) <==> has_label_before(insts, n, l) by {
        if st.labels.contains_key(l) {
            let k = choose|k: int| 0 <= k < n - 1 && insts[k] == Instruction::Label(l);
            assert(0 <= k < n && insts[k] == Instruction::Label(l));
        }
        if has_label_before(insts, n, l) {
            let k = choose|k: int| 0 <= k < n && insts[k] == Instruction::Label(l);
            assert(k != n - 1);
            assert(has_label_before(insts, n - 1, l));
        }
    }
    assert forall|p: int| 0 <= p < st.patches.len() implies jump_before(
        insts,
        n,
        st.patches[p].1,
    ) by {
        assert(jump_before(insts, n - 1, st.patches[p].1));
        let k = choose|k: int| 0 <= k < n - 1 && jump_target(insts[k]) == Some(st.patches[p].1);
        assert(0 <= k < n && jump_target(insts[k]) == Some(st.patches[p].1));
    }
    assert forall|k: int| 0 <= k < n && jump_target(insts[k]) is Some implies patch_with(
        st,
        jump_target(insts[k]).unwrap(),
    ) by {
        assert(k != n - 1);
    }
}

/// Extending the tracked prefix past a label definition.
proof fn lemma_tables_extend_label(
    insts: Seq<Instruction>,
    n: int,
    st: GenState,
    st2: GenState,
    id: u32,
    pos: usize,
)
    requires
        1 <= n <= insts.len(),
        tables_track(insts, n - 1, st),
        insts[n - 1] == Instruction::Label(id),
        st2.labels == st.labels.insert(id, pos),
        st2.patches == st.patches,
    ensures
        tables_track(insts, n, st2),
{
    assert forall|l: u32| st2.labels.contains_key(l) <==> has_label_before(insts, n, l) by {
        if st2.labels.contains_key(l) {
            if l == id {
                assert(0 <= n - 1 < n && insts[n - 1] == Instruction::Label(l));
            } else {
                assert(st.labels.contains_key(l));
                let k = choose|k: int| 0 <= k < n - 1 && insts[k] == Instruction::Label(l);
                assert(0 <= k < n && insts[k] == Instruction::Label(l));
            }
        }
        if has_label_before(insts, n, l) {
            let k = choose|k: int| 0 <= k < n && insts[k] == Instruction::Label(l);
            if k == n - 1 {
                assert(l == id);
            } else {
                assert(has_label_before(insts, n - 1, l));
            }
        }
    }
    assert forall|p: int| 0 <= p < st2.patches.len() implies jump_before(
        insts,
        n,
        st2.patches[p].1,
    ) by {
        assert(st2.patches[p] == st.patches[p]);
        assert(jump_before(insts, n - 1, st.patches[p].1));
        let k = choose|k: int| 0 <= k < n - 1 && jump_target(insts[k]) == Some(st.patches[p].1);
        assert(0 <= k < n && jump_target(insts[k]) == Some(st.patches[p].1));
    }
    assert forall|k: int| 0 <= k < n && jump_target(insts[k]) is Some implies patch_with(
        st2,
        jump_target(insts[k]).unwrap(),
    ) by {
        assert(k != n - 1);
        let l = jump_target(insts[k]).unwrap();
        assert(patch_with(st, l));
        let p = choose|p: int| 0 <= p < st.patches.len() && st.patches[p].1 == l;
        assert(st2.patches[p] == st.patches[p]);
        assert(0 <= p < st2.patches.len() && st2.patches[p].1 == l);
    }
}

/// Extending the tracked prefix past a jump, whose target is queued.
proof fn lemma_tables_extend_jump(
    insts: Seq<Instruction>,
    n: int,
    st: GenState,
    st2: GenState,
    l: u32,
    pos: usize,
)
    requires
        1 <= n <= insts.len(),
        tables_track(insts, n - 1, st),
        jump_target(insts[n - 1]) == Some(l),
        st2.labels == st.labels,
        st2.patches == st.patches.push((pos, l)),
    ensures
        tables_track(insts, n, st2),
{
    assert forall|q: u32| st2.labels.contains_key(q) <==> has_label_before(insts, n, q) by {
        if st2.labels.contains_key(q) {
            let k = choose|k: int| 0 <= k < n - 1 && insts[k] == Instruction::Label(q);
            assert(0 <= k < n && insts[k] == Instruction::Label(q));
        }
        if has_label_before(insts, n, q) {
            let k = choose|k: int| 0 <= k < n && insts[k] == Instruction::Label(q);
            assert(k != n - 1);
            assert(has_label_before(insts, n - 1, q));
        }
    }
    assert forall|p: int| 0 <= p < st2.patches.len() implies jump_before(
        insts,
        n,
        st2.patches[p].1,
    ) by {
        if p < st.patches.len() {
            assert(st2.patches[p] == st.patches[p]);
            assert(jump_before(insts, n - 1, st.patches[p].1));
            let k = choose|k: int|
                0 <= k < n - 1 && jump_target(insts[k]) == Some(st.patches[p].1);
            assert(0 <= k < n && jump_target(insts[k]) == Some(st.patches[p].1));
        } else {
            assert(st2.patches[p] == (pos, l));
            assert(0 <= n - 1 < n && jump_target(insts[n - 1]) == Some(l));
        }
    }
    assert forall|k: int| 0 <= k < n && jump_target(insts[k]) is Some implies patch_with(
        st2,
        jump_target(insts[k]).unwrap(),
    ) by {
        let q = jump_target(insts[k]).unwrap();
        if k == n - 1 {
            assert(st2.patches[st.patches.len() as int] == (pos, l));
            assert(0 <= st.patches.len() < st2.patches.len() && st2.patches[
                st.patches.len() as int
            ].1 == q);
        } else {
            assert(patch_with(st, q));
            let p = choose|p: int| 0 <= p < st.patches.len() && st.patches[p].1 == q;
            assert(st2.patches[p] == st.patches[p]);
            assert(0 <= p < st2.patches.len() && st2.patches[p].1 == q);
        }
    }
}

/// What the emission pass tracks after `n` instructions: while running,
/// everything so far is supported and the tables reflect the prefix;
/// when done, the same holds up to the terminator; a failure reports an
/// unsupported instruction, and only that.
proof fn lemma_run_tracks(insts: Seq<Instruction>, n: int)
    requires
        0 <= n <= insts.len(),
    ensures
        (run_upto(insts, n) matches GenStep::Running(st) ==> {
            &&& reached(insts, n)
            &&& (forall|j: int| #![trigger insts[j]] 0 <= j < n ==> supported(insts[j]))
            &&& tables_track(insts, n, st)
        }),
        (run_upto(insts, n) matches GenStep::Done(st) ==> done_before(insts, n, st)),
        (run_upto(insts, n) matches GenStep::Failed(e) ==> e
            == CodegenError::UnsupportedInstruction && has_unsupported_before(insts, n)),
    decreases n,
{
    if n > 0 {
        lemma_run_tracks(insts, n - 1);
        match run_upto(insts, n - 1) {
            GenStep::Running(st) => {
                let i = insts[n - 1];
                match i {
                    Instruction::Label(id) => {
                        let pos = #[verifier::truncate] (st.code.len() as usize);
                        let st2 = GenState { labels: st.labels.insert(id, pos), ..st };
                        lemma_tables_extend_label(insts, n, st, st2, id, pos);
                    }
                    Instruction::Jmp(l) => {
                        let st2 = (match step(st, i) {
                            GenStep::Running(s) => s,
                            GenStep::Done(s) => s,
                            GenStep::Failed(_) => st,
                        });
                        lemma_tables_extend_jump(
                            insts,
                            n,
                            st,
                            st2,
                            l,
                            (st.code.len() + 1) as usize,
                        );
                    }
                    Instruction::JmpIf(l) => {
                        let st2 = (match step(st, i) {
                            GenStep::Running(s) => s,
                            GenStep::Done(s) => s,
                            GenStep::Failed(_) => st,
                        });
                        lemma_tables_extend_jump(
                            insts,
                            n,
                            st,
                            st2,
                            l,
                            (st.code.len() + 6) as usize,
                        );
                    }
                    Instruction::JmpIfNot(l) => {
                        let st2 = (match step(st, i) {
                            GenStep::Running(s) => s,
                            GenStep::Done(s) => s,
                            GenStep::Failed(_) => st,
                        });
                        lemma_tables_extend_jump(
                            insts,
                            n,
                            st,
                            st2,
                            l,
                            (st.code.len() + 6) as usize,
                        );
                    }
                    Instruction::Ret => {
                        let st2 = GenState { code: st.code + seq![0x58u8], ..st };
                        lemma_tables_same(insts, n - 1, st, st2);
                        assert(done_at(insts, n - 1, st2));
                        assert(done_before(insts, n, st2));
                    }
                    Instruction::Halt => {
                        assert(done_at(insts, n - 1, st));
                        assert(done_before(insts, n, st));
                    }
                    Instruction::Call(_) | Instruction::Write | Instruction::WriteChar
                    | Instruction::Read => {
                        assert(0 <= n - 1 < n && reached(insts, n - 1) && !supported(
                            insts[n - 1],
                        ));
                        assert(has_unsupported_before(insts, n));
                    }
                    _ => {
                        lemma_tables_extend_plain(insts, n, st);
                    }
                }
            }
            GenStep::Done(st) => {
                let t = choose|t: int| 0 <= t < n - 1 && #[trigger] done_at(insts, t, st);
                assert(0 <= t < n && done_at(insts, t, st));
            }
            GenStep::Failed(_) => {
                let j = choose|j: int|
                    0 <= j < n - 1 && reached(insts, j) && !(#[trigger] supported(insts[j]));
                assert(0 <= j < n && reached(insts, j) && !supported(insts[j]));
            }
        }
    }
}

/// The patch pass succeeds exactly when every queued relocation site
/// targets a recorded label.
proof fn lemma_patch_rec_ok(code: Seq<u8>, labels: Map<u32, usize>, patches: Seq<(usize, u32)>)
    ensures
        (patch_rec(code, labels, patches) is Ok) <==> (forall|p: int|
            #![trigger patches[p]]
            0 <= p < patches.len() ==> labels.contains_key(patches[p].1)),
    decreases patches.len(),
{
    if patches.len() > 0 {
        if labels.contains_key(patches[0].1) {
            let rest = patches.drop_first();
            lemma_patch_rec_ok(
                patch_one(code, patches[0].0 as int, labels[patches[0].1] as int),
                labels,
                rest,
            );
            if patch_rec(code, labels, patches) is Ok {
                assert forall|p: int| 0 <= p < patches.len() implies labels.contains_key(
                    patches[p].1,
                ) by {
                    if p > 0 {
                        assert(rest[p - 1] == patches[p]);
                    }
                }
            } else {
                let p = choose|p: int| 0 <= p < rest.len() && !labels.contains_key(rest[p].1);
                assert(patches[p + 1] == rest[p]);
                assert(!labels.contains_key(patches[p + 1].1));
            }
        }
    }
}

/// No position past a terminator is reached.
proof fn lemma_not_reached_beyond(insts: Seq<Instruction>, t: int, j: int)
    requires
        0 <= t < j,
        is_terminator(insts[t]),
    ensures
        !reached(insts, j),
{
    assert(!(forall|k: int| #![trigger insts[k]] 0 <= k < j ==> !is_terminator(insts[k]))) by {
        assert(0 <= t < j && is_terminator(insts[t]));
    }
}

/// Success is owed exactly on programs that compile: [`spec_compile`]
/// returns `Ok` iff every instruction the emission pass reaches is
/// supported and every jump it reaches targets a defined label
/// ([`compiles`]).
pub proof fn lemma_compile_ok_iff(insts: Seq<Instruction>)
    ensures
        spec_compile(insts) is Ok <==> compiles(insts),
{
    let n = insts.len() as int;
    lemma_run_tracks(insts, n);
    match run_all(insts) {
        GenStep::Running(st) => {
            lemma_patch_rec_ok(st.code, st.labels, st.patches);
            if spec_compile(insts) is Ok {
                assert forall|j: int|
                    0 <= j < n && reached(insts, j) && jump_target(insts[j]) is Some implies label_defined(
                    insts,
                    jump_target(insts[j]).unwrap(),
                ) by {
                    let l = jump_target(insts[j]).unwrap();
                    assert(patch_with(st, l));
                    let p = choose|p: int| 0 <= p < st.patches.len() && st.patches[p].1 == l;
                    assert(st.labels.contains_key(st.patches[p].1));
                    let k = choose|k: int| 0 <= k < n && insts[k] == Instruction::Label(l);
                    assert(reached(insts, k));
                    assert(0 <= k < n && reached(insts, k) && insts[k] == Instruction::Label(
                        l,
                    ));
                }
                assert(compiles(insts));
            }
            if compiles(insts) {
                assert forall|p: int| 0 <= p < st.patches.len() implies st.labels.contains_key(
                    st.patches[p].1,
                ) by {
                    let l = st.patches[p].1;
                    assert(jump_before(insts, n, l));
                    let k = choose|k: int| 0 <= k < n && jump_target(insts[k]) == Some(l);
                    assert(reached(insts, k));
                    assert(label_defined(insts, l));
                    let k2 = choose|k2: int|
                        0 <= k2 < insts.len() && reached(insts, k2) && insts[k2]
                            == Instruction::Label(l);
                    assert(has_label_before(insts, n, l));
                }
                assert(spec_compile(insts) is Ok);
            }
        }
        GenStep::Done(st) => {
            lemma_patch_rec_ok(st.code, st.labels, st.patches);
            let t = choose|t: int| 0 <= t < n && #[trigger] done_at(insts, t, st);
            if spec_compile(insts) is Ok {
                assert forall|j: int|
                    0 <= j < n && reached(insts, j) implies supported(insts[j]) by {
                    if j > t {
                        lemma_not_reached_beyond(insts, t, j);
                    } else if j == t {
                        assert(is_terminator(insts[t]));
                    }
                }
                assert forall|j: int|
                    0 <= j < n && reached(insts, j) && jump_target(insts[j]) is Some implies label_defined(
                    insts,
                    jump_target(insts[j]).unwrap(),
                ) by {
                    if j > t {
                        lemma_not_reached_beyond(insts, t, j);
                    }
                    assert(j < t);
                    let l = jump_target(insts[j]).unwrap();
                    assert(patch_with(st, l));
                    let p = choose|p: int| 0 <= p < st.patches.len() && st.patches[p].1 == l;
                    assert(st.labels.contains_key(st.patches[p].1));
                    let k = choose|k: int| 0 <= k < t && insts[k] == Instruction::Label(l);
                    assert(reached(insts, k));
                    assert(0 <= k < n && reached(insts, k) && insts[k] == Instruction::Label(
                        l,
                    ));
                }
                assert(compiles(insts));
            }
            if compiles(insts) {
                assert forall|p: int| 0 <= p < st.patches.len() implies st.labels.contains_key(
                    st.patches[p].1,
                ) by {
                    let l = st.patches[p].1;
                    assert(jump_before(insts, t, l));
                    let k = choose|k: int| 0 <= k < t && jump_target(insts[k]) == Some(l);
                    assert(reached(insts, k));
                    assert(label_defined(insts, l));
                    let k2 = choose|k2: int|
                        0 <= k2 < insts.len() && reached(insts, k2) && insts[k2]
                            == Instruction::Label(l);
                    if k2 > t {
                        lemma_not_reached_beyond(insts, t, k2);
                    }
                    assert(k2 != t);
                    assert(has_label_before(insts, t, l));
                }
                assert(spec_compile(insts) is Ok);
            }
        }
        GenStep::Failed(e) => {
            let j = choose|j: int|
                0 <= j < insts.len() && reached(insts, j) && !(#[trigger] supported(insts[j]));
            if compiles(insts) {
                assert(supported(insts[j]));
            }
        }
    }
}

} // verus!
