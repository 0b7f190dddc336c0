//! Byte-level tests of the code generator: exact encodings, label
//! resolution and patching, terminators, error reporting, and generator
//! reuse.

use stackjit::{page_aligned_len, CodegenError, Compiler, Instruction, Program};

fn compile(insts: Vec<Instruction>) -> Result<Vec<u8>, CodegenError> {
    let mut c = Compiler::new();
    c.compile(&Program::new(insts))
}

fn compiled(insts: Vec<Instruction>) -> Vec<u8> {
    compile(insts).unwrap()
}

fn prologue() -> Vec<u8> {
    vec![0x55, 0x48, 0x89, 0xE5, 0x48, 0x81, 0xEC, 0x00, 0x04, 0x00, 0x00]
}

fn epilogue() -> Vec<u8> {
    vec![0x48, 0x89, 0xEC, 0x5D, 0xC3]
}

fn load(v: i64) -> Vec<u8> {
    let mut b = vec![0x48, 0xB8];
    b.extend_from_slice(&v.to_le_bytes());
    b.push(0x50);
    b
}

fn cat(parts: &[Vec<u8>]) -> Vec<u8> {
    let mut out = Vec::new();
    for p in parts {
        out.extend_from_slice(p);
    }
    out
}

#[test]
fn empty_program_is_prologue_and_epilogue() {
    assert_eq!(compiled(vec![]), cat(&[prologue(), epilogue()]));
}

#[test]
fn load_immediate_is_little_endian() {
    let expected = cat(&[
        prologue(),
        vec![0x48, 0xB8, 0xEF, 0xCD, 0xAB, 0x89, 0x67, 0x45, 0x23, 0x01, 0x50],
        vec![0x58],
        epilogue(),
    ]);
    assert_eq!(
        compiled(vec![Instruction::Load(0x0123_4567_89AB_CDEF), Instruction::Ret]),
        expected
    );
}

#[test]
fn negative_immediate_is_twos_complement() {
    let expected = cat(&[
        prologue(),
        vec![0x48, 0xB8, 0xFE, 0xFF, 0xFF, 0xFF, 0xFF, 0xFF, 0xFF, 0xFF, 0x50],
        vec![0x58],
        epilogue(),
    ]);
    assert_eq!(compiled(vec![Instruction::Load(-2), Instruction::Ret]), expected);
}

#[test]
fn store_and_load_var_use_frame_offsets() {
    // Slot 0 sits 8 bytes below the frame base, slot 3 sits 32 below.
    let expected = cat(&[
        prologue(),
        load(25),
        vec![0x58, 0x48, 0x89, 0x85, 0xF8, 0xFF, 0xFF, 0xFF], // store slot 0
        vec![0x48, 0x8B, 0x85, 0xE0, 0xFF, 0xFF, 0xFF, 0x50], // load slot 3
        vec![0x58],
        epilogue(),
    ]);
    let got = compiled(vec![
        Instruction::Load(25),
        Instruction::Store(0),
        Instruction::LoadVar(3),
        Instruction::Ret,
    ]);
    assert_eq!(got, expected);
}

#[test]
fn extreme_immediates_encode_exactly() {
    let min = cat(&[
        prologue(),
        vec![0x48, 0xB8, 0x00, 0x00, 0x00, 0x00, 0x00, 0x00, 0x00, 0x80, 0x50],
        vec![0x58],
        epilogue(),
    ]);
    assert_eq!(compiled(vec![Instruction::Load(i64::MIN), Instruction::Ret]), min);

    let max = cat(&[
        prologue(),
        vec![0x48, 0xB8, 0xFF, 0xFF, 0xFF, 0xFF, 0xFF, 0xFF, 0xFF, 0x7F, 0x50],
        vec![0x58],
        epilogue(),
    ]);
    assert_eq!(compiled(vec![Instruction::Load(i64::MAX), Instruction::Ret]), max);
}

#[test]
fn slot_offsets_at_and_past_the_frame_edge() {
    // Slot 127 is the last one inside the 1024-byte frame (offset -1024);
    // larger ids encode the same way, with no bounds check.
    let last = cat(&[
        prologue(),
        load(1),
        vec![0x58, 0x48, 0x89, 0x85, 0x00, 0xFC, 0xFF, 0xFF],
        vec![0x58],
        epilogue(),
    ]);
    assert_eq!(
        compiled(vec![Instruction::Load(1), Instruction::Store(127), Instruction::Ret]),
        last
    );

    let past = cat(&[
        prologue(),
        load(1),
        vec![0x58, 0x48, 0x89, 0x85, 0xF8, 0xFB, 0xFF, 0xFF],
        vec![0x58],
        epilogue(),
    ]);
    assert_eq!(
        compiled(vec![Instruction::Load(1), Instruction::Store(128), Instruction::Ret]),
        past
    );
}

#[test]
fn arithmetic_program_bytes() {
    // The round-trip program: 100 + 200.
    let expected = cat(&[
        prologue(),
        load(100),
        load(200),
        vec![0x5B, 0x58, 0x48, 0x01, 0xD8, 0x50],
        vec![0x58],
        epilogue(),
    ]);
    let got = compiled(vec![
        Instruction::Load(100),
        Instruction::Load(200),
        Instruction::Add,
        Instruction::Ret,
    ]);
    assert_eq!(got, expected);
}

#[test]
fn operator_chain_bytes() {
    // (10 + 5) * 3 - 2 as stack code: add, imul and sub encodings in order.
    let expected = cat(&[
        prologue(),
        load(10),
        load(5),
        vec![0x5B, 0x58, 0x48, 0x01, 0xD8, 0x50],
        load(3),
        vec![0x5B, 0x58, 0x48, 0x0F, 0xAF, 0xC3, 0x50],
        load(2),
        vec![0x5B, 0x58, 0x48, 0x29, 0xD8, 0x50],
        vec![0x58],
        epilogue(),
    ]);
    let got = compiled(vec![
        Instruction::Load(10),
        Instruction::Load(5),
        Instruction::Add,
        Instruction::Load(3),
        Instruction::Mul,
        Instruction::Load(2),
        Instruction::Sub,
        Instruction::Ret,
    ]);
    assert_eq!(got, expected);
}

#[test]
fn comparison_zeroes_result_before_setcc() {
    let expected = cat(&[
        prologue(),
        load(1),
        load(5),
        vec![
            0x5B, 0x58, 0x48, 0x39, 0xD8, 0xB8, 0x00, 0x00, 0x00, 0x00, 0x0F, 0x9E, 0xC0, 0x50,
        ],
        vec![0x58],
        epilogue(),
    ]);
    let got = compiled(vec![
        Instruction::Load(1),
        Instruction::Load(5),
        Instruction::Lte,
        Instruction::Ret,
    ]);
    assert_eq!(got, expected);
}

#[test]
fn forward_jump_resolves_to_zero_displacement() {
    // The jump's displacement field ends exactly where the label sits.
    let expected = cat(&[
        prologue(),
        vec![0xE9, 0x00, 0x00, 0x00, 0x00],
        vec![0x58],
        epilogue(),
    ]);
    let got = compiled(vec![Instruction::Jmp(1), Instruction::Label(1), Instruction::Ret]);
    assert_eq!(got, expected);
}

#[test]
fn backward_jump_has_negative_displacement() {
    // The label sits 5 bytes before the end of the displacement field.
    let expected = cat(&[
        prologue(),
        vec![0xE9, 0xFB, 0xFF, 0xFF, 0xFF],
        vec![0x58],
        epilogue(),
    ]);
    let got = compiled(vec![Instruction::Label(1), Instruction::Jmp(1), Instruction::Ret]);
    assert_eq!(got, expected);
}

#[test]
fn conditional_jump_encodings() {
    let jmp_if = cat(&[
        prologue(),
        load(1),
        vec![0x58, 0x48, 0x85, 0xC0, 0x0F, 0x85, 0x00, 0x00, 0x00, 0x00],
        vec![0x58],
        epilogue(),
    ]);
    let got = compiled(vec![
        Instruction::Load(1),
        Instruction::JmpIf(2),
        Instruction::Label(2),
        Instruction::Ret,
    ]);
    assert_eq!(got, jmp_if);

    let jmp_if_not = cat(&[
        prologue(),
        load(1),
        vec![0x58, 0x48, 0x85, 0xC0, 0x0F, 0x84, 0x00, 0x00, 0x00, 0x00],
        vec![0x58],
        epilogue(),
    ]);
    let got = compiled(vec![
        Instruction::Load(1),
        Instruction::JmpIfNot(2),
        Instruction::Label(2),
        Instruction::Ret,
    ]);
    assert_eq!(got, jmp_if_not);
}

#[test]
fn duplicate_label_last_definition_wins() {
    // Both definitions of label 1 are seen; the jump binds to the later
    // one, 5 bytes before the end of its displacement field.
    let expected = cat(&[
        prologue(),
        load(5),
        vec![0xE9, 0xFB, 0xFF, 0xFF, 0xFF],
        vec![0x58],
        epilogue(),
    ]);
    let got = compiled(vec![
        Instruction::Label(1),
        Instruction::Load(5),
        Instruction::Label(1),
        Instruction::Jmp(1),
        Instruction::Ret,
    ]);
    assert_eq!(got, expected);
}

#[test]
fn ret_stops_emission() {
    let expected = cat(&[prologue(), load(1), vec![0x58], epilogue()]);
    let got = compiled(vec![Instruction::Load(1), Instruction::Ret, Instruction::Load(2)]);
    assert_eq!(got, expected);
}

#[test]
fn halt_stops_emission_without_return_pop() {
    let expected = cat(&[prologue(), load(7), epilogue()]);
    let got = compiled(vec![
        Instruction::Load(7),
        Instruction::Halt,
        Instruction::Load(9),
        Instruction::Ret,
    ]);
    assert_eq!(got, expected);
}

#[test]
fn unsupported_instructions_error() {
    for insts in [
        vec![Instruction::Call(0), Instruction::Ret],
        vec![Instruction::Load(1), Instruction::Write, Instruction::Ret],
        vec![Instruction::Load(1), Instruction::WriteChar, Instruction::Ret],
        vec![Instruction::Read, Instruction::Ret],
    ] {
        assert_eq!(compile(insts), Err(CodegenError::UnsupportedInstruction));
    }
}

#[test]
fn instructions_after_terminator_do_not_error() {
    let expected = cat(&[prologue(), load(1), vec![0x58], epilogue()]);
    let got = compiled(vec![Instruction::Load(1), Instruction::Ret, Instruction::Write]);
    assert_eq!(got, expected);
}

#[test]
fn undefined_label_errors() {
    assert_eq!(
        compile(vec![Instruction::Jmp(7), Instruction::Ret]),
        Err(CodegenError::UndefinedLabel(7))
    );
    assert_eq!(
        compile(vec![Instruction::Load(1), Instruction::JmpIf(3), Instruction::Ret]),
        Err(CodegenError::UndefinedLabel(3))
    );
}

#[test]
fn label_after_terminator_is_undefined() {
    // Emission stops at Ret, so the label is never recorded.
    assert_eq!(
        compile(vec![Instruction::Jmp(1), Instruction::Ret, Instruction::Label(1)]),
        Err(CodegenError::UndefinedLabel(1))
    );
}

#[test]
fn emission_error_precedes_patch_error() {
    let got = compile(vec![Instruction::Jmp(9), Instruction::Write, Instruction::Ret]);
    assert_eq!(got, Err(CodegenError::UnsupportedInstruction));
}

#[test]
fn regeneration_isolation() {
    // A generator reused across compilations behaves exactly like fresh
    // ones: labels and relocation sites never leak between programs.
    let first = vec![
        Instruction::Load(1),
        Instruction::Label(4),
        Instruction::Jmp(4),
        Instruction::Ret,
    ];
    let second = vec![
        Instruction::Jmp(1),
        Instruction::Label(1),
        Instruction::Load(2),
        Instruction::Ret,
    ];

    let mut reused = Compiler::new();
    let first_reused = reused.compile(&Program::new(first.clone())).unwrap();
    let second_reused = reused.compile(&Program::new(second.clone())).unwrap();

    let mut fresh_a = Compiler::new();
    let mut fresh_b = Compiler::new();
    assert_eq!(first_reused, fresh_a.compile(&Program::new(first)).unwrap());
    assert_eq!(second_reused, fresh_b.compile(&Program::new(second)).unwrap());
}

#[test]
fn compiling_twice_gives_identical_bytes() {
    let insts = vec![
        Instruction::Load(3),
        Instruction::Label(1),
        Instruction::Load(1),
        Instruction::Sub,
        Instruction::Dup,
        Instruction::JmpIf(1),
        Instruction::Ret,
    ];
    let mut c = Compiler::new();
    let once = c.compile(&Program::new(insts.clone())).unwrap();
    let twice = c.compile(&Program::new(insts)).unwrap();
    assert_eq!(once, twice);
}

#[test]
fn page_aligned_len_rounds_up() {
    assert_eq!(page_aligned_len(0), 0);
    assert_eq!(page_aligned_len(1), 4096);
    assert_eq!(page_aligned_len(4095), 4096);
    assert_eq!(page_aligned_len(4096), 4096);
    assert_eq!(page_aligned_len(4097), 8192);
    assert_eq!(page_aligned_len(100_000), 102_400);
}
