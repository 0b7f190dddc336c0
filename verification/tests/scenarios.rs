//! Scenario programs compiled to their exact byte sequences, including
//! the patched forward and backward jump displacements.  Running the
//! bytes natively needs memory the tests cannot map, so each expected
//! vector here is the hand-assembled machine code whose execution yields
//! the scenario's result.

use stackjit::{Compiler, Instruction, Program};

fn compiled(insts: Vec<Instruction>) -> Vec<u8> {
    let mut c = Compiler::new();
    c.compile(&Program::new(insts)).unwrap()
}

fn prologue() -> Vec<u8> {
    vec![0x55, 0x48, 0x89, 0xE5, 0x48, 0x81, 0xEC, 0x00, 0x04, 0x00, 0x00]
}

fn epilogue() -> Vec<u8> {
    vec![0x48, 0x89, 0xEC, 0x5D, 0xC3]
}

fn load(v: i64) -> Vec<u8> {
    let mut b = vec![0x48, 0xB8];
    b.extend_from_slice(&v.to_le_bytes());
    b.push(0x50);
    b
}

fn store(id: u32) -> Vec<u8> {
    let mut b = vec![0x58, 0x48, 0x89, 0x85];
    b.extend_from_slice(&(-(8 * (id as i32 + 1))).to_le_bytes());
    b
}

fn load_var(id: u32) -> Vec<u8> {
    let mut b = vec![0x48, 0x8B, 0x85];
    b.extend_from_slice(&(-(8 * (id as i32 + 1))).to_le_bytes());
    b.push(0x50);
    b
}

fn add() -> Vec<u8> {
    vec![0x5B, 0x58, 0x48, 0x01, 0xD8, 0x50]
}

fn cat(parts: &[Vec<u8>]) -> Vec<u8> {
    let mut out = Vec::new();
    for p in parts {
        out.extend_from_slice(p);
    }
    out
}

#[test]
fn stack_manipulation_bytes() {
    // 42, dup, 10, swap -> [42, 10, 42]; add; mul: executes to 2184.
    let expected = cat(&[
        prologue(),
        load(42),
        vec![0x48, 0x8B, 0x04, 0x24, 0x50],
        load(10),
        vec![0x5B, 0x58, 0x53, 0x50],
        add(),
        vec![0x5B, 0x58, 0x48, 0x0F, 0xAF, 0xC3, 0x50],
        vec![0x58],
        epilogue(),
    ]);
    let got = compiled(vec![
        Instruction::Load(42),
        Instruction::Dup,
        Instruction::Load(10),
        Instruction::Swap,
        Instruction::Add,
        Instruction::Mul,
        Instruction::Ret,
    ]);
    assert_eq!(got, expected);
}

#[test]
fn variable_persistence_bytes() {
    // Store 25 and 17 in slots 0 and 1, reload both, add: executes to 42.
    let expected = cat(&[
        prologue(),
        load(25),
        store(0),
        load(17),
        store(1),
        load_var(0),
        load_var(1),
        add(),
        vec![0x58],
        epilogue(),
    ]);
    let got = compiled(vec![
        Instruction::Load(25),
        Instruction::Store(0),
        Instruction::Load(17),
        Instruction::Store(1),
        Instruction::LoadVar(0),
        Instruction::LoadVar(1),
        Instruction::Add,
        Instruction::Ret,
    ]);
    assert_eq!(got, expected);
}

#[test]
fn bitwise_composition_bytes() {
    // (5 << 2) | (3 & 7): executes to 23.
    let expected = cat(&[
        prologue(),
        load(5),
        load(2),
        vec![0x5B, 0x58, 0x48, 0x89, 0xD9, 0x48, 0xD3, 0xE0, 0x50],
        load(3),
        load(7),
        vec![0x5B, 0x58, 0x48, 0x21, 0xD8, 0x50],
        vec![0x5B, 0x58, 0x48, 0x09, 0xD8, 0x50],
        vec![0x58],
        epilogue(),
    ]);
    let got = compiled(vec![
        Instruction::Load(5),
        Instruction::Load(2),
        Instruction::Shl,
        Instruction::Load(3),
        Instruction::Load(7),
        Instruction::Band,
        Instruction::Bor,
        Instruction::Ret,
    ]);
    assert_eq!(got, expected);
}

#[test]
fn conditional_branch_taken_bytes() {
    // 0 is false: the jz jumps over the 999 load (11 bytes ahead of the
    // displacement field's end), so execution returns 42.
    let expected = cat(&[
        prologue(),
        load(0),
        vec![0x58, 0x48, 0x85, 0xC0, 0x0F, 0x84, 0x0B, 0x00, 0x00, 0x00],
        load(999),
        load(42),
        vec![0x58],
        epilogue(),
    ]);
    let got = compiled(vec![
        Instruction::Load(0),
        Instruction::JmpIfNot(1),
        Instruction::Load(999),
        Instruction::Label(1),
        Instruction::Load(42),
        Instruction::Ret,
    ]);
    assert_eq!(got, expected);
}

#[test]
fn conditional_branch_not_taken_bytes() {
    // 1 is true: the jz falls through, 999 and 42 are both pushed and
    // added, so execution returns 1041.
    let expected = cat(&[
        prologue(),
        load(1),
        vec![0x58, 0x48, 0x85, 0xC0, 0x0F, 0x84, 0x0B, 0x00, 0x00, 0x00],
        load(999),
        load(42),
        add(),
        vec![0x58],
        epilogue(),
    ]);
    let got = compiled(vec![
        Instruction::Load(1),
        Instruction::JmpIfNot(1),
        Instruction::Load(999),
        Instruction::Label(1),
        Instruction::Load(42),
        Instruction::Add,
        Instruction::Ret,
    ]);
    assert_eq!(got, expected);
}

#[test]
fn loop_with_backward_jump_bytes() {
    // A counter incremented until it reaches 10.  The exit jump goes 38
    // bytes forward; the loop jump goes 81 bytes backward, to a label
    // defined behind it.  Execution returns 10.
    let gte = vec![
        0x5B, 0x58, 0x48, 0x39, 0xD8, 0xB8, 0x00, 0x00, 0x00, 0x00, 0x0F, 0x9D, 0xC0, 0x50,
    ];
    let expected = cat(&[
        prologue(),
        load(0),
        store(0),
        load_var(0),
        load(10),
        gte,
        vec![0x58, 0x48, 0x85, 0xC0, 0x0F, 0x85, 0x26, 0x00, 0x00, 0x00],
        load_var(0),
        load(1),
        add(),
        store(0),
        vec![0xE9, 0xAF, 0xFF, 0xFF, 0xFF],
        load_var(0),
        vec![0x58],
        epilogue(),
    ]);
    let got = compiled(vec![
        Instruction::Load(0),
        Instruction::Store(0),
        Instruction::Label(1),
        Instruction::LoadVar(0),
        Instruction::Load(10),
        Instruction::Gte,
        Instruction::JmpIf(2),
        Instruction::LoadVar(0),
        Instruction::Load(1),
        Instruction::Add,
        Instruction::Store(0),
        Instruction::Jmp(1),
        Instruction::Label(2),
        Instruction::LoadVar(0),
        Instruction::Ret,
    ]);
    assert_eq!(got, expected);
}

#[test]
fn comparison_and_logical_bytes() {
    // not(5 == 5): sete after a flags-preserving zeroing, then the
    // logical-not shape.  Execution returns 0.
    let eq = vec![
        0x5B, 0x58, 0x48, 0x39, 0xD8, 0xB8, 0x00, 0x00, 0x00, 0x00, 0x0F, 0x94, 0xC0, 0x50,
    ];
    let not = vec![
        0x58, 0x48, 0x85, 0xC0, 0xB8, 0x00, 0x00, 0x00, 0x00, 0x0F, 0x94, 0xC0, 0x50,
    ];
    let expected = cat(&[prologue(), load(5), load(5), eq, not, vec![0x58], epilogue()]);
    let got = compiled(vec![
        Instruction::Load(5),
        Instruction::Load(5),
        Instruction::Eq,
        Instruction::Not,
        Instruction::Ret,
    ]);
    assert_eq!(got, expected);
}

#[test]
fn logical_and_normalizes_operands_bytes() {
    // Logical and of 2 and 3: both operands are normalized to 1 before
    // the bitwise combination, so execution returns 1, not 2 & 3 == 2.
    let and = vec![
        0x5B, 0x58, 0x48, 0x85, 0xC0, 0xB8, 0x00, 0x00, 0x00, 0x00, 0x0F, 0x95, 0xC0, 0x48,
        0x85, 0xDB, 0xBB, 0x00, 0x00, 0x00, 0x00, 0x0F, 0x95, 0xC3, 0x48, 0x21, 0xD8, 0x50,
    ];
    let expected = cat(&[prologue(), load(2), load(3), and, vec![0x58], epilogue()]);
    let got = compiled(vec![
        Instruction::Load(2),
        Instruction::Load(3),
        Instruction::And,
        Instruction::Ret,
    ]);
    assert_eq!(got, expected);
}

#[test]
fn division_bytes() {
    // -7 / 3 and -7 % 3: sign-extend, divide, and for the remainder move
    // rdx into the result register.  Execution returns -2 and -1.
    let div = vec![0x5B, 0x58, 0x48, 0x99, 0x48, 0xF7, 0xFB, 0x50];
    let expected_div = cat(&[prologue(), load(-7), load(3), div, vec![0x58], epilogue()]);
    let got_div = compiled(vec![
        Instruction::Load(-7),
        Instruction::Load(3),
        Instruction::Div,
        Instruction::Ret,
    ]);
    assert_eq!(got_div, expected_div);

    let md = vec![0x5B, 0x58, 0x48, 0x99, 0x48, 0xF7, 0xFB, 0x48, 0x89, 0xD0, 0x50];
    let expected_mod = cat(&[prologue(), load(-7), load(3), md, vec![0x58], epilogue()]);
    let got_mod = compiled(vec![
        Instruction::Load(-7),
        Instruction::Load(3),
        Instruction::Mod,
        Instruction::Ret,
    ]);
    assert_eq!(got_mod, expected_mod);
}

#[test]
fn unary_bytes() {
    // Negate and complement: executes to -(~6) == 7.
    let expected = cat(&[
        prologue(),
        load(6),
        vec![0x58, 0x48, 0xF7, 0xD0, 0x50],
        vec![0x58, 0x48, 0xF7, 0xD8, 0x50],
        vec![0x58],
        epilogue(),
    ]);
    let got = compiled(vec![
        Instruction::Load(6),
        Instruction::Bnot,
        Instruction::Neg,
        Instruction::Ret,
    ]);
    assert_eq!(got, expected);
}
