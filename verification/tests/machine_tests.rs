//! Execution engine: memory model three-state semantics, decoding and the
//! fetch-decode-dispatch step.

use nma::errors::ExecError;
use nma::machine::Mips;
use nma::machine::DOT_TEXT;
use nma::pipeline::assemble_program;
use nma::pipeline::Statement;

#[test]
fn unmapped_addresses_are_hard_faults() {
    let mut m = Mips::default();
    assert_eq!(m.read_b(0), Err(ExecError::MemoryUnknownAccess));
    assert_eq!(m.read_b(DOT_TEXT - 1), Err(ExecError::MemoryUnknownAccess));
    assert_eq!(m.read_b(DOT_TEXT + 0x1000), Err(ExecError::MemoryUnknownAccess));
    assert_eq!(m.write_b(0, 1), Err(ExecError::MemoryUnknownAccess));
}

#[test]
fn mapped_but_ungrown_addresses_are_recoverable() {
    // Within the region's range but beyond the current backing length: a
    // recoverable uninitialized access, not a fatal one.
    let m = Mips::default();
    assert_eq!(
        m.read_b(DOT_TEXT),
        Err(ExecError::MemoryObviouslyUninitializedAccess)
    );
    assert_eq!(
        m.read_w(DOT_TEXT + 0x0ffc),
        Err(ExecError::MemoryObviouslyUninitializedAccess)
    );
}

#[test]
fn writes_grow_the_backing_store_zero_filled() {
    let mut m = Mips::default();
    assert_eq!(m.write_b(DOT_TEXT + 5, 7), Ok(()));
    assert_eq!(m.read_b(DOT_TEXT + 5), Ok(7));
    // The gap below the write was zero-filled.
    assert_eq!(m.read_b(DOT_TEXT), Ok(0));
    assert_eq!(m.read_b(DOT_TEXT + 4), Ok(0));
    // Beyond the write the region is still ungrown.
    assert_eq!(
        m.read_b(DOT_TEXT + 6),
        Err(ExecError::MemoryObviouslyUninitializedAccess)
    );
}

#[test]
fn words_read_back_little_endian_in_increasing_address_order() {
    let mut m = Mips::default();
    assert_eq!(m.write_w(DOT_TEXT, 0x1234_5678), Ok(()));
    assert_eq!(m.read_b(DOT_TEXT), Ok(0x78));
    assert_eq!(m.read_b(DOT_TEXT + 1), Ok(0x56));
    assert_eq!(m.read_b(DOT_TEXT + 2), Ok(0x34));
    assert_eq!(m.read_b(DOT_TEXT + 3), Ok(0x12));
    assert_eq!(m.read_w(DOT_TEXT), Ok(0x1234_5678));
    assert_eq!(m.read_h(DOT_TEXT), Ok(0x5678));
    assert_eq!(m.read_h(DOT_TEXT + 2), Ok(0x1234));
    assert_eq!(m.write_h(DOT_TEXT + 4, 0xBEEF), Ok(()));
    assert_eq!(m.read_h(DOT_TEXT + 4), Ok(0xBEEF));
    assert_eq!(m.read_b(DOT_TEXT + 4), Ok(0xEF));
}

#[test]
fn step_executes_lui() {
    let mut m = Mips::default();
    // lui $t0, 0x1234
    m.write_w(DOT_TEXT, 0x3C08_1234).unwrap();
    assert_eq!(m.step_one(), Ok(()));
    assert_eq!(m.regs[8], 0x1234_0000);
    assert_eq!(m.pc, DOT_TEXT + 4);
}

#[test]
fn step_executes_ori_with_zero_extension() {
    let mut m = Mips::default();
    m.regs[9] = 0xF000_0000;
    // ori $t0, $t1, 0x80ff: the immediate is zero-extended.
    m.write_w(DOT_TEXT, (0xd << 26) | (9 << 21) | (8 << 16) | 0x80ff).unwrap();
    assert_eq!(m.step_one(), Ok(()));
    assert_eq!(m.regs[8], 0xF000_80FF);
}

#[test]
fn step_executes_the_r_type_operations() {
    let mut m = Mips::default();
    m.regs[9] = 20; // $t1
    m.regs[10] = 6; // $t2
    // add $t0, $t1, $t2; sub $t3, $t1, $t2; xor $t4, $t1, $t2
    m.write_w(DOT_TEXT, (9 << 21) | (10 << 16) | (8 << 11) | 0x20).unwrap();
    m.write_w(DOT_TEXT + 4, (9 << 21) | (10 << 16) | (11 << 11) | 0x22).unwrap();
    m.write_w(DOT_TEXT + 8, (9 << 21) | (10 << 16) | (12 << 11) | 0x26).unwrap();
    assert_eq!(m.step_one(), Ok(()));
    assert_eq!(m.regs[8], 26);
    assert_eq!(m.step_one(), Ok(()));
    assert_eq!(m.regs[11], 14); // subtraction really subtracts
    assert_eq!(m.step_one(), Ok(()));
    assert_eq!(m.regs[12], 20 ^ 6);
    assert_eq!(m.pc, DOT_TEXT + 12);
}

#[test]
fn step_executes_shifts_on_rt() {
    let mut m = Mips::default();
    m.regs[9] = 0x0000_00F0;
    // sll $t0, $t1, 4; srl $t2, $t1, 4
    m.write_w(DOT_TEXT, (9 << 16) | (8 << 11) | (4 << 6)).unwrap();
    m.write_w(DOT_TEXT + 4, (9 << 16) | (10 << 11) | (4 << 6) | 0x02).unwrap();
    assert_eq!(m.step_one(), Ok(()));
    assert_eq!(m.regs[8], 0x0000_0F00);
    assert_eq!(m.step_one(), Ok(()));
    assert_eq!(m.regs[10], 0x0000_000F);
}

#[test]
fn add_and_sub_wrap_around() {
    let mut m = Mips::default();
    m.regs[9] = u32::MAX;
    m.regs[10] = 2;
    m.write_w(DOT_TEXT, (9 << 21) | (10 << 16) | (8 << 11) | 0x20).unwrap();
    m.write_w(DOT_TEXT + 4, (10 << 21) | (9 << 16) | (11 << 11) | 0x22).unwrap();
    assert_eq!(m.step_one(), Ok(()));
    assert_eq!(m.regs[8], 1);
    assert_eq!(m.step_one(), Ok(()));
    assert_eq!(m.regs[11], 3);
}

#[test]
fn unimplemented_instructions_are_fatal() {
    let mut m = Mips::default();
    // An R-type word with an unmodeled funct.
    m.write_w(DOT_TEXT, 0x3f).unwrap();
    assert_eq!(m.step_one(), Err(ExecError::UnimplementedInstruction));
    // An I-type word with an unmodeled opcode.
    m.write_w(DOT_TEXT + 4, 0x23 << 26).unwrap();
    assert_eq!(m.step_one(), Err(ExecError::UnimplementedInstruction));
}

#[test]
fn fetch_faults_leave_the_machine_unchanged() {
    let mut m = Mips::default();
    m.pc = 0; // unmapped
    assert_eq!(m.step_one(), Err(ExecError::MemoryUnknownAccess));
    assert_eq!(m.pc, 0);
}

#[test]
fn assembled_words_execute_with_the_same_layout() {
    // End to end across the shared invariant set: assemble, load, run.
    let prog = vec![
        Statement::Instruction(
            "ori".to_string(),
            vec!["$t1".to_string(), "$zero".to_string(), "20".to_string()],
        ),
        Statement::Instruction(
            "ori".to_string(),
            vec!["$t2".to_string(), "$zero".to_string(), "6".to_string()],
        ),
        Statement::Instruction(
            "add".to_string(),
            vec!["$t0".to_string(), "$t1".to_string(), "$t2".to_string()],
        ),
    ];
    let (bytes, _) = assemble_program(&prog).unwrap();
    let mut m = Mips::default();
    let mut a = DOT_TEXT;
    for b in &bytes {
        m.write_b(a, *b).unwrap();
        a += 1;
    }
    m.step_one().unwrap();
    m.step_one().unwrap();
    m.step_one().unwrap();
    assert_eq!(m.regs[9], 20);
    assert_eq!(m.regs[10], 6);
    assert_eq!(m.regs[8], 26);
}

#[test]
fn register_zero_is_not_enforced() {
    // Nothing forces register 0 to stay zero in this model.
    let mut m = Mips::default();
    // ori $zero, $zero, 5
    m.write_w(DOT_TEXT, (0xd << 26) | 5).unwrap();
    m.step_one().unwrap();
    assert_eq!(m.regs[0], 5);
}
