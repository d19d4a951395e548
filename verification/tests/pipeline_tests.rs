//! Assembler pipeline: catalog lookup, tokenizing, preprocessing, the two
//! passes and the end-to-end encodings.

use nma::catalog::i_operation;
use nma::catalog::j_operation;
use nma::catalog::r_operation;
use nma::catalog::IForm;
use nma::catalog::RForm;
use nma::errors::AsmError;
use nma::labels::LabelTable;
use nma::pipeline::assemble_program;
use nma::pipeline::Statement;
use nma::text::preprocess;
use nma::text::tokenize;

fn instr(m: &str, args: &[&str]) -> Statement {
    Statement::Instruction(m.to_string(), args.iter().map(|a| a.to_string()).collect())
}

fn words_of(bytes: &[u8]) -> Vec<u32> {
    assert_eq!(bytes.len() % 4, 0);
    bytes.chunks(4).map(|c| u32::from_le_bytes([c[0], c[1], c[2], c[3]])).collect()
}

#[test]
fn catalog_matches_each_mnemonic() {
    let add = r_operation("add").unwrap();
    assert_eq!(add.funct, 0x20);
    assert_eq!(add.shamt, 0);
    assert!(add.form == RForm::RdRsRt);
    let sll = r_operation("sll").unwrap();
    assert_eq!(sll.funct, 0x00);
    assert!(sll.form == RForm::RdRtShamt);
    assert_eq!(r_operation("ori"), Err(AsmError::UnknownMnemonic));

    let ori = i_operation("ori").unwrap();
    assert_eq!(ori.opcode, 0xd);
    assert!(ori.form == IForm::RtRsImm);
    let lw = i_operation("lw").unwrap();
    assert_eq!(lw.opcode, 0x23);
    assert!(lw.form == IForm::RtImmRs);
    let beq = i_operation("beq").unwrap();
    assert_eq!(beq.opcode, 0x4);
    assert!(beq.form == IForm::RsRtLabel);
    assert_eq!(i_operation("add"), Err(AsmError::UnknownMnemonic));

    assert_eq!(j_operation("j").unwrap().opcode, 0x2);
    assert_eq!(j_operation("jal").unwrap().opcode, 0x3);
    assert_eq!(j_operation("beq"), Err(AsmError::UnknownMnemonic));
}

#[test]
fn tokenize_splits_on_commas_and_whitespace() {
    assert_eq!(tokenize("add $t0, $t1, $t2"), vec!["add", "$t0", "$t1", "$t2"]);
    assert_eq!(tokenize("  a\t\tb \r\n c "), vec!["a", "b", "c"]);
    assert_eq!(tokenize(""), Vec::<&str>::new());
    assert_eq!(tokenize(",,, \n"), Vec::<&str>::new());
}

#[test]
fn preprocess_strips_comments_and_blank_lines() {
    let out = preprocess("  add $t0, $zero, $zero   # set up\n\n# whole line\nsub $t1, $t0, $t0\n".to_string());
    assert_eq!(out, "add $t0, $zero, $zero\nsub $t1, $t0, $t0");
}

#[test]
fn preprocess_expands_eqv_forward_only() {
    let out = preprocess("ori $t0, $zero, LIMIT\n.eqv LIMIT 10\nori $t1, $zero, LIMIT\n".to_string());
    assert_eq!(out, "ori $t0, $zero, LIMIT\nori $t1, $zero, 10");
}

#[test]
fn preprocess_keeps_line_boundaries() {
    assert_eq!(preprocess("x\ny".to_string()), "x\ny");
    assert_eq!(preprocess("x  y".to_string()), "x y");
}

#[test]
fn label_table_records_and_overrides() {
    let mut t = LabelTable::new();
    assert_eq!(t.get("main"), None);
    t.insert("main".to_string(), 0x40_0000);
    t.insert("loop".to_string(), 0x40_0008);
    assert_eq!(t.get("main"), Some(0x40_0000));
    assert_eq!(t.get("loop"), Some(0x40_0008));
    t.insert("main".to_string(), 0x40_0010);
    assert_eq!(t.get("main"), Some(0x40_0010));
    assert_eq!(t.get("missing"), None);
}

#[test]
fn assembling_add_yields_the_expected_fields() {
    let prog = vec![instr("add", &["$t0", "$zero", "$zero"])];
    let (bytes, lines) = assemble_program(&prog).unwrap();
    let w = words_of(&bytes)[0];
    assert_eq!(w & 0x3f, 0x20); // funct
    assert_eq!((w >> 21) & 0x1f, 0); // rs
    assert_eq!((w >> 16) & 0x1f, 0); // rt
    assert_eq!((w >> 11) & 0x1f, 8); // rd
    assert_eq!((w >> 6) & 0x1f, 0); // shamt
    assert_eq!(w, 0x0000_4020);
    assert_eq!(lines.len(), 1);
    assert_eq!(lines[0].instr_addr, 0x40_0000);
    assert_eq!(lines[0].line_contents, "add $t0 $zero $zero");
}

#[test]
fn assembling_ori_yields_the_expected_fields() {
    let prog = vec![instr("ori", &["$t1", "$zero", "0xff"])];
    let (bytes, _) = assemble_program(&prog).unwrap();
    let w = words_of(&bytes)[0];
    assert_eq!((w >> 26) & 0x3f, 0xd);
    assert_eq!((w >> 21) & 0x1f, 0);
    assert_eq!((w >> 16) & 0x1f, 9);
    assert_eq!(w & 0xffff, 255);
}

#[test]
fn assembling_lui_yields_the_expected_fields() {
    let prog = vec![instr("lui", &["$t0", "0x1234"])];
    let (bytes, _) = assemble_program(&prog).unwrap();
    let w = words_of(&bytes)[0];
    assert_eq!((w >> 26) & 0x3f, 0xf);
    assert_eq!((w >> 16) & 0x1f, 8);
    assert_eq!(w & 0xffff, 0x1234);
}

#[test]
fn branch_to_undeclared_label_fails() {
    let prog = vec![instr("beq", &["$t0", "$t1", "nowhere"])];
    assert!(matches!(assemble_program(&prog), Err(AsmError::UndeclaredLabel)));
}

#[test]
fn jump_to_undeclared_label_fails() {
    let prog = vec![instr("j", &["nowhere"])];
    assert!(matches!(assemble_program(&prog), Err(AsmError::UndeclaredLabel)));
}

#[test]
fn forward_branch_resolves_after_pass_one() {
    // The branch references a label declared later in the source; pass one
    // completes before pass two encodes, so it resolves.
    let prog = vec![
        instr("beq", &["$zero", "$zero", "done"]),
        instr("add", &["$t0", "$zero", "$zero"]),
        Statement::Label("done".to_string()),
        instr("sub", &["$t0", "$zero", "$zero"]),
    ];
    let (bytes, _) = assemble_program(&prog).unwrap();
    let ws = words_of(&bytes);
    // "done" sits two instructions (8 bytes) past the branch; the offset is
    // the byte distance, deliberately without the word-width division.
    assert_eq!(ws[0] & 0xffff, 8);
}

#[test]
fn backward_branch_uses_twos_complement() {
    let prog = vec![
        Statement::Label("top".to_string()),
        instr("add", &["$t0", "$zero", "$zero"]),
        instr("beq", &["$zero", "$zero", "top"]),
    ];
    let (bytes, _) = assemble_program(&prog).unwrap();
    let ws = words_of(&bytes);
    // The label lies four bytes before the branch: -4 in 16 bits.
    assert_eq!(ws[1] & 0xffff, 0xfffc);
}

#[test]
fn jump_encodes_the_word_aligned_target() {
    let prog = vec![
        Statement::Label("start".to_string()),
        instr("add", &["$t0", "$zero", "$zero"]),
        instr("j", &["start"]),
    ];
    let (bytes, _) = assemble_program(&prog).unwrap();
    let ws = words_of(&bytes);
    assert_eq!((ws[1] >> 26) & 0x3f, 0x2);
    assert_eq!(ws[1] & 0x3FF_FFFF, 0x40_0000 >> 2);
}

#[test]
fn load_with_two_operands_defaults_the_immediate() {
    // lw $t0, ($t1) is the legal zero-offset form.
    let prog = vec![instr("lw", &["$t0", "$t1"])];
    let (bytes, _) = assemble_program(&prog).unwrap();
    let w = words_of(&bytes)[0];
    assert_eq!((w >> 26) & 0x3f, 0x23);
    assert_eq!((w >> 21) & 0x1f, 9); // rs: base register $t1
    assert_eq!((w >> 16) & 0x1f, 8); // rt: target $t0
    assert_eq!(w & 0xffff, 0);
}

#[test]
fn load_with_three_operands_keeps_its_offset() {
    let prog = vec![instr("lw", &["$t0", "8", "$sp"])];
    let (bytes, _) = assemble_program(&prog).unwrap();
    let w = words_of(&bytes)[0];
    assert_eq!((w >> 21) & 0x1f, 29);
    assert_eq!((w >> 16) & 0x1f, 8);
    assert_eq!(w & 0xffff, 8);
}

#[test]
fn shift_amount_is_range_checked() {
    let ok = vec![instr("sll", &["$t0", "$t1", "4"])];
    let w = words_of(&assemble_program(&ok).unwrap().0)[0];
    assert_eq!((w >> 6) & 0x1f, 4);
    assert_eq!((w >> 16) & 0x1f, 9);
    assert_eq!((w >> 11) & 0x1f, 8);
    assert_eq!(w & 0x3f, 0);

    let over = vec![instr("sll", &["$t0", "$t1", "32"])];
    assert!(matches!(assemble_program(&over), Err(AsmError::Overflow)));
}

#[test]
fn wrong_operand_counts_are_arity_mismatches() {
    assert!(matches!(
        assemble_program(&vec![instr("add", &["$t0", "$zero"])]),
        Err(AsmError::ArityMismatch)
    ));
    assert!(matches!(
        assemble_program(&vec![instr("lui", &["$t0", "1", "2"])]),
        Err(AsmError::ArityMismatch)
    ));
    assert!(matches!(assemble_program(&vec![instr("j", &[])]), Err(AsmError::ArityMismatch)));
}

#[test]
fn unknown_mnemonics_and_directives_fail() {
    assert!(matches!(
        assemble_program(&vec![instr("mul", &["$t0", "$t1", "$t2"])]),
        Err(AsmError::UnknownMnemonic)
    ));
    let prog = vec![Statement::Directive("align".to_string(), vec![])];
    assert!(matches!(assemble_program(&prog), Err(AsmError::UnsupportedDirective)));
    let ok = vec![
        Statement::Directive("text".to_string(), vec![]),
        Statement::Directive("data".to_string(), vec![]),
        Statement::Directive("eqv".to_string(), vec![]),
    ];
    assert_eq!(assemble_program(&ok).unwrap().0.len(), 0);
}

#[test]
fn malformed_operands_fail_with_their_errors() {
    assert!(matches!(
        assemble_program(&vec![instr("ori", &["$t0", "$zero", "zz"])]),
        Err(AsmError::MalformedImmediate)
    ));
    assert!(matches!(
        assemble_program(&vec![instr("add", &["$t0", "$qq", "$zero"])]),
        Err(AsmError::MalformedMnemonic)
    ));
    assert!(matches!(
        assemble_program(&vec![instr("add", &["$t0", "77", "$zero"])]),
        Err(AsmError::InvalidRegister)
    ));
}

#[test]
fn output_is_four_bytes_per_instruction_in_order() {
    let prog = vec![
        Statement::Label("main".to_string()),
        instr("ori", &["$t1", "$zero", "0xff"]),
        Statement::Directive("text".to_string(), vec![]),
        instr("lui", &["$t0", "0x1234"]),
    ];
    let (bytes, lines) = assemble_program(&prog).unwrap();
    assert_eq!(bytes.len(), 8);
    let ws = words_of(&bytes);
    assert_eq!(ws, vec![0x3409_00FF, 0x3C08_1234]);
    assert_eq!(lines.len(), 2);
    assert_eq!(lines[0].instr_addr, 0x40_0000);
    assert_eq!(lines[1].instr_addr, 0x40_0004);
    assert_eq!(lines[0].line_number, 0);
    assert_eq!(lines[0].pseudo_op, "");
    assert_eq!(lines[1].line_contents, "lui $t0 0x1234");
}

#[test]
fn directives_do_not_advance_the_address_counter() {
    let prog = vec![
        Statement::Directive("text".to_string(), vec![]),
        instr("beq", &["$zero", "$zero", "done"]),
        Statement::Label("done".to_string()),
    ];
    let (bytes, lines) = assemble_program(&prog).unwrap();
    // The branch is the first instruction: its address is the base, and the
    // label lands four bytes past it.
    assert_eq!(lines[0].instr_addr, 0x40_0000);
    assert_eq!(words_of(&bytes)[0] & 0xffff, 4);
}

#[test]
fn malformed_eqv_lines_are_dropped_without_recording() {
    let out = preprocess(".eqv ONLY\nori $t0, $zero, ONLY".to_string());
    assert_eq!(out, "ori $t0, $zero, ONLY");
}

#[test]
fn later_eqv_definitions_override_earlier_ones() {
    let out = preprocess(".eqv N 1\n.eqv N 2\nori $t0, $zero, N".to_string());
    assert_eq!(out, "ori $t0, $zero, 2");
}

#[test]
fn eqv_replaces_whole_tokens_only() {
    let out = preprocess(".eqv A 5\nori $t0, $zero, AB".to_string());
    assert_eq!(out, "ori $t0, $zero, AB");
}
