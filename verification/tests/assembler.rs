use meta_asm::errors::AsmError;
use meta_asm::opcode::OperandClass;
use meta_asm::parser::{assemble, Parser};

const HEADER: [u8; 8] = [46, 109, 101, 116, 97, 0, 0, 8];

fn code_of(src: &[u8]) -> Vec<u8> {
    let out = assemble(src.to_vec()).expect("assembly should succeed");
    assert_eq!(&out[..8], &HEADER[..]);
    out[8..].to_vec()
}

#[test]
fn header_alone_for_empty_source() {
    let out = assemble(Vec::new()).expect("empty source assembles");
    assert_eq!(out, HEADER.to_vec());
}

#[test]
fn header_fields() {
    let p = Parser::new(Vec::new());
    let h = p.header();
    assert_eq!(h.len(), 8);
    assert_eq!(&h[0..6], &[46, 109, 101, 116, 97, 0]);
    assert_eq!(h[6], 0, "format version");
    assert_eq!(h[7], 8, "address width in bytes, little-endian order");
}

#[test]
fn forward_reference_program() {
    // A label defined first, referenced by ADR: the placeholder is patched
    // with offset 0, where "start" was defined.
    let code = code_of(b"start\n\tID\n\tADR start\n\tEND\n");
    let expected = vec![4, 1, 0, 0, 0, 0, 0, 0, 0, 0, 13];
    assert_eq!(code, expected);
}

#[test]
fn string_literal_program() {
    let code = code_of(b"\tCL 'hi'");
    assert_eq!(code, vec![6, b'h', b'i', 0]);
}

#[test]
fn undefined_label_fails() {
    let r = assemble(b"\tADR nowhere\n".to_vec());
    assert_eq!(r, Err(AsmError::UndefinedLabel { name: b"nowhere".to_vec() }));
}

#[test]
fn no_operand_program_one_byte_each() {
    let code = code_of(b"\tID\n\tBE\n\tEND\n");
    assert_eq!(code.len(), 3);
    assert_eq!(code, vec![4, 5, 13]);
}

#[test]
fn opcode_table_all_no_operand_mnemonics() {
    let code = code_of(b"\tID\n\tBE\n\tCI\n\tOUT\n\tSET\n\tR\n\tEND\n\tSTR\n\tNUM\n\tLB\n\tGN1\n\tGN2\n");
    assert_eq!(code, vec![4, 5, 7, 8, 11, 12, 13, 14, 15, 16, 17, 18]);
}

#[test]
fn forward_and_backward_reference_agree() {
    // The first reference stands before the definition of "lab", the second
    // after it: both placeholders must hold the same offset, 9.
    let code = code_of(b"\tB lab\nlab\n\tID\n\tB lab\n");
    let mut expected = vec![19, 9, 0, 0, 0, 0, 0, 0, 0, 4, 19];
    expected.extend_from_slice(&[9, 0, 0, 0, 0, 0, 0, 0]);
    assert_eq!(code, expected);
    assert_eq!(&code[1..9], &code[11..19]);
}

#[test]
fn three_references_same_label() {
    let code = code_of(b"top\n\tB top\n\tBF top\n\tBT top\n");
    // top is defined at offset 0; opcodes B=19, BF=3, BT=10.
    assert_eq!(code[0], 19);
    assert_eq!(code[9], 3);
    assert_eq!(code[18], 10);
    assert_eq!(&code[1..9], &[0u8; 8]);
    assert_eq!(&code[10..18], &[0u8; 8]);
    assert_eq!(&code[19..27], &[0u8; 8]);
    assert_eq!(code.len(), 27);
}

#[test]
fn label_reference_width() {
    // One label reference produces exactly 1 + 8 bytes of code.
    let code = code_of(b"x\n\tCLL x\n");
    assert_eq!(code.len(), 9);
    assert_eq!(code[0], 9, "CLL opcode");
    assert_eq!(&code[1..9], &[0u8; 8]);
}

#[test]
fn nonzero_offset_little_endian() {
    // 300 one-byte instructions push the label's offset past one byte, so
    // the little-endian encoding uses two of the eight bytes.
    let mut src: Vec<u8> = Vec::new();
    for _ in 0..300 {
        src.extend_from_slice(b"\tID\n");
    }
    src.extend_from_slice(b"far\n\tADR far\n");
    let code = code_of(&src);
    assert_eq!(code.len(), 300 + 9);
    assert_eq!(code[300], 1, "ADR opcode");
    assert_eq!(&code[301..309], &[44, 1, 0, 0, 0, 0, 0, 0], "300 = 0x012c");
}

#[test]
fn string_with_space_and_tail() {
    let code = code_of(b"\tTST 'a b'");
    assert_eq!(code, vec![2, b'a', b' ', b'b', 0]);
    let code = code_of(b"\tCL 'x' trailing text");
    assert_eq!(code, vec![6, b'x', 0]);
}

#[test]
fn empty_string_literal() {
    let code = code_of(b"\tCL ''");
    assert_eq!(code, vec![6, 0]);
}

#[test]
fn carriage_returns_are_stripped() {
    let code = code_of(b"\tID\r\n\tBE\r\n");
    assert_eq!(code, vec![4, 5]);
}

#[test]
fn label_names_are_trimmed() {
    let code = code_of(b"  main  \n\tB main\n");
    assert_eq!(code, vec![19, 0, 0, 0, 0, 0, 0, 0, 0]);
}

#[test]
fn unknown_mnemonic_fails() {
    let r = assemble(b"\tXYZ\n".to_vec());
    assert_eq!(r, Err(AsmError::UnknownOpcode { mnemonic: b"XYZ".to_vec() }));
}

#[test]
fn unterminated_string_fails() {
    let r = assemble(b"\tCL 'hi\n".to_vec());
    assert_eq!(r, Err(AsmError::UnterminatedStringLiteral { line: 0 }));
    let r = assemble(b"\tID\n\tTST no quotes\n".to_vec());
    assert_eq!(r, Err(AsmError::UnterminatedStringLiteral { line: 1 }));
}

#[test]
fn missing_operand_fails() {
    let r = assemble(b"\tADR\n".to_vec());
    assert_eq!(r, Err(AsmError::MissingOperand { mnemonic: b"ADR".to_vec(), line: 0 }));
}

#[test]
fn empty_line_fails() {
    let r = assemble(b"\tID\n\n\tID\n".to_vec());
    assert_eq!(r, Err(AsmError::EmptyLine { line: 1 }));
}

#[test]
fn blank_lines_fail() {
    assert_eq!(assemble(b"   \n".to_vec()), Err(AsmError::EmptyLine { line: 0 }));
    assert_eq!(assemble(b"\t\n".to_vec()), Err(AsmError::EmptyLine { line: 0 }));
}

#[test]
fn duplicate_label_fails() {
    let r = assemble(b"a\n\tID\na\n".to_vec());
    assert_eq!(r, Err(AsmError::DuplicateLabel { name: b"a".to_vec() }));
}

#[test]
fn failure_produces_no_output() {
    // The result carries no bytes at all on any failure.
    for src in [
        &b"\tXYZ\n"[..],
        &b"\tCL 'oops\n"[..],
        &b"\tADR ghost\n"[..],
        &b"\n"[..],
    ] {
        assert!(assemble(src.to_vec()).is_err());
    }
}

#[test]
fn opcode_lookup() {
    assert_eq!(Parser::opcode(b"ADR"), Some((1, OperandClass::LabelRef)));
    assert_eq!(Parser::opcode(b"TST"), Some((2, OperandClass::StringLit)));
    assert_eq!(Parser::opcode(b"BF"), Some((3, OperandClass::LabelRef)));
    assert_eq!(Parser::opcode(b"ID"), Some((4, OperandClass::NoOperand)));
    assert_eq!(Parser::opcode(b"BE"), Some((5, OperandClass::NoOperand)));
    assert_eq!(Parser::opcode(b"CL"), Some((6, OperandClass::StringLit)));
    assert_eq!(Parser::opcode(b"CI"), Some((7, OperandClass::NoOperand)));
    assert_eq!(Parser::opcode(b"OUT"), Some((8, OperandClass::NoOperand)));
    assert_eq!(Parser::opcode(b"CLL"), Some((9, OperandClass::LabelRef)));
    assert_eq!(Parser::opcode(b"BT"), Some((10, OperandClass::LabelRef)));
    assert_eq!(Parser::opcode(b"SET"), Some((11, OperandClass::NoOperand)));
    assert_eq!(Parser::opcode(b"R"), Some((12, OperandClass::NoOperand)));
    assert_eq!(Parser::opcode(b"END"), Some((13, OperandClass::NoOperand)));
    assert_eq!(Parser::opcode(b"STR"), Some((14, OperandClass::NoOperand)));
    assert_eq!(Parser::opcode(b"NUM"), Some((15, OperandClass::NoOperand)));
    assert_eq!(Parser::opcode(b"LB"), Some((16, OperandClass::NoOperand)));
    assert_eq!(Parser::opcode(b"GN1"), Some((17, OperandClass::NoOperand)));
    assert_eq!(Parser::opcode(b"GN2"), Some((18, OperandClass::NoOperand)));
    assert_eq!(Parser::opcode(b"B"), Some((19, OperandClass::LabelRef)));
    assert_eq!(Parser::opcode(b"NOP"), None);
    assert_eq!(Parser::opcode(b"adr"), None, "mnemonics are case-sensitive");
    assert_eq!(Parser::opcode(b""), None);
}

#[test]
fn parser_records_labels_and_fixups() {
    let mut p = Parser::new(b"one\n\tB two\ntwo\n\tB one\n".to_vec());
    p.parse().expect("program assembles");
    assert_eq!(p.labels.len(), 2);
    assert_eq!(p.labels[0], (b"one".to_vec(), 0));
    assert_eq!(p.labels[1], (b"two".to_vec(), 9));
    assert_eq!(p.label_markers.len(), 2);
    assert_eq!(p.label_markers[0], (b"two".to_vec(), 1));
    assert_eq!(p.label_markers[1], (b"one".to_vec(), 10));
    assert_eq!(p.code.len(), 18);
    assert_eq!(&p.code[1..9], &[9, 0, 0, 0, 0, 0, 0, 0]);
    assert_eq!(&p.code[10..18], &[0u8; 8]);
}

#[test]
fn resolve_keeps_buffer_length() {
    let mut p = Parser::new(b"\tADR end\n\tID\nend\n".to_vec());
    p.parse().expect("program assembles");
    // opcode + placeholder + ID = 10 bytes; patching changed none of that.
    assert_eq!(p.code.len(), 10);
    assert_eq!(p.code[9], 4);
    assert_eq!(&p.code[1..9], &[10, 0, 0, 0, 0, 0, 0, 0]);
}
