//! Unit tests of the two assembler passes: tokenization, integer literals,
//! label resolution, operand classification, and whole-line encoding.

use cpu::assembler::assemble;
use cpu::assembler::decode;
use cpu::assembler::load_inst;
use cpu::assembler::resolve_labels;
use cpu::assembler::LabelTable;
use cpu::assembler::REG_EAX;
use cpu::assembler::REG_EBX;
use cpu::isa::DecodeErrorKind;
use cpu::isa::Instruction;
use cpu::isa::Opcode;
use cpu::isa::Operand;
use cpu::text::parse_int;
use cpu::text::str_eq;
use cpu::text::tokenize;

fn lines_of(lines: &[&str]) -> Vec<String> {
    lines.iter().map(|l| l.to_string()).collect()
}

#[test]
fn tokenize_splits_on_any_whitespace() {
    let toks = tokenize("  MOV\teax   5 ");
    assert_eq!(toks, vec!["MOV".to_string(), "eax".to_string(), "5".to_string()]);
}

#[test]
fn tokenize_empty_line_has_no_tokens() {
    assert!(tokenize("").is_empty());
    assert!(tokenize(" \t ").is_empty());
}

#[test]
fn str_eq_is_plain_string_equality() {
    assert!(str_eq("JMP", "JMP"));
    assert!(!str_eq("JMP", "JM"));
    assert!(!str_eq("jmp", "JMP"));
}

#[test]
fn parse_int_accepts_plain_decimals() {
    assert_eq!(parse_int("0"), Some(0));
    assert_eq!(parse_int("42"), Some(42));
    assert_eq!(parse_int("-7"), Some(-7));
    assert_eq!(parse_int("007"), Some(7));
}

#[test]
fn parse_int_covers_the_machine_word_range() {
    assert_eq!(parse_int("9223372036854775807"), Some(i64::MAX));
    assert_eq!(parse_int("-9223372036854775808"), Some(i64::MIN));
    assert_eq!(parse_int("9223372036854775808"), None);
    assert_eq!(parse_int("-9223372036854775809"), None);
}

#[test]
fn parse_int_rejects_malformed_literals() {
    assert_eq!(parse_int(""), None);
    assert_eq!(parse_int("-"), None);
    assert_eq!(parse_int("12a"), None);
    assert_eq!(parse_int("one"), None);
    assert_eq!(parse_int("1 2"), None);
}

#[test]
fn labels_share_the_address_of_the_next_instruction() {
    let lines = lines_of(&["start:", "; a comment", "", "MOV eax 1", "end: HALT"]);
    let (table, count) = resolve_labels(&lines);
    assert_eq!(count, 2);
    assert_eq!(table.lookup("start"), Some(0));
    assert_eq!(table.lookup("end"), Some(1));
    assert_eq!(table.lookup("absent"), None);
}

#[test]
fn duplicate_label_definition_last_one_wins() {
    let lines = lines_of(&["again: NOOP", "again: HALT"]);
    let (table, _) = resolve_labels(&lines);
    assert_eq!(table.lookup("again"), Some(1));
}

#[test]
fn load_inst_classifies_registers_numbers_and_labels() {
    let lines = lines_of(&["NOOP", "here: HALT"]);
    let (table, _) = resolve_labels(&lines);
    assert_eq!(load_inst("eax", &table), Ok(Operand::Register(REG_EAX)));
    assert_eq!(load_inst("ebx", &table), Ok(Operand::Register(REG_EBX)));
    assert_eq!(load_inst("-12", &table), Ok(Operand::Immediate(-12)));
    assert_eq!(load_inst("here", &table), Ok(Operand::Address(1)));
    assert_eq!(
        load_inst("nowhere", &table),
        Err(DecodeErrorKind::InvalidOperand("nowhere".to_string()))
    );
}

#[test]
fn decode_encodes_one_line() {
    let table = LabelTable::new();
    let inst = decode("MOV eax 5", &table).unwrap().unwrap();
    assert_eq!(
        inst,
        Instruction {
            opcode: Opcode::Mov,
            operand_a: Operand::Register(REG_EAX),
            operand_b: Operand::Immediate(5),
        }
    );
}

#[test]
fn decode_skips_comments_and_label_definitions() {
    let table = LabelTable::new();
    assert_eq!(decode("; nothing here", &table), Ok(None));
    assert_eq!(decode("lonely:", &table), Ok(None));
    let inst = decode("go: HALT ; stop", &table).unwrap().unwrap();
    assert_eq!(inst.opcode, Opcode::Halt);
    assert_eq!(inst.operand_a, Operand::Unused);
    assert_eq!(inst.operand_b, Operand::Unused);
}

#[test]
fn decode_rejects_a_third_operand_token() {
    let table = LabelTable::new();
    let err = decode("MOV eax 5 9", &table).expect_err("three operands cannot encode");
    assert_eq!(err, DecodeErrorKind::InvalidOperand("9".to_string()));
}

#[test]
fn forward_and_backward_references_resolve_to_the_same_address() {
    let lines = lines_of(&["JMP target", "target: NOOP", "JMP target"]);
    let program = assemble(&lines).unwrap();
    assert_eq!(program.len(), 3);
    assert_eq!(program[0].operand_a, Operand::Address(1));
    assert_eq!(program[2].operand_a, Operand::Address(1));
    assert_eq!(program[0].operand_a, program[2].operand_a);
}

#[test]
fn assembly_reports_the_first_offending_line() {
    let lines = lines_of(&["NOOP", "MOV eax bogus", "FOO"]);
    let err = assemble(&lines).expect_err("invalid operand should fail assembly");
    assert_eq!(err.line, 1);
    assert_eq!(err.kind, DecodeErrorKind::InvalidOperand("bogus".to_string()));
}

#[test]
fn assembly_is_all_or_nothing() {
    let lines = lines_of(&["MOV eax 1", "HALT", "FOO"]);
    assert!(assemble(&lines).is_err());
}

#[test]
fn assembled_program_has_one_instruction_per_consuming_line() {
    let lines = lines_of(&["; header", "a: MOV eax 1", "", "b:", "ADD eax ebx", "HALT"]);
    let program = assemble(&lines).unwrap();
    assert_eq!(program.len(), 3);
    let (table, count) = resolve_labels(&lines);
    assert_eq!(count, program.len());
    assert_eq!(table.lookup("a"), Some(0));
    assert_eq!(table.lookup("b"), Some(1));
}

#[test]
fn label_definitions_anywhere_on_the_line_are_recorded() {
    let lines = lines_of(&["MOV eax 1 tail:", "HALT"]);
    let (table, count) = resolve_labels(&lines);
    assert_eq!(count, 2);
    assert_eq!(table.lookup("tail"), Some(0));
}

#[test]
fn numeric_label_reference_reads_as_an_immediate() {
    let lines = lines_of(&["JMP 1", "HALT"]);
    let program = assemble(&lines).unwrap();
    assert_eq!(program[0].operand_a, Operand::Immediate(1));
}
