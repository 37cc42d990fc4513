//! Execution-engine tests: interrupt output, flag discipline, branch
//! variants, faults, wrapping arithmetic, and fuel-bounded runs.

use cpu::assembler::assemble;
use cpu::isa::FaultReason;
use cpu::isa::Flag;
use cpu::isa::Status;
use cpu::vm::Vm;

const EAX: usize = 1;
const EDX: usize = 3;

fn boot(lines: &[&str], stack_capacity: usize) -> Vm {
    let owned: Vec<String> = lines.iter().map(|l| l.to_string()).collect();
    let program = assemble(&owned).expect("program should assemble");
    Vm::new(program, stack_capacity)
}

#[test]
fn int_four_prints_the_stack_cell_ecx_points_at() {
    let mut vm = boot(&["PUSH 7", "PUSH 9", "MOV ecx 1", "INT 4", "MOV ecx 0", "INT 4", "HALT"], 8);
    assert!(vm.run(100));
    assert_eq!(vm.status(), Status::Halted);
    assert_eq!(vm.output(), &vec![9, 7]);
}

#[test]
fn unrecognized_interrupt_code_is_a_no_op() {
    let mut vm = boot(&["PUSH 7", "MOV ecx 0", "INT 3", "HALT"], 8);
    assert!(vm.run(100));
    assert_eq!(vm.status(), Status::Halted);
    assert!(vm.output().is_empty());
}

#[test]
fn int_four_with_negative_index_faults() {
    let mut vm = boot(&["MOV ecx -1", "INT 4", "HALT"], 8);
    assert!(vm.run(100));
    assert_eq!(vm.status(), Status::Faulted(FaultReason::StackUnderflow));
}

#[test]
fn int_four_past_the_stack_top_faults() {
    let mut vm = boot(&["MOV ecx 8", "INT 4", "HALT"], 8);
    assert!(vm.run(100));
    assert_eq!(vm.status(), Status::Faulted(FaultReason::StackOverflow));
}

#[test]
fn cmp_assigns_both_flags_every_time() {
    let mut vm = boot(&["CMP 3 5", "HALT"], 8);
    assert!(vm.run(100));
    assert!(!vm.flag(Flag::Zf));
    assert!(vm.flag(Flag::Cf));

    let mut vm = boot(&["CMP 5 5", "HALT"], 8);
    assert!(vm.run(100));
    assert!(vm.flag(Flag::Zf));
    assert!(!vm.flag(Flag::Cf));

    // A later comparison overwrites, and in particular clears, both flags.
    let mut vm = boot(&["CMP 3 5", "CMP 5 3", "HALT"], 8);
    assert!(vm.run(100));
    assert!(!vm.flag(Flag::Zf));
    assert!(!vm.flag(Flag::Cf));
}

#[test]
fn greater_branch_taken_after_greater_compare() {
    let mut vm = boot(
        &["CMP 5 3", "JG big", "MOV edx 0", "HALT", "big: MOV edx 2", "HALT"],
        8,
    );
    assert!(vm.run(100));
    assert_eq!(vm.register(EDX).unwrap(), 2);
}

#[test]
fn untaken_conditional_branch_falls_through() {
    let mut vm = boot(
        &["CMP 5 5", "JL low", "MOV edx 4", "HALT", "low: MOV edx 1", "HALT"],
        8,
    );
    assert!(vm.run(100));
    assert_eq!(vm.register(EDX).unwrap(), 4);
}

#[test]
fn jge_and_jne_follow_the_flags() {
    let mut vm = boot(
        &["CMP 7 7", "JGE ge", "MOV edx 0", "HALT", "ge: MOV edx 5", "HALT"],
        8,
    );
    assert!(vm.run(100));
    assert_eq!(vm.register(EDX).unwrap(), 5);

    let mut vm = boot(
        &["CMP 1 2", "JNE ne", "MOV edx 0", "HALT", "ne: MOV edx 6", "HALT"],
        8,
    );
    assert!(vm.run(100));
    assert_eq!(vm.register(EDX).unwrap(), 6);
}

#[test]
fn running_off_the_end_halts() {
    let mut vm = boot(&["MOV eax 1"], 4);
    assert!(vm.run(100));
    assert_eq!(vm.status(), Status::Halted);
    assert_eq!(vm.register(EAX).unwrap(), 1);
}

#[test]
fn push_on_full_stack_faults_with_overflow() {
    let mut vm = boot(&["PUSH 1", "PUSH 2", "HALT"], 1);
    assert!(vm.run(100));
    assert_eq!(vm.status(), Status::Faulted(FaultReason::StackOverflow));
    assert_eq!(vm.ip(), 1, "the second push is the faulting instruction");
}

#[test]
fn mov_into_a_non_register_destination_faults() {
    let mut vm = boot(&["MOV 5 3", "HALT"], 4);
    assert!(vm.run(100));
    assert_eq!(vm.status(), Status::Faulted(FaultReason::RegisterOutOfRange));
}

#[test]
fn mov_without_a_source_faults() {
    let mut vm = boot(&["MOV eax", "HALT"], 4);
    assert!(vm.run(100));
    assert_eq!(vm.status(), Status::Faulted(FaultReason::RegisterOutOfRange));
}

#[test]
fn jump_beyond_the_code_region_faults() {
    let mut vm = boot(&["JMP 99", "HALT"], 4);
    assert!(vm.run(100));
    assert_eq!(vm.status(), Status::Faulted(FaultReason::InvalidFetch));
}

#[test]
fn jump_to_the_stack_floor_runs_off_the_end() {
    let mut vm = boot(&["JMP 2", "HALT"], 4);
    assert!(vm.run(100));
    assert_eq!(vm.status(), Status::Halted);
}

#[test]
fn add_wraps_around_the_machine_word() {
    let mut vm = boot(&["MOV eax 9223372036854775807", "ADD eax 1", "HALT"], 4);
    assert!(vm.run(100));
    assert_eq!(vm.status(), Status::Halted);
    assert_eq!(vm.register(EAX).unwrap(), i64::MIN);
}

#[test]
fn mov_and_add_from_register_sources() {
    let mut vm = boot(&["MOV eax 5", "MOV ebx eax", "ADD ebx eax", "HALT"], 4);
    assert!(vm.run(100));
    assert_eq!(vm.register(4).unwrap(), 10);
}

#[test]
fn fuel_runs_out_on_an_endless_loop() {
    let mut vm = boot(&["loop2: JMP loop2"], 4);
    let done = vm.run(100);
    assert!(!done, "an endless loop never reaches a terminal state");
    assert_eq!(vm.status(), Status::Running);
}

#[test]
fn pushed_label_address_is_its_instruction_index() {
    let mut vm = boot(&["PUSH end", "HALT", "end:"], 4);
    let floor = vm.low_sp();
    assert!(vm.run(100));
    assert_eq!(vm.status(), Status::Halted);
    assert_eq!(vm.memory_at(floor), Some(2));
}

#[test]
fn empty_program_halts_at_once() {
    let mut vm = boot(&[], 4);
    assert!(vm.run(1));
    assert_eq!(vm.status(), Status::Halted);
    assert_eq!(vm.low_sp(), 0);
    assert_eq!(vm.sp(), 0);
}

#[test]
fn program_of_comments_and_labels_encodes_nothing() {
    let mut vm = boot(&["; just a comment", "here:", ""], 4);
    assert_eq!(vm.low_sp(), 0);
    assert!(vm.run(1));
    assert_eq!(vm.status(), Status::Halted);
}

#[test]
fn out_of_range_register_read_is_an_error_value() {
    let vm = boot(&["HALT"], 4);
    assert_eq!(vm.register(16), Err(FaultReason::RegisterOutOfRange));
    assert_eq!(vm.register(99), Err(FaultReason::RegisterOutOfRange));
}
