//! End-to-end scenarios: assemble a small program, run it, inspect the
//! final machine state.

use cpu::assembler::assemble;
use cpu::isa::FaultReason;
use cpu::isa::Status;
use cpu::vm::NUM_REGS;
use cpu::vm::Vm;

const EAX: usize = 1;
const ECX: usize = 2;
const EDX: usize = 3;

fn boot(lines: &[&str], stack_capacity: usize) -> Vm {
    let owned: Vec<String> = lines.iter().map(|l| l.to_string()).collect();
    let program = assemble(&owned).expect("program should assemble");
    Vm::new(program, stack_capacity)
}

fn run_to_end(vm: &mut Vm) {
    let done = vm.run(10_000);
    assert!(done, "program should reach a terminal state");
}

#[test]
fn noop_halt_halts_with_all_registers_zero() {
    let mut vm = boot(&["NOOP", "HALT"], 8);
    run_to_end(&mut vm);
    assert_eq!(vm.status(), Status::Halted);
    for i in 0..NUM_REGS {
        assert_eq!(vm.register(i).unwrap(), 0);
    }
}

#[test]
fn mov_immediate_sets_register() {
    let mut vm = boot(&["MOV eax 5", "HALT"], 8);
    run_to_end(&mut vm);
    assert_eq!(vm.status(), Status::Halted);
    assert_eq!(vm.register(EAX).unwrap(), 5);
}

#[test]
fn add_accumulates_into_register() {
    let mut vm = boot(&["MOV eax 5", "ADD eax 3", "HALT"], 8);
    run_to_end(&mut vm);
    assert_eq!(vm.status(), Status::Halted);
    assert_eq!(vm.register(EAX).unwrap(), 8);
}

#[test]
fn push_pop_round_trip_restores_value() {
    let mut vm = boot(&["MOV eax 5", "PUSH eax", "MOV eax 0", "POP eax", "HALT"], 8);
    let floor = vm.low_sp();
    run_to_end(&mut vm);
    assert_eq!(vm.status(), Status::Halted);
    assert_eq!(vm.register(EAX).unwrap(), 5);
    assert_eq!(vm.sp(), floor, "stack pointer should be back at the floor");
}

#[test]
fn jl_takes_branch_to_forward_label() {
    let mut vm = boot(
        &[
            "MOV eax 3",
            "MOV ecx 5",
            "CMP eax ecx",
            "JL less",
            "MOV edx 0",
            "HALT",
            "less: MOV edx 1",
            "HALT",
        ],
        8,
    );
    run_to_end(&mut vm);
    assert_eq!(vm.status(), Status::Halted);
    assert_eq!(vm.register(EDX).unwrap(), 1);
}

#[test]
fn pop_on_empty_stack_faults_with_underflow() {
    let mut vm = boot(&["POP eax", "HALT"], 8);
    run_to_end(&mut vm);
    assert_eq!(vm.status(), Status::Faulted(FaultReason::StackUnderflow));
    assert_eq!(vm.ip(), 0, "the faulting instruction pointer is reported");
    assert_eq!(vm.register(EAX).unwrap(), 0, "no register was written");
}

#[test]
fn unknown_opcode_prevents_execution() {
    let owned: Vec<String> = vec!["FOO eax 5".to_string(), "HALT".to_string()];
    let err = assemble(&owned).expect_err("unknown mnemonic should fail assembly");
    assert_eq!(err.line, 0);
    match err.kind {
        cpu::isa::DecodeErrorKind::UnknownOpcode(tok) => assert_eq!(tok, "FOO"),
        other => panic!("expected an unknown-opcode error, got {:?}", other),
    }
}

#[test]
fn run_twice_from_fresh_machines_is_identical() {
    let lines = [
        "start: MOV eax 7",
        "PUSH eax",
        "MOV ecx 0",
        "INT 4",
        "CMP eax 7",
        "JE done",
        "MOV edx 9",
        "done: HALT",
    ];
    let mut vm1 = boot(&lines, 8);
    let mut vm2 = boot(&lines, 8);
    vm1.run(10_000);
    vm2.run(10_000);
    assert_eq!(vm1.status(), vm2.status());
    assert_eq!(vm1.ip(), vm2.ip());
    assert_eq!(vm1.sp(), vm2.sp());
    assert_eq!(vm1.output(), vm2.output());
    for i in 0..NUM_REGS {
        assert_eq!(vm1.register(i).unwrap(), vm2.register(i).unwrap());
    }
    let mem_len = vm1.low_sp() + 8;
    for i in 0..mem_len {
        assert_eq!(vm1.memory_at(i), vm2.memory_at(i));
    }
}
