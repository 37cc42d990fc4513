//! The execution engine: a register file, a flat memory holding the loaded
//! program followed by the operand stack, and a fetch-decode-execute loop
//! whose every step is pinned to a mathematical transition function.

use vstd::prelude::*;

use crate::assembler::REG_ECX;
use crate::isa::FaultReason;
use crate::isa::Flag;
use crate::isa::Instruction;
use crate::isa::Opcode;
use crate::isa::Operand;
use crate::isa::Status;
use crate::isa::wf_program;

verus! {

/// Number of general-purpose register slots.
pub const NUM_REGS: usize = 16;

/// Mathematical model of the register file: the general slots and the two
/// condition flags, each flag explicitly assigned by every comparison.
pub struct RegModel {
    pub regs: Seq<i64>,
    pub zf: bool,
    pub cf: bool,
}

/// The register file: general-purpose slots plus the dedicated flags
/// register, reachable only through `set_flag` / `get_flag`.
pub struct RegisterFile {
    regs: Vec<i64>,
    zf: bool,
    cf: bool,
}

impl View for RegisterFile {
    type V = RegModel;

    closed spec fn view(&self) -> RegModel {
        RegModel { regs: self.regs@, zf: self.zf, cf: self.cf }
    }
}

impl RegisterFile {
    pub open spec fn wf(&self) -> bool {
        self@.regs.len() == NUM_REGS
    }

    /// A fresh register file: every slot zero, both flags clear.
    pub fn new() -> (r: RegisterFile)
        ensures
            r.wf(),
            r@.regs =~= Seq::new(NUM_REGS as nat, |i: int| 0i64),
            !r@.zf,
            !r@.cf,
    {
        let mut regs: Vec<i64> = Vec::new();
        let mut i: usize = 0;
        while i < NUM_REGS
            invariant
                0 <= i <= NUM_REGS,
                regs@.len() == i,
                forall|k: int| 0 <= k < i ==> regs@[k] == 0i64,
            decreases NUM_REGS - i,
        {
            regs.push(0);
            i = i + 1;
        }
        let r = RegisterFile { regs, zf: false, cf: false };
        proof {
            assert(r@.regs =~= Seq::new(NUM_REGS as nat, |i: int| 0i64));
        }
        r
    }

    /// Reads one general register; an index out of range is a fault, never a
    /// silent clamp or wrap.
    pub fn read(&self, index: usize) -> (r: Result<i64, FaultReason>)
        requires
            self.wf(),
        ensures
            r == if index < NUM_REGS {
                Ok::<i64, FaultReason>(self@.regs[index as int])
            } else {
                Err::<i64, FaultReason>(FaultReason::RegisterOutOfRange)
            },
    {
        if index < NUM_REGS {
            Ok(self.regs[index])
        } else {
            Err(FaultReason::RegisterOutOfRange)
        }
    }

    /// Writes a register slot already known to be in range.
    fn store(&mut self, index: usize, value: i64)
        requires
            old(self).wf(),
            index < NUM_REGS,
        ensures
            final(self).wf(),
            final(self)@.regs == old(self)@.regs.update(index as int, value),
            final(self)@.zf == old(self)@.zf,
            final(self)@.cf == old(self)@.cf,
    {
        self.regs.set(index, value);
    }

    /// Writes one general register; an index out of range is a fault and
    /// changes nothing.
    pub fn write(&mut self, index: usize, value: i64) -> (r: Result<(), FaultReason>)
        requires
            old(self).wf(),
        ensures
            final(self).wf(),
            index < NUM_REGS ==> r is Ok && final(self)@.regs == old(self)@.regs.update(
                index as int,
                value,
            ) && final(self)@.zf == old(self)@.zf && final(self)@.cf == old(self)@.cf,
            index >= NUM_REGS ==> r == Err::<(), FaultReason>(FaultReason::RegisterOutOfRange)
                && final(self)@ == old(self)@,
    {
        if index < NUM_REGS {
            self.store(index, value);
            Ok(())
        } else {
            Err(FaultReason::RegisterOutOfRange)
        }
    }

    /// Sets or clears one condition flag explicitly.
    pub fn set_flag(&mut self, flag: Flag, value: bool)
        ensures
            final(self)@.regs == old(self)@.regs,
            final(self)@.zf == if flag is Zf {
                value
            } else {
                old(self)@.zf
            },
            final(self)@.cf == if flag is Cf {
                value
            } else {
                old(self)@.cf
            },
    {
        match flag {
            Flag::Zf => self.zf = value,
            Flag::Cf => self.cf = value,
        }
    }

    /// Reads one condition flag.
    pub fn get_flag(&self, flag: Flag) -> (r: bool)
        ensures
            r == if flag is Zf {
                self@.zf
            } else {
                self@.cf
            },
    {
        match flag {
            Flag::Zf => self.zf,
            Flag::Cf => self.cf,
        }
    }
}

/// Mathematical model of one whole machine: program, memory, registers,
/// flags, the two pointers, the run status, and everything the print
/// interrupt has emitted so far.
pub struct VmModel {
    pub program: Seq<Instruction>,
    pub mem: Seq<i64>,
    pub regs: Seq<i64>,
    pub zf: bool,
    pub cf: bool,
    pub ip: int,
    pub sp: int,
    pub low_sp: int,
    pub status: Status,
    pub output: Seq<i64>,
}

/// The layout invariant of a machine: memory indices below `low_sp` mirror
/// the loaded program, the stack region runs from `low_sp` to the end of
/// memory, and both pointers stay inside their regions.
pub open spec fn wf_model(m: VmModel) -> bool {
    &&& m.regs.len() == NUM_REGS
    &&& m.low_sp == m.program.len()
    &&& m.low_sp <= m.mem.len()
    &&& m.low_sp <= m.sp <= m.mem.len()
    &&& 0 <= m.ip <= m.low_sp
    &&& wf_program(m.program)
}

/// The value an operand resolves to: an immediate is itself, a register
/// names its content, an address is its index as a word.  An unused slot
/// or a register index out of range cannot resolve and faults.
pub open spec fn opd_value(m: VmModel, op: Operand) -> Result<i64, FaultReason> {
    match op {
        Operand::Immediate(v) => Ok(v),
        Operand::Register(r) => if r < NUM_REGS {
            Ok(m.regs[r as int])
        } else {
            Err(FaultReason::RegisterOutOfRange)
        },
        Operand::Address(a) => Ok(a as i64),
        Operand::Unused => Err(FaultReason::RegisterOutOfRange),
    }
}

/// The register a destination operand designates; anything that is not an
/// in-range register operand faults.
pub open spec fn opd_register(op: Operand) -> Result<usize, FaultReason> {
    match op {
        Operand::Register(r) => if r < NUM_REGS {
            Ok(r)
        } else {
            Err(FaultReason::RegisterOutOfRange)
        },
        _ => Err(FaultReason::RegisterOutOfRange),
    }
}

/// A fault stops the machine where it stands: registers, memory and both
/// pointers keep the values of the last completed instruction, and the
/// faulting `ip` is left in place.
pub open spec fn fault(m: VmModel, reason: FaultReason) -> VmModel {
    VmModel { status: Status::Faulted(reason), ..m }
}

/// Fall through to the next instruction.
pub open spec fn advance(m: VmModel) -> VmModel {
    VmModel { ip: m.ip + 1, ..m }
}

/// Whether a branch opcode takes its jump under the current flags.
pub open spec fn branch_taken(m: VmModel, opcode: Opcode) -> bool {
    match opcode {
        Opcode::Jmp => true,
        Opcode::Je => m.zf,
        Opcode::Jne => !m.zf,
        Opcode::Jl => !m.zf && m.cf,
        Opcode::Jle => m.zf || (!m.zf && m.cf),
        Opcode::Jg => !m.zf && !m.cf,
        Opcode::Jge => m.zf || (!m.zf && !m.cf),
        _ => false,
    }
}

/// What one instruction does to the machine.  Destination operands are
/// validated before any state changes; on a fault nothing is mutated.
pub open spec fn inst_spec(m: VmModel, inst: Instruction) -> VmModel {
    match inst.opcode {
        Opcode::Noop => advance(m),
        Opcode::Halt => VmModel { status: Status::Halted, ..m },
        Opcode::Mov => match (opd_register(inst.operand_a), opd_value(m, inst.operand_b)) {
            (Ok(r), Ok(v)) => advance(VmModel { regs: m.regs.update(r as int, v), ..m }),
            (Err(f), _) => fault(m, f),
            (_, Err(f)) => fault(m, f),
        },
        Opcode::Add => match (opd_register(inst.operand_a), opd_value(m, inst.operand_b)) {
            (Ok(r), Ok(v)) => advance(
                VmModel {
                    regs: m.regs.update(
                        r as int,
                        vstd::wrapping::i64_specs::wrapping_add(m.regs[r as int], v),
                    ),
                    ..m
                },
            ),
            (Err(f), _) => fault(m, f),
            (_, Err(f)) => fault(m, f),
        },
        Opcode::Push => match opd_value(m, inst.operand_a) {
            Ok(v) => if m.sp >= m.mem.len() {
                fault(m, FaultReason::StackOverflow)
            } else {
                VmModel { mem: m.mem.update(m.sp, v), sp: m.sp + 1, ip: m.ip + 1, ..m }
            },
            Err(f) => fault(m, f),
        },
        Opcode::Pop => if m.sp <= m.low_sp {
            fault(m, FaultReason::StackUnderflow)
        } else {
            match opd_register(inst.operand_a) {
                Ok(r) => VmModel {
                    regs: m.regs.update(r as int, m.mem[m.sp - 1]),
                    sp: m.sp - 1,
                    ip: m.ip + 1,
                    ..m
                },
                Err(f) => fault(m, f),
            }
        },
        Opcode::Int => match opd_value(m, inst.operand_a) {
            Ok(code) => if code == 4 {
                let index = m.regs[REG_ECX as int];
                if index < 0 {
                    fault(m, FaultReason::StackUnderflow)
                } else if m.low_sp + index >= m.mem.len() {
                    fault(m, FaultReason::StackOverflow)
                } else {
                    VmModel { output: m.output.push(m.mem[m.low_sp + index]), ip: m.ip + 1, ..m }
                }
            } else {
                advance(m)
            },
            Err(f) => fault(m, f),
        },
        Opcode::Cmp => match (opd_value(m, inst.operand_a), opd_value(m, inst.operand_b)) {
            (Ok(va), Ok(vb)) => VmModel { zf: va == vb, cf: va < vb, ip: m.ip + 1, ..m },
            (Err(f), _) => fault(m, f),
            (_, Err(f)) => fault(m, f),
        },
        _ => match opd_value(m, inst.operand_a) {
            Ok(t) => if branch_taken(m, inst.opcode) {
                if 0 <= t <= m.low_sp {
                    VmModel { ip: t as int, ..m }
                } else {
                    fault(m, FaultReason::InvalidFetch)
                }
            } else {
                advance(m)
            },
            Err(f) => fault(m, f),
        },
    }
}

/// One step of the fetch-decode-execute loop.  A machine that is not
/// running does not move; `ip` at the stack floor means the program ran off
/// its end and halts; past it (unreachable from a well-formed machine) the
/// fetch faults.
pub open spec fn step_spec(m: VmModel) -> VmModel {
    if !(m.status is Running) {
        m
    } else if m.ip == m.low_sp {
        VmModel { status: Status::Halted, ..m }
    } else if !(0 <= m.ip < m.program.len()) {
        fault(m, FaultReason::InvalidFetch)
    } else {
        inst_spec(m, m.program[m.ip])
    }
}

/// The machine after at most `n` steps: stepping is the identity once the
/// machine has halted or faulted.
pub open spec fn run_spec(m: VmModel, n: nat) -> VmModel
    decreases n,
{
    if n == 0 {
        m
    } else {
        run_spec(step_spec(m), (n - 1) as nat)
    }
}

/// A fresh machine over a loaded program: memory all zero with room for
/// `stack_capacity` stack slots above the program, registers zero, flags
/// clear, both pointers at their floors.
pub open spec fn init_spec(program: Seq<Instruction>, stack_capacity: int) -> VmModel {
    VmModel {
        program: program,
        mem: Seq::new((program.len() + stack_capacity) as nat, |i: int| 0i64),
        regs: Seq::new(NUM_REGS as nat, |i: int| 0i64),
        zf: false,
        cf: false,
        ip: 0,
        sp: program.len() as int,
        low_sp: program.len() as int,
        status: Status::Running,
        output: Seq::empty(),
    }
}

/// Every step preserves the layout invariant.
pub proof fn lemma_step_preserves_wf(m: VmModel)
    requires
        wf_model(m),
    ensures
        wf_model(step_spec(m)),
{
}

/// Stepping a machine that is not running changes nothing.
pub proof fn lemma_run_stuck(m: VmModel, n: nat)
    requires
        !(m.status is Running),
    ensures
        run_spec(m, n) == m,
    decreases n,
{
    if n > 0 {
        lemma_run_stuck(step_spec(m), (n - 1) as nat);
    }
}

/// The execution engine's state: the loaded program, the flat memory whose
/// upper region is the operand stack, the register file, the two pointers,
/// the run status, and the words the print interrupt has emitted.
pub struct Vm {
    program: Vec<Instruction>,
    memory: Vec<i64>,
    regs: RegisterFile,
    ip: usize,
    sp: usize,
    low_sp: usize,
    status: Status,
    output: Vec<i64>,
}

impl View for Vm {
    type V = VmModel;

    closed spec fn view(&self) -> VmModel {
        VmModel {
            program: self.program@,
            mem: self.memory@,
            regs: self.regs@.regs,
            zf: self.regs@.zf,
            cf: self.regs@.cf,
            ip: self.ip as int,
            sp: self.sp as int,
            low_sp: self.low_sp as int,
            status: self.status,
            output: self.output@,
        }
    }
}

impl Vm {
    pub open spec fn wf(&self) -> bool {
        wf_model(self@)
    }

    /// Builds a fresh machine over an assembled program, with room for
    /// `stack_capacity` stack slots above it.
    pub fn new(program: Vec<Instruction>, stack_capacity: usize) -> (r: Vm)
        requires
            wf_program(program@),
            program.len() + stack_capacity <= usize::MAX,
        ensures
            r.wf(),
            r@ == init_spec(program@, stack_capacity as int),
    {
        let capacity: usize = program.len() + stack_capacity;
        let mut memory: Vec<i64> = Vec::new();
        let mut i: usize = 0;
        while i < capacity
            invariant
                0 <= i <= capacity,
                memory@.len() == i,
                forall|k: int| 0 <= k < i ==> memory@[k] == 0i64,
            decreases capacity - i,
        {
            memory.push(0);
            i = i + 1;
        }
        let low_sp: usize = program.len();
        let r = Vm {
            program,
            memory,
            regs: RegisterFile::new(),
            ip: 0,
            sp: low_sp,
            low_sp,
            status: Status::Running,
            output: Vec::new(),
        };
        proof {
            assert(r@.mem =~= init_spec(r@.program, stack_capacity as int).mem);
            assert(r@.output =~= init_spec(r@.program, stack_capacity as int).output);
            assert(r@ == init_spec(r@.program, stack_capacity as int));
        }
        r
    }

    /// Resolves an operand to its value, as `opd_value` states.
    fn resolve_value(&self, op: Operand) -> (r: Result<i64, FaultReason>)
        requires
            self.wf(),
            crate::isa::wf_operand(op),
        ensures
            r == opd_value(self@, op),
    {
        match op {
            Operand::Immediate(v) => Ok(v),
            Operand::Register(r) => self.regs.read(r),
            Operand::Address(a) => Ok(a as i64),
            Operand::Unused => Err(FaultReason::RegisterOutOfRange),
        }
    }

    /// Resolves a destination operand to a register index, as
    /// `opd_register` states.
    fn resolve_register(op: Operand) -> (r: Result<usize, FaultReason>)
        ensures
            r == opd_register(op),
    {
        match op {
            Operand::Register(r) => if r < NUM_REGS {
                Ok(r)
            } else {
                Err(FaultReason::RegisterOutOfRange)
            },
            _ => Err(FaultReason::RegisterOutOfRange),
        }
    }

    /// Whether a branch opcode takes its jump under the current flags.
    fn branch_taken_now(&self, opcode: Opcode) -> (r: bool)
        ensures
            r == branch_taken(self@, opcode),
    {
        match opcode {
            Opcode::Jmp => true,
            Opcode::Je => self.regs.get_flag(Flag::Zf),
            Opcode::Jne => !self.regs.get_flag(Flag::Zf),
            Opcode::Jl => !self.regs.get_flag(Flag::Zf) && self.regs.get_flag(Flag::Cf),
            Opcode::Jle => self.regs.get_flag(Flag::Zf) || (!self.regs.get_flag(Flag::Zf)
                && self.regs.get_flag(Flag::Cf)),
            Opcode::Jg => !self.regs.get_flag(Flag::Zf) && !self.regs.get_flag(Flag::Cf),
            Opcode::Jge => self.regs.get_flag(Flag::Zf) || (!self.regs.get_flag(Flag::Zf)
                && !self.regs.get_flag(Flag::Cf)),
            _ => false,
        }
    }

    /// Executes one step of the fetch-decode-execute loop, exactly as
    /// `step_spec` states.
    pub fn step(&mut self)
        requires
            old(self).wf(),
        ensures
            final(self).wf(),
            final(self)@ == step_spec(old(self)@),
    {
        proof {
            lemma_step_preserves_wf(old(self)@);
        }
        match self.status {
            Status::Running => {},
            _ => {
                return ;
            },
        }
        if self.ip == self.low_sp {
            self.status = Status::Halted;
            return ;
        }
        let inst = self.program[self.ip];
        proof {
            assert(crate::isa::wf_instruction(inst));
        }
        match inst.opcode {
            Opcode::Noop => {
                self.ip = self.ip + 1;
            },
            Opcode::Halt => {
                self.status = Status::Halted;
            },
            Opcode::Mov => {
                match Self::resolve_register(inst.operand_a) {
                    Err(f) => {
                        self.status = Status::Faulted(f);
                    },
                    Ok(r) => match self.resolve_value(inst.operand_b) {
                        Err(f) => {
                            self.status = Status::Faulted(f);
                        },
                        Ok(v) => {
                            self.regs.store(r, v);
                            self.ip = self.ip + 1;
                        },
                    },
                }
            },
            Opcode::Add => {
                match Self::resolve_register(inst.operand_a) {
                    Err(f) => {
                        self.status = Status::Faulted(f);
                    },
                    Ok(r) => match self.resolve_value(inst.operand_b) {
                        Err(f) => {
                            self.status = Status::Faulted(f);
                        },
                        Ok(v) => {
                            let cur: i64 = match self.regs.read(r) {
                                Ok(c) => c,
                                Err(_) => 0,
                            };
                            self.regs.store(r, cur.wrapping_add(v));
                            self.ip = self.ip + 1;
                        },
                    },
                }
            },
            Opcode::Push => {
                match self.resolve_value(inst.operand_a) {
                    Err(f) => {
                        self.status = Status::Faulted(f);
                    },
                    Ok(v) => {
                        if self.sp >= self.memory.len() {
                            self.status = Status::Faulted(FaultReason::StackOverflow);
                        } else {
                            self.memory.set(self.sp, v);
                            self.sp = self.sp + 1;
                            self.ip = self.ip + 1;
                        }
                    },
                }
            },
            Opcode::Pop => {
                if self.sp <= self.low_sp {
                    self.status = Status::Faulted(FaultReason::StackUnderflow);
                } else {
                    match Self::resolve_register(inst.operand_a) {
                        Err(f) => {
                            self.status = Status::Faulted(f);
                        },
                        Ok(r) => {
                            self.sp = self.sp - 1;
                            let v = self.memory[self.sp];
                            self.regs.store(r, v);
                            self.ip = self.ip + 1;
                        },
                    }
                }
            },
            Opcode::Int => {
                match self.resolve_value(inst.operand_a) {
                    Err(f) => {
                        self.status = Status::Faulted(f);
                    },
                    Ok(code) => {
                        if code == 4 {
                            let index: i64 = match self.regs.read(REG_ECX) {
                                Ok(c) => c,
                                Err(_) => 0,
                            };
                            if index < 0 {
                                self.status = Status::Faulted(FaultReason::StackUnderflow);
                            } else if index as u128 >= self.memory.len() as u128
                                - self.low_sp as u128 {
                                self.status = Status::Faulted(FaultReason::StackOverflow);
                            } else {
                                let cell: usize = self.low_sp + index as usize;
                                self.output.push(self.memory[cell]);
                                self.ip = self.ip + 1;
                            }
                        } else {
                            self.ip = self.ip + 1;
                        }
                    },
                }
            },
            Opcode::Cmp => {
                match self.resolve_value(inst.operand_a) {
                    Err(f) => {
                        self.status = Status::Faulted(f);
                    },
                    Ok(va) => match self.resolve_value(inst.operand_b) {
                        Err(f) => {
                            self.status = Status::Faulted(f);
                        },
                        Ok(vb) => {
                            self.regs.set_flag(Flag::Zf, va == vb);
                            self.regs.set_flag(Flag::Cf, va < vb);
                            self.ip = self.ip + 1;
                        },
                    },
                }
            },
            _ => {
                match self.resolve_value(inst.operand_a) {
                    Err(f) => {
                        self.status = Status::Faulted(f);
                    },
                    Ok(t) => {
                        if self.branch_taken_now(inst.opcode) {
                            if t >= 0 && t as u128 <= self.low_sp as u128 {
                                self.ip = t as usize;
                            } else {
                                self.status = Status::Faulted(FaultReason::InvalidFetch);
                            }
                        } else {
                            self.ip = self.ip + 1;
                        }
                    },
                }
            },
        }
    }

    /// Runs the fetch-decode-execute loop for at most `fuel` steps,
    /// stopping early once the machine halts or faults.  Returns whether
    /// the machine reached a terminal state.
    pub fn run(&mut self, fuel: u64) -> (done: bool)
        requires
            old(self).wf(),
        ensures
            final(self).wf(),
            final(self)@ == run_spec(old(self)@, fuel as nat),
            done == !(final(self)@.status is Running),
    {
        let ghost m0 = self@;
        let mut k: u64 = 0;
        while k < fuel
            invariant_except_break
                self.wf(),
                0 <= k <= fuel,
                run_spec(m0, fuel as nat) == run_spec(self@, (fuel - k) as nat),
            ensures
                self.wf(),
                run_spec(m0, fuel as nat) == self@,
            decreases fuel - k,
        {
            match self.status {
                Status::Running => {},
                _ => {
                    proof {
                        lemma_run_stuck(self@, (fuel - k) as nat);
                    }
                    break ;
                },
            }
            self.step();
            k = k + 1;
        }
        match self.status {
            Status::Running => false,
            _ => true,
        }
    }

    /// The run status.
    pub fn status(&self) -> (r: Status)
        ensures
            r == self@.status,
    {
        self.status
    }

    /// Reads one general register, as `RegisterFile::read` states.
    pub fn register(&self, index: usize) -> (r: Result<i64, FaultReason>)
        requires
            self.wf(),
        ensures
            r == if index < NUM_REGS {
                Ok::<i64, FaultReason>(self@.regs[index as int])
            } else {
                Err::<i64, FaultReason>(FaultReason::RegisterOutOfRange)
            },
    {
        self.regs.read(index)
    }

    /// Reads one condition flag.
    pub fn flag(&self, flag: Flag) -> (r: bool)
        ensures
            r == if flag is Zf {
                self@.zf
            } else {
                self@.cf
            },
    {
        self.regs.get_flag(flag)
    }

    /// Reads one memory cell, code region and stack region alike.
    pub fn memory_at(&self, index: usize) -> (r: Option<i64>)
        ensures
            r == if index < self@.mem.len() {
                Some(self@.mem[index as int])
            } else {
                None::<i64>
            },
    {
        if index < self.memory.len() {
            Some(self.memory[index])
        } else {
            None
        }
    }

    /// The instruction pointer.
    pub fn ip(&self) -> (r: usize)
        ensures
            r as int == self@.ip,
    {
        self.ip
    }

    /// The stack pointer.
    pub fn sp(&self) -> (r: usize)
        ensures
            r as int == self@.sp,
    {
        self.sp
    }

    /// The stack floor: the address of the first stack slot, just past the
    /// loaded program.
    pub fn low_sp(&self) -> (r: usize)
        ensures
            r as int == self@.low_sp,
    {
        self.low_sp
    }

    /// Everything the print interrupt has emitted so far, oldest first.
    pub fn output(&self) -> (r: &Vec<i64>)
        ensures
            r@ == self@.output,
    {
        &self.output
    }
}

/// Execution is deterministic: two machines in the same state pass through
/// the same states, step for step, however long they run.  The state after
/// a run is a function of the initial state alone.
pub proof fn lemma_run_deterministic(m1: VmModel, m2: VmModel, n: nat)
    requires
        m1 == m2,
    ensures
        run_spec(m1, n) == run_spec(m2, n),
{
}

/// Pushing a value and popping it straight back is the identity on that
/// value: the popped register holds exactly the pushed word, and the stack
/// pointer is back at its old height.
pub proof fn lemma_push_pop_round_trip(m: VmModel, r: usize, v: i64)
    requires
        wf_model(m),
        m.status is Running,
        m.ip + 1 < m.low_sp,
        m.program[m.ip].opcode == Opcode::Push,
        opd_value(m, m.program[m.ip].operand_a) == Ok::<i64, FaultReason>(v),
        m.program[m.ip + 1].opcode == Opcode::Pop,
        m.program[m.ip + 1].operand_a == Operand::Register(r),
        r < NUM_REGS,
        m.sp < m.mem.len(),
    ensures
        step_spec(step_spec(m)).status is Running,
        step_spec(step_spec(m)).regs[r as int] == v,
        step_spec(step_spec(m)).sp == m.sp,
        step_spec(step_spec(m)).ip == m.ip + 2,
{
}

/// Popping with the stack pointer at the stack floor is a `StackUnderflow`
/// fault, never a silent wraparound or a read below the floor: registers,
/// memory and both pointers keep their values, and the machine stops.
pub proof fn lemma_pop_empty_stack_faults(m: VmModel)
    requires
        wf_model(m),
        m.status is Running,
        m.ip < m.low_sp,
        m.program[m.ip].opcode == Opcode::Pop,
        m.sp == m.low_sp,
    ensures
        step_spec(m).status == Status::Faulted(FaultReason::StackUnderflow),
        step_spec(m).regs == m.regs,
        step_spec(m).mem == m.mem,
        step_spec(m).sp == m.sp,
        step_spec(m).ip == m.ip,
{
}

} // verus!
