//! The two-pass assembler: a first pass resolves label names to instruction
//! addresses, a second pass encodes each source line into one `Instruction`.

use vstd::prelude::*;

use crate::isa::DecodeError;
use crate::isa::DecodeErrorKind;
use crate::isa::Instruction;
use crate::isa::Opcode;
use crate::isa::Operand;
use crate::isa::wf_operand;
use crate::isa::wf_program;
use crate::text::is_immediate_token;
use crate::text::label_name;
use crate::text::number_value;
use crate::text::comment_starts;
use crate::text::label_def_name;
use crate::text::parse_int;
use crate::text::str_eq;
use crate::text::is_comment_token;
use crate::text::is_label_token;
use crate::text::line_tokens;
use crate::text::tokenize;

verus! {

/// Register index of EAX in the register file.
pub const REG_EAX: usize = 1;

/// Register index of ECX in the register file.
pub const REG_ECX: usize = 2;

/// Register index of EDX in the register file.
pub const REG_EDX: usize = 3;

/// Register index of EBX in the register file.
pub const REG_EBX: usize = 4;

/// The register index a reserved register name designates, if any.
pub open spec fn register_index(t: Seq<char>) -> Option<usize> {
    if t == "eax"@ {
        Some(REG_EAX)
    } else if t == "ecx"@ {
        Some(REG_ECX)
    } else if t == "edx"@ {
        Some(REG_EDX)
    } else if t == "ebx"@ {
        Some(REG_EBX)
    } else {
        None
    }
}

/// The opcode a mnemonic token designates, if any.  Mnemonics are
/// case-sensitive and uppercase.
pub open spec fn mnemonic_opcode(t: Seq<char>) -> Option<Opcode> {
    if t == "NOOP"@ {
        Some(Opcode::Noop)
    } else if t == "HALT"@ {
        Some(Opcode::Halt)
    } else if t == "MOV"@ {
        Some(Opcode::Mov)
    } else if t == "ADD"@ {
        Some(Opcode::Add)
    } else if t == "PUSH"@ {
        Some(Opcode::Push)
    } else if t == "POP"@ {
        Some(Opcode::Pop)
    } else if t == "INT"@ {
        Some(Opcode::Int)
    } else if t == "CMP"@ {
        Some(Opcode::Cmp)
    } else if t == "JMP"@ {
        Some(Opcode::Jmp)
    } else if t == "JE"@ {
        Some(Opcode::Je)
    } else if t == "JNE"@ {
        Some(Opcode::Jne)
    } else if t == "JL"@ {
        Some(Opcode::Jl)
    } else if t == "JLE"@ {
        Some(Opcode::Jle)
    } else if t == "JG"@ {
        Some(Opcode::Jg)
    } else if t == "JGE"@ {
        Some(Opcode::Jge)
    } else {
        None
    }
}

/// How one operand token is classified under a completed label table:
/// a reserved register name, else a decimal integer that fits a machine
/// word, else a known label.  A label address out of machine-word range is
/// rejected at encode time, so every encoded operand is well formed.
pub open spec fn classify_operand(t: Seq<char>, labels: Map<Seq<char>, int>) -> Option<Operand> {
    if register_index(t) is Some {
        Some(Operand::Register(register_index(t)->Some_0))
    } else if is_immediate_token(t) {
        Some(Operand::Immediate(number_value(t) as i64))
    } else if labels.contains_key(t) && 0 <= labels[t] <= i64::MAX && labels[t] <= usize::MAX as int {
        Some(Operand::Address(labels[t] as usize))
    } else {
        None
    }
}

/// The mapping an ordered list of label definitions denotes: a later
/// definition of the same name overwrites an earlier one.
pub open spec fn table_map(names: Seq<Seq<char>>, addrs: Seq<usize>) -> Map<Seq<char>, int>
    decreases names.len(),
{
    if names.len() == 0 || addrs.len() == 0 {
        Map::empty()
    } else {
        table_map(names.drop_last(), addrs.drop_last()).insert(
            names.last(),
            addrs.last() as int,
        )
    }
}

/// The label table: a name-to-address mapping built by the resolver pass and
/// read, completed, by the encoder pass.  Later definitions of a name win.
pub struct LabelTable {
    names: Vec<String>,
    addrs: Vec<usize>,
}

impl View for LabelTable {
    type V = Map<Seq<char>, int>;

    closed spec fn view(&self) -> Map<Seq<char>, int> {
        table_map(self.names.deep_view(), self.addrs@)
    }
}

/// Optional lookup in a mapping, as a single spec value.
spec fn map_get(m: Map<Seq<char>, int>, k: Seq<char>) -> Option<int> {
    if m.contains_key(k) {
        Some(m[k])
    } else {
        None
    }
}

impl LabelTable {
    /// The two columns always have the same length.
    pub closed spec fn wf(&self) -> bool {
        self.names.len() == self.addrs.len()
    }

    /// An empty table.
    pub fn new() -> (r: LabelTable)
        ensures
            r.wf(),
            r@ == Map::<Seq<char>, int>::empty(),
    {
        let r = LabelTable { names: Vec::new(), addrs: Vec::new() };
        proof {
            assert(r.names.deep_view() =~= Seq::<Seq<char>>::empty());
        }
        r
    }

    /// Records one label definition; a later definition of the same name
    /// overwrites an earlier one.
    pub fn insert(&mut self, name: String, addr: usize)
        requires
            old(self).wf(),
        ensures
            final(self).wf(),
            final(self)@ == old(self)@.insert(name@, addr as int),
    {
        let ghost old_names = self.names.deep_view();
        let ghost old_addrs = self.addrs@;
        self.names.push(name);
        self.addrs.push(addr);
        proof {
            assert(self.names.deep_view().drop_last() =~= old_names);
            assert(self.addrs@.drop_last() =~= old_addrs);
            assert(self.names.deep_view().last() == name@);
        }
    }

    /// Looks a name up; of several definitions the latest wins.
    pub fn lookup(&self, name: &str) -> (r: Option<usize>)
        requires
            self.wf(),
        ensures
            match r {
                Some(a) => self@.contains_key(name@) && self@[name@] == a as int,
                None => !self@.contains_key(name@),
            },
    {
        let ghost full_names = self.names.deep_view();
        let ghost full_addrs = self.addrs@;
        let mut i: usize = self.names.len();
        proof {
            assert(full_names.take(i as int) =~= full_names);
            assert(full_addrs.take(i as int) =~= full_addrs);
        }
        while i > 0
            invariant
                self.wf(),
                0 <= i <= self.names.len(),
                full_names == self.names.deep_view(),
                full_addrs == self.addrs@,
                map_get(self@, name@) == map_get(
                    table_map(full_names.take(i as int), full_addrs.take(i as int)),
                    name@,
                ),
            decreases i,
        {
            i = i - 1;
            let ghost pre_names = full_names.take(i as int);
            let ghost pre_addrs = full_addrs.take(i as int);
            proof {
                assert(full_names.take(i + 1).drop_last() =~= pre_names);
                assert(full_addrs.take(i + 1).drop_last() =~= pre_addrs);
                assert(full_names.take(i + 1).last() == full_names[i as int]);
                assert(full_addrs.take(i + 1).last() == full_addrs[i as int]);
            }
            if str_eq(name, self.names[i].as_str()) {
                return Some(self.addrs[i]);
            }
        }
        proof {
            assert(full_names.take(0) =~= Seq::<Seq<char>>::empty());
        }
        None
    }
}

/// Matches a token against the reserved register names.
fn match_register(token: &str) -> (r: Option<usize>)
    ensures
        r == register_index(token@),
{
    if str_eq(token, "eax") {
        Some(REG_EAX)
    } else if str_eq(token, "ecx") {
        Some(REG_ECX)
    } else if str_eq(token, "edx") {
        Some(REG_EDX)
    } else if str_eq(token, "ebx") {
        Some(REG_EBX)
    } else {
        None
    }
}

/// Matches a token against the known mnemonics.
fn match_mnemonic(token: &str) -> (r: Option<Opcode>)
    ensures
        r == mnemonic_opcode(token@),
{
    if str_eq(token, "NOOP") {
        Some(Opcode::Noop)
    } else if str_eq(token, "HALT") {
        Some(Opcode::Halt)
    } else if str_eq(token, "MOV") {
        Some(Opcode::Mov)
    } else if str_eq(token, "ADD") {
        Some(Opcode::Add)
    } else if str_eq(token, "PUSH") {
        Some(Opcode::Push)
    } else if str_eq(token, "POP") {
        Some(Opcode::Pop)
    } else if str_eq(token, "INT") {
        Some(Opcode::Int)
    } else if str_eq(token, "CMP") {
        Some(Opcode::Cmp)
    } else if str_eq(token, "JMP") {
        Some(Opcode::Jmp)
    } else if str_eq(token, "JE") {
        Some(Opcode::Je)
    } else if str_eq(token, "JNE") {
        Some(Opcode::Jne)
    } else if str_eq(token, "JL") {
        Some(Opcode::Jl)
    } else if str_eq(token, "JLE") {
        Some(Opcode::Jle)
    } else if str_eq(token, "JG") {
        Some(Opcode::Jg)
    } else if str_eq(token, "JGE") {
        Some(Opcode::Jge)
    } else {
        None
    }
}

/// Classifies one operand token under the completed label table: a register
/// name, a decimal immediate, or a known label; anything else is an
/// `InvalidOperand` error naming the token.
pub fn load_inst(token: &str, labels: &LabelTable) -> (r: Result<Operand, DecodeErrorKind>)
    requires
        labels.wf(),
    ensures
        match r {
            Ok(op) => classify_operand(token@, labels@) == Some(op) && wf_operand(op),
            Err(k) => classify_operand(token@, labels@) is None && (k matches
            DecodeErrorKind::InvalidOperand(t) && t@ == token@),
        },
{
    if let Some(reg) = match_register(token) {
        return Ok(Operand::Register(reg));
    }
    if let Some(v) = parse_int(token) {
        return Ok(Operand::Immediate(v));
    }
    if let Some(addr) = labels.lookup(token) {
        if addr as u128 <= i64::MAX as u128 {
            return Ok(Operand::Address(addr));
        }
    }
    Err(DecodeErrorKind::InvalidOperand(token.to_owned()))
}

/// The label definitions one line contributes, all bound to the address
/// `addr` of the next instruction.  Tokens after the comment marker are
/// ignored; every label-definition token on the line counts, wherever it
/// stands.
pub open spec fn line_label_step(
    toks: Seq<Seq<char>>,
    m: Map<Seq<char>, int>,
    addr: int,
) -> Map<Seq<char>, int>
    decreases toks.len(),
{
    if toks.len() == 0 {
        m
    } else if is_comment_token(toks[0]) {
        m
    } else if is_label_token(toks[0]) {
        line_label_step(toks.drop_first(), m.insert(label_name(toks[0]), addr), addr)
    } else {
        line_label_step(toks.drop_first(), m, addr)
    }
}

/// Whether a line holds an instruction and so consumes one address: it has
/// at least one token before the comment marker that is not a label
/// definition.
pub open spec fn line_consumes(toks: Seq<Seq<char>>) -> bool
    decreases toks.len(),
{
    if toks.len() == 0 {
        false
    } else if is_comment_token(toks[0]) {
        false
    } else if is_label_token(toks[0]) {
        line_consumes(toks.drop_first())
    } else {
        true
    }
}

/// The resolver pass over the remaining lines, carrying the table built so
/// far and the address the next instruction will occupy.  Yields the
/// completed table and the total instruction count.
pub open spec fn resolve_step(
    lines: Seq<Seq<char>>,
    m: Map<Seq<char>, int>,
    addr: int,
) -> (Map<Seq<char>, int>, int)
    decreases lines.len(),
{
    if lines.len() == 0 {
        (m, addr)
    } else {
        let toks = line_tokens(lines[0]);
        resolve_step(
            lines.drop_first(),
            line_label_step(toks, m, addr),
            addr + if line_consumes(toks) {
                1int
            } else {
                0int
            },
        )
    }
}

/// The completed label table of a program, and its instruction count
/// (the stack floor `low_sp` once the program is loaded).
pub open spec fn resolve_spec(lines: Seq<Seq<char>>) -> (Map<Seq<char>, int>, int) {
    resolve_step(lines, Map::empty(), 0)
}

/// First assembler pass: walks all source lines and builds the completed
/// label table, together with the total count of encoded instructions.
/// A label may be referenced before or after its definition line, since
/// the encoder pass only runs once this table is complete.
pub fn resolve_labels(lines: &Vec<String>) -> (r: (LabelTable, usize))
    ensures
        r.0.wf(),
        (r.0@, r.1 as int) == resolve_spec(lines.deep_view()),
        r.1 <= lines.len(),
{
    let ghost all = lines.deep_view();
    let mut table = LabelTable::new();
    let mut addr: usize = 0;
    let mut i: usize = 0;
    proof {
        assert(all.skip(0) =~= all);
    }
    while i < lines.len()
        invariant
            all == lines.deep_view(),
            0 <= i <= lines.len(),
            addr <= i,
            table.wf(),
            resolve_spec(all) == resolve_step(all.skip(i as int), table@, addr as int),
        decreases lines.len() - i,
    {
        let toks = tokenize(lines[i].as_str());
        let ghost toksd = toks.deep_view();
        proof {
            assert(all.skip(i as int)[0] == all[i as int]);
            assert(all.skip(i as int).drop_first() =~= all.skip(i as int + 1));
        }
        let mut consumed: bool = false;
        let mut j: usize = 0;
        let ghost table_at_line = table@;
        proof {
            assert(toksd.skip(0) =~= toksd);
        }
        while j < toks.len()
            invariant_except_break
                toksd == toks.deep_view(),
                0 <= j <= toks.len(),
                table.wf(),
                line_label_step(toksd, table_at_line, addr as int) == line_label_step(
                    toksd.skip(j as int),
                    table@,
                    addr as int,
                ),
                line_consumes(toksd) == (consumed || line_consumes(toksd.skip(j as int))),
            ensures
                table.wf(),
                line_label_step(toksd, table_at_line, addr as int) == table@,
                line_consumes(toksd) == consumed,
            decreases toks.len() - j,
        {
            proof {
                assert(toksd.skip(j as int)[0] == toksd[j as int]);
                assert(toksd.skip(j as int).drop_first() =~= toksd.skip(j as int + 1));
            }
            let tok = &toks[j];
            if comment_starts(tok.as_str()) {
                break;
            }
            if let Some(name) = label_def_name(tok.as_str()) {
                table.insert(name, addr);
            } else {
                consumed = true;
            }
            j = j + 1;
        }
        if consumed {
            addr = addr + 1;
        }
        i = i + 1;
    }
    proof {
        assert(all.skip(i as int) =~= Seq::<Seq<char>>::empty());
    }
    (table, addr)
}

/// What the encoder pass makes of one source line: nothing (the line holds
/// no instruction), one encoded instruction, or the first offending token.
pub enum LineDecode {
    Empty,
    Encoded(Instruction),
    Unknown(Seq<char>),
    Invalid(Seq<char>),
}

/// The instruction an encoder state denotes once the line's tokens are
/// exhausted: an operand slot never filled stays `Unused`.
pub open spec fn finish_line(op: Option<Opcode>, a: Option<Operand>, b: Option<Operand>) -> LineDecode {
    match op {
        None => LineDecode::Empty,
        Some(o) => LineDecode::Encoded(
            Instruction {
                opcode: o,
                operand_a: match a {
                    Some(x) => x,
                    None => Operand::Unused,
                },
                operand_b: match b {
                    Some(x) => x,
                    None => Operand::Unused,
                },
            },
        ),
    }
}

/// The encoder pass over one line's remaining tokens.  Processing stops at
/// the comment marker; label-definition tokens are skipped (the resolver
/// pass consumed them); the first remaining token must be a mnemonic; each
/// further token fills the first free operand slot.  An unknown mnemonic,
/// an unclassifiable operand token, or a third operand token is an error
/// naming that token.
pub open spec fn decode_toks(
    toks: Seq<Seq<char>>,
    labels: Map<Seq<char>, int>,
    op: Option<Opcode>,
    a: Option<Operand>,
    b: Option<Operand>,
) -> LineDecode
    decreases toks.len(),
{
    if toks.len() == 0 || is_comment_token(toks[0]) {
        finish_line(op, a, b)
    } else if is_label_token(toks[0]) {
        decode_toks(toks.drop_first(), labels, op, a, b)
    } else if op is None {
        match mnemonic_opcode(toks[0]) {
            Some(o) => decode_toks(toks.drop_first(), labels, Some(o), a, b),
            None => LineDecode::Unknown(toks[0]),
        }
    } else {
        match classify_operand(toks[0], labels) {
            Some(operand) => if a is None {
                decode_toks(toks.drop_first(), labels, op, Some(operand), b)
            } else if b is None {
                decode_toks(toks.drop_first(), labels, op, a, Some(operand))
            } else {
                LineDecode::Invalid(toks[0])
            },
            None => LineDecode::Invalid(toks[0]),
        }
    }
}

/// What the encoder makes of one whole source line under a completed label
/// table.
pub open spec fn decode_line(line: Seq<char>, labels: Map<Seq<char>, int>) -> LineDecode {
    decode_toks(line_tokens(line), labels, None, None, None)
}

/// Second assembler pass for one source line: yields the encoded
/// instruction, nothing for a line that holds none, or the first offending
/// token.
pub fn decode(line: &str, labels: &LabelTable) -> (r: Result<Option<Instruction>, DecodeErrorKind>)
    requires
        labels.wf(),
    ensures
        match r {
            Ok(oi) => match oi {
                None => decode_line(line@, labels@) == LineDecode::Empty,
                Some(inst) => decode_line(line@, labels@) == LineDecode::Encoded(inst)
                    && crate::isa::wf_instruction(inst),
            },
            Err(k) => match k {
                DecodeErrorKind::UnknownOpcode(t) => decode_line(line@, labels@)
                    == LineDecode::Unknown(t@),
                DecodeErrorKind::InvalidOperand(t) => decode_line(line@, labels@)
                    == LineDecode::Invalid(t@),
            },
        },
{
    let toks = tokenize(line);
    let ghost toksd = toks.deep_view();
    let mut op: Option<Opcode> = None;
    let mut a: Option<Operand> = None;
    let mut b: Option<Operand> = None;
    let mut j: usize = 0;
    proof {
        assert(toksd.skip(0) =~= toksd);
    }
    while j < toks.len()
        invariant_except_break
            toksd == toks.deep_view(),
            0 <= j <= toks.len(),
            labels.wf(),
            a is Some ==> op is Some,
            b is Some ==> a is Some,
            (a matches Some(x) ==> wf_operand(x)) && (b matches Some(x) ==> wf_operand(x)),
            decode_line(line@, labels@) == decode_toks(
                toksd.skip(j as int),
                labels@,
                op,
                a,
                b,
            ),
        ensures
            (a matches Some(x) ==> wf_operand(x)) && (b matches Some(x) ==> wf_operand(x)),
            decode_line(line@, labels@) == finish_line(op, a, b),
        decreases toks.len() - j,
    {
        proof {
            assert(toksd.skip(j as int)[0] == toksd[j as int]);
            assert(toksd.skip(j as int).drop_first() =~= toksd.skip(j as int + 1));
        }
        let tok = &toks[j];
        if comment_starts(tok.as_str()) {
            break;
        }
        if label_def_name(tok.as_str()).is_none() {
            if op.is_none() {
                match match_mnemonic(tok.as_str()) {
                    Some(o) => {
                        op = Some(o);
                    },
                    None => {
                        return Err(DecodeErrorKind::UnknownOpcode(tok.clone()));
                    },
                }
            } else {
                match load_inst(tok.as_str(), labels) {
                    Ok(operand) => {
                        if a.is_none() {
                            a = Some(operand);
                        } else if b.is_none() {
                            b = Some(operand);
                        } else {
                            return Err(
                                DecodeErrorKind::InvalidOperand(tok.clone()),
                            );
                        }
                    },
                    Err(e) => {
                        return Err(e);
                    },
                }
            }
        }
        j = j + 1;
    }
    match op {
        None => Ok(None),
        Some(o) => {
            let operand_a = match a {
                Some(x) => x,
                None => Operand::Unused,
            };
            let operand_b = match b {
                Some(x) => x,
                None => Operand::Unused,
            };
            Ok(Some(Instruction { opcode: o, operand_a, operand_b }))
        },
    }
}

/// What assembling a whole program yields: the instruction sequence, or the
/// first offending line and token.
pub enum AsmOutcome {
    Program(Seq<Instruction>),
    Failed(int, LineDecode),
}

/// The encoder pass over the lines from `i` on, under a completed label
/// table.  Assembly is all-or-nothing: the first offending line stops it.
pub open spec fn encode_from(lines: Seq<Seq<char>>, labels: Map<Seq<char>, int>, i: int) -> AsmOutcome
    decreases lines.len() - i,
    when 0 <= i
{
    if i >= lines.len() {
        AsmOutcome::Program(Seq::empty())
    } else {
        match decode_line(lines[i], labels) {
            LineDecode::Empty => encode_from(lines, labels, i + 1),
            LineDecode::Encoded(inst) => match encode_from(lines, labels, i + 1) {
                AsmOutcome::Program(rest) => AsmOutcome::Program(seq![inst] + rest),
                AsmOutcome::Failed(l, e) => AsmOutcome::Failed(l, e),
            },
            LineDecode::Unknown(t) => AsmOutcome::Failed(i, LineDecode::Unknown(t)),
            LineDecode::Invalid(t) => AsmOutcome::Failed(i, LineDecode::Invalid(t)),
        }
    }
}

/// What assembling the given source lines yields, both passes composed.
pub open spec fn assemble_spec(lines: Seq<Seq<char>>) -> AsmOutcome {
    encode_from(lines, resolve_spec(lines).0, 0)
}

/// A line encodes to an instruction exactly when the resolver counted it as
/// consuming an address (unless it is in error): the two passes agree on
/// the program layout.
proof fn lemma_decode_consumes(
    toks: Seq<Seq<char>>,
    labels: Map<Seq<char>, int>,
    op: Option<Opcode>,
    a: Option<Operand>,
    b: Option<Operand>,
)
    ensures
        decode_toks(toks, labels, op, a, b) == LineDecode::Empty ==> op is None && !line_consumes(
            toks,
        ),
        decode_toks(toks, labels, op, a, b) matches LineDecode::Encoded(_) ==> op is Some
            || line_consumes(toks),
    decreases toks.len(),
{
    if toks.len() == 0 || is_comment_token(toks[0]) {
    } else if is_label_token(toks[0]) {
        lemma_decode_consumes(toks.drop_first(), labels, op, a, b);
    } else if op is None {
        match mnemonic_opcode(toks[0]) {
            Some(o) => lemma_decode_consumes(toks.drop_first(), labels, Some(o), a, b),
            None => {},
        }
    } else {
        match classify_operand(toks[0], labels) {
            Some(operand) => {
                if a is None {
                    lemma_decode_consumes(toks.drop_first(), labels, op, Some(operand), b);
                } else if b is None {
                    lemma_decode_consumes(toks.drop_first(), labels, op, a, Some(operand));
                }
            },
            None => {},
        }
    }
}

/// The instruction count the resolver pass accumulates does not depend on
/// the table built so far, and is additive in the starting address.
proof fn lemma_resolve_count(
    lines: Seq<Seq<char>>,
    m1: Map<Seq<char>, int>,
    a1: int,
    m2: Map<Seq<char>, int>,
    a2: int,
)
    ensures
        resolve_step(lines, m1, a1).1 - a1 == resolve_step(lines, m2, a2).1 - a2,
    decreases lines.len(),
{
    if lines.len() > 0 {
        let toks = line_tokens(lines[0]);
        let c: int = if line_consumes(toks) {
            1
        } else {
            0
        };
        lemma_resolve_count(
            lines.drop_first(),
            line_label_step(toks, m1, a1),
            a1 + c,
            line_label_step(toks, m2, a2),
            a2 + c,
        );
    }
}

proof fn lemma_line_label_bounds(toks: Seq<Seq<char>>, m: Map<Seq<char>, int>, addr: int)
    requires
        0 <= addr,
        forall|k: Seq<char>| m.contains_key(k) ==> 0 <= #[trigger] m[k] <= addr,
    ensures
        forall|k: Seq<char>|
            line_label_step(toks, m, addr).contains_key(k) ==> 0 <= #[trigger] line_label_step(
                toks,
                m,
                addr,
            )[k] <= addr,
    decreases toks.len(),
{
    assert forall|k: Seq<char>| line_label_step(toks, m, addr).contains_key(k) implies 0
        <= #[trigger] line_label_step(toks, m, addr)[k] <= addr by {
        if toks.len() == 0 || is_comment_token(toks[0]) {
            assert(0 <= m[k] <= addr);
        } else if is_label_token(toks[0]) {
            let m2 = m.insert(label_name(toks[0]), addr);
            assert forall|k2: Seq<char>| m2.contains_key(k2) implies 0 <= #[trigger] m2[k2]
                <= addr by {
                if k2 != label_name(toks[0]) {
                    assert(0 <= m[k2] <= addr);
                }
            }
            lemma_line_label_bounds(toks.drop_first(), m2, addr);
            assert(0 <= line_label_step(toks.drop_first(), m2, addr)[k] <= addr);
        } else {
            lemma_line_label_bounds(toks.drop_first(), m, addr);
            assert(0 <= line_label_step(toks.drop_first(), m, addr)[k] <= addr);
        }
    }
}

proof fn lemma_resolve_step_bounds(lines: Seq<Seq<char>>, m: Map<Seq<char>, int>, addr: int)
    requires
        0 <= addr,
        forall|k: Seq<char>| m.contains_key(k) ==> 0 <= #[trigger] m[k] <= addr,
    ensures
        resolve_step(lines, m, addr).1 >= addr,
        forall|k: Seq<char>|
            resolve_step(lines, m, addr).0.contains_key(k) ==> 0 <= #[trigger] resolve_step(
                lines,
                m,
                addr,
            ).0[k] <= resolve_step(lines, m, addr).1,
    decreases lines.len(),
{
    if lines.len() > 0 {
        let toks = line_tokens(lines[0]);
        let m2 = line_label_step(toks, m, addr);
        let addr2 = addr + if line_consumes(toks) {
            1int
        } else {
            0int
        };
        lemma_line_label_bounds(toks, m, addr);
        lemma_resolve_step_bounds(lines.drop_first(), m2, addr2);
    }
}

/// Every address in the resolver's completed table lies inside the loaded
/// program's layout: a label resolves to the index of the instruction that
/// follows it, or to the stack floor itself when nothing follows it.
pub proof fn lemma_resolver_addresses_bounded(lines: Seq<Seq<char>>)
    ensures
        forall|k: Seq<char>|
            resolve_spec(lines).0.contains_key(k) ==> 0 <= #[trigger] resolve_spec(lines).0[k]
                <= resolve_spec(lines).1,
{
    lemma_resolve_step_bounds(lines, Map::empty(), 0);
}

/// A label reference is resolved through the completed table of the first
/// pass alone, never through a partial one: the operand a reference token
/// encodes is a function of the token and that table, not of the line the
/// reference stands in.  So a label referenced before its textual
/// definition resolves to the same address as one referenced after it.
pub proof fn lemma_label_reference_order_independent(lines: Seq<Seq<char>>, tok: Seq<char>)
    requires
        register_index(tok) is None,
        !is_immediate_token(tok),
        resolve_spec(lines).0.contains_key(tok),
        0 <= resolve_spec(lines).0[tok] <= i64::MAX,
        resolve_spec(lines).0[tok] <= usize::MAX as int,
    ensures
        classify_operand(tok, resolve_spec(lines).0) == Some(
            Operand::Address(resolve_spec(lines).0[tok] as usize),
        ),
{
}

/// Assembles a whole program: resolves all labels, then encodes every line.
/// On success the program holds exactly one instruction per consuming line,
/// so the resolver's label addresses agree with the loaded program's layout;
/// on failure nothing of the program is produced, and the error names the
/// first offending line and token.
pub fn assemble(lines: &Vec<String>) -> (r: Result<Vec<Instruction>, DecodeError>)
    ensures
        match r {
            Ok(prog) => assemble_spec(lines.deep_view()) == AsmOutcome::Program(prog@) && wf_program(
                prog@,
            ) && prog@.len() == resolve_spec(lines.deep_view()).1,
            Err(e) => match e.kind {
                DecodeErrorKind::UnknownOpcode(t) => assemble_spec(lines.deep_view())
                    == AsmOutcome::Failed(e.line as int, LineDecode::Unknown(t@)),
                DecodeErrorKind::InvalidOperand(t) => assemble_spec(lines.deep_view())
                    == AsmOutcome::Failed(e.line as int, LineDecode::Invalid(t@)),
            },
        },
{
    let ghost all = lines.deep_view();
    let (table, count) = resolve_labels(lines);
    let ghost labels = table@;
    let mut prog: Vec<Instruction> = Vec::new();
    let mut i: usize = 0;
    proof {
        assert(all.skip(0) =~= all);
    }
    while i < lines.len()
        invariant
            all == lines.deep_view(),
            0 <= i <= lines.len(),
            table.wf(),
            labels == table@,
            labels == resolve_spec(all).0,
            wf_program(prog@),
            match encode_from(all, labels, i as int) {
                AsmOutcome::Program(rest) => encode_from(all, labels, 0) == AsmOutcome::Program(
                    prog@ + rest,
                ),
                AsmOutcome::Failed(l, e) => encode_from(all, labels, 0) == AsmOutcome::Failed(l, e),
            },
            resolve_spec(all).1 == prog@.len() + resolve_step(
                all.skip(i as int),
                Map::<Seq<char>, int>::empty(),
                0,
            ).1,
        decreases lines.len() - i,
    {
        proof {
            assert(all.skip(i as int)[0] == all[i as int]);
            assert(all.skip(i as int).drop_first() =~= all.skip(i as int + 1));
        }
        let ghost toks = line_tokens(all[i as int]);
        match decode(lines[i].as_str(), &table) {
            Ok(Some(inst)) => {
                proof {
                    lemma_decode_consumes(toks, labels, None, None, None);
                    lemma_resolve_count(
                        all.skip(i as int + 1),
                        line_label_step(toks, Map::<Seq<char>, int>::empty(), 0),
                        1,
                        Map::<Seq<char>, int>::empty(),
                        0,
                    );
                }
                let ghost prev = prog@;
                prog.push(inst);
                proof {
                    match encode_from(all, labels, i as int + 1) {
                        AsmOutcome::Program(rest) => {
                            assert(prog@ + rest =~= prev + (seq![inst] + rest));
                        },
                        AsmOutcome::Failed(l, e) => {},
                    }
                }
            },
            Ok(None) => {
                proof {
                    lemma_decode_consumes(toks, labels, None, None, None);
                    lemma_resolve_count(
                        all.skip(i as int + 1),
                        line_label_step(toks, Map::<Seq<char>, int>::empty(), 0),
                        0,
                        Map::<Seq<char>, int>::empty(),
                        0,
                    );
                }
            },
            Err(kind) => {
                return Err(DecodeError { line: i, kind });
            },
        }
        i = i + 1;
    }
    proof {
        assert(encode_from(all, labels, i as int) == AsmOutcome::Program(Seq::<Instruction>::empty()));
        assert(prog@ + Seq::<Instruction>::empty() =~= prog@);
        assert(all.skip(i as int) =~= Seq::<Seq<char>>::empty());
    }
    Ok(prog)
}

} // verus!
