//! The machine state: registers, segment table, free identifier list,
//! next-fresh-identifier counter and program counter.

use vstd::prelude::*;

use crate::rum_instruction::add_post;
use crate::rum_instruction::cmov_post;
use crate::rum_instruction::div_post;
use crate::rum_instruction::input_post;
use crate::rum_instruction::load_post;
use crate::rum_instruction::load_program_post;
use crate::rum_instruction::load_value_post;
use crate::rum_instruction::map_post;
use crate::rum_instruction::mul_post;
use crate::rum_instruction::nand_post;
use crate::rum_instruction::same_memory;
use crate::rum_instruction::seg_addr_ok;
use crate::rum_instruction::spec_extract;
use crate::rum_instruction::spec_opcode;
use crate::rum_instruction::store_post;
use crate::rum_instruction::unmap_post;
use crate::rum_instruction::Opcode;
use crate::rum_instruction::StepOutcome;

verus! {

/// A fatal run-time condition; each one ends the run in the faulted state.
#[derive(Clone, Copy, PartialEq, Eq, Structural, Debug)]
pub enum FaultKind {
    /// The opcode field of a fetched word names no instruction.
    Decode,
    /// An unmapped segment identifier was referenced, an index reached past a
    /// segment's end, the program counter left the program segment, or an
    /// unmap named identifier 0.
    Bounds,
    /// A division had a zero divisor.
    Arithmetic,
    /// An output value did not fit in one byte.
    Io,
}

/// The run lifecycle: every successfully applied instruction keeps the
/// machine `Running`; the halt instruction and the fatal conditions are the
/// two terminal states.
#[derive(Clone, Copy, PartialEq, Eq, Structural, Debug)]
pub enum RunStatus {
    /// Neither a halt nor a fault has occurred yet.
    Running,
    /// The halt instruction was executed.
    Halted,
    /// A fatal condition stopped the run.
    Faulted(FaultKind),
}

/// The whole machine state.
///
/// The segment table is an arena: one slot per identifier ever issued, where a
/// mapped identifier holds `Some` and an unmapped one holds `None`. Freed
/// identifiers wait in `id_pool`, most recently freed last, and are reissued
/// before `segment_ids` mints a fresh one.
pub struct UniversalMachine {
    /// The eight general-purpose registers.
    pub registers: Vec<u32>,
    /// One slot per identifier in `[0, segment_ids)`.
    pub segments: Vec<Option<Vec<u32>>>,
    /// Identifiers released by unmap and not yet reissued, newest last.
    pub id_pool: Vec<u32>,
    /// The next identifier that has never been issued.
    pub segment_ids: u32,
    /// The offset in segment 0 of the next instruction to fetch.
    pub program_counter: usize,
}

impl UniversalMachine {
    /// The internal invariant: eight registers, one table slot per issued
    /// identifier, segment 0 mapped, and a free list of distinct identifiers
    /// whose slots are all unmapped and none of which is 0.
    pub open spec fn wf(self) -> bool {
        &&& self.registers@.len() == 8
        &&& self.segments@.len() == self.segment_ids as int
        &&& 1 <= self.segment_ids
        &&& self.segments@[0] is Some
        &&& forall|i: int|
            0 <= i < self.id_pool@.len() ==> 1 <= #[trigger] self.id_pool@[i]
                && self.id_pool@[i] < self.segment_ids
                && self.segments@[self.id_pool@[i] as int] is None
        &&& forall|i: int, j: int|
            #![trigger self.id_pool@[i], self.id_pool@[j]]
            0 <= i < j < self.id_pool@.len() ==> self.id_pool@[i] != self.id_pool@[j]
    }

    /// Whether `id` currently names a segment.
    pub open spec fn is_mapped(self, id: u32) -> bool {
        id < self.segments@.len() && self.segments@[id as int] is Some
    }

    /// The words of the segment named `id` (meaningful when `is_mapped(id)`).
    pub open spec fn seg(self, id: u32) -> Seq<u32> {
        self.segments@[id as int]->Some_0@
    }

    /// A fresh machine: the supplied words become segment 0, every register
    /// and the program counter are zero, no identifier has been freed, and 1
    /// is the next fresh identifier.
    pub fn new(instructions: Vec<u32>) -> (um: UniversalMachine)
        ensures
            um.wf(),
            forall|i: int| 0 <= i < 8 ==> um.registers@[i] == 0,
            um.segments@.len() == 1,
            um.seg(0) == instructions@,
            um.is_mapped(0),
            um.id_pool@.len() == 0,
            um.segment_ids == 1,
            um.program_counter == 0,
    {
        let mut registers: Vec<u32> = Vec::new();
        let mut k: usize = 0;
        while k < 8
            invariant
                k <= 8,
                registers@.len() == k as int,
                forall|i: int| 0 <= i < k ==> registers@[i] == 0,
            decreases 8 - k,
        {
            registers.push(0);
            k = k + 1;
        }
        let mut segments: Vec<Option<Vec<u32>>> = Vec::new();
        segments.push(Some(instructions));
        UniversalMachine {
            registers,
            segments,
            id_pool: Vec::new(),
            segment_ids: 1,
            program_counter: 0,
        }
    }
}

/// The word at the program counter in segment 0, or `None` when the counter
/// has left the program segment (which the run loop treats as a bounds
/// fault).
pub fn fetch(um: &UniversalMachine) -> (r: Option<u32>)
    requires
        um.wf(),
    ensures
        um.program_counter < um.seg(0).len() ==> r == Some(um.seg(0)[um.program_counter as int]),
        um.program_counter >= um.seg(0).len() ==> r is None,
        r is Some ==> um.program_counter < usize::MAX,
{
    match &um.segments[0] {
        Some(seg0) => {
            if um.program_counter < seg0.len() {
                Some(seg0[um.program_counter])
            } else {
                None
            }
        },
        None => None,
    }
}

/// What a finished run leaves behind: the final machine state, every byte
/// the program wrote, in order, and how the run ended.
pub struct RunResult {
    pub machine: UniversalMachine,
    pub output: Vec<u8>,
    pub status: RunStatus,
}

/// A configuration of a whole run: the machine together with the input
/// bytes not yet read, the output bytes written so far, and the lifecycle
/// state. The ghost trace of `run_um` is a chain of these.
pub struct RunConfig {
    pub machine: UniversalMachine,
    pub input: Seq<u8>,
    pub output: Seq<u8>,
    pub status: RunStatus,
}

/// The configuration `c` frozen in the terminal (or faulted) state `s`.
pub open spec fn stopped(c: RunConfig, s: RunStatus) -> RunConfig {
    RunConfig { machine: c.machine, input: c.input, output: c.output, status: s }
}

/// The byte streams are untouched and the run goes on.
pub open spec fn same_io(c1: RunConfig, c2: RunConfig) -> bool {
    c2.input == c1.input && c2.output == c1.output && c2.status == RunStatus::Running
}

/// One atomic step of the run: fetch the word at the program counter,
/// decode it, apply it, and perform its byte-stream effect. This is the
/// machine's complete small-step semantics.
pub open spec fn step_rel(c1: RunConfig, c2: RunConfig) -> bool {
    let m = c1.machine;
    let pc = m.program_counter;
    &&& c1.status == RunStatus::Running
    &&& if pc >= m.seg(0).len() {
        c2 == stopped(c1, RunStatus::Faulted(FaultKind::Bounds))
    } else {
        let inst = m.seg(0)[pc as int];
        let a = spec_extract(inst, 3, 6);
        let b = spec_extract(inst, 3, 3);
        let c = spec_extract(inst, 3, 0);
        let l = spec_extract(inst, 3, 25);
        let value = spec_extract(inst, 25, 0);
        match spec_opcode(spec_extract(inst, 4, 28)) {
            Some(Opcode::CMov) => same_io(c1, c2) && cmov_post(m, c2.machine, a, b, c),
            Some(Opcode::Load) => if seg_addr_ok(m, m.registers@[b as int], m.registers@[c as int]) {
                same_io(c1, c2) && load_post(m, c2.machine, a, b, c)
            } else {
                c2 == stopped(c1, RunStatus::Faulted(FaultKind::Bounds))
            },
            Some(Opcode::Store) => if seg_addr_ok(m, m.registers@[a as int], m.registers@[b as int]) {
                same_io(c1, c2) && store_post(m, c2.machine, a, b, c)
            } else {
                c2 == stopped(c1, RunStatus::Faulted(FaultKind::Bounds))
            },
            Some(Opcode::Add) => same_io(c1, c2) && add_post(m, c2.machine, a, b, c),
            Some(Opcode::Mul) => same_io(c1, c2) && mul_post(m, c2.machine, a, b, c),
            Some(Opcode::Div) => if m.registers@[c as int] != 0 {
                same_io(c1, c2) && div_post(m, c2.machine, a, b, c)
            } else {
                c2 == stopped(c1, RunStatus::Faulted(FaultKind::Arithmetic))
            },
            Some(Opcode::Nand) => same_io(c1, c2) && nand_post(m, c2.machine, a, b, c),
            Some(Opcode::Halt) => c2 == stopped(c1, RunStatus::Halted),
            Some(Opcode::MapSegment) => if m.id_pool@.len() > 0 || m.segment_ids < u32::MAX {
                same_io(c1, c2) && map_post(m, c2.machine, b, c)
            } else {
                c2 == stopped(c1, RunStatus::Faulted(FaultKind::Bounds))
            },
            Some(Opcode::UnmapSegment) => if m.registers@[c as int] != 0
                && m.is_mapped(m.registers@[c as int]) {
                same_io(c1, c2) && unmap_post(m, c2.machine, c)
            } else {
                c2 == stopped(c1, RunStatus::Faulted(FaultKind::Bounds))
            },
            Some(Opcode::Output) => if m.registers@[c as int] <= 255 {
                &&& c2.status == RunStatus::Running
                &&& c2.input == c1.input
                &&& c2.output == c1.output.push(m.registers@[c as int] as u8)
                &&& same_memory(m, c2.machine)
                &&& c2.machine.registers@ == m.registers@
                &&& c2.machine.program_counter == pc + 1
            } else {
                c2 == stopped(c1, RunStatus::Faulted(FaultKind::Io))
            },
            Some(Opcode::Input) => {
                let byte = if c1.input.len() > 0 {
                    Some(c1.input.first())
                } else {
                    None::<u8>
                };
                &&& c2.status == RunStatus::Running
                &&& c2.output == c1.output
                &&& c2.input == (if c1.input.len() > 0 {
                    c1.input.drop_first()
                } else {
                    c1.input
                })
                &&& input_post(m, c2.machine, c, byte)
            },
            Some(Opcode::LoadProgram) => if m.registers@[b as int] == 0 {
                &&& same_io(c1, c2)
                &&& same_memory(m, c2.machine)
                &&& c2.machine.registers@ == m.registers@
                &&& c2.machine.program_counter == m.registers@[c as int] as int
            } else if m.is_mapped(m.registers@[b as int]) {
                same_io(c1, c2) && load_program_post(m, c2.machine, b, c)
            } else {
                c2 == stopped(c1, RunStatus::Faulted(FaultKind::Bounds))
            },
            Some(Opcode::LoadValue) => same_io(c1, c2) && load_value_post(m, c2.machine, l, value),
            None => c2 == stopped(c1, RunStatus::Faulted(FaultKind::Decode)),
        }
    }
}

/// `c2` is reachable from `c1` in exactly `n` steps of `step_rel`.
pub open spec fn reaches(c1: RunConfig, c2: RunConfig, n: nat) -> bool
    decreases n,
{
    if n == 0 {
        c1 == c2
    } else {
        exists|mid: RunConfig| step_rel(c1, mid) && reaches(mid, c2, (n - 1) as nat)
    }
}

/// Law: a reachable configuration followed by one more step is reachable.
pub proof fn lemma_reaches_step(c0: RunConfig, c1: RunConfig, c2: RunConfig, n: nat)
    requires
        reaches(c0, c1, n),
        step_rel(c1, c2),
    ensures
        reaches(c0, c2, n + 1),
    decreases n,
{
    if n == 0 {
        assert(step_rel(c0, c2) && reaches(c2, c2, 0));
    } else {
        let mid = choose|mid: RunConfig| step_rel(c0, mid) && reaches(mid, c1, (n - 1) as nat);
        lemma_reaches_step(mid, c1, c2, (n - 1) as nat);
    }
}

/// The configuration a run starts from: the fresh machine over `prog`, the
/// whole input still unread, nothing written, and the running state.
pub open spec fn is_initial_config(c: RunConfig, prog: Seq<u32>, input: Seq<u8>) -> bool {
    &&& c.machine.wf()
    &&& c.machine.registers@.len() == 8
    &&& (forall|i: int| 0 <= i < 8 ==> c.machine.registers@[i] == 0)
    &&& c.machine.segments@.len() == 1
    &&& c.machine.is_mapped(0)
    &&& c.machine.seg(0) == prog
    &&& c.machine.id_pool@.len() == 0
    &&& c.machine.segment_ids == 1
    &&& c.machine.program_counter == 0
    &&& c.input == input
    &&& c.output == Seq::<u8>::empty()
    &&& c.status == RunStatus::Running
}

/// Builds a machine over the given program and executes at most `max_steps`
/// instructions, reading input bytes from `input_bytes` in order (their
/// exhaustion is the end-of-stream sentinel) and collecting output bytes.
/// The status is `Halted` or `Faulted` when the program reached a terminal
/// state within the budget, and `Running` when it did not; a caller that
/// wants an unbounded run keeps calling back with the returned machine, or
/// drives `fetch` and `do_instruction` itself.
///
/// The result is exactly a chain of `step_rel` steps from the initial
/// configuration: the machine, the output bytes and the status are those of
/// a configuration that the small-step semantics reaches.
pub fn run_um(instructions: Vec<u32>, input_bytes: Vec<u8>, max_steps: u64) -> (r: RunResult)
    ensures
        r.machine.wf(),
        exists|c0: RunConfig, cend: RunConfig, n: nat|
            {
                &&& #[trigger] reaches(c0, cend, n)
                &&& is_initial_config(c0, instructions@, input_bytes@)
                &&& cend.machine == r.machine
                &&& cend.output == r.output@
                &&& cend.status == r.status
                &&& (cend.status == RunStatus::Running ==> n == max_steps)
            },
{
    let mut um = UniversalMachine::new(instructions);
    let mut output: Vec<u8> = Vec::new();
    let mut cursor: usize = 0;
    let mut steps: u64 = 0;
    let ghost mut trace_len: nat = 0;
    let ghost init_c = RunConfig {
        machine: um,
        input: input_bytes@,
        output: output@,
        status: RunStatus::Running,
    };
    proof {
        assert(input_bytes@.skip(0) =~= input_bytes@);
        let c_entry = RunConfig {
            machine: um,
            input: input_bytes@.skip(cursor as int),
            output: output@,
            status: RunStatus::Running,
        };
        assert(c_entry == init_c);
        assert(reaches(init_c, c_entry, 0));
    }
    while steps < max_steps
        invariant
            um.wf(),
            cursor <= input_bytes@.len(),
            steps <= max_steps,
            is_initial_config(init_c, instructions@, input_bytes@),
            trace_len == steps as nat,
            reaches(
                init_c,
                RunConfig {
                    machine: um,
                    input: input_bytes@.skip(cursor as int),
                    output: output@,
                    status: RunStatus::Running,
                },
                trace_len,
            ),
        decreases max_steps - steps,
    {
        steps = steps + 1;
        let ghost pre_c = RunConfig {
            machine: um,
            input: input_bytes@.skip(cursor as int),
            output: output@,
            status: RunStatus::Running,
        };
        let inst = match fetch(&um) {
            Some(inst) => inst,
            None => {
                proof {
                    let end_c = stopped(pre_c, RunStatus::Faulted(FaultKind::Bounds));
                    assert(step_rel(pre_c, end_c));
                    lemma_reaches_step(init_c, pre_c, end_c, trace_len);
                }
                return RunResult { machine: um, output, status: RunStatus::Faulted(FaultKind::Bounds) };
            },
        };
        match crate::rum_instruction::do_instruction(inst, &mut um) {
            StepOutcome::Continue => {
                proof {
                    let next_c = RunConfig {
                        machine: um,
                        input: input_bytes@.skip(cursor as int),
                        output: output@,
                        status: RunStatus::Running,
                    };
                    assert(step_rel(pre_c, next_c));
                    lemma_reaches_step(init_c, pre_c, next_c, trace_len);
                    trace_len = trace_len + 1;
                }
            },
            StepOutcome::Output(byte) => {
                output.push(byte);
                proof {
                    let next_c = RunConfig {
                        machine: um,
                        input: input_bytes@.skip(cursor as int),
                        output: output@,
                        status: RunStatus::Running,
                    };
                    assert(step_rel(pre_c, next_c));
                    lemma_reaches_step(init_c, pre_c, next_c, trace_len);
                    trace_len = trace_len + 1;
                }
            },
            StepOutcome::NeedInput(reg_c) => {
                let ghost pre_cursor = cursor as int;
                let byte = if cursor < input_bytes.len() {
                    let b = input_bytes[cursor];
                    cursor = cursor + 1;
                    Some(b)
                } else {
                    None
                };
                crate::rum_instruction::input(&mut um, reg_c, byte);
                proof {
                    if pre_cursor < input_bytes@.len() {
                        assert(input_bytes@.skip(pre_cursor + 1) =~= input_bytes@.skip(
                            pre_cursor,
                        ).drop_first());
                    }
                    let next_c = RunConfig {
                        machine: um,
                        input: input_bytes@.skip(cursor as int),
                        output: output@,
                        status: RunStatus::Running,
                    };
                    assert(step_rel(pre_c, next_c));
                    lemma_reaches_step(init_c, pre_c, next_c, trace_len);
                    trace_len = trace_len + 1;
                }
            },
            StepOutcome::Halt => {
                proof {
                    let end_c = stopped(pre_c, RunStatus::Halted);
                    assert(step_rel(pre_c, end_c));
                    lemma_reaches_step(init_c, pre_c, end_c, trace_len);
                }
                return RunResult { machine: um, output, status: RunStatus::Halted };
            },
            StepOutcome::Fault(kind) => {
                proof {
                    let end_c = stopped(pre_c, RunStatus::Faulted(kind));
                    assert(step_rel(pre_c, end_c));
                    lemma_reaches_step(init_c, pre_c, end_c, trace_len);
                }
                return RunResult { machine: um, output, status: RunStatus::Faulted(kind) };
            },
        }
    }
    RunResult { machine: um, output, status: RunStatus::Running }
}

/// The word that four bytes spell in big-endian order.
pub open spec fn be_word(b0: u8, b1: u8, b2: u8, b3: u8) -> u32 {
    (b0 as u32 * 0x100_0000 + b1 as u32 * 0x1_0000 + b2 as u32 * 0x100 + b3 as u32) as u32
}

/// Packs a byte stream into the word sequence that becomes segment 0, four
/// consecutive bytes per word in big-endian order; a length that is not a
/// multiple of four is a loader-level error, reported as `None`.
pub fn words_from_bytes(bytes: &Vec<u8>) -> (r: Option<Vec<u32>>)
    ensures
        r is Some <==> bytes@.len() % 4 == 0,
        r matches Some(words) ==> words@.len() == bytes@.len() / 4
            && forall|i: int|
                0 <= i < words@.len() ==> words@[i] == be_word(
                    bytes@[4 * i],
                    bytes@[4 * i + 1],
                    bytes@[4 * i + 2],
                    bytes@[4 * i + 3],
                ),
{
    if bytes.len() % 4 != 0 {
        return None;
    }
    let count = bytes.len() / 4;
    let mut words: Vec<u32> = Vec::new();
    let mut i: usize = 0;
    while i < count
        invariant
            bytes@.len() == 4 * count,
            4 * count <= usize::MAX,
            i <= count,
            words@.len() == i as int,
            forall|j: int|
                0 <= j < i ==> words@[j] == be_word(
                    bytes@[4 * j],
                    bytes@[4 * j + 1],
                    bytes@[4 * j + 2],
                    bytes@[4 * j + 3],
                ),
        decreases count - i,
    {
        let b0 = bytes[4 * i];
        let b1 = bytes[4 * i + 1];
        let b2 = bytes[4 * i + 2];
        let b3 = bytes[4 * i + 3];
        let word: u32 = b0 as u32 * 0x100_0000 + b1 as u32 * 0x1_0000 + b2 as u32 * 0x100
            + b3 as u32;
        words.push(word);
        i = i + 1;
    }
    Some(words)
}

} // verus!
