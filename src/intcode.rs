//! The Intcode machine: instruction decoding, operand resolution over a
//! zero-extended memory, execution one instruction at a time, and runs
//! over a list of inputs.

use vstd::prelude::*;
use vstd::string::StringSliceAdditionalSpecFns;
use crate::text::{parse_signed, pieces_of, signed_value_of, split};

verus! {

/// How a parameter of an instruction designates its memory cell.
#[derive(Debug, Clone, Copy, PartialEq, Eq, Structural)]
pub enum Mode {
    /// The parameter holds the address of the operand.
    Position,
    /// The parameter is the operand itself.
    Immediate,
    /// The parameter is an offset from the relative base.
    Relative,
}

/// One decoded instruction, with the modes of its parameters.
#[derive(Debug, Clone, Copy, PartialEq, Eq, Structural)]
pub enum Instruction {
    Add(Mode, Mode, Mode),
    Multiply(Mode, Mode, Mode),
    Input(Mode),
    Output(Mode),
    JumpIf(Mode, Mode),
    JumpIfNot(Mode, Mode),
    LessThan(Mode, Mode, Mode),
    Equals(Mode, Mode, Mode),
    ModifyBase(Mode),
    Halt,
}

/// Everything that stops a run before it halts.
#[derive(Debug, Clone, Copy, PartialEq, Eq, Structural)]
pub enum Error {
    /// A computed address is negative or beyond the addressable range.
    InvalidOffset,
    /// A mode digit outside 0, 1 and 2; holds the digit.
    InvalidMode(i64),
    /// A cell whose opcode is not a known one; holds the cell's value.
    InvalidInstruction(i64),
    /// The program has no cell at all.
    ProgramEmpty,
    /// An input was needed and none can come any more.
    MissingInput,
    /// An output could not be delivered.
    MissingOutput,
    /// The run used up its step budget before it halted.
    StepLimit,
}

/// The mode that a decimal digit selects.
pub open spec fn mode_spec(digit: int) -> Result<Mode, Error> {
    if digit == 0 {
        Ok(Mode::Position)
    } else if digit == 1 {
        Ok(Mode::Immediate)
    } else if digit == 2 {
        Ok(Mode::Relative)
    } else {
        Err(Error::InvalidMode(digit as i64))
    }
}

/// The mode digit of parameter `k` (0 for the first) of an instruction cell.
pub open spec fn mode_digit(code: int, k: int) -> int {
    if k == 0 {
        (code / 100) % 10
    } else if k == 1 {
        (code / 1000) % 10
    } else {
        (code / 10000) % 10
    }
}

/// The mode of parameter `k` of an instruction cell.
pub open spec fn param_mode(code: int, k: int) -> Result<Mode, Error> {
    mode_spec(mode_digit(code, k))
}

/// The opcodes that the machine knows.
pub open spec fn is_opcode(op: int) -> bool {
    1 <= op <= 9 || op == 99
}

/// The opcode of a cell: its two least significant decimal digits.
pub open spec fn opcode_of(code: int) -> int {
    code % 100
}

/// The modes of the three parameters of an instruction cell.
pub open spec fn three_modes(code: int) -> Result<(Mode, Mode, Mode), Error> {
    match param_mode(code, 0) {
        Err(e) => Err(e),
        Ok(a) => match param_mode(code, 1) {
            Err(e) => Err(e),
            Ok(b) => match param_mode(code, 2) {
                Err(e) => Err(e),
                Ok(c) => Ok((a, b, c)),
            },
        },
    }
}

/// The modes of the two parameters of an instruction cell.
pub open spec fn two_modes(code: int) -> Result<(Mode, Mode), Error> {
    match param_mode(code, 0) {
        Err(e) => Err(e),
        Ok(a) => match param_mode(code, 1) {
            Err(e) => Err(e),
            Ok(b) => Ok((a, b)),
        },
    }
}

/// What a memory cell decodes to. A negative cell is no instruction.
pub open spec fn decode_spec(code: i64) -> Result<Instruction, Error> {
    let c = code as int;
    let op = opcode_of(c);
    if c < 0 || !is_opcode(op) {
        Err(Error::InvalidInstruction(code))
    } else if op == 99 {
        Ok(Instruction::Halt)
    } else if op == 3 || op == 4 || op == 9 {
        match param_mode(c, 0) {
            Err(e) => Err(e),
            Ok(m) => Ok(
                if op == 3 {
                    Instruction::Input(m)
                } else if op == 4 {
                    Instruction::Output(m)
                } else {
                    Instruction::ModifyBase(m)
                },
            ),
        }
    } else if op == 5 || op == 6 {
        match two_modes(c) {
            Err(e) => Err(e),
            Ok((a, b)) => Ok(
                if op == 5 {
                    Instruction::JumpIf(a, b)
                } else {
                    Instruction::JumpIfNot(a, b)
                },
            ),
        }
    } else {
        match three_modes(c) {
            Err(e) => Err(e),
            Ok((a, b, d)) => Ok(
                if op == 1 {
                    Instruction::Add(a, b, d)
                } else if op == 2 {
                    Instruction::Multiply(a, b, d)
                } else if op == 7 {
                    Instruction::LessThan(a, b, d)
                } else {
                    Instruction::Equals(a, b, d)
                },
            ),
        }
    }
}

impl Mode {
    /// The mode that a decimal digit selects.
    pub fn from_digit(digit: i64) -> (r: Result<Mode, Error>)
        ensures
            r == mode_spec(digit as int),
    {
        if digit == 0 {
            Ok(Mode::Position)
        } else if digit == 1 {
            Ok(Mode::Immediate)
        } else if digit == 2 {
            Ok(Mode::Relative)
        } else {
            Err(Error::InvalidMode(digit))
        }
    }
}

fn param_mode_of(code: i64, k: usize) -> (r: Result<Mode, Error>)
    requires
        code >= 0,
        k < 3,
    ensures
        r == param_mode(code as int, k as int),
{
    let digit = if k == 0 {
        (code / 100) % 10
    } else if k == 1 {
        (code / 1000) % 10
    } else {
        (code / 10000) % 10
    };
    Mode::from_digit(digit)
}

impl Instruction {
    /// Decodes one memory cell into an instruction: the two low decimal
    /// digits give the opcode, the digits above them the parameter modes,
    /// first parameter first; a missing digit is position mode.
    pub fn decode(code: i64) -> (r: Result<Instruction, Error>)
        ensures
            r == decode_spec(code),
            // an opcode outside the known set never decodes
            (code < 0 || !is_opcode(opcode_of(code as int))) ==> r == Err::<Instruction, Error>(
                Error::InvalidInstruction(code),
            ),
    {
        if code < 0 {
            return Err(Error::InvalidInstruction(code));
        }
        let op = code % 100;
        if op == 99 {
            Ok(Instruction::Halt)
        } else if op == 3 || op == 4 || op == 9 {
            let m = param_mode_of(code, 0)?;
            Ok(
                if op == 3 {
                    Instruction::Input(m)
                } else if op == 4 {
                    Instruction::Output(m)
                } else {
                    Instruction::ModifyBase(m)
                },
            )
        } else if op == 5 || op == 6 {
            let a = param_mode_of(code, 0)?;
            let b = param_mode_of(code, 1)?;
            Ok(
                if op == 5 {
                    Instruction::JumpIf(a, b)
                } else {
                    Instruction::JumpIfNot(a, b)
                },
            )
        } else if op == 1 || op == 2 || op == 7 || op == 8 {
            let a = param_mode_of(code, 0)?;
            let b = param_mode_of(code, 1)?;
            let d = param_mode_of(code, 2)?;
            Ok(
                if op == 1 {
                    Instruction::Add(a, b, d)
                } else if op == 2 {
                    Instruction::Multiply(a, b, d)
                } else if op == 7 {
                    Instruction::LessThan(a, b, d)
                } else {
                    Instruction::Equals(a, b, d)
                },
            )
        } else {
            Err(Error::InvalidInstruction(code))
        }
    }
}

/// The machine's state as mathematics: memory, program counter and
/// relative base.
pub struct State {
    pub mem: Seq<i64>,
    pub pc: int,
    pub base: int,
}

/// What one executed instruction reports.
#[derive(Debug, Clone, Copy, PartialEq, Eq, Structural)]
pub enum Step {
    /// An instruction without input or output ran.
    Continue,
    /// An input instruction stored the value it was given.
    Consumed,
    /// An output instruction produced this value.
    Output(i64),
    /// The next instruction reads an input and none was given: nothing changed.
    NeedInput,
    /// The halt instruction was reached, or the program counter left memory.
    Halted,
}

/// An address that memory can hold a cell at, with room for the
/// parameters of an instruction there.
pub open spec fn addressable(a: int) -> bool {
    0 <= a && a <= i64::MAX && a + 4 <= usize::MAX
}

/// Memory extended with zero cells so that it holds address `a`.
pub open spec fn grow(mem: Seq<i64>, a: int) -> Seq<i64> {
    if a < mem.len() {
        mem
    } else {
        mem + Seq::new((a + 1 - mem.len()) as nat, |i: int| 0i64)
    }
}

/// The value of a cell, zero where memory has not reached yet.
pub open spec fn cell(mem: Seq<i64>, a: int) -> i64 {
    if 0 <= a < mem.len() {
        mem[a]
    } else {
        0
    }
}

/// The address that the parameter in cell `slot` designates under `mode`,
/// with the memory grown to hold both the parameter and that address.
pub open spec fn resolve_spec(mem: Seq<i64>, base: int, slot: int, mode: Mode) -> (Result<int, Error>, Seq<i64>) {
    if !addressable(slot) {
        (Err(Error::InvalidOffset), mem)
    } else {
        let m = grow(mem, slot);
        let a = match mode {
            Mode::Immediate => slot,
            Mode::Position => m[slot] as int,
            Mode::Relative => m[slot] + base,
        };
        if addressable(a) {
            (Ok(a), grow(m, a))
        } else {
            (Err(Error::InvalidOffset), m)
        }
    }
}

/// The four instructions that combine two operands into a destination.
#[derive(Debug, Clone, Copy, PartialEq, Eq, Structural)]
pub enum BinOp {
    Add,
    Multiply,
    LessThan,
    Equals,
}

/// The value that a binary instruction stores; sums and products wrap.
pub open spec fn apply(op: BinOp, x: i64, y: i64) -> i64 {
    match op {
        BinOp::Add => x.wrapping_add(y),
        BinOp::Multiply => x.wrapping_mul(y),
        BinOp::LessThan => if x < y { 1 } else { 0 },
        BinOp::Equals => if x == y { 1 } else { 0 },
    }
}

/// The state with its memory replaced.
pub open spec fn with_mem(s: State, mem: Seq<i64>) -> State {
    State { mem, ..s }
}

/// A binary instruction at `s.pc`.
pub open spec fn binary_spec(s: State, op: BinOp, a: Mode, b: Mode, d: Mode) -> (Result<Step, Error>, State) {
    let (r1, m1) = resolve_spec(s.mem, s.base, s.pc + 1, a);
    let (r2, m2) = resolve_spec(m1, s.base, s.pc + 2, b);
    let (r3, m3) = resolve_spec(m2, s.base, s.pc + 3, d);
    if r1 is Err {
        (Err(r1->Err_0), with_mem(s, m1))
    } else if r2 is Err {
        (Err(r2->Err_0), with_mem(s, m2))
    } else if r3 is Err {
        (Err(r3->Err_0), with_mem(s, m3))
    } else {
        let v = apply(op, m3[r1->Ok_0], m3[r2->Ok_0]);
        (Ok(Step::Continue), State { mem: m3.update(r3->Ok_0, v), pc: s.pc + 4, base: s.base })
    }
}

/// A conditional jump at `s.pc`, taken when the condition's truth is `when`.
pub open spec fn jump_spec(s: State, when: bool, c: Mode, t: Mode) -> (Result<Step, Error>, State) {
    let (r1, m1) = resolve_spec(s.mem, s.base, s.pc + 1, c);
    if r1 is Err {
        (Err(r1->Err_0), with_mem(s, m1))
    } else if (m1[r1->Ok_0] != 0) != when {
        (Ok(Step::Continue), State { mem: m1, pc: s.pc + 3, base: s.base })
    } else {
        let (r2, m2) = resolve_spec(m1, s.base, s.pc + 2, t);
        if r2 is Err {
            (Err(r2->Err_0), with_mem(s, m2))
        } else if !addressable(m2[r2->Ok_0] as int) {
            (Err(Error::InvalidOffset), with_mem(s, m2))
        } else {
            (Ok(Step::Continue), State { mem: m2, pc: m2[r2->Ok_0] as int, base: s.base })
        }
    }
}

/// One instruction executed from state `s`, given the input value on offer.
#[verifier::opaque]
pub open spec fn step_spec(s: State, input: Option<i64>) -> (Result<Step, Error>, State) {
    if s.pc >= s.mem.len() {
        (Ok(Step::Halted), s)
    } else {
        match decode_spec(s.mem[s.pc]) {
            Err(e) => (Err(e), s),
            Ok(Instruction::Halt) => (Ok(Step::Halted), s),
            Ok(Instruction::Add(a, b, d)) => binary_spec(s, BinOp::Add, a, b, d),
            Ok(Instruction::Multiply(a, b, d)) => binary_spec(s, BinOp::Multiply, a, b, d),
            Ok(Instruction::LessThan(a, b, d)) => binary_spec(s, BinOp::LessThan, a, b, d),
            Ok(Instruction::Equals(a, b, d)) => binary_spec(s, BinOp::Equals, a, b, d),
            Ok(Instruction::JumpIf(c, t)) => jump_spec(s, true, c, t),
            Ok(Instruction::JumpIfNot(c, t)) => jump_spec(s, false, c, t),
            Ok(Instruction::Input(m)) => match input {
                None => (Ok(Step::NeedInput), s),
                Some(v) => {
                    let (r, m1) = resolve_spec(s.mem, s.base, s.pc + 1, m);
                    if r is Err {
                        (Err(r->Err_0), with_mem(s, m1))
                    } else {
                        (Ok(Step::Consumed), State { mem: m1.update(r->Ok_0, v), pc: s.pc + 2, base: s.base })
                    }
                },
            },
            Ok(Instruction::Output(m)) => {
                let (r, m1) = resolve_spec(s.mem, s.base, s.pc + 1, m);
                if r is Err {
                    (Err(r->Err_0), with_mem(s, m1))
                } else {
                    (Ok(Step::Output(m1[r->Ok_0])), State { mem: m1, pc: s.pc + 2, base: s.base })
                }
            },
            Ok(Instruction::ModifyBase(m)) => {
                let (r, m1) = resolve_spec(s.mem, s.base, s.pc + 1, m);
                if r is Err {
                    (Err(r->Err_0), with_mem(s, m1))
                } else {
                    let nb = s.base + m1[r->Ok_0];
                    if i64::MIN <= nb <= i64::MAX {
                        (Ok(Step::Continue), State { mem: m1, pc: s.pc + 2, base: nb })
                    } else {
                        (Err(Error::InvalidOffset), with_mem(s, m1))
                    }
                }
            },
        }
    }
}

/// Why a run returned without an error.
#[derive(Debug, Clone, Copy, PartialEq, Eq, Structural)]
pub enum Stop {
    /// The program halted.
    Halted,
    /// An input instruction is next and every given input has been used.
    NeedInput,
    /// The step budget ran out; the machine can be run on from here.
    Paused,
}

/// What a run of at most `fuel` instructions from `s` on `inputs` gives:
/// how it stopped, the state after it, how many inputs it used and the
/// values it output, in order.
pub open spec fn run_spec(s: State, inputs: Seq<i64>, fuel: nat) -> (Result<Stop, Error>, State, nat, Seq<i64>)
    decreases fuel,
{
    if fuel == 0 {
        (Ok(Stop::Paused), s, 0, seq![])
    } else {
        let input = if inputs.len() > 0 { Some(inputs[0]) } else { None };
        let (r, s2) = step_spec(s, input);
        match r {
            Err(e) => (Err(e), s2, 0, seq![]),
            Ok(Step::Halted) => (Ok(Stop::Halted), s2, 0, seq![]),
            Ok(Step::NeedInput) => (Ok(Stop::NeedInput), s2, 0, seq![]),
            Ok(Step::Consumed) => {
                let (r3, s3, c, o) = run_spec(s2, inputs.drop_first(), (fuel - 1) as nat);
                (r3, s3, c + 1, o)
            },
            Ok(Step::Output(v)) => {
                let (r3, s3, c, o) = run_spec(s2, inputs, (fuel - 1) as nat);
                (r3, s3, c, seq![v] + o)
            },
            Ok(Step::Continue) => run_spec(s2, inputs, (fuel - 1) as nat),
        }
    }
}

/// Every cell of grown memory reads as the cell did before growing: the
/// old value where there was one, zero beyond.
pub proof fn lemma_grow_cells(mem: Seq<i64>, a: int)
    requires
        0 <= a,
    ensures
        grow(mem, a).len() == if a < mem.len() { mem.len() } else { (a + 1) as nat },
        forall|i: int| 0 <= i < grow(mem, a).len() ==> #[trigger] grow(mem, a)[i] == cell(mem, i),
{
}

/// The address that a parameter designates before any check, as an integer.
pub open spec fn raw_address(mem: Seq<i64>, base: int, slot: int, mode: Mode) -> int {
    let m = grow(mem, slot);
    match mode {
        Mode::Immediate => slot,
        Mode::Position => m[slot] as int,
        Mode::Relative => m[slot] + base,
    }
}

/// Memory grows on demand: resolving a parameter never fails for an
/// address in range, however far beyond the end of memory it lies; memory
/// then holds that address, keeps every old cell, and reads zero in every
/// cell that it had not reached before.
pub proof fn lemma_memory_grows(mem: Seq<i64>, base: int, slot: int, mode: Mode)
    requires
        addressable(slot),
    ensures
        ({
            let (r, m) = resolve_spec(mem, base, slot, mode);
            let a = raw_address(mem, base, slot, mode);
            &&& (r is Ok <==> addressable(a))
            &&& r is Ok ==> r->Ok_0 == a && a < m.len()
            &&& mem.len() <= m.len()
            &&& forall|i: int| 0 <= i < m.len() ==> #[trigger] m[i] == cell(mem, i)
        }),
{
    let m1 = grow(mem, slot);
    lemma_grow_cells(mem, slot);
    let a = raw_address(mem, base, slot, mode);
    if addressable(a) {
        lemma_grow_cells(m1, a);
        assert forall|i: int| 0 <= i < grow(m1, a).len() implies #[trigger] grow(m1, a)[i] == cell(mem, i) by {
            assert(grow(m1, a)[i] == cell(m1, i));
        }
    }
}

/// Resolving a parameter held in memory, in position or relative mode,
/// gives the address it designates whenever that is in range; memory
/// stays as it is where the address is inside it, and is extended with
/// zero cells up to and including the address where it lies beyond.
pub proof fn lemma_resolve_beyond_end(mem: Seq<i64>, base: int, slot: int, mode: Mode)
    requires
        0 <= slot < mem.len(),
        addressable(slot),
        mode != Mode::Immediate,
        addressable(raw_address(mem, base, slot, mode)),
    ensures
        ({
            let a = raw_address(mem, base, slot, mode);
            resolve_spec(mem, base, slot, mode) == (Ok::<int, Error>(a), if a < mem.len() {
                mem
            } else {
                mem + Seq::new((a + 1 - mem.len()) as nat, |i: int| 0i64)
            })
        }),
{
    assert(grow(mem, slot) == mem);
}

/// Whether every parameter of an instruction is in immediate mode.
pub open spec fn all_immediate(ins: Instruction) -> bool {
    match ins {
        Instruction::Add(a, b, d) | Instruction::Multiply(a, b, d) | Instruction::LessThan(a, b, d)
        | Instruction::Equals(a, b, d) => a == Mode::Immediate && b == Mode::Immediate && d == Mode::Immediate,
        Instruction::JumpIf(a, b) | Instruction::JumpIfNot(a, b) => a == Mode::Immediate && b == Mode::Immediate,
        Instruction::Input(a) | Instruction::Output(a) | Instruction::ModifyBase(a) => a == Mode::Immediate,
        Instruction::Halt => true,
    }
}

/// The cell that an instruction at `pc` writes when all its parameters are
/// immediate, or -1 where it writes none.
pub open spec fn immediate_destination(ins: Instruction, pc: int) -> int {
    match ins {
        Instruction::Add(..) | Instruction::Multiply(..) | Instruction::LessThan(..)
        | Instruction::Equals(..) => pc + 3,
        Instruction::Input(..) => pc + 1,
        _ => -1,
    }
}

/// An instruction whose parameters are all immediate changes no memory cell
/// but its own destination parameter: every other cell keeps its value, or
/// reads zero where memory had to grow.
pub proof fn lemma_immediate_touches_destination_only(s: State, input: Option<i64>)
    requires
        0 <= s.pc < s.mem.len(),
        decode_spec(s.mem[s.pc]) is Ok,
        all_immediate(decode_spec(s.mem[s.pc])->Ok_0),
    ensures
        ({
            let (r, s2) = step_spec(s, input);
            let d = immediate_destination(decode_spec(s.mem[s.pc])->Ok_0, s.pc);
            forall|i: int| 0 <= i < s2.mem.len() && i != d ==> #[trigger] s2.mem[i] == cell(s.mem, i)
        }),
{
    reveal(step_spec);
    let pc = s.pc;
    let ins = decode_spec(s.mem[pc])->Ok_0;
    let (r, s2) = step_spec(s, input);
    let d = immediate_destination(ins, pc);
    if addressable(pc + 1) {
        lemma_memory_grows(s.mem, s.base, pc + 1, Mode::Immediate);
        let m1 = resolve_spec(s.mem, s.base, pc + 1, Mode::Immediate).1;
        if addressable(pc + 2) {
            lemma_memory_grows(m1, s.base, pc + 2, Mode::Immediate);
            let m2 = resolve_spec(m1, s.base, pc + 2, Mode::Immediate).1;
            assert forall|i: int| 0 <= i < m2.len() implies #[trigger] m2[i] == cell(s.mem, i) by {
                assert(m2[i] == cell(m1, i));
            }
            if addressable(pc + 3) {
                lemma_memory_grows(m2, s.base, pc + 3, Mode::Immediate);
                let m3 = resolve_spec(m2, s.base, pc + 3, Mode::Immediate).1;
                assert forall|i: int| 0 <= i < m3.len() implies #[trigger] m3[i] == cell(s.mem, i) by {
                    assert(m3[i] == cell(m2, i));
                }
            }
        }
    }
    assert forall|i: int| 0 <= i < s2.mem.len() && i != d implies #[trigger] s2.mem[i] == cell(s.mem, i) by {
    }
}

/// What a program of additions and multiplications in position mode does
/// from `pc`, with at most `steps` of them before the halt instruction: the
/// memory at the halt and where the halt stands. `None` where it meets
/// anything else, or an operand address outside memory.
pub open spec fn add_multiply_run(mem: Seq<i64>, pc: int, steps: nat) -> Option<(Seq<i64>, int)>
    decreases steps,
{
    if !(0 <= pc < mem.len()) {
        None
    } else if mem[pc] == 99 {
        Some((mem, pc))
    } else if steps == 0 || !(mem[pc] == 1 || mem[pc] == 2) || pc + 3 >= mem.len() {
        None
    } else {
        let a = mem[pc + 1] as int;
        let b = mem[pc + 2] as int;
        let c = mem[pc + 3] as int;
        if !(0 <= a < mem.len() && 0 <= b < mem.len() && 0 <= c < mem.len()) {
            None
        } else {
            let v = if mem[pc] == 1 { mem[a].wrapping_add(mem[b]) } else { mem[a].wrapping_mul(mem[b]) };
            add_multiply_run(mem.update(c, v), pc + 4, (steps - 1) as nat)
        }
    }
}

/// A resolved address in position mode, inside memory, leaves memory as
/// it is.
pub proof fn lemma_resolve_in_place(mem: Seq<i64>, base: int, slot: int)
    requires
        0 <= slot < mem.len(),
        mem.len() <= i64::MAX,
        mem.len() + 4 <= usize::MAX,
        0 <= mem[slot] < mem.len(),
    ensures
        resolve_spec(mem, base, slot, Mode::Position) == (Ok::<int, Error>(mem[slot] as int), mem),
{
}

/// A program of additions and multiplications, each operand an address
/// inside memory, computes its memory: run with enough steps, it halts at
/// the halt instruction with the memory that applying each instruction in
/// turn gives, the length of memory unchanged, reading no input and
/// writing no output.
pub proof fn lemma_add_multiply_program(mem: Seq<i64>, pc: int, base: int, steps: nat, inputs: Seq<i64>, fuel: nat)
    requires
        add_multiply_run(mem, pc, steps) is Some,
        fuel > steps,
        mem.len() <= i64::MAX,
        mem.len() + 4 <= usize::MAX,
    ensures
        ({
            let (m, end) = add_multiply_run(mem, pc, steps)->Some_0;
            &&& m.len() == mem.len()
            &&& run_spec(State { mem, pc, base }, inputs, fuel) == (Ok::<Stop, Error>(Stop::Halted), State {
                mem: m,
                pc: end,
                base,
            }, 0nat, Seq::<i64>::empty())
        }),
    decreases steps,
{
    reveal(step_spec);
    let s = State { mem, pc, base };
    let input = if inputs.len() > 0 { Some(inputs[0]) } else { None };
    if mem[pc] == 99 {
        assert(decode_spec(99) == Ok::<Instruction, Error>(Instruction::Halt));
        assert(step_spec(s, input) == (Ok::<Step, Error>(Step::Halted), s));
    } else {
        let a = mem[pc + 1] as int;
        let b = mem[pc + 2] as int;
        let c = mem[pc + 3] as int;
        let op = if mem[pc] == 1 { BinOp::Add } else { BinOp::Multiply };
        assert(decode_spec(1) == Ok::<Instruction, Error>(Instruction::Add(Mode::Position, Mode::Position, Mode::Position)));
        assert(decode_spec(2) == Ok::<Instruction, Error>(Instruction::Multiply(Mode::Position, Mode::Position, Mode::Position)));
        lemma_resolve_in_place(mem, base, pc + 1);
        lemma_resolve_in_place(mem, base, pc + 2);
        lemma_resolve_in_place(mem, base, pc + 3);
        let v = if mem[pc] == 1 { mem[a].wrapping_add(mem[b]) } else { mem[a].wrapping_mul(mem[b]) };
        let next = State { mem: mem.update(c, v), pc: pc + 4, base };
        assert(binary_spec(s, op, Mode::Position, Mode::Position, Mode::Position) == (Ok::<Step, Error>(Step::Continue), next));
        assert(step_spec(s, input) == (Ok::<Step, Error>(Step::Continue), next));
        lemma_add_multiply_program(mem.update(c, v), pc + 4, base, (steps - 1) as nat, inputs, (fuel - 1) as nat);
    }
}

/// A machine that has halted stays halted: whatever input is offered, a
/// step changes nothing, and no run from there outputs anything more. A
/// peer that waits on its outputs can only learn that it has finished.
pub proof fn lemma_halted_is_final(s: State, input: Option<i64>, other: Option<i64>, inputs: Seq<i64>, fuel: nat)
    requires
        step_spec(s, input).0 == Ok::<Step, Error>(Step::Halted),
    ensures
        step_spec(s, other) == (Ok::<Step, Error>(Step::Halted), s),
        run_spec(s, inputs, fuel).3 == Seq::<i64>::empty(),
        run_spec(s, inputs, fuel).1 == s,
        fuel > 0 ==> run_spec(s, inputs, fuel).0 == Ok::<Stop, Error>(Stop::Halted),
{
    lemma_halt_decoded(s, input);
    lemma_halt_decoded(s, other);
    if fuel > 0 {
        let first = if inputs.len() > 0 { Some(inputs[0]) } else { None };
        lemma_halt_decoded(s, first);
    }
}

/// A step halts exactly at the end of memory or on the halt instruction,
/// and then leaves the state as it was.
pub proof fn lemma_halt_decoded(s: State, input: Option<i64>)
    ensures
        step_spec(s, input).0 == Ok::<Step, Error>(Step::Halted) <==> s.pc >= s.mem.len() || decode_spec(s.mem[s.pc])
            == Ok::<Instruction, Error>(Instruction::Halt),
        step_spec(s, input).0 == Ok::<Step, Error>(Step::Halted) ==> step_spec(s, input).1 == s,
{
    reveal(step_spec);
    if s.pc < s.mem.len() {
        match decode_spec(s.mem[s.pc]) {
            Ok(Instruction::Add(a, b, d)) => lemma_binary_continues(s, BinOp::Add, a, b, d),
            Ok(Instruction::Multiply(a, b, d)) => lemma_binary_continues(s, BinOp::Multiply, a, b, d),
            Ok(Instruction::LessThan(a, b, d)) => lemma_binary_continues(s, BinOp::LessThan, a, b, d),
            Ok(Instruction::Equals(a, b, d)) => lemma_binary_continues(s, BinOp::Equals, a, b, d),
            Ok(Instruction::JumpIf(c, t)) => lemma_jump_continues(s, true, c, t),
            Ok(Instruction::JumpIfNot(c, t)) => lemma_jump_continues(s, false, c, t),
            _ => {},
        }
    }
}

/// A binary instruction never halts the machine.
pub proof fn lemma_binary_continues(s: State, op: BinOp, a: Mode, b: Mode, d: Mode)
    ensures
        binary_spec(s, op, a, b, d).0 != Ok::<Step, Error>(Step::Halted),
{
}

/// A jump never halts the machine.
pub proof fn lemma_jump_continues(s: State, when: bool, c: Mode, t: Mode)
    ensures
        jump_spec(s, when, c, t).0 != Ok::<Step, Error>(Step::Halted),
{
}

/// An Intcode machine: its memory, program counter and relative base.
pub struct Program {
    opcodes: Vec<i64>,
    index: usize,
    base: i64,
}

impl View for Program {
    type V = State;

    closed spec fn view(&self) -> State {
        State { mem: self.opcodes@, pc: self.index as int, base: self.base as int }
    }
}

impl Program {
    /// A machine loaded with `opcodes`, at address zero with base zero.
    pub fn new(opcodes: Vec<i64>) -> (r: Program)
        ensures
            r@ == (State { mem: opcodes@, pc: 0, base: 0 }),
    {
        Program { opcodes, index: 0, base: 0 }
    }

    /// The memory as it stands.
    pub fn memory(&self) -> (r: &Vec<i64>)
        ensures
            r@ == self@.mem,
    {
        &self.opcodes
    }

    /// The program counter.
    pub fn counter(&self) -> (r: usize)
        ensures
            r == self@.pc,
    {
        self.index
    }

    /// The relative base.
    pub fn base(&self) -> (r: i64)
        ensures
            r == self@.base,
    {
        self.base
    }

    /// Extends memory with zero cells until it holds address `a`.
    fn grow_to(&mut self, a: usize)
        requires
            a < usize::MAX,
        ensures
            final(self).opcodes@ == grow(old(self).opcodes@, a as int),
            final(self).index == old(self).index,
            final(self).base == old(self).base,
    {
        let ghost start = self.opcodes@;
        while self.opcodes.len() <= a
            invariant
                a < usize::MAX,
                start.len() <= self.opcodes@.len(),
                self.opcodes@.len() <= a + 1 || self.opcodes@.len() == start.len(),
                self.opcodes@ =~= start + Seq::new((self.opcodes@.len() - start.len()) as nat, |i: int| 0i64),
                self.index == old(self).index,
                self.base == old(self).base,
                start == old(self).opcodes@,
            decreases a + 1 - self.opcodes@.len(),
        {
            self.opcodes.push(0);
        }
        proof {
            if a < start.len() {
                assert(self.opcodes@ =~= start);
            }
        }
    }

    /// The address that the parameter in cell `slot` designates under
    /// `mode`, growing memory to hold the parameter and the address.
    fn resolve(&mut self, slot: usize, mode: Mode) -> (r: Result<usize, Error>)
        ensures
            ({
                let (res, m) = resolve_spec(old(self).opcodes@, old(self).base as int, slot as int, mode);
                &&& final(self).opcodes@ == m
                &&& match r {
                    Ok(a) => res == Ok::<int, Error>(a as int),
                    Err(e) => res == Err::<int, Error>(e),
                }
            }),
            final(self).index == old(self).index,
            final(self).base == old(self).base,
            r is Ok ==> r->Ok_0 < final(self).opcodes@.len(),
            r is Ok ==> addressable(slot as int),
            old(self).opcodes@.len() <= final(self).opcodes@.len(),
    {
        if slot as u64 > i64::MAX as u64 || slot > usize::MAX - 4 {
            return Err(Error::InvalidOffset);
        }
        self.grow_to(slot);
        let v = self.opcodes[slot];
        let a: i128 = match mode {
            Mode::Immediate => slot as i128,
            Mode::Position => v as i128,
            Mode::Relative => v as i128 + self.base as i128,
        };
        if a < 0 || a > i64::MAX as i128 || a > usize::MAX as i128 - 4 {
            return Err(Error::InvalidOffset);
        }
        let a = a as usize;
        self.grow_to(a);
        Ok(a)
    }

    /// Runs the binary instruction at the program counter.
    fn binary(&mut self, op: BinOp, a: Mode, b: Mode, d: Mode) -> (r: Result<Step, Error>)
        requires
            old(self).index < old(self).opcodes@.len(),
        ensures
            (r, final(self)@) == binary_spec(old(self)@, op, a, b, d),
    {
        let pc = self.index;
        if pc >= usize::MAX - 4 {
            return Err(Error::InvalidOffset);
        }
        let x = self.resolve(pc + 1, a)?;
        let y = self.resolve(pc + 2, b)?;
        let z = self.resolve(pc + 3, d)?;
        let u = self.opcodes[x];
        let v = self.opcodes[y];
        let w = match op {
            BinOp::Add => u.wrapping_add(v),
            BinOp::Multiply => u.wrapping_mul(v),
            BinOp::LessThan => if u < v { 1 } else { 0 },
            BinOp::Equals => if u == v { 1 } else { 0 },
        };
        self.opcodes.set(z, w);
        self.index = pc + 4;
        Ok(Step::Continue)
    }

    /// Runs the conditional jump at the program counter.
    fn jump(&mut self, when: bool, c: Mode, t: Mode) -> (r: Result<Step, Error>)
        requires
            old(self).index < old(self).opcodes@.len(),
        ensures
            (r, final(self)@) == jump_spec(old(self)@, when, c, t),
    {
        let pc = self.index;
        if pc >= usize::MAX - 4 {
            return Err(Error::InvalidOffset);
        }
        let x = self.resolve(pc + 1, c)?;
        if (self.opcodes[x] != 0) != when {
            self.index = pc + 3;
            return Ok(Step::Continue);
        }
        let y = self.resolve(pc + 2, t)?;
        let target = self.opcodes[y];
        if target < 0 || target as u64 > usize::MAX as u64 - 4 {
            return Err(Error::InvalidOffset);
        }
        self.index = target as usize;
        Ok(Step::Continue)
    }

    /// Runs at most `max_steps` instructions on `inputs`, appending every
    /// output to `outputs`, until the program halts, needs an input beyond
    /// `inputs`, or the budget is spent. Returns how it stopped and how many
    /// inputs it used. An empty program is refused before anything runs.
    pub fn run(&mut self, inputs: &[i64], outputs: &mut Vec<i64>, max_steps: usize) -> (r: Result<
        (Stop, usize),
        Error,
    >)
        ensures
            r is Ok ==> r->Ok_0.1 <= inputs@.len(),
            old(self)@.mem.len() == 0 ==> r == Err::<(Stop, usize), Error>(Error::ProgramEmpty)
                && final(self)@ == old(self)@ && final(outputs)@ == old(outputs)@,
            old(self)@.mem.len() > 0 ==> ({
                let (res, s, c, o) = run_spec(old(self)@, inputs@, max_steps as nat);
                &&& final(self)@ == s
                &&& final(outputs)@ == old(outputs)@ + o
                &&& match r {
                    Ok((stop, n)) => res == Ok::<Stop, Error>(stop) && n == c,
                    Err(e) => res == Err::<Stop, Error>(e),
                }
            }),
    {
        if self.opcodes.len() == 0 {
            return Err(Error::ProgramEmpty);
        }
        let ghost s0 = self@;
        let ghost out0 = outputs@;
        let mut used: usize = 0;
        let mut left: usize = max_steps;
        proof {
            assert(inputs@.subrange(0, inputs@.len() as int) =~= inputs@);
        }
        while left > 0
            invariant
                s0 == old(self)@,
                s0.mem.len() > 0,
                out0 == old(outputs)@,
                used <= inputs@.len(),
                left <= max_steps,
                ({
                    let (res, s, c, o) = run_spec(s0, inputs@, max_steps as nat);
                    let (res2, s2, c2, o2) = run_spec(self@, inputs@.subrange(used as int, inputs@.len() as int), left as nat);
                    &&& res == res2
                    &&& s == s2
                    &&& c == c2 + used
                    &&& out0 + o == outputs@ + o2
                }),
            decreases left,
        {
            let ghost before = self@;
            let ghost rest = inputs@.subrange(used as int, inputs@.len() as int);
            let input = if used < inputs.len() { Some(inputs[used]) } else { None };
            let r = self.step(input);
            proof {
                if used < inputs@.len() {
                    assert(rest.drop_first() =~= inputs@.subrange(used + 1, inputs@.len() as int));
                }
            }
            left = left - 1;
            proof {
                assert(outputs@ + seq![] =~= outputs@);
            }
            match r {
                Err(e) => return Err(e),
                Ok(Step::Halted) => return Ok((Stop::Halted, used)),
                Ok(Step::NeedInput) => return Ok((Stop::NeedInput, used)),
                Ok(Step::Consumed) => {
                    used = used + 1;
                },
                Ok(Step::Output(v)) => {
                    let ghost out_before = outputs@;
                    outputs.push(v);
                    proof {
                        let (res2, s2, c2, o2) = run_spec(self@, rest, left as nat);
                        assert(out_before + (seq![v] + o2) =~= outputs@ + o2);
                    }
                },
                Ok(Step::Continue) => {},
            }
        }
        proof {
            assert(outputs@ + seq![] =~= outputs@);
        }
        Ok((Stop::Paused, used))
    }

    /// Executes the instruction at the program counter. An input
    /// instruction uses `input`, and reports `NeedInput` without any change
    /// where there is none. Past the end of memory the machine is halted.
    pub fn step(&mut self, input: Option<i64>) -> (r: Result<Step, Error>)
        ensures
            (r, final(self)@) == step_spec(old(self)@, input),
            r == Ok::<Step, Error>(Step::Consumed) ==> input is Some,
    {
        reveal(step_spec);
        if self.index >= self.opcodes.len() {
            return Ok(Step::Halted);
        }
        let pc = self.index;
        let instruction = Instruction::decode(self.opcodes[pc])?;
        match instruction {
            Instruction::Halt => Ok(Step::Halted),
            Instruction::Add(a, b, d) => self.binary(BinOp::Add, a, b, d),
            Instruction::Multiply(a, b, d) => self.binary(BinOp::Multiply, a, b, d),
            Instruction::LessThan(a, b, d) => self.binary(BinOp::LessThan, a, b, d),
            Instruction::Equals(a, b, d) => self.binary(BinOp::Equals, a, b, d),
            Instruction::JumpIf(c, t) => self.jump(true, c, t),
            Instruction::JumpIfNot(c, t) => self.jump(false, c, t),
            Instruction::Input(m) => match input {
                None => Ok(Step::NeedInput),
                Some(v) => {
                    let x = self.resolve(pc + 1, m)?;
                    self.opcodes.set(x, v);
                    self.index = pc + 2;
                    Ok(Step::Consumed)
                },
            },
            Instruction::Output(m) => {
                let x = self.resolve(pc + 1, m)?;
                let v = self.opcodes[x];
                self.index = pc + 2;
                Ok(Step::Output(v))
            },
            Instruction::ModifyBase(m) => {
                let x = self.resolve(pc + 1, m)?;
                let v = self.opcodes[x];
                match self.base.checked_add(v) {
                    Some(nb) => {
                        self.base = nb;
                        self.index = pc + 2;
                        Ok(Step::Continue)
                    },
                    None => Err(Error::InvalidOffset),
                }
            },
        }
    }
}

/// How many instructions a run to the end may take before it gives up.
pub const STEP_BUDGET: usize = 100_000_000;

/// The outcome of running a fresh machine on `opcodes` and `inputs` to its
/// end: the outputs where it halts, else why it did not.
pub open spec fn run_to_end_spec(opcodes: Seq<i64>, inputs: Seq<i64>) -> Result<Seq<i64>, Error> {
    if opcodes.len() == 0 {
        Err(Error::ProgramEmpty)
    } else {
        let (res, s, c, o) = run_spec(State { mem: opcodes, pc: 0, base: 0 }, inputs, STEP_BUDGET as nat);
        match res {
            Ok(Stop::Halted) => Ok(o),
            Ok(Stop::NeedInput) => Err(Error::MissingInput),
            Ok(Stop::Paused) => Err(Error::StepLimit),
            Err(e) => Err(e),
        }
    }
}

/// Runs `opcodes` on `inputs` until it halts and returns its outputs. An
/// input beyond `inputs` is missing; a program still running after
/// `STEP_BUDGET` instructions is given up.
pub fn run_to_end(opcodes: Vec<i64>, inputs: &[i64]) -> (r: Result<Vec<i64>, Error>)
    ensures
        match r {
            Ok(o) => run_to_end_spec(opcodes@, inputs@) == Ok::<Seq<i64>, Error>(o@),
            Err(e) => run_to_end_spec(opcodes@, inputs@) == Err::<Seq<i64>, Error>(e),
        },
{
    let mut program = Program::new(opcodes);
    let mut outputs: Vec<i64> = Vec::new();
    let r = program.run(inputs, &mut outputs, STEP_BUDGET);
    proof {
        assert(outputs@ =~= Seq::<i64>::empty() + outputs@);
    }
    match r {
        Ok((Stop::Halted, _)) => Ok(outputs),
        Ok((Stop::NeedInput, _)) => Err(Error::MissingInput),
        Ok((Stop::Paused, _)) => Err(Error::StepLimit),
        Err(e) => Err(e),
    }
}

/// The text without the blanks and line breaks at its end.
pub open spec fn trimmed_end(s: Seq<u8>) -> Seq<u8>
    decreases s.len(),
{
    if s.len() > 0 && (s.last() == 10 || s.last() == 13 || s.last() == 32 || s.last() == 9) {
        trimmed_end(s.drop_last())
    } else {
        s
    }
}

/// Reads a program written as signed decimal integers separated by commas,
/// optionally followed by a line break; `None` where a field is no
/// integer in range.
pub fn parse_program(text: &str) -> (r: Option<Vec<i64>>)
    ensures
        ({
            let fields = pieces_of(trimmed_end(text.spec_bytes()), 44);
            &&& r is Some <==> forall|k: int| 0 <= k < fields.len() ==> {
                let v = #[trigger] signed_value_of(fields[k]);
                v is Some && i64::MIN <= v->Some_0 <= i64::MAX
            }
            &&& r is Some ==> r->Some_0@.len() == fields.len() && forall|k: int|
                0 <= k < fields.len() ==> r->Some_0@[k] == signed_value_of(#[trigger] fields[k])->Some_0
        }),
{
    let bytes = text.as_bytes();
    let mut end = bytes.len();
    proof {
        assert(bytes@.subrange(0, end as int) =~= bytes@);
    }
    while end > 0 && (bytes[end - 1] == 10 || bytes[end - 1] == 13 || bytes[end - 1] == 32 || bytes[end - 1] == 9)
        invariant
            end <= bytes@.len(),
            trimmed_end(bytes@) == trimmed_end(bytes@.subrange(0, end as int)),
        decreases end,
    {
        proof {
            assert(bytes@.subrange(0, end as int).drop_last() =~= bytes@.subrange(0, end - 1));
        }
        end = end - 1;
    }
    let body = crate::text::slice_range(bytes, 0, end);
    proof {
        assert(trimmed_end(bytes@.subrange(0, end as int)) == bytes@.subrange(0, end as int));
    }
    let fields = split(body.as_slice(), 44);
    let mut program: Vec<i64> = Vec::new();
    let mut i: usize = 0;
    while i < fields.len()
        invariant
            body@ == trimmed_end(text.spec_bytes()),
            fields@.len() == pieces_of(body@, 44).len(),
            forall|k: int| 0 <= k < fields@.len() ==> #[trigger] fields@[k]@ == pieces_of(body@, 44)[k],
            i <= fields@.len(),
            program@.len() == i,
            forall|k: int| 0 <= k < i ==> {
                let v = #[trigger] signed_value_of(pieces_of(body@, 44)[k]);
                v is Some && i64::MIN <= v->Some_0 <= i64::MAX
            },
            forall|k: int| 0 <= k < i ==> program@[k] == signed_value_of(#[trigger] pieces_of(body@, 44)[k])->Some_0,
        decreases fields@.len() - i,
    {
        match parse_signed(fields[i].as_slice()) {
            Some(v) => program.push(v),
            None => return None,
        }
        i = i + 1;
    }
    Some(program)
}

} // verus!
