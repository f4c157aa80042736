//! The handheld console's boot code: an accumulator machine that stops
//! when an instruction would run a second time or when it leaves the code.

use vstd::prelude::*;
use vstd::set_lib::*;
use vstd::string::StringSliceAdditionalSpecFns;
use crate::text::{parse_signed, signed_value_of, split, pieces_of};

verus! {

/// One instruction of the boot code.
#[derive(Debug, Clone, Copy, PartialEq, Eq, Structural)]
pub enum Instruction {
    NoOperation(isize),
    Accumulate(isize),
    Jump(isize),
}

/// Why the boot code stopped.
#[derive(Debug, Clone, Copy, PartialEq, Eq, Structural)]
pub enum ExitCode {
    /// The next instruction had already run once.
    InfiniteLoop,
    /// The next instruction lies outside the code.
    OutOfBounds,
}

/// Where a run stopped, the accumulator then, and why.
#[derive(Debug, Clone, Copy, PartialEq, Eq, Structural)]
pub struct State {
    pub index: usize,
    pub accumulator: isize,
    pub exit_code: Option<ExitCode>,
}

/// Boot code: a list of instructions.
#[derive(Debug)]
pub struct Program {
    instructions: Vec<Instruction>,
}

impl View for Program {
    type V = Seq<Instruction>;

    closed spec fn view(&self) -> Seq<Instruction> {
        self.instructions@
    }
}

/// The instruction that runs after the one at `i`.
pub open spec fn next_index(ins: Instruction, i: int) -> int {
    match ins {
        Instruction::Jump(v) => i + v,
        _ => i + 1,
    }
}

/// The accumulator after the instruction; sums wrap.
pub open spec fn next_accumulator(ins: Instruction, acc: isize) -> isize {
    match ins {
        Instruction::Accumulate(v) => acc.wrapping_add(v),
        _ => acc,
    }
}

/// The run from instruction `i` with accumulator `acc`, the instructions in
/// `seen` having run already: the instruction where it stops, the
/// accumulator there and why it stopped. `fuel` bounds the number of steps;
/// a run on `n` instructions takes at most `n` of them.
pub open spec fn run_from(code: Seq<Instruction>, i: int, acc: isize, seen: Set<int>, fuel: nat) -> (int, isize, ExitCode)
    decreases fuel,
{
    if i < 0 || i >= code.len() {
        (i, acc, ExitCode::OutOfBounds)
    } else if seen.contains(i) || fuel == 0 {
        (i, acc, ExitCode::InfiniteLoop)
    } else {
        run_from(code, next_index(code[i], i), next_accumulator(code[i], acc), seen.insert(i), (fuel - 1) as nat)
    }
}

/// The run of the whole code from its first instruction.
pub open spec fn execute_spec(code: Seq<Instruction>) -> (int, isize, ExitCode) {
    run_from(code, 0, 0, Set::empty(), code.len())
}

/// The code with the instruction at `k` switched between no-operation and
/// jump, or `None` where it accumulates.
pub open spec fn flipped(code: Seq<Instruction>, k: int) -> Option<Seq<Instruction>> {
    match code[k] {
        Instruction::NoOperation(v) => Some(code.update(k, Instruction::Jump(v))),
        Instruction::Jump(v) => Some(code.update(k, Instruction::NoOperation(v))),
        Instruction::Accumulate(_) => None,
    }
}

/// Whether switching the instruction at `k` makes the code leave its end.
pub open spec fn repairs(code: Seq<Instruction>, k: int) -> bool {
    flipped(code, k) is Some && execute_spec(flipped(code, k)->Some_0).2 == ExitCode::OutOfBounds
}

/// Reads one instruction: `nop`, `acc` or `jmp`, a space, and a signed
/// number.
pub fn parse_instruction(line: &[u8]) -> (r: Option<Instruction>)
    ensures
        r is Some ==> ({
            let v = match r->Some_0 {
                Instruction::NoOperation(v) => v,
                Instruction::Accumulate(v) => v,
                Instruction::Jump(v) => v,
            };
            line@.len() >= 4 && signed_value_of(line@.subrange(4, line@.len() as int)) == Some(v as int)
        }),
{
    if line.len() < 5 || line[3] != 32 {
        return None;
    }
    let number = crate::text::slice_from(line, 4);
    let value = match parse_signed(number.as_slice()) {
        Some(v) => v,
        None => return None,
    };
    if value < isize::MIN as i64 || value > isize::MAX as i64 {
        return None;
    }
    let value = value as isize;
    if line[0] == 110 && line[1] == 111 && line[2] == 112 {
        Some(Instruction::NoOperation(value))
    } else if line[0] == 97 && line[1] == 99 && line[2] == 99 {
        Some(Instruction::Accumulate(value))
    } else if line[0] == 106 && line[1] == 109 && line[2] == 112 {
        Some(Instruction::Jump(value))
    } else {
        None
    }
}

impl Program {
    /// A program of the given instructions.
    pub fn new(instructions: Vec<Instruction>) -> (r: Program)
        ensures
            r@ == instructions@,
    {
        Program { instructions }
    }

    /// The instructions.
    pub fn instructions(&self) -> (r: &Vec<Instruction>)
        ensures
            r@ == self@,
    {
        &self.instructions
    }

    /// Reads a program, one instruction per line; `None` where a line is
    /// no instruction.
    pub fn parse(text: &str) -> (r: Option<Program>)
        ensures
            r is Some ==> r->Some_0@.len() == pieces_of(text.spec_bytes(), 10).len(),
    {
        let lines = split(text.as_bytes(), 10);
        let mut instructions: Vec<Instruction> = Vec::new();
        let mut i: usize = 0;
        while i < lines.len()
            invariant
                i <= lines@.len(),
                instructions@.len() == i,
            decreases lines@.len() - i,
        {
            match parse_instruction(lines[i].as_slice()) {
                Some(ins) => instructions.push(ins),
                None => return None,
            }
            i = i + 1;
        }
        Some(Program { instructions })
    }

    /// Runs the code from its first instruction until an instruction would
    /// run a second time or the next one lies outside the code.
    pub fn execute(&self) -> (r: State)
        ensures
            ({
                let (i, acc, exit) = execute_spec(self@);
                &&& r.exit_code == Some(exit)
                &&& r.accumulator == acc
                &&& exit == ExitCode::InfiniteLoop ==> r.index as int == i
            }),
    {
        let code = &self.instructions;
        let n = code.len();
        let mut seen: Vec<bool> = Vec::new();
        let mut k: usize = 0;
        while k < n
            invariant
                seen@.len() == k,
                k <= n,
                forall|j: int| 0 <= j < k ==> !seen@[j],
            decreases n - k,
        {
            seen.push(false);
            k = k + 1;
        }
        let mut index: usize = 0;
        let mut accumulator: isize = 0;
        let mut fuel: usize = n;
        let ghost mut visited: Set<int> = Set::empty();
        proof {
            lemma_int_range(0, n as int);
        }
        loop
            invariant
                n == code@.len(),
                code@ == self@,
                seen@.len() == n,
                forall|j: int| 0 <= j < n ==> (seen@[j] <==> visited.contains(j)),
                visited.subset_of(set_int_range(0, n as int)),
                set_int_range(0, n as int).finite(),
                set_int_range(0, n as int).len() == n,
                visited.finite(),
                visited.len() + fuel == n,
                execute_spec(code@) == run_from(code@, index as int, accumulator, visited, fuel as nat),
            decreases fuel,
        {
            if index >= n {
                assert(run_from(code@, index as int, accumulator, visited, fuel as nat) == (index as int, accumulator, ExitCode::OutOfBounds));
                return State { index, accumulator, exit_code: Some(ExitCode::OutOfBounds) };
            }
            if seen[index] {
                return State { index, accumulator, exit_code: Some(ExitCode::InfiniteLoop) };
            }
            proof {
                if fuel == 0 {
                    assert(visited.insert(index as int).subset_of(set_int_range(0, n as int)));
                    lemma_len_subset(visited.insert(index as int), set_int_range(0, n as int));
                }
            }
            seen.set(index, true);
            let ins = code[index];
            proof {
                visited = visited.insert(index as int);
            }
            fuel = fuel - 1;
            match ins {
                Instruction::NoOperation(_) => {
                    index = index + 1;
                },
                Instruction::Accumulate(v) => {
                    accumulator = accumulator.wrapping_add(v);
                    index = index + 1;
                },
                Instruction::Jump(v) => {
                    let target = index as i128 + v as i128;
                    if target < 0 {
                        proof {
                            assert(run_from(code@, target as int, accumulator, visited, fuel as nat) == (target as int, accumulator, ExitCode::OutOfBounds));
                        }
                        return State { index: 0, accumulator, exit_code: Some(ExitCode::OutOfBounds) };
                    }
                    if target >= n as i128 {
                        proof {
                            assert(run_from(code@, target as int, accumulator, visited, fuel as nat) == (target as int, accumulator, ExitCode::OutOfBounds));
                        }
                        return State { index: n, accumulator, exit_code: Some(ExitCode::OutOfBounds) };
                    }
                    index = target as usize;
                },
            }
        }
    }

    /// Repairs the code: switches the first no-operation or jump, in the
    /// order of the code, whose switch makes the code leave its end rather
    /// than loop. The code stays as it was where no switch does.
    pub fn fix(&mut self)
        ensures
            ({
                let old_code = old(self)@;
                let new_code = final(self)@;
                ||| exists|k: int|
                    0 <= k < old_code.len() && #[trigger] repairs(old_code, k) && new_code == flipped(old_code, k)->Some_0
                        && forall|j: int| 0 <= j < k ==> !repairs(old_code, j)
                ||| new_code == old_code && forall|j: int| 0 <= j < old_code.len() ==> !repairs(old_code, j)
            }),
    {
        let n = self.instructions.len();
        let mut index: usize = 0;
        while index < n
            invariant
                n == self.instructions@.len(),
                index <= n,
                self.instructions@ == old(self).instructions@,
                forall|j: int| 0 <= j < index ==> !repairs(old(self).instructions@, j),
            decreases n - index,
        {
            let instruction = self.instructions[index];
            let new_instruction = match instruction {
                Instruction::NoOperation(value) => Instruction::Jump(value),
                Instruction::Jump(value) => Instruction::NoOperation(value),
                Instruction::Accumulate(_) => {
                    index = index + 1;
                    continue;
                },
            };
            self.instructions.set(index, new_instruction);
            let state = self.execute();
            if state.exit_code == Some(ExitCode::OutOfBounds) {
                assert(repairs(old(self).instructions@, index as int));
                return;
            }
            self.instructions.set(index, instruction);
            proof {
                assert(self.instructions@ =~= old(self).instructions@);
            }
            index = index + 1;
        }
    }
}

} // verus!
