//! Programs run once on a list of inputs: the thermal diagnostics and the
//! sensor boost keycode.

use vstd::prelude::*;
use crate::intcode::{run_to_end, run_to_end_spec, Error};

verus! {

/// Runs the diagnostic program on `inputs` (the system identifiers that it
/// asks for) and returns the codes it outputs.
pub fn process_opcode(program: Vec<i64>, inputs: &[i64]) -> (r: Result<Vec<i64>, Error>)
    ensures
        match r {
            Ok(o) => run_to_end_spec(program@, inputs@) == Ok::<Seq<i64>, Error>(o@),
            Err(e) => run_to_end_spec(program@, inputs@) == Err::<Seq<i64>, Error>(e),
        },
{
    run_to_end(program, inputs)
}

/// Checks a diagnostic report: every code but the last must be zero, and
/// the last is the diagnostic. Returns the first nonzero code as an error.
pub fn check_diagnostics(diagnostics: Vec<i64>) -> (r: Result<i64, i64>)
    requires
        diagnostics@.len() > 0,
    ensures
        match r {
            Ok(d) => d == diagnostics@.last() && forall|i: int|
                0 <= i < diagnostics@.len() - 1 ==> diagnostics@[i] == 0,
            Err(c) => exists|i: int|
                0 <= i < diagnostics@.len() - 1 && diagnostics@[i] == c && c != 0 && forall|j: int|
                    0 <= j < i ==> diagnostics@[j] == 0,
        },
{
    let length = diagnostics.len();
    let mut i: usize = 0;
    while i < length - 1
        invariant
            length == diagnostics@.len(),
            length > 0,
            i <= length - 1,
            forall|j: int| 0 <= j < i ==> diagnostics@[j] == 0,
        decreases length - 1 - i,
    {
        if diagnostics[i] != 0 {
            return Err(diagnostics[i]);
        }
        i = i + 1;
    }
    Ok(diagnostics[length - 1])
}

/// Runs the BOOST program in the given mode and returns the first value
/// that it outputs.
pub fn boost_keycode(opcodes: Vec<i64>, user_mode: i64) -> (r: Result<i64, Error>)
    ensures
        match run_to_end_spec(opcodes@, seq![user_mode]) {
            Ok(o) => if o.len() > 0 {
                r == Ok::<i64, Error>(o[0])
            } else {
                r == Err::<i64, Error>(Error::MissingOutput)
            },
            Err(e) => r == Err::<i64, Error>(e),
        },
{
    let inputs = [user_mode];
    proof {
        assert(inputs@ =~= seq![user_mode]);
    }
    let outputs = run_to_end(opcodes, &inputs)?;
    if outputs.len() > 0 {
        Ok(outputs[0])
    } else {
        Err(Error::MissingOutput)
    }
}

/// Runs the diagnostic program with one system identifier until it halts
/// and returns every code that it output. A fault is returned as it is, a
/// second request for input is a missing input, and a program still
/// running after `STEP_BUDGET` instructions is given up.
pub fn run_diagnostics(program: Vec<i64>, system_id: i64) -> (r: Result<Vec<i64>, Error>)
    ensures
        match r {
            Ok(o) => run_to_end_spec(program@, seq![system_id]) == Ok::<Seq<i64>, Error>(o@),
            Err(e) => run_to_end_spec(program@, seq![system_id]) == Err::<Seq<i64>, Error>(e),
        },
{
    let inputs = [system_id];
    proof {
        assert(inputs@ =~= seq![system_id]);
    }
    run_to_end(program, &inputs)
}

} // verus!
