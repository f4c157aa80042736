//! The first gravity-assist program: a machine of additions and
//! multiplications over unsigned cells, with opcode 99 to stop.

use vstd::prelude::*;

verus! {

/// The program after running from instruction `i`, or `None` where an
/// instruction refers outside the program or a result overflows.
pub open spec fn alarm_run(p: Seq<usize>, i: nat) -> Option<Seq<usize>>
    decreases p.len() - i,
{
    if i >= p.len() || p[i as int] == 99 {
        Some(p)
    } else if p[i as int] == 1 || p[i as int] == 2 {
        if i + 3 >= p.len() {
            None
        } else {
            let a = p[(i + 1) as int] as int;
            let b = p[(i + 2) as int] as int;
            let o = p[(i + 3) as int] as int;
            if a >= p.len() || b >= p.len() || o >= p.len() {
                None
            } else {
                let v = if p[i as int] == 1 { p[a] + p[b] } else { p[a] * p[b] };
                if v > usize::MAX {
                    None
                } else {
                    alarm_run(p.update(o, v as usize), i + 4)
                }
            }
        }
    } else {
        alarm_run(p, i + 1)
    }
}

/// Runs the program from its first cell: 1 adds and 2 multiplies the cells
/// that the next two cells point at into the cell that the third points at,
/// 99 stops, any other cell is skipped. `None` where a reference falls
/// outside the program or a result overflows.
pub fn process_opcode(program: Vec<usize>) -> (r: Option<Vec<usize>>)
    ensures
        match r {
            Some(p) => alarm_run(program@, 0) == Some(p@),
            None => alarm_run(program@, 0) is None,
        },
{
    let mut cells = program;
    let ghost start = cells@;
    let mut index: usize = 0;
    let len = cells.len();
    while index < len && cells[index] != 99
        invariant
            len == cells@.len(),
            index <= len,
            start == program@,
            alarm_run(start, 0) == alarm_run(cells@, index as nat),
        decreases len - index,
    {
        let code = cells[index];
        if code == 1 || code == 2 {
            if len - index <= 3 {
                return None;
            }
            let a = cells[index + 1];
            let b = cells[index + 2];
            let o = cells[index + 3];
            if a >= len || b >= len || o >= len {
                return None;
            }
            let v = if code == 1 {
                cells[a].checked_add(cells[b])
            } else {
                cells[a].checked_mul(cells[b])
            };
            match v {
                None => return None,
                Some(v) => {
                    cells.set(o, v);
                },
            }
            index = index + 4;
        } else {
            index = index + 1;
        }
    }
    Some(cells)
}

/// Sets the noun and the verb: the cells at addresses 1 and 2.
pub fn init_opcode(program: Vec<usize>, first: usize, second: usize) -> (r: Vec<usize>)
    requires
        program@.len() >= 3,
    ensures
        r@ == program@.update(1, first).update(2, second),
{
    let mut program = program;
    program.set(1, first);
    program.set(2, second);
    program
}

/// Running keeps the length of the program.
pub proof fn lemma_alarm_run_len(p: Seq<usize>, i: nat)
    ensures
        alarm_run(p, i) is Some ==> alarm_run(p, i)->Some_0.len() == p.len(),
    decreases p.len() - i,
{
    if i < p.len() && p[i as int] != 99 {
        if p[i as int] == 1 || p[i as int] == 2 {
            if i + 3 < p.len() {
                let a = p[(i + 1) as int] as int;
                let b = p[(i + 2) as int] as int;
                let o = p[(i + 3) as int] as int;
                if a < p.len() && b < p.len() && o < p.len() {
                    let v = if p[i as int] == 1 { p[a] + p[b] } else { p[a] * p[b] };
                    if v <= usize::MAX {
                        lemma_alarm_run_len(p.update(o, v as usize), i + 4);
                    }
                }
            }
        } else {
            lemma_alarm_run_len(p, i + 1);
        }
    }
}

/// Whether the program with this noun and verb leaves `target` at
/// address 0.
pub open spec fn gives(program: Seq<usize>, noun: usize, verb: usize, target: usize) -> bool {
    let r = alarm_run(program.update(1, noun).update(2, verb), 0);
    r is Some && r->Some_0.len() > 0 && r->Some_0[0] == target
}

/// The first noun and verb, each from 0 to 99, noun first, for which the
/// program leaves `target` at address 0; `None` where none does.
pub fn find_noun_verb(program: &Vec<usize>, target: usize) -> (r: Option<(usize, usize)>)
    requires
        program@.len() >= 3,
    ensures
        r is Some ==> ({
            let (noun, verb) = r->Some_0;
            &&& noun <= 99 && verb <= 99
            &&& gives(program@, noun, verb, target)
            &&& forall|n: usize, v: usize| n <= 99 && v <= 99 && (n < noun || (n == noun && v < verb)) ==> !#[trigger] gives(
                program@,
                n,
                v,
                target,
            )
        }),
        r is None ==> forall|n: usize, v: usize| n <= 99 && v <= 99 ==> !#[trigger] gives(program@, n, v, target),
{
    let mut noun: usize = 0;
    while noun <= 99
        invariant
            program@.len() >= 3,
            noun <= 100,
            forall|n: usize, v: usize| n < noun && v <= 99 ==> !#[trigger] gives(program@, n, v, target),
        decreases 100 - noun,
    {
        let mut verb: usize = 0;
        while verb <= 99
            invariant
                program@.len() >= 3,
                noun <= 99,
                verb <= 100,
                forall|n: usize, v: usize| n < noun && v <= 99 ==> !#[trigger] gives(program@, n, v, target),
                forall|v: usize| v < verb ==> !#[trigger] gives(program@, noun, v, target),
            decreases 100 - verb,
        {
            let attempt = init_opcode(program.clone(), noun, verb);
            proof {
                assert(attempt@ =~= program@.update(1, noun).update(2, verb));
                lemma_alarm_run_len(attempt@, 0);
            }
            match process_opcode(attempt) {
                Some(result) => {
                    if result.len() > 0 && result[0] == target {
                        return Some((noun, verb));
                    }
                },
                None => {},
            }
            verb = verb + 1;
        }
        noun = noun + 1;
    }
    None
}

} // verus!
