//! Amplifier controllers: copies of one program wired in series, each set
//! with a phase, optionally with the last one feeding the first.

use vstd::prelude::*;
use crate::intcode::{run_spec, run_to_end, run_to_end_spec, Error, Program, State, Stop, STEP_BUDGET};

verus! {

/// A sequence that lists values of `settings` only, none twice.
pub open spec fn is_arrangement(p: Seq<i64>, settings: Seq<i64>) -> bool {
    &&& p.no_duplicates()
    &&& forall|i: int| 0 <= i < p.len() ==> settings.contains(#[trigger] p[i])
}

/// The values of `settings` other than `x`, in order.
fn without(settings: &Vec<i64>, x: i64) -> (r: Vec<i64>)
    ensures
        forall|y: i64| r@.contains(y) <==> settings@.contains(y) && y != x,
        settings@.contains(x) ==> r@.len() < settings@.len(),
        r@.len() <= settings@.len(),
        settings@.no_duplicates() ==> r@.no_duplicates(),
        settings@.no_duplicates() && settings@.contains(x) ==> r@.len() + 1 == settings@.len(),
{
    let mut r: Vec<i64> = Vec::new();
    let mut i: usize = 0;
    let mut seen = false;
    while i < settings.len()
        invariant
            i <= settings@.len(),
            forall|y: i64| r@.contains(y) <==> settings@.subrange(0, i as int).contains(y) && y != x,
            seen ==> r@.len() < i,
            r@.len() <= i,
            seen <==> settings@.subrange(0, i as int).contains(x),
            settings@.no_duplicates() ==> r@.no_duplicates(),
            settings@.no_duplicates() ==> r@.len() + (if seen { 1int } else { 0 }) == i,
        decreases settings@.len() - i,
    {
        let y = settings[i];
        let ghost before = r@;
        let ghost was_seen = seen;
        let ghost s1 = settings@.subrange(0, i as int);
        let ghost s2 = settings@.subrange(0, i + 1);
        proof {
            assert(s2 =~= s1.push(y));
            assert(forall|z: i64| before.contains(z) <==> s1.contains(z) && z != x);
            if settings@.no_duplicates() && s1.contains(y) {
                let m = choose|m: int| 0 <= m < s1.len() && s1[m] == y;
                assert(settings@[m] == settings@[i as int]);
            }
        }
        if y != x {
            r.push(y);
        } else {
            seen = true;
        }
        proof {
            if y == x {
                assert(s2[i as int] == x);
            }
            if s2.contains(x) && y != x {
                let k = choose|k: int| 0 <= k < s2.len() && s2[k] == x;
                assert(s1[k] == x);
            }
            if s1.contains(x) {
                let k = choose|k: int| 0 <= k < s1.len() && s1[k] == x;
                assert(s2[k] == x);
            }
            assert forall|z: i64| r@.contains(z) <==> s2.contains(z) && z != x by {
                if r@.contains(z) {
                    let k = choose|k: int| 0 <= k < r@.len() && r@[k] == z;
                    if k < before.len() {
                        assert(before[k] == z);
                        assert(before.contains(z));
                        let m = choose|m: int| 0 <= m < s1.len() && s1[m] == z;
                        assert(s2[m] == z);
                    } else {
                        assert(s2[i as int] == z);
                    }
                }
                if s2.contains(z) && z != x {
                    let m = choose|m: int| 0 <= m < s2.len() && s2[m] == z;
                    if m < i {
                        assert(s1[m] == z);
                        assert(s1.contains(z));
                        let k = choose|k: int| 0 <= k < before.len() && before[k] == z;
                        assert(r@[k] == z);
                    } else {
                        assert(r@[r@.len() - 1] == z);
                    }
                }
            }
            if settings@.no_duplicates() && y != x {
                assert(!before.contains(y));
                assert forall|a: int, b: int| 0 <= a < b < r@.len() implies r@[a] != r@[b] by {
                    if b == r@.len() - 1 {
                        assert(before[a] == r@[a]);
                    } else {
                        assert(before[a] != before[b]);
                    }
                }
            }
            if settings@.no_duplicates() && y == x && was_seen {
                assert(s1.contains(y));
            }
        }
        i = i + 1;
    }
    proof {
        assert(settings@.subrange(0, i as int) =~= settings@);
    }
    r
}

/// Whether `x` stands among the first `n` values of `settings`.
fn appears_before(settings: &Vec<i64>, n: usize, x: i64) -> (r: bool)
    requires
        n <= settings@.len(),
    ensures
        r == settings@.subrange(0, n as int).contains(x),
{
    let mut i: usize = 0;
    while i < n
        invariant
            n <= settings@.len(),
            i <= n,
            !settings@.subrange(0, i as int).contains(x),
        decreases n - i,
    {
        if settings[i] == x {
            proof {
                assert(settings@.subrange(0, n as int)[i as int] == x);
            }
            return true;
        }
        proof {
            let s1 = settings@.subrange(0, i as int);
            let s2 = settings@.subrange(0, i + 1);
            assert(s2 =~= s1.push(settings@[i as int]));
            if s2.contains(x) {
                let k = choose|k: int| 0 <= k < s2.len() && s2[k] == x;
                assert(s1[k] == x);
            }
        }
        i = i + 1;
    }
    proof {
        assert(settings@.subrange(0, i as int) =~= settings@.subrange(0, n as int));
    }
    false
}

/// Whether `p` is one of the sequences that `r` holds.
pub open spec fn listed(r: Seq<Vec<i64>>, p: Seq<i64>) -> bool {
    exists|k: int| 0 <= k < r.len() && r[k]@ == p
}

/// A sequence stays listed when another one is added.
pub proof fn lemma_listed_push(r: Seq<Vec<i64>>, v: Vec<i64>, p: Seq<i64>)
    requires
        listed(r, p),
    ensures
        listed(r.push(v), p),
{
    let k = choose|k: int| 0 <= k < r.len() && r[k]@ == p;
    assert(r.push(v)[k] == r[k]);
}

/// Whether no two of the sequences are equal.
pub open spec fn distinct_lists(r: Seq<Vec<i64>>) -> bool {
    forall|a: int, b: int| 0 <= a < b < r.len() ==> r[a]@ != r[b]@
}

/// Whether every sequence is nonempty and starts with a value of `s`.
pub open spec fn firsts_in(r: Seq<Vec<i64>>, s: Seq<i64>) -> bool {
    forall|k: int| 0 <= k < r.len() ==> (#[trigger] r[k])@.len() > 0 && s.contains(r[k]@[0])
}

/// A value among the first `i` of `s` is among the first `i + 1`.
pub proof fn lemma_prefix_contains(s: Seq<i64>, i: int, y: i64)
    requires
        0 <= i < s.len(),
        s.subrange(0, i).contains(y),
    ensures
        s.subrange(0, i + 1).contains(y),
{
    let m = choose|m: int| 0 <= m < i && #[trigger] s.subrange(0, i)[m] == y;
    assert(s.subrange(0, i + 1)[m] == y);
}

/// Every order in which the phase settings can be given to the amplifiers,
/// each value once. Where the settings are distinct, these are exactly the
/// orderings of all of them.
pub fn phase_settings_combinations(settings: Vec<i64>) -> (r: Vec<Vec<i64>>)
    ensures
        forall|k: int| 0 <= k < r@.len() ==> is_arrangement(#[trigger] r@[k]@, settings@),
        settings@.no_duplicates() ==> forall|k: int| 0 <= k < r@.len() ==> (#[trigger] r@[k]@).len() == settings@.len(),
        settings@.no_duplicates() ==> forall|p: Seq<i64>|
            is_arrangement(p, settings@) && p.len() == settings@.len() && p.len() > 0 ==> #[trigger] listed(r@, p),
        distinct_lists(r@),
        firsts_in(r@, settings@),
    decreases settings@.len(),
{
    let mut combinations: Vec<Vec<i64>> = Vec::new();
    if settings.len() == 1 {
        let c = vec![settings[0]];
        proof {
            assert(settings@.contains(c@[0]));
        }
        combinations.push(c);
        proof {
            assert forall|p: Seq<i64>| is_arrangement(p, settings@) && p.len() == settings@.len() && p.len() > 0
                implies #[trigger] listed(combinations@, p) by {
                assert(settings@.contains(p[0]));
                assert(p =~= combinations@[0]@);
            }
            assert(settings@.contains(combinations@[0]@[0]));
        }
        return combinations;
    }
    let n = settings.len();
    let mut i: usize = 0;
    while i < n
        invariant
            n == settings@.len(),
            i <= n,
            n != 1,
            forall|k: int| 0 <= k < combinations@.len() ==> is_arrangement(#[trigger] combinations@[k]@, settings@),
            settings@.no_duplicates() ==> forall|k: int| 0 <= k < combinations@.len() ==> (#[trigger] combinations@[k]@).len() == n,
            settings@.no_duplicates() ==> forall|p: Seq<i64>|
                is_arrangement(p, settings@) && p.len() == n && p.len() > 0 && settings@.subrange(0, i as int).contains(p[0])
                    ==> #[trigger] listed(combinations@, p),
            distinct_lists(combinations@),
            firsts_in(combinations@, settings@.subrange(0, i as int)),
        decreases n - i,
    {
        let x = settings[i];
        proof {
            assert(settings@.contains(x));
        }
        if appears_before(&settings, i, x) {
            proof {
                if settings@.no_duplicates() {
                    let m = choose|m: int| 0 <= m < i && #[trigger] settings@.subrange(0, i as int)[m] == x;
                    assert(settings@[m] == settings@[i as int]);
                }
                assert forall|p: Seq<i64>|
                    settings@.no_duplicates() && is_arrangement(p, settings@) && p.len() == n && p.len() > 0 && settings@.subrange(0, i + 1).contains(p[0])
                    implies #[trigger] listed(combinations@, p) by {
                    let m = choose|m: int| 0 <= m < i + 1 && #[trigger] settings@.subrange(0, i + 1)[m] == p[0];
                    assert(settings@.subrange(0, i as int)[m] == p[0]);
                }
                assert forall|k: int| 0 <= k < combinations@.len() implies (#[trigger] combinations@[k])@.len() > 0
                    && settings@.subrange(0, i + 1).contains(combinations@[k]@[0]) by {
                    lemma_prefix_contains(settings@, i as int, combinations@[k]@[0]);
                }
            }
            i = i + 1;
            continue;
        }
        let remaining = without(&settings, x);
        let rest = phase_settings_combinations(remaining);
        let ghost base = combinations@.len();
        let mut j: usize = 0;
        while j < rest.len()
            invariant
                n == settings@.len(),
                i < n,
                n != 1,
                settings@[i as int] == x,
                j <= rest@.len(),
                forall|y: i64| remaining@.contains(y) <==> settings@.contains(y) && y != x,
                settings@.no_duplicates() ==> remaining@.no_duplicates() && remaining@.len() + 1 == n,
                forall|k: int| 0 <= k < rest@.len() ==> is_arrangement(#[trigger] rest@[k]@, remaining@),
                remaining@.no_duplicates() ==> forall|k: int| 0 <= k < rest@.len() ==> (#[trigger] rest@[k]@).len() == remaining@.len(),
                forall|k: int| 0 <= k < combinations@.len() ==> is_arrangement(#[trigger] combinations@[k]@, settings@),
                settings@.no_duplicates() ==> forall|k: int| 0 <= k < combinations@.len() ==> (#[trigger] combinations@[k]@).len() == n,
                settings@.no_duplicates() ==> forall|p: Seq<i64>|
                    is_arrangement(p, settings@) && p.len() == n && p.len() > 0 && settings@.subrange(0, i as int).contains(p[0])
                        ==> #[trigger] listed(combinations@, p),
                forall|jj: int| 0 <= jj < j ==> #[trigger] listed(combinations@, seq![x] + rest@[jj]@),
                combinations@.len() == base + j,
                !settings@.subrange(0, i as int).contains(x),
                distinct_lists(rest@),
                distinct_lists(combinations@),
                forall|k: int| 0 <= k < base ==> (#[trigger] combinations@[k])@.len() > 0
                    && settings@.subrange(0, i as int).contains(combinations@[k]@[0]),
                forall|k: int| base <= k < base + j ==> (#[trigger] combinations@[k])@ == seq![x] + rest@[k - base]@,
            decreases rest@.len() - j,
        {
            let mut c = vec![x];
            let tail = &rest[j];
            let mut t: usize = 0;
            while t < tail.len()
                invariant
                    t <= tail@.len(),
                    c@ == seq![x] + tail@.subrange(0, t as int),
                decreases tail@.len() - t,
            {
                c.push(tail[t]);
                proof {
                    assert(seq![x] + tail@.subrange(0, t + 1) =~= (seq![x] + tail@.subrange(0, t as int)).push(tail@[t as int]));
                }
                t = t + 1;
            }
            proof {
                assert(tail@.subrange(0, t as int) =~= tail@);
                assert(tail@ == rest@[j as int]@);
                assert(is_arrangement(tail@, remaining@));
                assert forall|a: int| 0 <= a < c@.len() implies settings@.contains(#[trigger] c@[a]) by {
                    if a == 0 {
                        assert(settings@[i as int] == c@[a]);
                    } else {
                        assert(remaining@.contains(tail@[a - 1]));
                    }
                }
                assert forall|a: int, b: int| 0 <= a < c@.len() && 0 <= b < c@.len() && a != b implies c@[a] != c@[b] by {
                    if a > 0 {
                        assert(remaining@.contains(tail@[a - 1]));
                    }
                    if b > 0 {
                        assert(remaining@.contains(tail@[b - 1]));
                    }
                }
            }
            let ghost before = combinations@;
            combinations.push(c);
            proof {
                assert(combinations@[before.len() as int]@ == seq![x] + rest@[j as int]@);
                assert forall|a: int, b: int| 0 <= a < b < combinations@.len() implies combinations@[a]@ != combinations@[b]@ by {
                    if b == before.len() {
                        if a < base {
                            if combinations@[a]@ == combinations@[b]@ {
                                assert(combinations@[b]@[0] == x);
                            }
                        } else {
                            let ra = rest@[a - base]@;
                            let rb = rest@[j as int]@;
                            assert((seq![x] + ra).drop_first() =~= ra);
                            assert((seq![x] + rb).drop_first() =~= rb);
                        }
                    } else {
                        assert(before[a]@ != before[b]@);
                    }
                }
                assert forall|jj: int| 0 <= jj < j + 1 implies #[trigger] listed(combinations@, seq![x] + rest@[jj]@) by {
                    if jj < j {
                        lemma_listed_push(before, c, seq![x] + rest@[jj]@);
                    }
                }
                assert forall|p: Seq<i64>|
                    settings@.no_duplicates() && is_arrangement(p, settings@) && p.len() == n && p.len() > 0 && settings@.subrange(0, i as int).contains(p[0])
                    implies #[trigger] listed(combinations@, p) by {
                    assert(listed(before, p));
                    lemma_listed_push(before, c, p);
                }
            }
            j = j + 1;
        }
        proof {
            assert forall|k: int| 0 <= k < combinations@.len() implies (#[trigger] combinations@[k])@.len() > 0
                && settings@.subrange(0, i + 1).contains(combinations@[k]@[0]) by {
                if k < base {
                    lemma_prefix_contains(settings@, i as int, combinations@[k]@[0]);
                } else {
                    assert(combinations@[k]@[0] == x);
                    assert(settings@.subrange(0, i + 1)[i as int] == x);
                }
            }
            assert forall|p: Seq<i64>|
                settings@.no_duplicates() && is_arrangement(p, settings@) && p.len() == n && p.len() > 0 && settings@.subrange(0, i + 1).contains(p[0])
                implies #[trigger] listed(combinations@, p) by {
                let m = choose|m: int| 0 <= m < i + 1 && #[trigger] settings@.subrange(0, i + 1)[m] == p[0];
                if m < i {
                    assert(settings@.subrange(0, i as int)[m] == p[0]);
                } else {
                    let q = p.drop_first();
                    assert(p[0] == x);
                    assert forall|a: int| 0 <= a < q.len() implies remaining@.contains(#[trigger] q[a]) by {
                        assert(q[a] == p[a + 1]);
                        assert(p[a + 1] != p[0]);
                        assert(settings@.contains(p[a + 1]));
                    }
                    assert(is_arrangement(q, remaining@));
                    assert(listed(rest@, q));
                    let jj = choose|jj: int| 0 <= jj < rest@.len() && rest@[jj]@ == q;
                    assert(listed(combinations@, seq![x] + rest@[jj]@));
                    assert(seq![x] + q =~= p);
                }
            }
        }
        i = i + 1;
    }
    proof {
        assert forall|p: Seq<i64>|
            settings@.no_duplicates() && is_arrangement(p, settings@) && p.len() == settings@.len() && p.len() > 0
            implies #[trigger] listed(combinations@, p) by {
            assert(settings@.subrange(0, n as int) =~= settings@);
        }
        assert(settings@.subrange(0, n as int) =~= settings@);
    }
    combinations
}

/// The signal out of a series of amplifiers running `program` with the
/// given phases, when `signal` enters the first: each amplifier takes its
/// phase then the incoming signal, and passes on its first output.
pub open spec fn chain_spec(program: Seq<i64>, phases: Seq<i64>, signal: i64) -> Result<i64, Error>
    decreases phases.len(),
{
    if phases.len() == 0 {
        Ok(signal)
    } else {
        match run_to_end_spec(program, seq![phases[0], signal]) {
            Err(e) => Err(e),
            Ok(o) => if o.len() > 0 {
                chain_spec(program, phases.drop_first(), o[0])
            } else {
                Err(Error::MissingOutput)
            },
        }
    }
}

/// Runs the amplifiers in series, the first one fed with signal zero, and
/// returns the signal out of the last one.
pub fn amplify_chain(program: &Vec<i64>, phases: &Vec<i64>) -> (r: Result<i64, Error>)
    ensures
        r == chain_spec(program@, phases@, 0),
{
    let mut signal: i64 = 0;
    let mut i: usize = 0;
    proof {
        assert(phases@.subrange(0, phases@.len() as int) =~= phases@);
    }
    while i < phases.len()
        invariant
            i <= phases@.len(),
            chain_spec(program@, phases@, 0) == chain_spec(program@, phases@.subrange(i as int, phases@.len() as int), signal),
        decreases phases@.len() - i,
    {
        let ghost rest = phases@.subrange(i as int, phases@.len() as int);
        let inputs = [phases[i], signal];
        proof {
            assert(inputs@ =~= seq![rest[0], signal]);
            assert(rest.drop_first() =~= phases@.subrange(i + 1, phases@.len() as int));
        }
        let outputs = run_to_end(program.clone(), &inputs)?;
        if outputs.len() == 0 {
            return Err(Error::MissingOutput);
        }
        signal = outputs[0];
        i = i + 1;
    }
    Ok(signal)
}

/// Drops the first `n` values of a queue.
pub fn drop_front(queue: &Vec<i64>, n: usize) -> (r: Vec<i64>)
    requires
        n <= queue@.len(),
    ensures
        r@ == queue@.subrange(n as int, queue@.len() as int),
{
    let mut r: Vec<i64> = Vec::new();
    let mut i: usize = n;
    while i < queue.len()
        invariant
            n <= i <= queue@.len(),
            r@ == queue@.subrange(n as int, i as int),
        decreases queue@.len() - i,
    {
        r.push(queue[i]);
        proof {
            assert(queue@.subrange(n as int, i + 1) =~= queue@.subrange(n as int, i as int).push(queue@[i as int]));
        }
        i = i + 1;
    }
    r
}

/// The amplifiers of a feedback loop as mathematics: each machine's state,
/// the values waiting at each one's input, which have halted, the last
/// signal that the last amplifier sent, and how the round so far went.
pub struct FeedbackState {
    pub machines: Seq<State>,
    pub queues: Seq<Seq<i64>>,
    pub halted: Seq<bool>,
    pub last: Option<i64>,
    pub progress: bool,
    pub all_halted: bool,
}

/// The loop before its first round: every machine loaded with `program`,
/// each given its phase, the first one also signal zero.
pub open spec fn init_feedback(program: Seq<i64>, phases: Seq<i64>) -> FeedbackState {
    FeedbackState {
        machines: Seq::new(phases.len(), |i: int| State { mem: program, pc: 0, base: 0 }),
        queues: Seq::new(phases.len(), |i: int| if i == 0 { seq![phases[0], 0i64] } else { seq![phases[i]] }),
        halted: Seq::new(phases.len(), |i: int| false),
        last: None,
        progress: false,
        all_halted: true,
    }
}

/// Amplifier `k` takes its turn: unless it has halted, it runs on the
/// values waiting for it until it halts, waits for input or spends
/// `STEP_BUDGET` steps; it uses up the values it read, and its outputs
/// join the queue of the next amplifier (the first, after the last).
pub open spec fn visit_spec(f: FeedbackState, k: int) -> Result<FeedbackState, Error> {
    if f.halted[k] {
        Ok(f)
    } else if f.machines[k].mem.len() == 0 {
        Err(Error::ProgramEmpty)
    } else {
        let (res, st, c, o) = run_spec(f.machines[k], f.queues[k], STEP_BUDGET as nat);
        match res {
            Err(e) => Err(e),
            Ok(stop) => {
                let n = f.machines.len();
                let next = if k + 1 == n { 0 } else { k + 1 };
                let q1 = f.queues.update(k, f.queues[k].subrange(c as int, f.queues[k].len() as int));
                let q2 = q1.update(next, q1[next] + o);
                Ok(FeedbackState {
                    machines: f.machines.update(k, st),
                    queues: q2,
                    halted: if stop == Stop::Halted { f.halted.update(k, true) } else { f.halted },
                    last: if k + 1 == n && o.len() > 0 { Some(o.last()) } else { f.last },
                    progress: f.progress || c > 0 || o.len() > 0 || stop != Stop::NeedInput,
                    all_halted: f.all_halted && stop == Stop::Halted,
                })
            },
        }
    }
}

/// The amplifiers from `k` to the last take their turns.
pub open spec fn round_spec(f: FeedbackState, k: int, n: int) -> Result<FeedbackState, Error>
    decreases n - k,
{
    if k >= n {
        Ok(f)
    } else {
        match visit_spec(f, k) {
            Err(e) => Err(e),
            Ok(g) => round_spec(g, k + 1, n),
        }
    }
}

/// Rounds of turns, at most `fuel` of them: after a round in which all
/// have halted, the last signal of the last amplifier; after a round in
/// which nothing moved while some wait, a missing input.
pub open spec fn loop_rounds(f: FeedbackState, n: int, fuel: nat) -> Result<i64, Error>
    decreases fuel,
{
    if fuel == 0 {
        Err(Error::StepLimit)
    } else {
        match round_spec(FeedbackState { progress: false, all_halted: true, ..f }, 0, n) {
            Err(e) => Err(e),
            Ok(g) => if g.all_halted {
                match g.last {
                    Some(v) => Ok(v),
                    None => Err(Error::MissingOutput),
                }
            } else if !g.progress {
                Err(Error::MissingInput)
            } else {
                loop_rounds(g, n, (fuel - 1) as nat)
            },
        }
    }
}

/// The result of the feedback loop of amplifiers running `program` with
/// the given phases.
pub open spec fn loop_spec(program: Seq<i64>, phases: Seq<i64>) -> Result<i64, Error> {
    loop_rounds(init_feedback(program, phases), phases.len() as int, STEP_BUDGET as nat)
}

/// The amplifiers of a feedback loop.
pub struct FeedbackLoop {
    machines: Vec<Program>,
    queues: Vec<Vec<i64>>,
    halted: Vec<bool>,
    last: Option<i64>,
    progress: bool,
    all_halted: bool,
}

impl View for FeedbackLoop {
    type V = FeedbackState;

    closed spec fn view(&self) -> FeedbackState {
        FeedbackState {
            machines: Seq::new(self.machines@.len(), |i: int| self.machines@[i]@),
            queues: Seq::new(self.queues@.len(), |i: int| self.queues@[i]@),
            halted: self.halted@,
            last: self.last,
            progress: self.progress,
            all_halted: self.all_halted,
        }
    }
}

impl FeedbackLoop {
    /// One machine, one queue and one flag per amplifier.
    pub closed spec fn wf(&self, n: int) -> bool {
        self.machines@.len() == n && self.queues@.len() == n && self.halted@.len() == n
    }

    /// The loop before its first round.
    pub fn new(program: &Vec<i64>, phases: &Vec<i64>) -> (r: FeedbackLoop)
        requires
            phases@.len() > 0,
        ensures
            r.wf(phases@.len() as int),
            r@ == init_feedback(program@, phases@),
    {
        let n = phases.len();
        let mut machines: Vec<Program> = Vec::new();
        let mut queues: Vec<Vec<i64>> = Vec::new();
        let mut halted: Vec<bool> = Vec::new();
        let mut i: usize = 0;
        while i < n
            invariant
                n == phases@.len(),
                i <= n,
                machines@.len() == i,
                queues@.len() == i,
                halted@.len() == i,
                forall|j: int| 0 <= j < i ==> (#[trigger] machines@[j])@ == (State { mem: program@, pc: 0, base: 0 }),
                forall|j: int| 0 <= j < i ==> (#[trigger] queues@[j])@ == if j == 0 { seq![phases@[0], 0i64] } else { seq![phases@[j]] },
                forall|j: int| 0 <= j < i ==> !(#[trigger] halted@[j]),
            decreases n - i,
        {
            let copy = program.clone();
            assert(copy@ =~= program@);
            machines.push(Program::new(copy));
            let mut q = vec![phases[i]];
            if i == 0 {
                q.push(0);
                assert(q@ =~= seq![phases@[0], 0i64]);
            } else {
                assert(q@ =~= seq![phases@[i as int]]);
            }
            queues.push(q);
            halted.push(false);
            i = i + 1;
        }
        let r = FeedbackLoop { machines, queues, halted, last: None, progress: false, all_halted: true };
        proof {
            let v = r@;
            let w = init_feedback(program@, phases@);
            assert(v.machines =~= w.machines);
            assert(v.queues =~= w.queues);
            assert(v.halted =~= w.halted);
        }
        r
    }

    /// Amplifier `k` takes its turn.
    fn visit(&mut self, k: usize) -> (r: Result<(), Error>)
        requires
            old(self).wf(old(self)@.machines.len() as int),
            k < old(self)@.machines.len(),
        ensures
            final(self).wf(old(self)@.machines.len() as int),
            match visit_spec(old(self)@, k as int) {
                Ok(g) => r is Ok && final(self)@ == g,
                Err(e) => r == Err::<(), Error>(e),
            },
    {
        let n = self.machines.len();
        let ghost f = self@;
        if self.halted[k] {
            return Ok(());
        }
        let mut machine = self.machines.remove(k);
        assert(machine@ == f.machines[k as int]);
        assert(self.queues@[k as int]@ == f.queues[k as int]);
        let mut outputs: Vec<i64> = Vec::new();
        let ran = machine.run(self.queues[k].as_slice(), &mut outputs, STEP_BUDGET);
        let ghost st = machine@;
        let ghost removed = self.machines@;
        self.machines.insert(k, machine);
        proof {
            assert(self.machines@ =~= removed.insert(k as int, self.machines@[k as int]));
        }
        let (stop, used) = match ran {
            Ok(x) => x,
            Err(e) => return Err(e),
        };
        proof {
            assert(outputs@ =~= Seq::<i64>::empty() + outputs@);
        }
        if used > 0 || outputs.len() > 0 {
            self.progress = true;
        }
        let rest = drop_front(&self.queues[k], used);
        self.queues.set(k, rest);
        match stop {
            Stop::Halted => {
                self.halted.set(k, true);
                self.progress = true;
            },
            Stop::NeedInput => {
                self.all_halted = false;
            },
            Stop::Paused => {
                self.all_halted = false;
                self.progress = true;
            },
        }
        let next = if k + 1 == n { 0 } else { k + 1 };
        let mut merged = self.queues[next].clone();
        let ghost start = self.queues@[next as int]@;
        assert(merged@ =~= start);
        let mut t: usize = 0;
        while t < outputs.len()
            invariant
                t <= outputs@.len(),
                merged@ == start + outputs@.subrange(0, t as int),
            decreases outputs@.len() - t,
        {
            merged.push(outputs[t]);
            proof {
                assert(start + outputs@.subrange(0, t + 1) =~= (start + outputs@.subrange(0, t as int)).push(outputs@[t as int]));
            }
            t = t + 1;
        }
        proof {
            assert(outputs@.subrange(0, t as int) =~= outputs@);
        }
        self.queues.set(next, merged);
        if k + 1 == n && outputs.len() > 0 {
            self.last = Some(outputs[outputs.len() - 1]);
        }
        proof {
            let g = visit_spec(f, k as int)->Ok_0;
            assert(self@.machines =~= g.machines);
            assert(self@.queues =~= g.queues);
            assert(self@.halted =~= g.halted);
        }
        Ok(())
    }
}

/// Runs the amplifiers in a feedback loop: each one is given its phase,
/// the first one also signal zero, and every output goes to the next
/// amplifier, the last one's back to the first. The machines take turns
/// until all have halted; the result is the last signal that the last
/// amplifier sent. Where no machine can move on while some still wait for
/// input, the input is missing for good.
pub fn amplify_loop(program: &Vec<i64>, phases: &Vec<i64>) -> (r: Result<i64, Error>)
    requires
        phases@.len() > 0,
    ensures
        r == loop_spec(program@, phases@),
{
    let n = phases.len();
    let mut state = FeedbackLoop::new(program, phases);
    let mut rounds: usize = STEP_BUDGET;
    while rounds > 0
        invariant
            n == phases@.len(),
            n > 0,
            state.wf(n as int),
            state@.machines.len() == n,
            loop_spec(program@, phases@) == loop_rounds(state@, n as int, rounds as nat),
        decreases rounds,
    {
        let ghost prev = state@;
        state.progress = false;
        state.all_halted = true;
        let ghost s0 = state@;
        assert(s0 == FeedbackState { progress: false, all_halted: true, ..prev });
        let mut k: usize = 0;
        while k < n
            invariant
                rounds > 0,
                loop_spec(program@, phases@) == loop_rounds(prev, n as int, rounds as nat),
                s0 == (FeedbackState { progress: false, all_halted: true, ..prev }),
                n > 0,
                k <= n,
                state.wf(n as int),
                state@.machines.len() == n,
                round_spec(s0, 0, n as int) == round_spec(state@, k as int, n as int),
            decreases n - k,
        {
            match state.visit(k) {
                Ok(()) => {},
                Err(e) => return Err(e),
            }
            k = k + 1;
        }
        if state.all_halted {
            return match state.last {
                Some(v) => Ok(v),
                None => Err(Error::MissingOutput),
            };
        }
        if !state.progress {
            return Err(Error::MissingInput);
        }
        rounds = rounds - 1;
    }
    Err(Error::StepLimit)
}

/// The largest signal out of the amplifiers in series over every order of
/// the phases 0 to 4, or zero where none is larger; the first error that
/// an order meets where one does.
pub fn optimize_thrusters(program: Vec<i64>) -> (r: Result<i64, Error>)
    ensures
        r is Ok ==> r->Ok_0 == 0 || exists|p: Seq<i64>|
            is_arrangement(p, seq![0i64, 1, 2, 3, 4]) && chain_spec(program@, p, 0) == Ok::<i64, Error>(r->Ok_0),
        r is Ok ==> forall|p: Seq<i64>|
            is_arrangement(p, seq![0i64, 1, 2, 3, 4]) && p.len() == 5 ==> #[trigger] chain_spec(program@, p, 0) is Ok
                && chain_spec(program@, p, 0)->Ok_0 <= r->Ok_0,
        (forall|p: Seq<i64>|
            is_arrangement(p, seq![0i64, 1, 2, 3, 4]) && p.len() == 5 ==> #[trigger] chain_spec(program@, p, 0) is Ok)
            ==> r is Ok,
        r is Err ==> exists|p: Seq<i64>|
            is_arrangement(p, seq![0i64, 1, 2, 3, 4]) && p.len() == 5 && #[trigger] chain_spec(program@, p, 0)
                == Err::<i64, Error>(r->Err_0),
{
    let phases: Vec<i64> = vec![0, 1, 2, 3, 4];
    proof {
        assert(phases@ =~= seq![0i64, 1, 2, 3, 4]);
        assert(phases@.no_duplicates());
    }
    let combinations = phase_settings_combinations(phases);
    let mut max_thrusting: i64 = 0;
    let mut i: usize = 0;
    while i < combinations.len()
        invariant
            i <= combinations@.len(),
            forall|k: int| 0 <= k < combinations@.len() ==> is_arrangement(#[trigger] combinations@[k]@, seq![0i64, 1, 2, 3, 4]),
            forall|p: Seq<i64>|
                is_arrangement(p, seq![0i64, 1, 2, 3, 4]) && p.len() == 5 ==> #[trigger] listed(combinations@, p),
            forall|k: int| 0 <= k < combinations@.len() ==> (#[trigger] combinations@[k]@).len() == 5,
            max_thrusting == 0 || exists|p: Seq<i64>|
                is_arrangement(p, seq![0i64, 1, 2, 3, 4]) && chain_spec(program@, p, 0) == Ok::<i64, Error>(max_thrusting),
            forall|k: int| 0 <= k < i ==> #[trigger] chain_spec(program@, combinations@[k]@, 0) is Ok
                && chain_spec(program@, combinations@[k]@, 0)->Ok_0 <= max_thrusting,
        decreases combinations@.len() - i,
    {
        let output = match amplify_chain(&program, &combinations[i]) {
            Ok(v) => v,
            Err(e) => {
                proof {
                    let p = combinations@[i as int]@;
                    assert(is_arrangement(p, seq![0i64, 1, 2, 3, 4]) && p.len() == 5 && chain_spec(program@, p, 0)
                        == Err::<i64, Error>(e));
                }
                return Err(e);
            },
        };
        if output > max_thrusting {
            max_thrusting = output;
        }
        i = i + 1;
    }
    proof {
        assert forall|p: Seq<i64>|
            is_arrangement(p, seq![0i64, 1, 2, 3, 4]) && p.len() == 5 implies #[trigger] chain_spec(program@, p, 0) is Ok
                && chain_spec(program@, p, 0)->Ok_0 <= max_thrusting by {
            assert(listed(combinations@, p));
            let k = choose|k: int| 0 <= k < combinations@.len() && combinations@[k]@ == p;
            assert(chain_spec(program@, combinations@[k]@, 0) is Ok);
        }
    }
    Ok(max_thrusting)
}

/// The largest signal out of the amplifiers in a feedback loop over every
/// order of the phases 5 to 9, or zero where none is larger; the first
/// error that an order meets where one does.
pub fn optimize_feedback_thrusters(program: Vec<i64>) -> (r: Result<i64, Error>)
    ensures
        r is Ok ==> r->Ok_0 == 0 || exists|p: Seq<i64>|
            is_arrangement(p, seq![5i64, 6, 7, 8, 9]) && p.len() == 5 && loop_spec(program@, p) == Ok::<i64, Error>(r->Ok_0),
        r is Ok ==> forall|p: Seq<i64>|
            is_arrangement(p, seq![5i64, 6, 7, 8, 9]) && p.len() == 5 ==> #[trigger] loop_spec(program@, p) is Ok
                && loop_spec(program@, p)->Ok_0 <= r->Ok_0,
        (forall|p: Seq<i64>|
            is_arrangement(p, seq![5i64, 6, 7, 8, 9]) && p.len() == 5 ==> #[trigger] loop_spec(program@, p) is Ok)
            ==> r is Ok,
        r is Err ==> exists|p: Seq<i64>|
            is_arrangement(p, seq![5i64, 6, 7, 8, 9]) && p.len() == 5 && #[trigger] loop_spec(program@, p)
                == Err::<i64, Error>(r->Err_0),
{
    let phases: Vec<i64> = vec![5, 6, 7, 8, 9];
    proof {
        assert(phases@ =~= seq![5i64, 6, 7, 8, 9]);
        assert(phases@.no_duplicates());
    }
    let combinations = phase_settings_combinations(phases);
    let mut max_thrusting: i64 = 0;
    let mut i: usize = 0;
    while i < combinations.len()
        invariant
            i <= combinations@.len(),
            forall|k: int| 0 <= k < combinations@.len() ==> is_arrangement(#[trigger] combinations@[k]@, seq![5i64, 6, 7, 8, 9]),
            forall|p: Seq<i64>|
                is_arrangement(p, seq![5i64, 6, 7, 8, 9]) && p.len() == 5 ==> #[trigger] listed(combinations@, p),
            forall|k: int| 0 <= k < combinations@.len() ==> (#[trigger] combinations@[k]@).len() == 5,
            max_thrusting == 0 || exists|p: Seq<i64>|
                is_arrangement(p, seq![5i64, 6, 7, 8, 9]) && p.len() == 5 && loop_spec(program@, p) == Ok::<i64, Error>(max_thrusting),
            forall|k: int| 0 <= k < i ==> #[trigger] loop_spec(program@, combinations@[k]@) is Ok
                && loop_spec(program@, combinations@[k]@)->Ok_0 <= max_thrusting,
        decreases combinations@.len() - i,
    {
        let output = match amplify_loop(&program, &combinations[i]) {
            Ok(v) => v,
            Err(e) => {
                proof {
                    let p = combinations@[i as int]@;
                    assert(is_arrangement(p, seq![5i64, 6, 7, 8, 9]) && p.len() == 5 && loop_spec(program@, p)
                        == Err::<i64, Error>(e));
                }
                return Err(e);
            },
        };
        if output > max_thrusting {
            max_thrusting = output;
        }
        i = i + 1;
    }
    proof {
        assert forall|p: Seq<i64>|
            is_arrangement(p, seq![5i64, 6, 7, 8, 9]) && p.len() == 5 implies #[trigger] loop_spec(program@, p) is Ok
                && loop_spec(program@, p)->Ok_0 <= max_thrusting by {
            assert(listed(combinations@, p));
            let k = choose|k: int| 0 <= k < combinations@.len() && combinations@[k]@ == p;
            assert(loop_spec(program@, combinations@[k]@) is Ok);
        }
    }
    Ok(max_thrusting)
}

} // verus!
