//! Customs declaration forms: the questions that a group answered "yes" to,
//! by anyone in it or by everyone in it.

use vstd::prelude::*;
use vstd::string::StringSliceAdditionalSpecFns;
use crate::text::{split, pieces_of};

verus! {

/// The set of answers of one person or group, as one flag per byte value.
pub type Answers = Vec<bool>;

/// Whether `line` holds byte `b`.
pub open spec fn answered(line: Seq<u8>, b: int) -> bool {
    exists|i: int| 0 <= i < line.len() && line[i] == b
}

/// The answers that one line of a form gives.
pub fn person_answers(line: &[u8]) -> (r: Answers)
    ensures
        r@.len() == 256,
        forall|b: int| 0 <= b < 256 ==> #[trigger] r@[b] == answered(line@, b),
{
    let mut flags: Vec<bool> = Vec::new();
    let mut k: usize = 0;
    while k < 256
        invariant
            k <= 256,
            flags@.len() == k,
            forall|b: int| 0 <= b < k ==> !#[trigger] flags@[b],
        decreases 256 - k,
    {
        flags.push(false);
        k = k + 1;
    }
    let mut i: usize = 0;
    while i < line.len()
        invariant
            i <= line@.len(),
            flags@.len() == 256,
            forall|b: int| 0 <= b < 256 ==> #[trigger] flags@[b] == answered(line@.subrange(0, i as int), b),
        decreases line@.len() - i,
    {
        let c = line[i];
        flags.set(c as usize, true);
        proof {
            let s0 = line@.subrange(0, i as int);
            let s1 = line@.subrange(0, i + 1);
            assert forall|b: int| 0 <= b < 256 implies #[trigger] flags@[b] == answered(s1, b) by {
                if b == c {
                    assert(s1[i as int] == b);
                } else {
                    if answered(s1, b) {
                        let j = choose|j: int| 0 <= j < s1.len() && s1[j] == b;
                        assert(s0[j] == b);
                    }
                    if answered(s0, b) {
                        let j = choose|j: int| 0 <= j < s0.len() && s0[j] == b;
                        assert(s1[j] == b);
                    }
                }
            }
        }
        i = i + 1;
    }
    proof {
        assert(line@.subrange(0, i as int) =~= line@);
    }
    flags
}

/// Joins two sets of answers: either one's where `everyone` is false, both
/// where it is set.
fn combine(a: &Answers, b: &Answers, everyone: bool) -> (r: Answers)
    requires
        a@.len() == 256,
        b@.len() == 256,
    ensures
        r@.len() == 256,
        forall|k: int| 0 <= k < 256 ==> #[trigger] r@[k] == if everyone { a@[k] && b@[k] } else { a@[k] || b@[k] },
{
    let mut r: Vec<bool> = Vec::new();
    let mut k: usize = 0;
    while k < 256
        invariant
            k <= 256,
            a@.len() == 256,
            b@.len() == 256,
            r@.len() == k,
            forall|j: int| 0 <= j < k ==> #[trigger] r@[j] == if everyone { a@[j] && b@[j] } else { a@[j] || b@[j] },
        decreases 256 - k,
    {
        r.push(if everyone { a[k] && b[k] } else { a[k] || b[k] });
        k = k + 1;
    }
    r
}

/// How many flags of a set are up.
pub open spec fn size_of(a: Seq<bool>, k: int) -> nat
    decreases k,
{
    if k <= 0 {
        0
    } else {
        size_of(a, k - 1) + if a[k - 1] { 1nat } else { 0 }
    }
}

/// How many questions a set of answers holds.
pub fn count_answers(a: &Answers) -> (r: usize)
    requires
        a@.len() == 256,
    ensures
        r == size_of(a@, 256),
{
    let mut n: usize = 0;
    let mut k: usize = 0;
    while k < 256
        invariant
            k <= 256,
            a@.len() == 256,
            n == size_of(a@, k as int),
            n <= k,
        decreases 256 - k,
    {
        if a[k] {
            n = n + 1;
        }
        k = k + 1;
    }
    n
}

/// The answers of each group of the forms: groups are separated by empty
/// lines, and a group's answers are those of anyone in it, or of everyone
/// in it where `everyone` is set.
pub fn groups_answers(text: &str, everyone: bool) -> (r: Vec<Answers>)
    ensures
        forall|g: int| 0 <= g < r@.len() ==> (#[trigger] r@[g])@.len() == 256,
        r@.len() <= pieces_of(text.spec_bytes(), 10).len(),
{
    let lines = split(text.as_bytes(), 10);
    let mut groups: Vec<Answers> = Vec::new();
    let mut current: Option<Answers> = None;
    let mut i: usize = 0;
    while i < lines.len()
        invariant
            lines@.len() == pieces_of(text.spec_bytes(), 10).len(),
            i <= lines@.len(),
            groups@.len() + (if current is Some { 1int } else { 0 }) <= i,
            forall|g: int| 0 <= g < groups@.len() ==> (#[trigger] groups@[g])@.len() == 256,
            current is Some ==> current->Some_0@.len() == 256,
        decreases lines@.len() - i,
    {
        if lines[i].len() == 0 {
            match current {
                Some(a) => groups.push(a),
                None => {},
            }
            current = None;
        } else {
            let person = person_answers(lines[i].as_slice());
            current = match current {
                Some(a) => Some(combine(&a, &person, everyone)),
                None => Some(person),
            };
        }
        i = i + 1;
    }
    match current {
        Some(a) => groups.push(a),
        None => {},
    }
    groups
}

/// The sum over the groups of how many questions each answered.
pub fn sum_answers(groups: &Vec<Answers>) -> (r: Option<usize>)
    requires
        forall|g: int| 0 <= g < groups@.len() ==> (#[trigger] groups@[g])@.len() == 256,
    ensures
        r is Some ==> r->Some_0 == sum_sizes(groups@, groups@.len() as int),
{
    let mut total: usize = 0;
    let mut g: usize = 0;
    while g < groups.len()
        invariant
            g <= groups@.len(),
            forall|j: int| 0 <= j < groups@.len() ==> (#[trigger] groups@[j])@.len() == 256,
            total == sum_sizes(groups@, g as int),
        decreases groups@.len() - g,
    {
        let n = count_answers(&groups[g]);
        total = match total.checked_add(n) {
            Some(t) => t,
            None => return None,
        };
        g = g + 1;
    }
    Some(total)
}

/// The sum of the sizes of the first `k` sets.
pub open spec fn sum_sizes(groups: Seq<Answers>, k: int) -> nat
    decreases k,
{
    if k <= 0 {
        0
    } else {
        sum_sizes(groups, k - 1) + size_of(groups[k - 1]@, 256)
    }
}

} // verus!
