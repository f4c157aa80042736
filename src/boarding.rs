//! Binary space partitioning of boarding passes: seven row moves, then
//! three column moves.

use vstd::prelude::*;
use vstd::string::StringSliceAdditionalSpecFns;
use crate::text::{split, pieces_of};

verus! {

/// A move that halves the range of rows.
#[derive(Debug, Clone, Copy, PartialEq, Eq, Structural)]
pub enum RowMove {
    Front,
    Back,
}

/// A move that halves the range of columns.
#[derive(Debug, Clone, Copy, PartialEq, Eq, Structural)]
pub enum ColumnMove {
    Right,
    Left,
}

impl RowMove {
    /// `F` keeps the front half, `B` the back half.
    pub fn from_char(c: u8) -> (r: Option<RowMove>)
        ensures
            r == if c == 70 {
                Some(RowMove::Front)
            } else if c == 66 {
                Some(RowMove::Back)
            } else {
                None::<RowMove>
            },
    {
        if c == 70 {
            Some(RowMove::Front)
        } else if c == 66 {
            Some(RowMove::Back)
        } else {
            None
        }
    }
}

impl ColumnMove {
    /// `L` keeps the left half, `R` the right half.
    pub fn from_char(c: u8) -> (r: Option<ColumnMove>)
        ensures
            r == if c == 82 {
                Some(ColumnMove::Right)
            } else if c == 76 {
                Some(ColumnMove::Left)
            } else {
                None::<ColumnMove>
            },
    {
        if c == 82 {
            Some(ColumnMove::Right)
        } else if c == 76 {
            Some(ColumnMove::Left)
        } else {
            None
        }
    }
}

/// A seat: its row (0 to 127) and column (0 to 7).
#[derive(Debug, Clone, Copy, PartialEq, Eq, Structural)]
pub struct BoardingPass {
    pub row: usize,
    pub column: usize,
}

/// The number that the first `k` moves of `code` pick, a move towards the
/// upper half (`hi`) counting as a one bit.
pub open spec fn bits_of(code: Seq<u8>, start: int, k: int, hi: u8) -> nat
    decreases k,
{
    if k <= 0 {
        0
    } else {
        bits_of(code, start, k - 1, hi) * 2 + if code[start + k - 1] == hi { 1nat } else { 0 }
    }
}

/// Two to the power `k`.
pub open spec fn pow2(k: nat) -> nat
    decreases k,
{
    if k == 0 {
        1
    } else {
        2 * pow2((k - 1) as nat)
    }
}

/// Whether a code is seven row moves followed by three column moves.
pub open spec fn is_code(code: Seq<u8>) -> bool {
    &&& code.len() == 10
    &&& forall|i: int| 0 <= i < 7 ==> (#[trigger] code[i] == 70 || code[i] == 66)
    &&& forall|i: int| 7 <= i < 10 ==> (#[trigger] code[i] == 82 || code[i] == 76)
}

impl BoardingPass {
    /// The seat's identifier: eight per row, plus the column.
    pub fn id(&self) -> (r: usize)
        requires
            self.row < 128,
            self.column < 8,
        ensures
            r == self.row * 8 + self.column,
    {
        self.row * 8 + self.column
    }

    /// Reads a code of ten moves; `None` for any other text.
    pub fn parse(code: &[u8]) -> (r: Option<BoardingPass>)
        ensures
            r is Some <==> is_code(code@),
            r is Some ==> r->Some_0.row == bits_of(code@, 0, 7, 66) && r->Some_0.column == bits_of(code@, 7, 3, 82),
            r is Some ==> r->Some_0.row < 128 && r->Some_0.column < 8,
    {
        if code.len() != 10 {
            return None;
        }
        let mut row: usize = 0;
        let mut i: usize = 0;
        while i < 7
            invariant
                code@.len() == 10,
                i <= 7,
                row == bits_of(code@, 0, i as int, 66),
                row < pow2(i as nat),
                forall|j: int| 0 <= j < i ==> (#[trigger] code@[j] == 70 || code@[j] == 66),
            decreases 7 - i,
        {
            let m = match RowMove::from_char(code[i]) {
                Some(m) => m,
                None => {
                    assert(!(code@[i as int] == 70 || code@[i as int] == 66));
                    return None;
                },
            };
            proof {
                assert(pow2((i + 1) as nat) == 2 * pow2(i as nat));
                lemma_pow2_small();
                lemma_pow2_grows(i as nat + 1, 7);
            }
            row = row * 2 + match m {
                RowMove::Back => 1,
                RowMove::Front => 0,
            };
            i = i + 1;
        }
        let mut column: usize = 0;
        let mut k: usize = 0;
        while k < 3
            invariant
                code@.len() == 10,
                k <= 3,
                column == bits_of(code@, 7, k as int, 82),
                column < pow2(k as nat),
                forall|j: int| 7 <= j < 7 + k ==> (#[trigger] code@[j] == 82 || code@[j] == 76),
            decreases 3 - k,
        {
            let m = match ColumnMove::from_char(code[7 + k]) {
                Some(m) => m,
                None => {
                    assert(!(code@[7 + k] == 82 || code@[7 + k] == 76));
                    return None;
                },
            };
            proof {
                assert(pow2((k + 1) as nat) == 2 * pow2(k as nat));
                lemma_pow2_grows(k as nat + 1, 3);
                lemma_pow2_small();
            }
            column = column * 2 + match m {
                ColumnMove::Right => 1,
                ColumnMove::Left => 0,
            };
            k = k + 1;
        }
        proof {
            lemma_pow2_small();
        }
        Some(BoardingPass { row, column })
    }
}

/// The powers of two that a code needs.
pub proof fn lemma_pow2_small()
    ensures
        pow2(3) == 8,
        pow2(7) == 128,
{
    reveal_with_fuel(pow2, 8);
}

/// Powers of two grow with the exponent.
pub proof fn lemma_pow2_grows(a: nat, b: nat)
    requires
        a <= b,
    ensures
        pow2(a) <= pow2(b),
    decreases b - a,
{
    if a < b {
        lemma_pow2_grows(a, (b - 1) as nat);
    }
}

/// Reads one boarding pass per line; `None` where a line is no code.
pub fn boarding_passes(text: &str) -> (r: Option<Vec<BoardingPass>>)
    ensures
        r is Some ==> r->Some_0@.len() == pieces_of(text.spec_bytes(), 10).len(),
        r is Some ==> forall|k: int| 0 <= k < r->Some_0@.len() ==> (#[trigger] r->Some_0@[k]).row < 128
            && r->Some_0@[k].column < 8,
        r is Some <==> forall|k: int| 0 <= k < pieces_of(text.spec_bytes(), 10).len() ==> is_code(#[trigger] pieces_of(text.spec_bytes(), 10)[k]),
{
    let lines = split(text.as_bytes(), 10);
    let mut passes: Vec<BoardingPass> = Vec::new();
    let mut i: usize = 0;
    while i < lines.len()
        invariant
            lines@.len() == pieces_of(text.spec_bytes(), 10).len(),
            forall|k: int| 0 <= k < lines@.len() ==> #[trigger] lines@[k]@ == pieces_of(text.spec_bytes(), 10)[k],
            i <= lines@.len(),
            passes@.len() == i,
            forall|k: int| 0 <= k < i ==> (#[trigger] passes@[k]).row < 128 && passes@[k].column < 8,
            forall|k: int| 0 <= k < i ==> is_code(#[trigger] pieces_of(text.spec_bytes(), 10)[k]),
        decreases lines@.len() - i,
    {
        match BoardingPass::parse(lines[i].as_slice()) {
            Some(p) => passes.push(p),
            None => {
                assert(!is_code(pieces_of(text.spec_bytes(), 10)[i as int]));
                return None;
            },
        }
        i = i + 1;
    }
    Some(passes)
}

/// Whether `x` is a free seat between taken ones: the seat before it is
/// taken, it is not, and some seat after it is taken.
pub open spec fn is_gap(ids: Seq<usize>, x: int) -> bool {
    &&& ids.contains((x - 1) as usize) && x >= 1
    &&& !ids.contains(x as usize)
    &&& exists|j: int| 0 <= j < ids.len() && ids[j] > x
}

/// Whether `ids` holds `x`.
fn holds(ids: &Vec<usize>, x: usize) -> (r: bool)
    ensures
        r == ids@.contains(x),
{
    let mut i: usize = 0;
    while i < ids.len()
        invariant
            i <= ids@.len(),
            forall|j: int| 0 <= j < i ==> ids@[j] != x,
        decreases ids@.len() - i,
    {
        if ids[i] == x {
            return true;
        }
        i = i + 1;
    }
    false
}

/// The lowest free seat that lies between taken seats; `None` where there
/// is none.
pub fn find_seat(ids: Vec<usize>) -> (r: Option<usize>)
    ensures
        r is Some ==> is_gap(ids@, r->Some_0 as int) && forall|x: int| 0 <= x < r->Some_0 ==> !is_gap(ids@, x),
        r is None ==> forall|x: int| 0 <= x <= usize::MAX ==> !is_gap(ids@, x),
{
    let mut max: usize = 0;
    let mut at: usize = 0;
    let mut i: usize = 0;
    while i < ids.len()
        invariant
            i <= ids@.len(),
            forall|j: int| 0 <= j < i ==> ids@[j] <= max,
            i > 0 ==> at < i && ids@[at as int] == max,
        decreases ids@.len() - i,
    {
        if ids[i] > max || i == 0 {
            max = ids[i];
            at = i;
        }
        i = i + 1;
    }
    proof {
        if ids@.len() > 0 {
            assert(ids@[at as int] == max);
        }
    }
    let mut best: Option<usize> = None;
    let mut i: usize = 0;
    while i < ids.len()
        invariant
            i <= ids@.len(),
            forall|j: int| 0 <= j < ids@.len() ==> ids@[j] <= max,
            ids@.len() > 0 ==> exists|j: int| 0 <= j < ids@.len() && ids@[j] == max,
            best is Some ==> is_gap(ids@, best->Some_0 as int),
            forall|j: int| 0 <= j < i && #[trigger] is_gap(ids@, ids@[j] + 1) ==> best is Some && best->Some_0 <= ids@[j] + 1,
        decreases ids@.len() - i,
    {
        let id = ids[i];
        if id < max {
            let candidate = id + 1;
            if !holds(&ids, candidate) {
                let better = match best {
                    None => true,
                    Some(b) => candidate < b,
                };
                if better {
                    proof {
                        let k = choose|j: int| 0 <= j < ids@.len() && ids@[j] == max;
                        assert(ids@[k] > candidate || ids@[k] == max);
                        assert(ids@.contains((candidate - 1) as usize)) by {
                            assert(ids@[i as int] == (candidate - 1) as usize);
                        }
                    }
                    best = Some(candidate);
                }
            }
        }
        proof {
            if is_gap(ids@, ids@[i as int] + 1) {
                let k = choose|j: int| 0 <= j < ids@.len() && ids@[j] > ids@[i as int] + 1;
                assert(ids@[k] <= max);
            }
        }
        i = i + 1;
    }
    proof {
        assert forall|x: int| 0 <= x <= usize::MAX && is_gap(ids@, x) implies best is Some && best->Some_0 <= x by {
            let k = choose|j: int| 0 <= j < ids@.len() && ids@[j] == (x - 1) as usize;
            assert(ids@[k] + 1 == x);
        }
    }
    best
}

} // verus!
