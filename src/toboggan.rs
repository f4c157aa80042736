//! Counting the trees met on a straight slope down a map that repeats to
//! the right.

use vstd::prelude::*;
use vstd::string::StringSliceAdditionalSpecFns;
use crate::text::{split, pieces_of};

verus! {

/// A map of open squares and trees, one row per line.
pub struct Forest {
    width: usize,
    height: usize,
    map: Vec<Vec<bool>>,
}

impl View for Forest {
    type V = Seq<Seq<bool>>;

    closed spec fn view(&self) -> Seq<Seq<bool>> {
        Seq::new(self.map@.len(), |i: int| self.map@[i]@)
    }
}

/// Whether a line is a row of the map: `.` open, `#` a tree.
pub open spec fn is_row(line: Seq<u8>) -> bool {
    forall|i: int| 0 <= i < line.len() ==> (#[trigger] line[i] == 46 || line[i] == 35)
}

/// The row that a line draws.
pub open spec fn row_of(line: Seq<u8>) -> Seq<bool> {
    Seq::new(line.len(), |i: int| line[i] == 35)
}

/// The column of square `k` of a slope that moves `right` columns a step,
/// on a map that repeats every `width` columns.
pub open spec fn column(right: int, width: int, k: int) -> int
    decreases k,
{
    if k <= 0 {
        0
    } else {
        (column(right, width, k - 1) + right) % width
    }
}

/// How many trees lie on the first `k` squares of the slope `(right, down)`
/// from the top left corner, the map repeating to the right.
pub open spec fn trees_on(m: Seq<Seq<bool>>, width: int, right: int, down: int, k: int) -> nat
    decreases k,
{
    if k <= 0 {
        0
    } else {
        let y = (k - 1) * down;
        trees_on(m, width, right, down, k - 1) + if y < m.len() && m[y][column(right, width, k - 1)] {
            1nat
        } else {
            0
        }
    }
}

/// The well-formed map: every row as wide as the first.
pub open spec fn is_map(m: Seq<Seq<bool>>, width: int) -> bool {
    &&& width > 0
    &&& forall|i: int| 0 <= i < m.len() ==> (#[trigger] m[i]).len() == width
}

/// Reads one row of the map.
fn parse_row(line: &Vec<u8>) -> (r: Option<Vec<bool>>)
    ensures
        r is Some <==> is_row(line@),
        r is Some ==> r->Some_0@ == row_of(line@),
{
    let mut row: Vec<bool> = Vec::new();
    let mut i: usize = 0;
    while i < line.len()
        invariant
            i <= line@.len(),
            is_row(line@.subrange(0, i as int)),
            row@ == row_of(line@.subrange(0, i as int)),
        decreases line@.len() - i,
    {
        let c = line[i];
        if c == 46 {
            row.push(false);
        } else if c == 35 {
            row.push(true);
        } else {
            assert(!(line@[i as int] == 46 || line@[i as int] == 35));
            return None;
        }
        proof {
            assert(row@ =~= row_of(line@.subrange(0, i + 1)));
            assert(is_row(line@.subrange(0, i + 1))) by {
                assert forall|j: int| 0 <= j < i + 1 implies (#[trigger] line@.subrange(0, i + 1)[j] == 46 || line@.subrange(0, i + 1)[j] == 35) by {
                    if j < i {
                        assert(line@.subrange(0, i as int)[j] == line@[j]);
                    }
                }
            }
        }
        i = i + 1;
    }
    proof {
        assert(line@.subrange(0, i as int) =~= line@);
    }
    Some(row)
}

impl Forest {
    /// Reads a map, one row per line; `None` where a line holds anything
    /// but `.` and `#`, where the lines differ in width, or where the
    /// rows are empty.
    pub fn from_lines(text: &str) -> (r: Option<Forest>)
        ensures
            r is Some ==> r->Some_0.wf() && is_map(r->Some_0@, r->Some_0.width_spec()) && r->Some_0.width_spec()
                == r->Some_0@[0].len(),
            r is Some ==> r->Some_0@.len() == pieces_of(text.spec_bytes(), 10).len(),
            r is Some ==> forall|i: int| 0 <= i < r->Some_0@.len() ==> #[trigger] r->Some_0@[i] == row_of(pieces_of(text.spec_bytes(), 10)[i]),
    {
        let lines = split(text.as_bytes(), 10);
        let mut map: Vec<Vec<bool>> = Vec::new();
        let mut width: usize = 0;
        let mut i: usize = 0;
        while i < lines.len()
            invariant
                lines@.len() == pieces_of(text.spec_bytes(), 10).len(),
                forall|k: int| 0 <= k < lines@.len() ==> #[trigger] lines@[k]@ == pieces_of(text.spec_bytes(), 10)[k],
                i <= lines@.len(),
                map@.len() == i,
                i > 0 ==> width > 0,
                forall|k: int| 0 <= k < i ==> (#[trigger] map@[k])@.len() == width,
                forall|k: int| 0 <= k < i ==> (#[trigger] map@[k])@ == row_of(pieces_of(text.spec_bytes(), 10)[k]),
            decreases lines@.len() - i,
        {
            let row = match parse_row(&lines[i]) {
                Some(row) => row,
                None => return None,
            };
            if row.len() == 0 {
                return None;
            }
            if i == 0 {
                width = row.len();
            } else if row.len() != width {
                return None;
            }
            map.push(row);
            i = i + 1;
        }
        let height = map.len();
        if height == 0 {
            return None;
        }
        let m = Forest { width, height, map };
        proof {
            assert(m@.len() == m.map@.len());
            assert forall|k: int| 0 <= k < m@.len() implies (#[trigger] m@[k]).len() == width by {
                assert(m@[k] == m.map@[k]@);
            }
        }
        Some(m)
    }

    /// The width of the map before it repeats.
    pub closed spec fn width_spec(&self) -> int {
        self.width as int
    }

    /// Every row is as wide as the map, and the height counts the rows.
    pub closed spec fn wf(&self) -> bool {
        is_map(self@, self.width as int) && self.height == self@.len()
    }

    /// The width of the map before it repeats.
    pub fn width(&self) -> (r: usize)
        ensures
            r == self.width_spec(),
    {
        self.width
    }

    /// How many trees the slope `(right, down)` meets from the top left
    /// corner to the bottom of the map.
    pub fn count_trees(&self, slope: (usize, usize)) -> (r: usize)
        requires
            self.wf(),
            slope.1 > 0,
        ensures
            r == trees_on(self@, self.width_spec(), slope.0 as int, slope.1 as int, self@.len() as int),
    {
        let right = slope.0;
        let down = slope.1;
        let mut x: usize = 0;
        let mut y: usize = 0;
        let mut k: usize = 0;
        let mut count: usize = 0;
        while y < self.height
            invariant
                is_map(self@, self.width as int),
                self.height == self@.len(),
                self.map@.len() == self@.len(),
                down > 0,
                right == slope.0,
                down == slope.1,
                y == k * down,
                x < self.width,
                x == column(right as int, self.width as int, k as int),
                k <= y,
                y < self.height || k == 0,
                count == trees_on(self@, self.width as int, right as int, down as int, k as int),
                count <= k,
            decreases self.height - y,
        {
            assert(self@[y as int] == self.map@[y as int]@);
            let tree = self.map[y][x];
            if tree {
                count = count + 1;
            }
            proof {
                assert((k + 1) * down == y + down && k + 1 <= y + down) by (nonlinear_arith)
                    requires
                        y == k * down,
                        down > 0,
                        k <= y,
                ;
            }
            let ghost old_x = x;
            x = ((x as u128 + right as u128) % (self.width as u128)) as usize;
            k = k + 1;
            proof {
                assert(self@[y as int][old_x as int] == tree);
                assert(count == trees_on(self@, self.width as int, right as int, down as int, k as int));
            }
            if self.height - y <= down {
                proof {
                    lemma_trees_after_bottom(self@, self.width as int, right as int, down as int, k as int, self@.len() as int);
                }
                return count;
            }
            y = y + down;
        }
        proof {
            lemma_trees_after_bottom(self@, self.width as int, right as int, down as int, k as int, self@.len() as int);
        }
        count
    }
}

/// Squares below the map meet no trees.
pub proof fn lemma_trees_after_bottom(m: Seq<Seq<bool>>, width: int, right: int, down: int, k: int, j: int)
    requires
        down > 0,
        0 <= k <= j,
        k * down >= m.len(),
    ensures
        trees_on(m, width, right, down, j) == trees_on(m, width, right, down, k),
    decreases j - k,
{
    if j > k {
        lemma_trees_after_bottom(m, width, right, down, k, j - 1);
        assert((j - 1) * down >= k * down) by (nonlinear_arith)
            requires
                j - 1 >= k,
                down > 0,
        ;
    }
}

} // verus!
