//! The ferry's seat layout: seats fill and empty round after round by the
//! seats next to them, or by the first seats in sight in each direction,
//! until nothing changes.

use vstd::prelude::*;
use vstd::string::StringSliceAdditionalSpecFns;
use crate::text::{pieces_of, split};

verus! {

/// One place of the layout.
#[derive(Debug, Clone, Copy, PartialEq, Eq, Structural)]
pub enum Emplacement {
    Floor,
    Empty,
    Occupied,
}

impl Emplacement {
    /// `.` is floor, `L` an empty seat, `#` an occupied one.
    pub fn from_char(c: u8) -> (r: Option<Emplacement>)
        ensures
            r == if c == 46 {
                Some(Emplacement::Floor)
            } else if c == 76 {
                Some(Emplacement::Empty)
            } else if c == 35 {
                Some(Emplacement::Occupied)
            } else {
                None::<Emplacement>
            },
    {
        if c == 46 {
            Some(Emplacement::Floor)
        } else if c == 76 {
            Some(Emplacement::Empty)
        } else if c == 35 {
            Some(Emplacement::Occupied)
        } else {
            None
        }
    }
}

/// The layout: rows of places, all of one width.
#[derive(Debug, Clone, PartialEq, Eq)]
pub struct Boat {
    pub emplacements: Vec<Vec<Emplacement>>,
}

/// Whether every row has `width` places.
pub open spec fn rectangular(rows: Seq<Vec<Emplacement>>, width: int) -> bool {
    forall|y: int| 0 <= y < rows.len() ==> (#[trigger] rows[y])@.len() == width
}

impl Boat {
    /// Whether the layout has rows, all as wide as the first, which is not
    /// empty.
    pub open spec fn wf(&self) -> bool {
        &&& self.emplacements@.len() > 0
        &&& self.emplacements@[0]@.len() > 0
        &&& rectangular(self.emplacements@, self.emplacements@[0]@.len() as int)
    }

    /// Reads a layout, one row per line; `None` where a character is no
    /// place or the rows differ in width.
    pub fn parse(text: &str) -> (r: Option<Boat>)
        ensures
            r is Some ==> r->Some_0.wf() && r->Some_0.emplacements@.len() == pieces_of(text.spec_bytes(), 10).len(),
    {
        let lines = split(text.as_bytes(), 10);
        let mut rows: Vec<Vec<Emplacement>> = Vec::new();
        let mut width: usize = 0;
        let mut i: usize = 0;
        while i < lines.len()
            invariant
                i <= lines@.len(),
                rows@.len() == i,
                lines@.len() == pieces_of(text.spec_bytes(), 10).len(),
                i > 0 ==> width > 0 && rows@[0]@.len() == width,
                rectangular(rows@, width as int),
            decreases lines@.len() - i,
        {
            let line = &lines[i];
            let mut row: Vec<Emplacement> = Vec::new();
            let mut k: usize = 0;
            while k < line.len()
                invariant
                    k <= line@.len(),
                    row@.len() == k,
                decreases line@.len() - k,
            {
                row.push(Emplacement::from_char(line[k])?);
                k = k + 1;
            }
            if row.len() == 0 {
                return None;
            }
            if i == 0 {
                width = row.len();
            } else if row.len() != width {
                return None;
            }
            rows.push(row);
            i = i + 1;
        }
        if rows.len() == 0 {
            return None;
        }
        Some(Boat { emplacements: rows })
    }

    /// The first seat from `(x, y)` in the direction `(dx, dy)`: the next
    /// place, or where `sight` is set the first place that is not floor.
    /// `None` where the layout ends first.
    pub fn direction_seat(&self, x: usize, y: usize, dx: i8, dy: i8, sight: bool) -> (r: Option<Emplacement>)
        requires
            self.wf(),
    {
        let height = self.emplacements.len();
        let width = self.emplacements[0].len();
        let mut cx = x;
        let mut cy = y;
        let mut steps: usize = 0;
        let bound = if height > width { height } else { width };
        while steps <= bound
            invariant
                self.wf(),
                height == self.emplacements@.len(),
                width == self.emplacements@[0]@.len(),
                bound >= height && bound >= width,
            decreases bound + 1 - steps,
        {
            if (dx < 0 && cx == 0) || (dy < 0 && cy == 0) || (dx > 0 && cx >= width - 1) || (dy > 0 && cy >= height - 1) {
                return None;
            }
            cx = if dx < 0 { cx - 1 } else if dx > 0 { cx + 1 } else { cx };
            cy = if dy < 0 { cy - 1 } else if dy > 0 { cy + 1 } else { cy };
            if cx >= width || cy >= height {
                return None;
            }
            assert(self.emplacements@[cy as int]@.len() == width);
            let e = self.emplacements[cy][cx];
            if !sight || e != Emplacement::Floor {
                return Some(e);
            }
            if steps == bound {
                return None;
            }
            steps = steps + 1;
        }
        None
    }

    /// How many of the eight seats around `(x, y)`, or in sight from it,
    /// are occupied.
    pub fn in_sight(&self, x: usize, y: usize, sight: bool) -> (r: usize)
        requires
            self.wf(),
        ensures
            r <= 8,
    {
        let dirs: [(i8, i8); 8] = [(-1, -1), (-1, 0), (-1, 1), (0, 1), (1, 1), (1, 0), (1, -1), (0, -1)];
        let mut count: usize = 0;
        let mut k: usize = 0;
        while k < 8
            invariant
                self.wf(),
                k <= 8,
                count <= k,
            decreases 8 - k,
        {
            let (dx, dy) = dirs[k];
            if self.direction_seat(x, y, dx, dy, sight) == Some(Emplacement::Occupied) {
                count = count + 1;
            }
            k = k + 1;
        }
        count
    }

    /// One round: an empty seat with no occupied seat around or in sight
    /// fills, an occupied one with at least four (five in sight) around
    /// empties, the rest stays. Returns whether anything changed.
    pub fn round(&mut self, sight: bool) -> (r: bool)
        requires
            old(self).wf(),
        ensures
            final(self).wf(),
            final(self).emplacements@.len() == old(self).emplacements@.len(),
    {
        let limit: usize = if sight { 5 } else { 4 };
        let height = self.emplacements.len();
        let width = self.emplacements[0].len();
        let mut next: Vec<Vec<Emplacement>> = Vec::new();
        let mut changed = false;
        let mut y: usize = 0;
        while y < height
            invariant
                self.wf(),
                height == self.emplacements@.len(),
                width == self.emplacements@[0]@.len(),
                y <= height,
                next@.len() == y,
                rectangular(next@, width as int),
            decreases height - y,
        {
            let mut row: Vec<Emplacement> = Vec::new();
            let mut x: usize = 0;
            while x < width
                invariant
                    self.wf(),
                    height == self.emplacements@.len(),
                    width == self.emplacements@[0]@.len(),
                    y < height,
                    x <= width,
                    row@.len() == x,
                decreases width - x,
            {
                assert(self.emplacements@[y as int]@.len() == width);
                let here = self.emplacements[y][x];
                let occupied = self.in_sight(x, y, sight);
                let new_here = match here {
                    Emplacement::Floor => Emplacement::Floor,
                    Emplacement::Empty => if occupied == 0 { Emplacement::Occupied } else { Emplacement::Empty },
                    Emplacement::Occupied => if occupied >= limit { Emplacement::Empty } else { Emplacement::Occupied },
                };
                if new_here != here {
                    changed = true;
                }
                row.push(new_here);
                x = x + 1;
            }
            next.push(row);
            y = y + 1;
        }
        self.emplacements = next;
        changed
    }

    /// Runs rounds until one changes nothing; false where that takes more
    /// than `rounds` rounds.
    pub fn stabilize(&mut self, sight: bool, rounds: usize) -> (r: bool)
        requires
            old(self).wf(),
        ensures
            final(self).wf(),
    {
        let mut left = rounds;
        while left > 0
            invariant
                self.wf(),
            decreases left,
        {
            if !self.round(sight) {
                return true;
            }
            left = left - 1;
        }
        false
    }

    /// How many seats are occupied.
    pub fn occupied(&self) -> (r: usize)
    {
        let mut count: usize = 0;
        let mut y: usize = 0;
        while y < self.emplacements.len()
            invariant
                y <= self.emplacements@.len(),
            decreases self.emplacements@.len() - y,
        {
            let row = &self.emplacements[y];
            let mut x: usize = 0;
            while x < row.len()
                invariant
                    x <= row@.len(),
                decreases row@.len() - x,
            {
                if row[x] == Emplacement::Occupied {
                    count = count.saturating_add(1);
                }
                x = x + 1;
            }
            y = y + 1;
        }
        count
    }
}

} // verus!
