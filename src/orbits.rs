//! The universal orbit map: each object orbits one center, all the way down
//! to the universal center of mass.

use vstd::prelude::*;
use crate::text::split;

verus! {

/// The objects by name, each with the object it orbits, if any.
#[derive(Debug)]
pub struct OrbitalObjects {
    names: Vec<Vec<u8>>,
    centers: Vec<Option<usize>>,
}

/// The chain of centers from object `i` inward, at most `fuel` long;
/// `None` where it does not end within `fuel` steps or leaves the objects.
pub open spec fn chain(centers: Seq<Option<usize>>, i: int, fuel: nat) -> Option<Seq<usize>>
    decreases fuel,
{
    if !(0 <= i < centers.len()) {
        None
    } else {
        match centers[i] {
            None => Some(seq![]),
            Some(c) => if fuel == 0 {
                None
            } else {
                match chain(centers, c as int, (fuel - 1) as nat) {
                    None => None,
                    Some(rest) => Some(seq![c] + rest),
                }
            },
        }
    }
}

/// The number of orbits of the first `k` objects, where each one's chain
/// ends.
pub open spec fn orbit_count(centers: Seq<Option<usize>>, k: int) -> Option<nat>
    decreases k,
{
    if k <= 0 {
        Some(0)
    } else {
        match (orbit_count(centers, k - 1), chain(centers, k - 1, centers.len())) {
            (Some(n), Some(c)) => Some(n + c.len()),
            _ => None,
        }
    }
}

/// The bytes of the universal center of mass.
pub open spec fn com() -> Seq<u8> {
    seq![67u8, 79, 77]
}

impl View for OrbitalObjects {
    type V = Seq<Option<usize>>;

    closed spec fn view(&self) -> Seq<Option<usize>> {
        self.centers@
    }
}

impl OrbitalObjects {
    /// One center per name.
    pub closed spec fn wf(&self) -> bool {
        self.names@.len() == self.centers@.len()
    }

    /// The name of object `i`.
    pub closed spec fn name(&self, i: int) -> Seq<u8> {
        self.names@[i]@
    }

    /// Where the object called `name` stands, if it is known.
    pub fn find(&self, name: &[u8]) -> (r: Option<usize>)
        requires
            self.wf(),
        ensures
            r is Some ==> r->Some_0 < self@.len() && self.name(r->Some_0 as int) == name@,
            r is None ==> forall|i: int| 0 <= i < self@.len() ==> self.name(i) != name@,
    {
        let mut i: usize = 0;
        while i < self.names.len()
            invariant
                self.wf(),
                i <= self.names@.len(),
                forall|j: int| 0 <= j < i ==> self.name(j) != name@,
            decreases self.names@.len() - i,
        {
            if crate::text::same_bytes(self.names[i].as_slice(), name) {
                return Some(i);
            }
            i = i + 1;
        }
        None
    }

    /// Where the object called `name` stands, adding it without a center
    /// where it is new.
    fn index_of(&mut self, name: &[u8]) -> (r: usize)
        requires
            old(self).wf(),
        ensures
            final(self).wf(),
            r < final(self)@.len(),
            final(self).name(r as int) == name@,
            final(self)@.len() >= old(self)@.len(),
            forall|i: int| 0 <= i < old(self)@.len() ==> final(self)@[i] == old(self)@[i] && final(self).name(i) == old(self).name(i),
            r >= old(self)@.len() ==> final(self)@[r as int] is None && r == old(self)@.len(),
    {
        match self.find(name) {
            Some(i) => i,
            None => {
                self.names.push(crate::text::slice_from(name, 0));
                self.centers.push(None);
                self.centers.len() - 1
            },
        }
    }

    /// The map of the relations `A)B`, B orbiting A, on top of the center
    /// of mass `COM`; a later relation for an object replaces an earlier
    /// one. `None` where a line is no relation.
    pub fn build_orbital_objects(relations: &[&str]) -> (r: Option<OrbitalObjects>)
        ensures
            r is Some ==> r->Some_0.wf() && r->Some_0@.len() > 0 && r->Some_0.name(0) == com(),
    {
        let mut objects = OrbitalObjects { names: Vec::new(), centers: Vec::new() };
        let c = [67u8, 79, 77];
        let root = objects.index_of(&c);
        assert(c@ =~= com());
        assert(root == 0);
        let mut i: usize = 0;
        while i < relations.len()
            invariant
                objects.wf(),
                objects@.len() > 0,
                objects.name(0) == com(),
                i <= relations@.len(),
            decreases relations@.len() - i,
        {
            let line: &str = relations[i];
            let parts = split(line.as_bytes(), 41);
            if parts.len() != 2 {
                return None;
            }
            let center = objects.index_of(parts[0].as_slice());
            let object = objects.index_of(parts[1].as_slice());
            objects.centers.set(object, Some(center));
            assert(objects.name(0) == com());
            i = i + 1;
        }
        Some(objects)
    }

    /// The objects that `object` orbits, directly and indirectly, from the
    /// nearest out to the center of mass; `None` where the chain loops.
    pub fn orbits(&self, object: usize) -> (r: Option<Vec<usize>>)
        requires
            self.wf(),
            object < self@.len(),
        ensures
            r is Some ==> chain(self@, object as int, self@.len()) == Some(r->Some_0@),
            r is None ==> chain(self@, object as int, self@.len()) is None,
    {
        let n = self.centers.len();
        let mut hops: Vec<usize> = Vec::new();
        let mut current = object;
        let mut fuel: usize = n;
        while fuel > 0
            invariant
                n == self@.len(),
                current < n,
                fuel <= n,
                forall|k: int| 0 <= k < hops@.len() ==> #[trigger] hops@[k] < n,
                ({
                    match chain(self@, current as int, fuel as nat) {
                        None => chain(self@, object as int, n as nat) is None,
                        Some(rest) => chain(self@, object as int, n as nat) == Some(hops@ + rest),
                    }
                }),
            decreases fuel,
        {
            match self.centers[current] {
                None => {
                    assert(hops@ + seq![] =~= hops@);
                    return Some(hops);
                },
                Some(c) => {
                    if c >= n {
                        return None;
                    }
                    let ghost before = hops@;
                    hops.push(c);
                    proof {
                        match chain(self@, c as int, (fuel - 1) as nat) {
                            None => {},
                            Some(rest) => {
                                assert(before + (seq![c] + rest) =~= hops@ + rest);
                            },
                        }
                    }
                    current = c;
                    fuel = fuel - 1;
                },
            }
        }
        match self.centers[current] {
            None => {
                assert(hops@ + seq![] =~= hops@);
                Some(hops)
            },
            Some(_) => None,
        }
    }

    /// The total number of direct and indirect orbits; `None` where a
    /// chain loops.
    pub fn count_orbits(&self) -> (r: Option<usize>)
        requires
            self.wf(),
        ensures
            r is Some ==> orbit_count(self@, self@.len() as int) == Some(r->Some_0 as nat),
    {
        let mut counter: usize = 0;
        let mut i: usize = 0;
        while i < self.centers.len()
            invariant
                self.wf(),
                i <= self@.len(),
                orbit_count(self@, i as int) == Some(counter as nat),
            decreases self@.len() - i,
        {
            let hops = self.orbits(i)?;
            counter = counter.checked_add(hops.len())?;
            i = i + 1;
        }
        Some(counter)
    }

    /// How many orbital transfers take `YOU` to the object that `SAN`
    /// orbits: the hops from each up to their nearest common center.
    /// `None` where either is missing or a chain loops.
    pub fn transfers_to_santa(&self) -> (r: Option<usize>)
        requires
            self.wf(),
    {
        let santa = self.find(&[83u8, 65, 78])?;
        let me = self.find(&[89u8, 79, 85])?;
        let santa_orbits = self.orbits(santa)?;
        let my_orbits = self.orbits(me)?;
        let a = santa_orbits.len();
        let b = my_orbits.len();
        let mut index: usize = 0;
        while index < a && index < b && santa_orbits[a - 1 - index] == my_orbits[b - 1 - index]
            invariant
                a == santa_orbits@.len(),
                b == my_orbits@.len(),
                index <= a,
                index <= b,
            decreases a - index,
        {
            index = index + 1;
        }
        (a - index).checked_add(b - index)
    }
}

} // verus!
