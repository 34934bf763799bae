//! Keeping agents apart while a swarm is spawned.
//!
//! Placed agents are remembered by the cell they stand in, so that a candidate is tested against the
//! agents around it instead of against every agent. The cell edge is the minimum distance, so an agent
//! that is too close stands in a cell whose coordinates differ by at most one on each axis.

use std::collections::HashMap;
use vstd::prelude::*;

verus! {

/// Candidate positions tried per agent before the minimum separation is abandoned.
pub const SEPARATION_TRIES: u32 = 24;

broadcast use vstd::std_specs::hash::group_hash_axioms;

/// A cell as one number: three digits to the base 2^32.
pub open spec fn packed(x: i32, y: i32, z: i32) -> u128 {
    (((x + 0x8000_0000) * 0x1_0000_0000 + (y + 0x8000_0000)) * 0x1_0000_0000 + (z + 0x8000_0000)) as u128
}

fn pack(x: i32, y: i32, z: i32) -> (key: u128)
    ensures
        key == packed(x, y, z),
{
    let a: u128 = (x as i64 + 0x8000_0000) as u128;
    let b: u128 = (y as i64 + 0x8000_0000) as u128;
    let c: u128 = (z as i64 + 0x8000_0000) as u128;
    (a * 0x1_0000_0000 + b) * 0x1_0000_0000 + c
}

proof fn lemma_packed_apart(x: i32, y: i32, z: i32, u: i32, v: i32, w: i32)
    ensures
        packed(x, y, z) == packed(u, v, w) ==> x == u && y == v && z == w,
{
}

/// The agents placed so far, by cell.
#[derive(Debug)]
pub struct SeparationGrid {
    cells: HashMap<u128, Vec<u32>>,
}

impl SeparationGrid {
    /// The agents in a cell, in the order in which they were placed.
    pub closed spec fn bucket(self, x: i32, y: i32, z: i32) -> Seq<u32> {
        if self.cells@.contains_key(packed(x, y, z)) {
            self.cells@[packed(x, y, z)]@
        } else {
            Seq::empty()
        }
    }

    /// No agent placed yet.
    pub fn new() -> (grid: Self)
        ensures
            forall|x: i32, y: i32, z: i32| #[trigger] grid.bucket(x, y, z) == Seq::<u32>::empty(),
    {
        SeparationGrid { cells: HashMap::new() }
    }

    /// Records that an agent stands in a cell.
    pub fn insert(&mut self, cell: [i32; 3], index: u32)
        ensures
            forall|x: i32, y: i32, z: i32| #[trigger]
                final(self).bucket(x, y, z) == (if x == cell@[0] && y == cell@[1] && z == cell@[2] {
                    old(self).bucket(x, y, z).push(index)
                } else {
                    old(self).bucket(x, y, z)
                }),
    {
        let key: u128 = pack(cell[0], cell[1], cell[2]);
        let mut here: Vec<u32> = match self.cells.remove(&key) {
            Some(here) => here,
            None => Vec::new(),
        };
        here.push(index);
        self.cells.insert(key, here);
        proof {
            assert forall|x: i32, y: i32, z: i32| #[trigger]
                self.bucket(x, y, z) == (if x == cell@[0] && y == cell@[1] && z == cell@[2] {
                    old(self).bucket(x, y, z).push(index)
                } else {
                    old(self).bucket(x, y, z)
                }) by {
                lemma_packed_apart(x, y, z, cell@[0], cell@[1], cell@[2]);
            }
        }
    }

    /// The agents in the first `n` of the 27 cells around a cell: x varies fastest, z slowest, each
    /// from one below to one above.
    pub open spec fn around(self, x: i32, y: i32, z: i32, n: int) -> Seq<u32>
        decreases n,
    {
        if n <= 0 {
            Seq::empty()
        } else {
            let k = n - 1;
            self.around(x, y, z, k) + self.bucket(
                (x + k % 3 - 1) as i32,
                (y + k / 3 % 3 - 1) as i32,
                (z + k / 9 - 1) as i32,
            )
        }
    }

    /// The agents in the 27 cells around a cell, which has to have neighbours on every side.
    pub fn neighbours(&self, cell: [i32; 3]) -> (out: Vec<u32>)
        requires
            forall|i: int| 0 <= i < 3 ==> i32::MIN < #[trigger] cell@[i] < i32::MAX,
        ensures
            out@ == self.around(cell@[0], cell@[1], cell@[2], 27),
    {
        let mut out: Vec<u32> = Vec::new();
        let mut k: i32 = 0;
        assert(i32::MIN < cell@[0] < i32::MAX);
        assert(i32::MIN < cell@[1] < i32::MAX);
        assert(i32::MIN < cell@[2] < i32::MAX);
        while k < 27
            invariant
                0 <= k <= 27,
                i32::MIN < cell@[0] < i32::MAX,
                i32::MIN < cell@[1] < i32::MAX,
                i32::MIN < cell@[2] < i32::MAX,
                out@ == self.around(cell@[0], cell@[1], cell@[2], k as int),
            decreases 27 - k,
        {
            let dx: i32 = k % 3 - 1;
            let dy: i32 = k / 3 % 3 - 1;
            let dz: i32 = k / 9 - 1;
            let key: u128 = pack(cell[0] + dx, cell[1] + dy, cell[2] + dz);
            let ghost before = out@;
            if let Some(here) = self.cells.get(&key) {
                out.extend_from_slice(here.as_slice());
                assert(out@ =~= before + here@);
            } else {
                assert(before + Seq::<u32>::empty() =~= before);
            }
            k += 1;
        }
        out
    }
}

/// Whether two cells touch: their coordinates differ by at most one on each axis.
pub open spec fn touching(a: [i32; 3], b: [i32; 3]) -> bool {
    &&& -1 <= a@[0] - b@[0] <= 1
    &&& -1 <= a@[1] - b@[1] <= 1
    &&& -1 <= a@[2] - b@[2] <= 1
}

proof fn lemma_around_contains(
    grid: SeparationGrid,
    base: [i32; 3],
    cell: [i32; 3],
    index: u32,
    n: int,
)
    requires
        touching(cell, base),
        grid.bucket(cell@[0], cell@[1], cell@[2]).contains(index),
        n > (cell@[0] - base@[0] + 1) + 3 * (cell@[1] - base@[1] + 1) + 9 * (cell@[2] - base@[2] + 1),
    ensures
        grid.around(base@[0], base@[1], base@[2], n).contains(index),
    decreases n,
{
    let at = (cell@[0] - base@[0] + 1) + 3 * (cell@[1] - base@[1] + 1) + 9 * (cell@[2] - base@[2] + 1);
    let k = n - 1;
    let before = grid.around(base@[0], base@[1], base@[2], k);
    let here = grid.bucket(
        (base@[0] + k % 3 - 1) as i32,
        (base@[1] + k / 3 % 3 - 1) as i32,
        (base@[2] + k / 9 - 1) as i32,
    );
    let all = grid.around(base@[0], base@[1], base@[2], n);
    if k == at {
        let i = choose|i: int| 0 <= i < here.len() && here[i] == index;
        assert(all[before.len() + i] == index);
    } else {
        lemma_around_contains(grid, base, cell, index, k);
        let i = choose|i: int| 0 <= i < before.len() && before[i] == index;
        assert(all[i] == index);
    }
}

proof fn lemma_around_is_near(grid: SeparationGrid, base: [i32; 3], index: u32, n: int) -> (cell: [i32; 3])
    requires
        forall|i: int| 0 <= i < 3 ==> i32::MIN < #[trigger] base@[i] < i32::MAX,
        0 <= n <= 27,
        grid.around(base@[0], base@[1], base@[2], n).contains(index),
    ensures
        touching(cell, base),
        grid.bucket(cell@[0], cell@[1], cell@[2]).contains(index),
    decreases n,
{
    let k = n - 1;
    let before = grid.around(base@[0], base@[1], base@[2], k);
    let all = grid.around(base@[0], base@[1], base@[2], n);
    let i = choose|i: int| 0 <= i < all.len() && all[i] == index;
    if i < before.len() {
        assert(before[i] == index);
        lemma_around_is_near(grid, base, index, k)
    } else {
        let here = [
            (base@[0] + k % 3 - 1) as i32,
            (base@[1] + k / 3 % 3 - 1) as i32,
            (base@[2] + k / 9 - 1) as i32,
        ];
        assert(i32::MIN < base@[0] < i32::MAX);
        assert(i32::MIN < base@[1] < i32::MAX);
        assert(i32::MIN < base@[2] < i32::MAX);
        assert(grid.bucket(here@[0], here@[1], here@[2])[i - before.len()] == index);
        here
    }
}

/// The neighbourhood is complete and exact: an agent is found around a cell if and only if it stands
/// in a cell that touches it.
pub proof fn law_the_neighbourhood_is_complete(grid: SeparationGrid, base: [i32; 3], index: u32)
    requires
        forall|i: int| 0 <= i < 3 ==> i32::MIN < #[trigger] base@[i] < i32::MAX,
    ensures
        grid.around(base@[0], base@[1], base@[2], 27).contains(index) <==> exists|cell: [i32; 3]| #[trigger]
            touching(cell, base) && grid.bucket(cell@[0], cell@[1], cell@[2]).contains(index),
        forall|cell: [i32; 3]| #[trigger]
            touching(cell, base) <==> (forall|i: int|
                0 <= i < 3 ==> -1 <= #[trigger] cell@[i] - base@[i] <= 1),
{
    assert forall|cell: [i32; 3]| #[trigger]
        touching(cell, base) <==> (forall|i: int|
            0 <= i < 3 ==> -1 <= #[trigger] cell@[i] - base@[i] <= 1) by {
        if forall|i: int| 0 <= i < 3 ==> -1 <= #[trigger] cell@[i] - base@[i] <= 1 {
            assert(-1 <= cell@[0] - base@[0] <= 1);
            assert(-1 <= cell@[1] - base@[1] <= 1);
            assert(-1 <= cell@[2] - base@[2] <= 1);
        }
    }
    if grid.around(base@[0], base@[1], base@[2], 27).contains(index) {
        let cell = lemma_around_is_near(grid, base, index, 27);
        assert(touching(cell, base));
    }
    if exists|cell: [i32; 3]| #[trigger]
        touching(cell, base) && grid.bucket(cell@[0], cell@[1], cell@[2]).contains(index) {
        let cell = choose|cell: [i32; 3]| #[trigger]
            touching(cell, base) && grid.bucket(cell@[0], cell@[1], cell@[2]).contains(index);
        lemma_around_contains(grid, base, cell, index, 27);
    }
}

/// What becomes of a candidate position.
#[derive(Debug, Clone, Copy, PartialEq, Eq, Structural)]
pub enum Verdict {
    /// It is far enough from everyone: the agent stands there.
    Accept,
    /// It is too close to someone: draw another one.
    TryAgain,
    /// It is too close to someone, and so were all before it: draw a last one and keep it untested.
    GiveUp,
}

/// The search for a place for one agent.
///
/// The separation is best effort. The bound on the number of tries keeps spawning linear in a world
/// that is too full for it.
#[derive(Debug, Clone, Copy, PartialEq, Eq, Structural)]
pub struct Placement {
    /// Candidates rejected so far.
    pub tries: u32,
}

impl Placement {
    /// No candidate tried yet.
    pub fn new() -> (search: Placement)
        ensures
            search.tries == 0,
    {
        Placement { tries: 0 }
    }

    /// Judges a candidate, given for each agent around it whether it is closer than allowed.
    pub fn consider(&mut self, too_close: &[bool]) -> (verdict: Verdict)
        requires
            old(self).tries < SEPARATION_TRIES,
        ensures
            verdict == Verdict::Accept <==> !too_close@.contains(true),
            verdict == Verdict::GiveUp <==> too_close@.contains(true) && old(self).tries + 1
                == SEPARATION_TRIES,
            final(self).tries == (if verdict == Verdict::Accept {
                old(self).tries as int
            } else {
                old(self).tries + 1
            }),
            verdict == Verdict::TryAgain ==> final(self).tries < SEPARATION_TRIES,
            too_close@.contains(true) ==> (verdict == Verdict::GiveUp <==> final(self).tries == 24),
    {
        let mut i: usize = 0;
        while i < too_close.len()
            invariant
                i <= too_close@.len(),
                forall|k: int| 0 <= k < i ==> too_close@[k] == false,
                self.tries == old(self).tries,
                self.tries < SEPARATION_TRIES,
            decreases too_close@.len() - i,
        {
            if too_close[i] {
                assert(too_close@.contains(true));
                self.tries = self.tries + 1;
                return if self.tries == SEPARATION_TRIES {
                    Verdict::GiveUp
                } else {
                    Verdict::TryAgain
                };
            }
            i += 1;
        }
        assert(!too_close@.contains(true));
        Verdict::Accept
    }
}

/// Twenty-four candidates are tried for an agent before its separation is given up.
pub proof fn law_candidates_are_bounded()
    ensures
        SEPARATION_TRIES == 24,
{
}

} // verus!
