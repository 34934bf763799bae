//! The simulation's buffers: how large they are, which of a pair is read, how the grid is cleared and
//! how many workgroups cover a swarm.

use crate::bindings::{BindingKind, Group, Resource};
use crate::grid::GridDims;
use crate::layout::{GpuStruct, EMPTY_CELL};
use crate::transfer::bytes_of_words;
use vstd::prelude::*;

verus! {

/// Invocations in a workgroup.
pub const WORKGROUP: u32 = 256;

/// Cells cleared by one write, so that a large grid needs no giant temporary allocation.
pub const CLEAR_CHUNK: u32 = 65_536;

/// Workgroups needed to cover `count` invocations at 256 per group.
pub fn dispatch_size(count: u32) -> (groups: u32)
    ensures
        groups == (count + 255) / 256,
        groups * WORKGROUP >= count,
        groups > 0 ==> (groups - 1) * WORKGROUP < count,
{
    if count % WORKGROUP == 0 {
        count / WORKGROUP
    } else {
        count / WORKGROUP + 1
    }
}

/// Whether `padded` is the smallest power of two that is at least `n`.
pub open spec fn is_padded(n: nat, padded: nat) -> bool {
    &&& exists|e: nat| #[trigger] vstd::arithmetic::power2::pow2(e) == padded
    &&& n <= padded
    &&& forall|e: nat| n <= #[trigger] vstd::arithmetic::power2::pow2(e) ==> padded
        <= vstd::arithmetic::power2::pow2(e)
}

proof fn lemma_smallest_power(n: nat, e: nat, other: nat)
    requires
        e > 0 ==> vstd::arithmetic::power2::pow2((e - 1) as nat) < n,
        n <= vstd::arithmetic::power2::pow2(other),
    ensures
        vstd::arithmetic::power2::pow2(e) <= vstd::arithmetic::power2::pow2(other),
{
    if other < e {
        if other < e - 1 {
            vstd::arithmetic::power2::lemma_pow2_strictly_increases(other, (e - 1) as nat);
        }
    } else if e < other {
        vstd::arithmetic::power2::lemma_pow2_strictly_increases(e, other);
    }
}

/// `n` rounded up to a power of two, which the sort needs.
pub fn padded_count(n: u32) -> (padded: u32)
    requires
        0 < n <= 0x8000_0000,
    ensures
        is_padded(n as nat, padded as nat),
        padded < 2 * n,
{
    let mut padded: u32 = 1;
    let ghost mut e: nat = 0;
    proof {
        vstd::arithmetic::power2::lemma2_to64();
    }
    while padded < n
        invariant
            padded == vstd::arithmetic::power2::pow2(e),
            e > 0 ==> vstd::arithmetic::power2::pow2((e - 1) as nat) < n,
            0 < padded < 2 * n,
            0 < n <= 0x8000_0000,
        decreases 2 * n - padded,
    {
        proof {
            vstd::arithmetic::power2::lemma_pow2_unfold(e + 1);
        }
        padded = padded * 2;
        proof {
            e = e + 1;
        }
    }
    proof {
        assert forall|other: nat| n <= #[trigger] vstd::arithmetic::power2::pow2(other) implies padded
            <= vstd::arithmetic::power2::pow2(other) by {
            lemma_smallest_power(n as nat, e, other);
        }
        assert(vstd::arithmetic::power2::pow2(e) == padded as nat);
    }
    padded
}

/// The sizes of every buffer of a simulation.
#[derive(Debug, Clone, Copy, PartialEq, Eq, Structural)]
pub struct SimSizes {
    /// Number of live agents.
    pub num_boids: u32,
    /// `num_boids` rounded up to a power of two.
    pub padded_n: u32,
    /// Number of grid cells.
    pub num_cells: u32,
    /// Bytes in each of the two agent buffers.
    pub boid_bytes: u64,
    /// Bytes in each of the two sort key buffers.
    pub key_bytes: u64,
    /// Bytes in each of the two buffers that hold one word per cell.
    pub cell_bytes: u64,
    /// Bytes in the buffer of simulation parameters.
    pub params_bytes: u64,
    /// Bytes in the buffer of the cursor's influence.
    pub interaction_bytes: u64,
}

/// A size rounded up to the sixteen bytes that uniform buffers come in.
pub fn uniform_size(s: GpuStruct) -> (bytes: u64)
    ensures
        bytes == crate::layout::round_up(s.byte_size(), 16),
{
    proof {
        crate::layout::law_no_implicit_padding(s);
    }
    (s.size() as u64 + 15) / 16 * 16
}

impl SimSizes {
    /// Plans the buffers for a swarm and a grid.
    ///
    /// A simulation needs at least one agent, and the padded count has to fit a word.
    pub fn new(num_boids: usize, grid: &GridDims) -> (sizes: SimSizes)
        requires
            0 < num_boids <= 0x8000_0000,
            grid.wf(),
        ensures
            sizes.num_boids == num_boids,
            is_padded(num_boids as nat, sizes.padded_n as nat),
            sizes.num_cells == grid.cells(),
            sizes.boid_bytes == sizes.padded_n * GpuStruct::Boid.byte_size(),
            sizes.key_bytes == sizes.padded_n * GpuStruct::KeyVal.byte_size(),
            num_boids <= sizes.padded_n < 2 * num_boids,
            sizes.boid_bytes == sizes.padded_n * 48,
            sizes.key_bytes == sizes.padded_n * 8,
            sizes.cell_bytes == sizes.num_cells * 4,
            sizes.params_bytes == crate::layout::round_up(GpuStruct::SimParams.byte_size(), 16),
            sizes.interaction_bytes == crate::layout::round_up(
                GpuStruct::InteractionUniforms.byte_size(),
                16,
            ),
    {
        proof {
            crate::layout::law_the_sizes_are_known();
        }
        let num_cells: u32 = grid.num_cells();
        let padded_n: u32 = padded_count(num_boids as u32);
        let boid: u32 = GpuStruct::Boid.size();
        let key: u32 = GpuStruct::KeyVal.size();
        proof {
            assert(padded_n as u64 * boid as u64 <= u64::MAX) by (nonlinear_arith);
            assert(padded_n as u64 * key as u64 <= u64::MAX) by (nonlinear_arith);
        }
        SimSizes {
            num_boids: num_boids as u32,
            padded_n,
            num_cells,
            boid_bytes: padded_n as u64 * boid as u64,
            key_bytes: padded_n as u64 * key as u64,
            cell_bytes: num_cells as u64 * 4,
            params_bytes: uniform_size(GpuStruct::SimParams),
            interaction_bytes: uniform_size(GpuStruct::InteractionUniforms),
        }
    }
}

/// What a buffer is made for.
#[derive(Debug, Clone, Copy, PartialEq, Eq, Structural)]
pub struct BufferPlan {
    /// Bytes in the buffer.
    pub size: u64,
    /// Whether it is bound as a storage buffer.
    pub storage: bool,
    /// Whether it is bound as a uniform buffer.
    pub uniform: bool,
    /// Whether it is copied from, to be read back.
    pub copy_src: bool,
    /// Whether it is written by the host.
    pub copy_dst: bool,
}

impl SimSizes {
    /// The plan of a resource's buffer; `None` if the resource is not one of the simulation's.
    pub open spec fn spec_plan(self, resource: Resource) -> Option<BufferPlan> {
        match resource {
            Resource::Agents(_) => Some(
                BufferPlan {
                    size: self.boid_bytes,
                    storage: true,
                    uniform: false,
                    copy_src: true,
                    copy_dst: true,
                },
            ),
            Resource::Keys(_) => Some(
                BufferPlan {
                    size: self.key_bytes,
                    storage: true,
                    uniform: false,
                    copy_src: true,
                    copy_dst: false,
                },
            ),
            Resource::CellStart => Some(
                BufferPlan {
                    size: self.cell_bytes,
                    storage: true,
                    uniform: false,
                    copy_src: false,
                    copy_dst: true,
                },
            ),
            Resource::CellEnd => Some(
                BufferPlan {
                    size: self.cell_bytes,
                    storage: true,
                    uniform: false,
                    copy_src: false,
                    copy_dst: false,
                },
            ),
            Resource::Params => Some(
                BufferPlan {
                    size: self.params_bytes,
                    storage: false,
                    uniform: true,
                    copy_src: false,
                    copy_dst: true,
                },
            ),
            Resource::Interaction => Some(
                BufferPlan {
                    size: self.interaction_bytes,
                    storage: false,
                    uniform: true,
                    copy_src: false,
                    copy_dst: true,
                },
            ),
            _ => None,
        }
    }

    /// The plan of a resource's buffer; `None` if the resource is not one of the simulation's.
    ///
    /// Only the agents and the first index of each cell are written by the host, only agents and keys
    /// are read back.
    pub fn plan(&self, resource: Resource) -> (plan: Option<BufferPlan>)
        ensures
            plan == self.spec_plan(resource),
    {
        let (size, uniform, copy_src, copy_dst): (u64, bool, bool, bool) = match resource {
            Resource::Agents(_) => (self.boid_bytes, false, true, true),
            Resource::Keys(_) => (self.key_bytes, false, true, false),
            Resource::CellStart => (self.cell_bytes, false, false, true),
            Resource::CellEnd => (self.cell_bytes, false, false, false),
            Resource::Params => (self.params_bytes, true, false, true),
            Resource::Interaction => (self.interaction_bytes, true, false, true),
            _ => {
                return None;
            },
        };
        Some(BufferPlan { size, storage: !uniform, uniform, copy_src, copy_dst })
    }
}

/// Every buffer that the simulation binds is made for the way it is bound: as a uniform of at least the
/// size that the shader reads, or as storage.
pub proof fn law_buffers_can_be_bound(sizes: SimSizes, group: Group, i: int)
    requires
        group == Group::Sim || group is AgentPair || group is KeyPair,
        group.wf(),
        0 <= i < group.spec_entries().len(),
        sizes.params_bytes == crate::layout::round_up(GpuStruct::SimParams.byte_size(), 16),
        sizes.interaction_bytes == crate::layout::round_up(
            GpuStruct::InteractionUniforms.byte_size(),
            16,
        ),
    ensures
        sizes.spec_plan(group.spec_entries()[i].resource) matches Some(plan) && {
            match group.spec_layout().spec_entries()[i].kind {
                BindingKind::Uniform(s) => plan.uniform && plan.size >= s.byte_size(),
                _ => plan.storage,
            }
        },
{
    crate::layout::law_the_sizes_are_known();
}

/// Every agent of the swarm has a place in the buffers, padded or not.
pub proof fn law_the_buffers_hold_the_swarm(sizes: SimSizes, n: nat)
    requires
        n == sizes.num_boids,
        is_padded(n, sizes.padded_n as nat),
        sizes.boid_bytes == sizes.padded_n * GpuStruct::Boid.byte_size(),
        sizes.key_bytes == sizes.padded_n * GpuStruct::KeyVal.byte_size(),
    ensures
        48 * n <= sizes.boid_bytes,
        8 * n <= sizes.key_bytes,
{
    crate::layout::law_the_sizes_are_known();
}

/// Which of a pair of buffers holds the current state.
#[derive(Debug, Clone, Copy, PartialEq, Eq, Structural)]
pub struct PingPong {
    read: usize,
}

impl PingPong {
    /// The index of the buffer that holds the current state.
    pub closed spec fn current(self) -> int {
        self.read as int
    }

    /// The invariant: there are two buffers.
    #[verifier::type_invariant]
    spec fn inv(self) -> bool {
        self.read < 2
    }

    /// The first buffer is current.
    pub fn new() -> (pair: PingPong)
        ensures
            pair.current() == 0,
    {
        PingPong { read: 0 }
    }

    /// Index of the buffer that is read.
    pub fn read_index(&self) -> (index: usize)
        ensures
            index == self.current(),
            index < 2,
    {
        proof {
            use_type_invariant(self);
        }
        self.read
    }

    /// Index of the buffer that is written: the other one.
    pub fn write_index(&self) -> (index: usize)
        ensures
            index == 1 - self.current(),
            index < 2,
    {
        proof {
            use_type_invariant(self);
        }
        1 - self.read
    }

    /// Flips the pair after a completed step: what was written becomes current.
    pub fn swap(&mut self)
        ensures
            final(self).current() == 1 - old(self).current(),
    {
        proof {
            use_type_invariant(&*self);
        }
        self.read = 1 - self.read;
    }
}

/// The current buffer after a number of steps: it alternates.
pub open spec fn current_after(start: int, steps: nat) -> int
    decreases steps,
{
    if steps == 0 {
        start
    } else {
        1 - current_after(start, (steps - 1) as nat)
    }
}

/// Two steps lead back to the same buffer, so the current one is known from the parity of the steps.
pub proof fn law_buffers_alternate(start: int, steps: nat)
    requires
        start == 0 || start == 1,
    ensures
        current_after(start, steps) == (start + steps) % 2,
    decreases steps,
{
    if steps > 0 {
        law_buffers_alternate(start, (steps - 1) as nat);
    }
}

/// One write of empty markers: the first cell and the number of cells.
#[derive(Debug, Clone, Copy, PartialEq, Eq, Structural)]
pub struct ClearWrite {
    /// First cell of the write.
    pub first: u32,
    /// Number of cells in it.
    pub count: u32,
}

impl ClearWrite {
    /// Byte offset of the write.
    pub fn offset(&self) -> (bytes: u64)
        ensures
            bytes == self.first * 4,
    {
        self.first as u64 * 4
    }

    /// The bytes that are written: one empty marker per cell, which is all ones in either byte order.
    pub fn bytes(&self) -> (bytes: Vec<u8>)
        ensures
            bytes@.len() == self.count * 4,
            forall|i: int| 0 <= i < bytes@.len() ==> #[trigger] bytes@[i] == 0xff,
    {
        let mut words: Vec<u32> = Vec::new();
        let mut i: u32 = 0;
        while i < self.count
            invariant
                i <= self.count,
                words@.len() == i,
                forall|k: int| 0 <= k < i ==> #[trigger] words@[k] == EMPTY_CELL,
            decreases self.count - i,
        {
            words.push(EMPTY_CELL);
            i += 1;
        }
        proof {
            lemma_markers_are_all_ones(words@);
        }
        bytes_of_words(&words)
    }
}

proof fn lemma_markers_are_all_ones(words: Seq<u32>)
    requires
        forall|k: int| 0 <= k < words.len() ==> #[trigger] words[k] == EMPTY_CELL,
    ensures
        crate::transfer::le_bytes(words).len() == 4 * words.len(),
        crate::transfer::be_bytes(words).len() == 4 * words.len(),
        forall|i: int|
            0 <= i < 4 * words.len() ==> #[trigger] crate::transfer::le_bytes(words)[i] == 0xff,
        forall|i: int|
            0 <= i < 4 * words.len() ==> #[trigger] crate::transfer::be_bytes(words)[i] == 0xff,
    decreases words.len(),
{
    if words.len() > 0 {
        reveal(crate::bytes::be32);
        lemma_markers_are_all_ones(words.drop_last());
        let marker = crate::bytes::be32(EMPTY_CELL);
        assert(marker =~= seq![0xffu8, 0xff, 0xff, 0xff]);
        assert(marker.reverse() =~= seq![0xffu8, 0xff, 0xff, 0xff]);
        assert(words.last() == EMPTY_CELL);
    }
}

/// The writes that mark `n` cells: full ones, then the rest.
pub open spec fn spec_clear_plan(first: int, n: int) -> Seq<ClearWrite>
    decreases n - first,
{
    if first >= n {
        Seq::empty()
    } else if n - first <= CLEAR_CHUNK {
        seq![ClearWrite { first: first as u32, count: (n - first) as u32 }]
    } else {
        seq![ClearWrite { first: first as u32, count: CLEAR_CHUNK }] + spec_clear_plan(
            first + CLEAR_CHUNK,
            n,
        )
    }
}

/// Plans the writes that mark every one of `n` cells empty.
pub fn clear_plan(n: u32) -> (plan: Vec<ClearWrite>)
    ensures
        plan@ == spec_clear_plan(0, n as int),
{
    let mut plan: Vec<ClearWrite> = Vec::new();
    let mut written: u32 = 0;
    assert(plan@ + spec_clear_plan(0, n as int) =~= spec_clear_plan(0, n as int));
    while written < n
        invariant
            written <= n,
            plan@ + spec_clear_plan(written as int, n as int) == spec_clear_plan(0, n as int),
        decreases n - written,
    {
        let count: u32 = if n - written <= CLEAR_CHUNK {
            n - written
        } else {
            CLEAR_CHUNK
        };
        let ghost before = plan@;
        let write = ClearWrite { first: written, count };
        plan.push(write);
        proof {
            let rest = spec_clear_plan(written + count, n as int);
            assert(spec_clear_plan(written as int, n as int) =~= seq![write] + rest);
            assert(plan@ + rest =~= before + (seq![write] + rest));
        }
        written = written + count;
    }
    assert(plan@ + spec_clear_plan(n as int, n as int) =~= plan@);
    plan
}

/// Whether a write marks a cell.
pub open spec fn marks(write: ClearWrite, cell: int) -> bool {
    write.first <= cell < write.first + write.count
}

proof fn lemma_plan_covers(first: int, n: int, cell: int) -> (i: int)
    requires
        0 <= first <= cell < n <= u32::MAX,
    ensures
        0 <= i < spec_clear_plan(first, n).len(),
        marks(spec_clear_plan(first, n)[i], cell),
    decreases n - first,
{
    let plan = spec_clear_plan(first, n);
    if cell < first + CLEAR_CHUNK {
        0
    } else {
        let j = lemma_plan_covers(first + CLEAR_CHUNK, n, cell);
        assert(plan[j + 1] == spec_clear_plan(first + CLEAR_CHUNK, n)[j]);
        j + 1
    }
}

proof fn lemma_plan_starts(first: int, n: int, i: int)
    requires
        0 <= first <= n <= u32::MAX,
        0 <= i < spec_clear_plan(first, n).len(),
    ensures
        first + i * CLEAR_CHUNK == spec_clear_plan(first, n)[i].first,
        0 < spec_clear_plan(first, n)[i].count <= CLEAR_CHUNK,
        spec_clear_plan(first, n)[i].first + spec_clear_plan(first, n)[i].count <= n,
    decreases i,
{
    if i > 0 {
        lemma_plan_starts(first + CLEAR_CHUNK, n, i - 1);
        assert(spec_clear_plan(first, n)[i] == spec_clear_plan(first + CLEAR_CHUNK, n)[i - 1]);
    }
}

/// Clearing marks every cell exactly once and nothing else, in writes of bounded size.
pub proof fn law_every_cell_is_cleared_once(n: u32, cell: int)
    ensures
        0 <= cell < n ==> exists|i: int|
            0 <= i < spec_clear_plan(0, n as int).len() && marks(
                #[trigger] spec_clear_plan(0, n as int)[i],
                cell,
            ),
        forall|i: int, j: int|
            0 <= i < spec_clear_plan(0, n as int).len() && 0 <= j < spec_clear_plan(0, n as int).len()
                && marks(#[trigger] spec_clear_plan(0, n as int)[i], cell) && marks(
                #[trigger] spec_clear_plan(0, n as int)[j],
                cell,
            ) ==> i == j,
        forall|i: int|
            0 <= i < spec_clear_plan(0, n as int).len() ==> {
                let write = #[trigger] spec_clear_plan(0, n as int)[i];
                0 < write.count <= CLEAR_CHUNK && write.first + write.count <= n
            },
{
    let plan = spec_clear_plan(0, n as int);
    if 0 <= cell < n {
        let i = lemma_plan_covers(0, n as int, cell);
        assert(marks(plan[i], cell));
    }
    assert forall|i: int| 0 <= i < plan.len() implies {
        let write = #[trigger] plan[i];
        0 < write.count <= CLEAR_CHUNK && write.first + write.count <= n && write.first == i
            * CLEAR_CHUNK
    } by {
        lemma_plan_starts(0, n as int, i);
    }
}

/// The padded count is the one power of two between the count and its double.
pub proof fn law_padding_stays_below_the_double(n: nat, padded: nat)
    requires
        0 < n,
        is_padded(n, padded),
    ensures
        n <= padded < 2 * n,
        exists|e: nat| #[trigger] vstd::arithmetic::power2::pow2(e) == padded,
{
    let e = choose|e: nat| #[trigger] vstd::arithmetic::power2::pow2(e) == padded;
    if e == 0 {
        vstd::arithmetic::power2::lemma2_to64();
    } else {
        let half = vstd::arithmetic::power2::pow2((e - 1) as nat);
        vstd::arithmetic::power2::lemma_pow2_unfold(e);
        vstd::arithmetic::power2::lemma_pow2_pos((e - 1) as nat);
        assert(padded == 2 * half);
        if n <= half {
            assert(padded <= half);
        }
    }
}

/// The buffers of the simulation are made for what is done with them: the agents are written by the host
/// and read back, the keys are read back, the first index of each cell is written, and parameters and
/// influence are uniforms that the host writes. Every other one is storage.
pub proof fn law_buffers_are_made_for_their_use(sizes: SimSizes, i: u32)
    ensures
        sizes.spec_plan(Resource::Agents(i)) matches Some(plan) && plan.size == sizes.boid_bytes
            && plan.storage && !plan.uniform && plan.copy_src && plan.copy_dst,
        sizes.spec_plan(Resource::Keys(i)) matches Some(plan) && plan.size == sizes.key_bytes
            && plan.storage && !plan.uniform && plan.copy_src && !plan.copy_dst,
        sizes.spec_plan(Resource::CellStart) matches Some(plan) && plan.size == sizes.cell_bytes
            && plan.storage && !plan.uniform && !plan.copy_src && plan.copy_dst,
        sizes.spec_plan(Resource::CellEnd) matches Some(plan) && plan.size == sizes.cell_bytes
            && plan.storage && !plan.uniform && !plan.copy_src && !plan.copy_dst,
        sizes.spec_plan(Resource::Params) matches Some(plan) && plan.size == sizes.params_bytes
            && !plan.storage && plan.uniform && !plan.copy_src && plan.copy_dst,
        sizes.spec_plan(Resource::Interaction) matches Some(plan) && plan.size
            == sizes.interaction_bytes && !plan.storage && plan.uniform && !plan.copy_src
            && plan.copy_dst,
{
}

/// Cells are cleared in writes of 65536 each, but for the last, one behind the other from the first cell on;
/// a workgroup is 256 invocations.
pub proof fn law_clearing_goes_from_the_first_cell_on(n: u32, i: int)
    requires
        0 <= i < spec_clear_plan(0, n as int).len(),
    ensures
        spec_clear_plan(0, n as int)[i].first == 65_536 * i,
        spec_clear_plan(0, n as int)[i].count == 65_536 || spec_clear_plan(0, n as int)[i].first
            + spec_clear_plan(0, n as int)[i].count == n,
        WORKGROUP == 256,
{
    lemma_plan_starts(0, n as int, i);
    lemma_plan_counts(0, n as int, i);
}

proof fn lemma_plan_counts(first: int, n: int, i: int)
    requires
        0 <= first <= n <= u32::MAX,
        0 <= i < spec_clear_plan(first, n).len(),
    ensures
        spec_clear_plan(first, n)[i].count == CLEAR_CHUNK || spec_clear_plan(first, n)[i].first
            + spec_clear_plan(first, n)[i].count == n,
    decreases i,
{
    if i > 0 {
        lemma_plan_counts(first + CLEAR_CHUNK, n, i - 1);
        assert(spec_clear_plan(first, n)[i] == spec_clear_plan(first + CLEAR_CHUNK, n)[i - 1]);
    }
}

} // verus!
