//! What one frame draws, and what it amounts to.

use crate::modes::SimMode;
use vstd::prelude::*;

verus! {

/// Triangles in the mesh of one agent.
pub const MESH_TRIANGLES: u32 = 22;

/// Vertices in the mesh of one agent.
pub const MESH_VERTICES: u32 = 66;

/// Which parity of the simulation's agent buffers a scene binding refers to.
#[derive(Debug, Clone, Copy, PartialEq, Eq, Structural)]
pub struct SceneBinding(usize);

impl SceneBinding {
    /// The parity.
    pub closed spec fn parity(self) -> int {
        self.0 as int
    }

    /// Binding for a given parity; of a larger number, only whether it is odd counts.
    pub fn new(parity: usize) -> (binding: Self)
        ensures
            binding.parity() == parity % 2,
    {
        SceneBinding(parity % 2)
    }

    /// The invariant: there are two parities.
    #[verifier::type_invariant]
    spec fn inv(self) -> bool {
        self.0 < 2
    }

    /// The parity as an index.
    pub fn index(self) -> (index: usize)
        ensures
            index == self.parity(),
            index < 2,
    {
        proof {
            use_type_invariant(self);
        }
        self.0
    }
}

/// A draw of the scene pass.
#[derive(Debug, Clone, Copy, PartialEq, Eq, Structural)]
pub enum Draw {
    /// The raymarched reef, which writes depth.
    Ocean,
    /// The sky gradient, which does not.
    Background,
    /// The swarm, as this many instances of one mesh.
    Agents(u32),
}

/// The draws of a frame: the backdrop of the world, then the swarm if there is one.
pub open spec fn spec_draws(world: SimMode, num_agents: u32) -> Seq<Draw> {
    let backdrop = match world {
        SimMode::Fish => Draw::Ocean,
        SimMode::Birds => Draw::Background,
    };
    if num_agents == 0 {
        seq![backdrop]
    } else {
        seq![backdrop, Draw::Agents(num_agents)]
    }
}

/// The draws of a frame, in order. The backdrop comes first, so that the swarm is tested against the
/// depth it wrote.
pub fn scene_draws(world: SimMode, num_agents: u32) -> (draws: Vec<Draw>)
    ensures
        draws@ == spec_draws(world, num_agents),
{
    let mut draws: Vec<Draw> = Vec::new();
    match world {
        SimMode::Fish => draws.push(Draw::Ocean),
        SimMode::Birds => draws.push(Draw::Background),
    }
    if num_agents > 0 {
        draws.push(Draw::Agents(num_agents));
    }
    assert(draws@ =~= spec_draws(world, num_agents));
    draws
}

/// What a frame amounts to.
#[derive(Debug, Clone, Copy, PartialEq, Eq, Structural)]
pub struct FrameStats {
    /// Draw calls in the scene pass.
    pub draw_calls: u32,
    /// Instances drawn.
    pub instances: u64,
    /// Triangles drawn by the swarm.
    pub triangles: u64,
}

impl Default for FrameStats {
    fn default() -> (stats: Self)
        ensures
            stats == (FrameStats { draw_calls: 0, instances: 0, triangles: 0 }),
    {
        FrameStats { draw_calls: 0, instances: 0, triangles: 0 }
    }
}

impl FrameStats {
    /// What draws amount to together.
    pub open spec fn of(draws: Seq<Draw>) -> (int, int, int)
        decreases draws.len(),
    {
        if draws.len() == 0 {
            (0, 0, 0)
        } else {
            let (calls, instances, triangles) = FrameStats::of(draws.drop_last());
            match draws.last() {
                Draw::Agents(n) => (
                    calls + 1,
                    instances + n,
                    triangles + n * MESH_TRIANGLES,
                ),
                _ => (calls + 1, instances, triangles),
            }
        }
    }

    /// What a frame of a world with `num_agents` agents amounts to: one call for the backdrop, and one
    /// for the swarm if there is one.
    pub fn for_frame(world: SimMode, num_agents: u32) -> (stats: FrameStats)
        ensures
            (stats.draw_calls as int, stats.instances as int, stats.triangles as int)
                == FrameStats::of(spec_draws(world, num_agents)),
            stats.draw_calls == (if num_agents > 0 { 2int } else { 1int }),
            stats.instances == num_agents,
            stats.triangles == num_agents * MESH_TRIANGLES,
    {
        let mut stats = FrameStats::default();
        stats.draw_calls = stats.draw_calls + 1;
        if num_agents > 0 {
            stats.draw_calls = stats.draw_calls + 1;
            stats.instances = stats.instances + num_agents as u64;
            assert(num_agents as u64 * MESH_TRIANGLES as u64 <= u64::MAX) by (nonlinear_arith);
            stats.triangles = stats.triangles + num_agents as u64 * MESH_TRIANGLES as u64;
        }
        proof {
            reveal_with_fuel(FrameStats::of, 3);
            let draws = spec_draws(world, num_agents);
            if num_agents > 0 {
                assert(draws.drop_last() =~= seq![draws[0]]);
            }
            assert(seq![draws[0]].drop_last() =~= Seq::<Draw>::empty());
        }
        stats
    }
}

/// The two parities alternate with the steps of the simulation.
pub proof fn law_bindings_follow_the_steps(a: SceneBinding, b: SceneBinding, step: int)
    requires
        step >= 0,
        a.parity() == step % 2,
        b.parity() == (step + 1) % 2,
    ensures
        a.parity() + b.parity() == 1,
{
}

/// Triangles of the terrain mesh: two per cell of a square of `segments` cells, of which there is at
/// least one per side.
pub fn terrain_triangles(segments: u32) -> (n: u32)
    requires
        segments * segments * 2 <= u32::MAX,
    ensures
        n == (if segments < 1 { 2 } else { segments * segments * 2 }),
{
    if segments < 1 {
        2
    } else {
        assert(segments * segments <= segments * segments * 2) by (nonlinear_arith);
        segments * segments * 2
    }
}

/// Triangles in an indexed mesh.
pub fn mesh_triangles(index_count: u32) -> (n: u32)
    ensures
        n == index_count / 3,
{
    index_count / 3
}

/// A frame draws the backdrop of its world first and the swarm behind it, if there is one: the reef under
/// water, the sky above it, and every agent once.
pub proof fn law_the_backdrop_comes_first(world: SimMode, num_agents: u32)
    ensures
        spec_draws(world, num_agents)[0] == Draw::Ocean <==> world == SimMode::Fish,
        spec_draws(world, num_agents)[0] == Draw::Background <==> world == SimMode::Birds,
        num_agents == 0 ==> spec_draws(world, num_agents).len() == 1,
        num_agents > 0 ==> spec_draws(world, num_agents).len() == 2 && spec_draws(world, num_agents)[1]
            == Draw::Agents(num_agents),
{
}

/// An agent's mesh is 22 triangles of three vertices each.
pub proof fn law_an_agent_is_twenty_two_triangles()
    ensures
        MESH_TRIANGLES == 22,
        MESH_VERTICES == 3 * 22,
{
}

/// Draws add up: a draw of agents counts as one call, as many instances as there are agents and 22
/// triangles for each; any other draw counts as one call.
pub proof fn law_draws_add_up(draws: Seq<Draw>, draw: Draw)
    ensures
        ({
            let (calls, instances, triangles) = FrameStats::of(draws);
            FrameStats::of(draws.push(draw)) == (match draw {
                Draw::Agents(n) => (calls + 1, instances + n, triangles + 22 * n),
                _ => (calls + 1, instances, triangles),
            })
        }),
        FrameStats::of(Seq::empty()) == (0int, 0int, 0int),
{
    assert(draws.push(draw).drop_last() =~= draws);
}

} // verus!
