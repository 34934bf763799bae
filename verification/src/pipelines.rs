//! The fixed state of every pipeline: its shader, its entry points, what it writes and how it treats
//! depth.

use crate::bindings::GroupLayout;
use crate::post::{composite_entry, PostPipeline};
use crate::strategy::Strategy;
use vstd::prelude::*;

verus! {

/// A pass that draws.
#[derive(Debug, Clone, Copy, PartialEq, Eq, Structural)]
pub enum RenderPass {
    /// The sky gradient.
    Background,
    /// The swarm.
    Boids,
    /// The ground.
    Terrain,
    /// The forest.
    Trees,
    /// The castle.
    Landmarks,
    /// The reef, at half resolution.
    OceanRaymarch,
    /// The reef, brought to full resolution.
    OceanResolve,
    /// A pass of the post chain, for a target that is in sRGB or not.
    Post(PostPipeline, bool),
}

/// What a pipeline writes its colour to.
#[derive(Debug, Clone, Copy, PartialEq, Eq, Structural)]
pub enum ColorTarget {
    /// A half-float image.
    Hdr,
    /// What is presented.
    Surface,
}

/// Which fragments pass the depth test.
#[derive(Debug, Clone, Copy, PartialEq, Eq, Structural)]
pub enum DepthTest {
    /// All of them.
    Always,
    /// Those that are no farther than what is there.
    LessEqual,
}

/// How a pipeline treats the depth attachment.
#[derive(Debug, Clone, Copy, PartialEq, Eq, Structural)]
pub struct DepthPlan {
    /// Whether it writes depth.
    pub write: bool,
    /// Which fragments it keeps.
    pub test: DepthTest,
}

/// The fixed state of a render pipeline.
#[derive(Debug, Clone, Copy)]
pub struct PipelinePlan {
    /// Name, for the debugger.
    pub label: &'static str,
    /// Shader file, relative to the shader root.
    pub shader: &'static str,
    /// Vertex entry point.
    pub vertex: &'static str,
    /// Fragment entry point.
    pub fragment: &'static str,
    /// Where the colour goes.
    pub target: ColorTarget,
    /// Whether the colour is added to what is there rather than replacing it.
    pub additive: bool,
    /// Whether back faces are culled.
    pub cull_back: bool,
    /// How depth is treated; `None` if there is no depth attachment.
    pub depth: Option<DepthPlan>,
    /// Whether vertices come from a mesh buffer; else the shader makes them up.
    pub mesh: bool,
}

impl RenderPass {
    /// Name, for the debugger.
    pub open spec fn label(self) -> Seq<char> {
        match self {
            RenderPass::Background => "background"@,
            RenderPass::Boids => "boid"@,
            RenderPass::Terrain => "terrain"@,
            RenderPass::Trees => "tree"@,
            RenderPass::Landmarks => "landmark"@,
            RenderPass::OceanRaymarch => "ocean"@,
            RenderPass::OceanResolve => "ocean resolve"@,
            RenderPass::Post(PostPipeline::Bright, _) => "bloom bright"@,
            RenderPass::Post(PostPipeline::Down, _) => "bloom down"@,
            RenderPass::Post(PostPipeline::Up, _) => "bloom up"@,
            RenderPass::Post(PostPipeline::Composite, _) => "composite"@,
        }
    }

    /// Shader file.
    pub open spec fn shader(self) -> Seq<char> {
        match self {
            RenderPass::Background => "render/background.wgsl"@,
            RenderPass::Boids => "render/boid.wgsl"@,
            RenderPass::Terrain => "render/terrain.wgsl"@,
            RenderPass::Trees => "render/tree.wgsl"@,
            RenderPass::Landmarks => "render/landmark.wgsl"@,
            RenderPass::OceanRaymarch => "render/ocean.wgsl"@,
            RenderPass::OceanResolve => "render/ocean_resolve.wgsl"@,
            RenderPass::Post(PostPipeline::Composite, _) => "render/composite.wgsl"@,
            RenderPass::Post(_, _) => "render/bloom.wgsl"@,
        }
    }

    /// Vertex entry point.
    pub open spec fn vertex(self) -> Seq<char> {
        if self is Post {
            "vs_fullscreen"@
        } else {
            "vs_main"@
        }
    }

    /// Fragment entry point.
    pub open spec fn fragment(self) -> Seq<char> {
        match self {
            RenderPass::Post(PostPipeline::Bright, _) => "fs_bright"@,
            RenderPass::Post(PostPipeline::Down, _) => "fs_down"@,
            RenderPass::Post(PostPipeline::Up, _) => "fs_up"@,
            RenderPass::Post(PostPipeline::Composite, is_srgb) => if is_srgb {
                "fs_composite"@
            } else {
                "fs_composite_encoded"@
            },
            _ => "fs_main"@,
        }
    }

    /// Where the colour goes: only the composite leaves the half-float images.
    pub open spec fn target(self) -> ColorTarget {
        match self {
            RenderPass::Post(PostPipeline::Composite, _) => ColorTarget::Surface,
            _ => ColorTarget::Hdr,
        }
    }

    /// Whether the pass draws into the scene and shares its depth attachment.
    pub open spec fn in_scene(self) -> bool {
        !(self is Post) && self != RenderPass::OceanRaymarch
    }

    /// How depth is treated. The backdrops come first and let everything pass; the sky writes no depth
    /// and the reef writes its own; all that comes later is tested and written.
    pub open spec fn depth(self) -> Option<DepthPlan> {
        match self {
            RenderPass::Background => Some(DepthPlan { write: false, test: DepthTest::Always }),
            RenderPass::OceanResolve => Some(DepthPlan { write: true, test: DepthTest::Always }),
            RenderPass::Boids
            | RenderPass::Terrain
            | RenderPass::Trees
            | RenderPass::Landmarks => Some(DepthPlan { write: true, test: DepthTest::LessEqual }),
            RenderPass::OceanRaymarch | RenderPass::Post(_, _) => None,
        }
    }

    /// Whether vertices come from a mesh buffer.
    pub open spec fn has_mesh(self) -> bool {
        self == RenderPass::Trees || self == RenderPass::Landmarks
    }

    /// Whether back faces are culled: only closed surfaces can afford it.
    pub open spec fn culls_back(self) -> bool {
        self == RenderPass::Terrain || self.has_mesh()
    }

    /// The bind group layouts, group by group.
    pub open spec fn spec_groups(self) -> Seq<GroupLayout> {
        match self {
            RenderPass::OceanResolve => seq![GroupLayout::Scene, GroupLayout::OceanResolve],
            RenderPass::Post(_, _) => seq![GroupLayout::Post],
            _ => seq![GroupLayout::Scene],
        }
    }

    /// The bind group layouts, group by group.
    pub fn groups(self) -> (groups: Vec<GroupLayout>)
        ensures
            groups@ == self.spec_groups(),
    {
        let groups = match self {
            RenderPass::OceanResolve => vec![GroupLayout::Scene, GroupLayout::OceanResolve],
            RenderPass::Post(_, _) => vec![GroupLayout::Post],
            _ => vec![GroupLayout::Scene],
        };
        assert(groups@ =~= self.spec_groups());
        groups
    }

    /// The fixed state of the pass's pipeline.
    pub fn plan(self) -> (plan: PipelinePlan)
        ensures
            plan.label@ == self.label(),
            plan.shader@ == self.shader(),
            plan.vertex@ == self.vertex(),
            plan.fragment@ == self.fragment(),
            plan.target == self.target(),
            plan.additive == (self matches RenderPass::Post(PostPipeline::Up, _)),
            plan.cull_back == self.culls_back(),
            plan.depth == self.depth(),
            plan.mesh == self.has_mesh(),
    {
        match self {
            RenderPass::Background => scene_plan(
                "background",
                "render/background.wgsl",
                Some(DepthPlan { write: false, test: DepthTest::Always }),
                false,
                false,
            ),
            RenderPass::Boids => scene_plan("boid", "render/boid.wgsl", tested(), false, false),
            RenderPass::Terrain => scene_plan("terrain", "render/terrain.wgsl", tested(), true, false),
            RenderPass::Trees => scene_plan("tree", "render/tree.wgsl", tested(), true, true),
            RenderPass::Landmarks => scene_plan(
                "landmark",
                "render/landmark.wgsl",
                tested(),
                true,
                true,
            ),
            RenderPass::OceanRaymarch => scene_plan("ocean", "render/ocean.wgsl", None, false, false),
            RenderPass::OceanResolve => scene_plan(
                "ocean resolve",
                "render/ocean_resolve.wgsl",
                // The value comes from the raymarched distance, and there is no earlier geometry.
                Some(DepthPlan { write: true, test: DepthTest::Always }),
                false,
                false,
            ),
            RenderPass::Post(pipeline, is_srgb) => {
                let (label, shader, fragment) = match pipeline {
                    PostPipeline::Bright => ("bloom bright", "render/bloom.wgsl", "fs_bright"),
                    PostPipeline::Down => ("bloom down", "render/bloom.wgsl", "fs_down"),
                    PostPipeline::Up => ("bloom up", "render/bloom.wgsl", "fs_up"),
                    PostPipeline::Composite => (
                        "composite",
                        "render/composite.wgsl",
                        composite_entry(is_srgb),
                    ),
                };
                PipelinePlan {
                    label,
                    shader,
                    vertex: "vs_fullscreen",
                    fragment,
                    target: if pipeline == PostPipeline::Composite {
                        ColorTarget::Surface
                    } else {
                        ColorTarget::Hdr
                    },
                    additive: pipeline == PostPipeline::Up,
                    cull_back: false,
                    depth: None,
                    mesh: false,
                }
            },
        }
    }
}

fn tested() -> (depth: Option<DepthPlan>)
    ensures
        depth == Some(DepthPlan { write: true, test: DepthTest::LessEqual }),
{
    Some(DepthPlan { write: true, test: DepthTest::LessEqual })
}

fn scene_plan(
    label: &'static str,
    shader: &'static str,
    depth: Option<DepthPlan>,
    cull_back: bool,
    mesh: bool,
) -> (plan: PipelinePlan)
    ensures
        plan.label == label && plan.shader == shader && plan.depth == depth,
        plan.cull_back == cull_back && plan.mesh == mesh && !plan.additive,
        plan.vertex@ == "vs_main"@ && plan.fragment@ == "fs_main"@,
        plan.target == ColorTarget::Hdr,
{
    PipelinePlan {
        label,
        shader,
        vertex: "vs_main",
        fragment: "fs_main",
        target: ColorTarget::Hdr,
        additive: false,
        cull_back,
        depth,
        mesh,
    }
}

/// The entry point of the integration shader for a neighbour search.
pub fn integrate_entry(strategy: Strategy) -> (entry: &'static str)
    ensures
        entry@ == (match strategy {
            Strategy::Naive => "integrate_naive"@,
            Strategy::Grid => "integrate_grid"@,
        }),
{
    match strategy {
        Strategy::Naive => "integrate_naive",
        Strategy::Grid => "integrate_grid",
    }
}

/// The passes that draw into the scene, and only they, have depth state, because they share one depth
/// attachment; all of them write the same colour format.
pub proof fn law_scene_passes_share_their_attachments(pass: RenderPass)
    ensures
        pass.in_scene() <==> pass.depth() is Some,
        pass.in_scene() ==> pass.target() == ColorTarget::Hdr,
        pass.in_scene() ==> pass.spec_groups()[0] == GroupLayout::Scene,
{
}

/// A pass that is tested against depth writes its own, so that whatever is drawn later can be hidden by
/// it.
pub proof fn law_what_is_tested_is_written(pass: RenderPass)
    ensures
        pass.depth() matches Some(depth) ==> (depth.test == DepthTest::LessEqual ==> depth.write),
{
}

/// A pass of the scene runs the shader that bears its label; the upsampling of the ocean and the
/// full-screen passes run shaders of their own.
pub proof fn law_passes_run_their_shaders(pass: RenderPass)
    ensures
        !(pass is Post) && pass != RenderPass::OceanResolve ==> pass.shader() == "render/"@ + pass.label()
            + ".wgsl"@,
        pass == RenderPass::OceanResolve ==> pass.shader() == "render/ocean_resolve.wgsl"@,
        (pass matches RenderPass::Post(PostPipeline::Composite, _)) ==> pass.shader()
            == "render/composite.wgsl"@,
        (pass matches RenderPass::Post(pipeline, _) && pipeline != PostPipeline::Composite)
            ==> pass.shader() == "render/bloom.wgsl"@,
        pass == RenderPass::Background ==> pass.label() == "background"@,
        pass == RenderPass::Boids ==> pass.label() == "boid"@,
        pass == RenderPass::Terrain ==> pass.label() == "terrain"@,
        pass == RenderPass::Trees ==> pass.label() == "tree"@,
        pass == RenderPass::Landmarks ==> pass.label() == "landmark"@,
        pass == RenderPass::OceanRaymarch ==> pass.label() == "ocean"@,
        pass == RenderPass::OceanResolve ==> pass.label() == "ocean resolve"@,
        (pass matches RenderPass::Post(PostPipeline::Bright, _)) ==> pass.label() == "bloom bright"@,
        (pass matches RenderPass::Post(PostPipeline::Down, _)) ==> pass.label() == "bloom down"@,
        (pass matches RenderPass::Post(PostPipeline::Up, _)) ==> pass.label() == "bloom up"@,
        (pass matches RenderPass::Post(PostPipeline::Composite, _)) ==> pass.label() == "composite"@,
{
    reveal_strlit("render/");
    reveal_strlit(".wgsl");
    reveal_strlit("background");
    reveal_strlit("boid");
    reveal_strlit("terrain");
    reveal_strlit("tree");
    reveal_strlit("landmark");
    reveal_strlit("ocean");
    reveal_strlit("render/background.wgsl");
    reveal_strlit("render/boid.wgsl");
    reveal_strlit("render/terrain.wgsl");
    reveal_strlit("render/tree.wgsl");
    reveal_strlit("render/landmark.wgsl");
    reveal_strlit("render/ocean.wgsl");
    if !(pass is Post) && pass != RenderPass::OceanResolve {
        assert(pass.shader() =~= "render/"@ + pass.label() + ".wgsl"@);
    }
}

/// Every full-screen pass has an entry point of its own, and the composite one for each kind of target; all
/// others are called the same.
pub proof fn law_passes_enter_where_they_should(pass: RenderPass)
    ensures
        pass is Post <==> pass.vertex() == "vs_fullscreen"@,
        !(pass is Post) ==> pass.vertex() == "vs_main"@ && pass.fragment() == "fs_main"@,
        (pass matches RenderPass::Post(PostPipeline::Bright, _)) ==> pass.fragment() == "fs_bright"@,
        (pass matches RenderPass::Post(PostPipeline::Down, _)) ==> pass.fragment() == "fs_down"@,
        (pass matches RenderPass::Post(PostPipeline::Up, _)) ==> pass.fragment() == "fs_up"@,
        (pass matches RenderPass::Post(PostPipeline::Composite, true)) ==> pass.fragment()
            == "fs_composite"@,
        (pass matches RenderPass::Post(PostPipeline::Composite, false)) ==> pass.fragment()
            == "fs_composite_encoded"@,
{
    reveal_strlit("vs_main");
    reveal_strlit("vs_fullscreen");
    assert("vs_main"@.len() != "vs_fullscreen"@.len());
}

/// The swarm, the terrain, the trees and the landmarks hide one another by depth; the sky hides nothing, and
/// the reef is hidden by nothing that came before it. Only the composite leaves the half-float images, only
/// trees and landmarks are meshes, and only they and the terrain are closed.
pub proof fn law_depth_hides_what_is_behind(pass: RenderPass)
    ensures
        pass == RenderPass::Boids || pass == RenderPass::Terrain || pass == RenderPass::Trees || pass
            == RenderPass::Landmarks <==> (pass.depth() matches Some(depth) && depth.test
            == DepthTest::LessEqual),
        pass == RenderPass::Background <==> (pass.depth() matches Some(depth) && !depth.write),
        pass == RenderPass::OceanResolve ==> (pass.depth() matches Some(depth) && depth.write && depth.test
            == DepthTest::Always),
        pass.target() == ColorTarget::Surface <==> (pass matches RenderPass::Post(
            PostPipeline::Composite,
            _,
        )),
        pass.has_mesh() <==> pass == RenderPass::Trees || pass == RenderPass::Landmarks,
        pass.culls_back() <==> pass == RenderPass::Terrain || pass == RenderPass::Trees || pass
            == RenderPass::Landmarks,
        pass.spec_groups().len() == (if pass == RenderPass::OceanResolve {
            2int
        } else {
            1
        }),
        pass is Post ==> pass.spec_groups()[0] == GroupLayout::Post,
        !(pass is Post) ==> pass.spec_groups()[0] == GroupLayout::Scene,
        pass == RenderPass::OceanResolve ==> pass.spec_groups()[1] == GroupLayout::OceanResolve,
{
}

} // verus!
