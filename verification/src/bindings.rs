//! Which resource each shader binding holds.
//!
//! A bind group has to match its layout entry by entry: the same binding numbers, a uniform buffer
//! where the layout says uniform, and of the size that the shader reads. Layouts and groups are
//! described here side by side, and every group is shown to match its layout.

use crate::layout::GpuStruct;
use crate::post::PostImage;
use vstd::prelude::*;

verus! {

/// The shader stages that can see a binding.
#[derive(Debug, Clone, Copy, PartialEq, Eq, Structural)]
pub enum Stages {
    /// Vertex shaders.
    Vertex,
    /// Fragment shaders.
    Fragment,
    /// Both of them.
    VertexFragment,
    /// Compute shaders.
    Compute,
}

/// What a layout expects in a binding.
#[derive(Debug, Clone, Copy, PartialEq, Eq, Structural)]
pub enum BindingKind {
    /// A uniform buffer that holds one structure.
    Uniform(GpuStruct),
    /// A storage buffer that shaders only read.
    StorageRead,
    /// A storage buffer that shaders write.
    StorageWrite,
    /// A two-dimensional texture that is sampled with a filter.
    FilteredTexture,
    /// A two-dimensional texture that is read texel by texel.
    PlainTexture,
    /// A filtering sampler.
    Sampler,
}

/// One entry of a layout.
#[derive(Debug, Clone, Copy, PartialEq, Eq, Structural)]
pub struct LayoutEntry {
    /// The binding number.
    pub binding: u32,
    /// The stages that see it.
    pub stages: Stages,
    /// What it holds.
    pub kind: BindingKind,
}

/// A resource that is bound.
#[derive(Debug, Clone, Copy, PartialEq, Eq, Structural)]
pub enum Resource {
    /// The uniform of camera, creature, light and fog.
    Scene,
    /// The uniform of the water.
    Water,
    /// The uniform of the cursor, as the render passes read it.
    SceneInteraction,
    /// The uniform of the grade.
    Post,
    /// The uniform of the terrain.
    Terrain,
    /// The uniform of the sky.
    Sky,
    /// The baked heightfield.
    Heightfield,
    /// The scattered trees.
    Trees,
    /// The placed castles.
    Landmarks,
    /// One of the two agent buffers.
    Agents(u32),
    /// One of the two sort key buffers.
    Keys(u32),
    /// The first index of each cell.
    CellStart,
    /// One past the last index of each cell.
    CellEnd,
    /// The uniform of the simulation.
    Params,
    /// The uniform of the cursor, as the simulation reads it.
    Interaction,
    /// The viewer's single agent.
    ViewerAgent,
    /// The viewer's single tree.
    ViewerTree,
    /// The viewer's single castle.
    ViewerLandmark,
    /// An image of the post chain.
    Image(PostImage),
    /// The half-resolution ocean.
    Ocean,
    /// A linear sampler that clamps at the edges.
    LinearSampler,
}

/// One entry of a bind group.
#[derive(Debug, Clone, Copy, PartialEq, Eq, Structural)]
pub struct GroupEntry {
    /// The binding number.
    pub binding: u32,
    /// What is bound there.
    pub resource: Resource,
}

/// The bind group layouts.
#[derive(Debug, Clone, Copy, PartialEq, Eq, Structural)]
pub enum GroupLayout {
    /// Everything that a scene pass reads.
    Scene,
    /// The parameters and the grid of the simulation.
    Sim,
    /// A source and a destination buffer.
    Pair,
    /// The uniforms and images of a post pass.
    Post,
    /// The half-resolution ocean and its sampler.
    OceanResolve,
}

/// The bind groups.
#[derive(Debug, Clone, Copy, PartialEq, Eq, Structural)]
pub enum Group {
    /// The scene, with the agent buffer of a parity.
    Scene(u32),
    /// The scene's layout with the viewer's own single instances.
    Viewer,
    /// The simulation's parameters and grid.
    Sim,
    /// The agents: one buffer is read, the other written.
    AgentPair(u32),
    /// The sort keys: one buffer is read, the other written.
    KeyPair(u32),
    /// A post pass over two images.
    Post(PostImage, PostImage),
    /// The upsampling of the ocean.
    OceanResolve,
}

/// An entry of a layout.
pub open spec fn entry(binding: u32, stages: Stages, kind: BindingKind) -> LayoutEntry {
    LayoutEntry { binding, stages, kind }
}

impl GroupLayout {
    /// The entries of the layout.
    pub open spec fn spec_entries(self) -> Seq<LayoutEntry> {
        match self {
            GroupLayout::Scene => seq![
                entry(0, Stages::VertexFragment, BindingKind::Uniform(GpuStruct::SceneUniform)),
                entry(1, Stages::VertexFragment, BindingKind::StorageRead),
                entry(2, Stages::Fragment, BindingKind::Uniform(GpuStruct::WaterParams)),
                entry(3, Stages::Fragment, BindingKind::Uniform(GpuStruct::InteractionUniforms)),
                entry(4, Stages::Fragment, BindingKind::Uniform(GpuStruct::PostParams)),
                entry(5, Stages::VertexFragment, BindingKind::Uniform(GpuStruct::TerrainParams)),
                entry(6, Stages::VertexFragment, BindingKind::PlainTexture),
                entry(7, Stages::Vertex, BindingKind::StorageRead),
                entry(8, Stages::Fragment, BindingKind::Uniform(GpuStruct::SkyParams)),
                entry(9, Stages::Vertex, BindingKind::StorageRead),
            ],
            GroupLayout::Sim => seq![
                entry(0, Stages::Compute, BindingKind::Uniform(GpuStruct::SimParams)),
                entry(1, Stages::Compute, BindingKind::Uniform(GpuStruct::InteractionUniforms)),
                entry(2, Stages::Compute, BindingKind::StorageRead),
                entry(3, Stages::Compute, BindingKind::StorageRead),
                entry(4, Stages::Compute, BindingKind::StorageRead),
            ],
            GroupLayout::Pair => seq![
                entry(0, Stages::Compute, BindingKind::StorageRead),
                entry(1, Stages::Compute, BindingKind::StorageWrite),
            ],
            GroupLayout::Post => seq![
                entry(0, Stages::Fragment, BindingKind::Uniform(GpuStruct::PostParams)),
                entry(1, Stages::Fragment, BindingKind::Sampler),
                entry(2, Stages::Fragment, BindingKind::FilteredTexture),
                entry(3, Stages::Fragment, BindingKind::FilteredTexture),
            ],
            GroupLayout::OceanResolve => seq![
                entry(0, Stages::Fragment, BindingKind::FilteredTexture),
                entry(1, Stages::Fragment, BindingKind::Sampler),
            ],
        }
    }

    /// The entries of the layout.
    pub fn entries(self) -> (entries: Vec<LayoutEntry>)
        ensures
            entries@ == self.spec_entries(),
    {
        let entries = match self {
            GroupLayout::Scene => vec![
                made(0, Stages::VertexFragment, BindingKind::Uniform(GpuStruct::SceneUniform)),
                made(1, Stages::VertexFragment, BindingKind::StorageRead),
                made(2, Stages::Fragment, BindingKind::Uniform(GpuStruct::WaterParams)),
                made(3, Stages::Fragment, BindingKind::Uniform(GpuStruct::InteractionUniforms)),
                made(4, Stages::Fragment, BindingKind::Uniform(GpuStruct::PostParams)),
                made(5, Stages::VertexFragment, BindingKind::Uniform(GpuStruct::TerrainParams)),
                made(6, Stages::VertexFragment, BindingKind::PlainTexture),
                made(7, Stages::Vertex, BindingKind::StorageRead),
                made(8, Stages::Fragment, BindingKind::Uniform(GpuStruct::SkyParams)),
                made(9, Stages::Vertex, BindingKind::StorageRead),
            ],
            GroupLayout::Sim => vec![
                made(0, Stages::Compute, BindingKind::Uniform(GpuStruct::SimParams)),
                made(1, Stages::Compute, BindingKind::Uniform(GpuStruct::InteractionUniforms)),
                made(2, Stages::Compute, BindingKind::StorageRead),
                made(3, Stages::Compute, BindingKind::StorageRead),
                made(4, Stages::Compute, BindingKind::StorageRead),
            ],
            GroupLayout::Pair => vec![
                made(0, Stages::Compute, BindingKind::StorageRead),
                made(1, Stages::Compute, BindingKind::StorageWrite),
            ],
            GroupLayout::Post => vec![
                made(0, Stages::Fragment, BindingKind::Uniform(GpuStruct::PostParams)),
                made(1, Stages::Fragment, BindingKind::Sampler),
                made(2, Stages::Fragment, BindingKind::FilteredTexture),
                made(3, Stages::Fragment, BindingKind::FilteredTexture),
            ],
            GroupLayout::OceanResolve => vec![
                made(0, Stages::Fragment, BindingKind::FilteredTexture),
                made(1, Stages::Fragment, BindingKind::Sampler),
            ],
        };
        assert(entries@ =~= self.spec_entries());
        entries
    }
}

fn made(binding: u32, stages: Stages, kind: BindingKind) -> (e: LayoutEntry)
    ensures
        e == entry(binding, stages, kind),
{
    LayoutEntry { binding, stages, kind }
}

/// An entry of a group.
pub open spec fn bound(binding: u32, resource: Resource) -> GroupEntry {
    GroupEntry { binding, resource }
}

fn bind(binding: u32, resource: Resource) -> (e: GroupEntry)
    ensures
        e == bound(binding, resource),
{
    GroupEntry { binding, resource }
}

/// The scene's resources around an agent buffer, a tree buffer and a landmark buffer.
pub open spec fn scene_entries(
    agents: Resource,
    trees: Resource,
    landmarks: Resource,
) -> Seq<GroupEntry> {
    seq![
        bound(0, Resource::Scene),
        bound(1, agents),
        bound(2, Resource::Water),
        bound(3, Resource::SceneInteraction),
        bound(4, Resource::Post),
        bound(5, Resource::Terrain),
        bound(6, Resource::Heightfield),
        bound(7, trees),
        bound(8, Resource::Sky),
        bound(9, landmarks),
    ]
}

fn bind_scene(agents: Resource, trees: Resource, landmarks: Resource) -> (entries: Vec<GroupEntry>)
    ensures
        entries@ == scene_entries(agents, trees, landmarks),
{
    let entries = vec![
        bind(0, Resource::Scene),
        bind(1, agents),
        bind(2, Resource::Water),
        bind(3, Resource::SceneInteraction),
        bind(4, Resource::Post),
        bind(5, Resource::Terrain),
        bind(6, Resource::Heightfield),
        bind(7, trees),
        bind(8, Resource::Sky),
        bind(9, landmarks),
    ];
    assert(entries@ =~= scene_entries(agents, trees, landmarks));
    entries
}

impl Group {
    /// Whether the buffers that the group names exist: there are two of each pair.
    pub open spec fn wf(self) -> bool {
        match self {
            Group::Scene(parity) => parity < 2,
            Group::AgentPair(read) => read < 2,
            Group::KeyPair(read) => read < 2,
            _ => true,
        }
    }

    /// The layout that the group is made for.
    pub open spec fn spec_layout(self) -> GroupLayout {
        match self {
            Group::Scene(_) | Group::Viewer => GroupLayout::Scene,
            Group::Sim => GroupLayout::Sim,
            Group::AgentPair(_) | Group::KeyPair(_) => GroupLayout::Pair,
            Group::Post(_, _) => GroupLayout::Post,
            Group::OceanResolve => GroupLayout::OceanResolve,
        }
    }

    /// The entries of the group.
    pub open spec fn spec_entries(self) -> Seq<GroupEntry> {
        match self {
            Group::Scene(parity) => scene_entries(
                Resource::Agents(parity),
                Resource::Trees,
                Resource::Landmarks,
            ),
            Group::Viewer => scene_entries(
                Resource::ViewerAgent,
                Resource::ViewerTree,
                Resource::ViewerLandmark,
            ),
            Group::Sim => seq![
                bound(0, Resource::Params),
                bound(1, Resource::Interaction),
                bound(2, Resource::Keys(0)),
                bound(3, Resource::CellStart),
                bound(4, Resource::CellEnd),
            ],
            Group::AgentPair(read) => seq![
                bound(0, Resource::Agents(read)),
                bound(1, Resource::Agents((1 - read) as u32)),
            ],
            Group::KeyPair(read) => seq![
                bound(0, Resource::Keys(read)),
                bound(1, Resource::Keys((1 - read) as u32)),
            ],
            Group::Post(first, second) => seq![
                bound(0, Resource::Post),
                bound(1, Resource::LinearSampler),
                bound(2, Resource::Image(first)),
                bound(3, Resource::Image(second)),
            ],
            Group::OceanResolve => seq![
                bound(0, Resource::Ocean),
                bound(1, Resource::LinearSampler),
            ],
        }
    }

    /// The layout that the group is made for.
    pub fn layout(self) -> (layout: GroupLayout)
        ensures
            layout == self.spec_layout(),
    {
        match self {
            Group::Scene(_) | Group::Viewer => GroupLayout::Scene,
            Group::Sim => GroupLayout::Sim,
            Group::AgentPair(_) | Group::KeyPair(_) => GroupLayout::Pair,
            Group::Post(_, _) => GroupLayout::Post,
            Group::OceanResolve => GroupLayout::OceanResolve,
        }
    }

    /// The entries of the group.
    pub fn entries(self) -> (entries: Vec<GroupEntry>)
        requires
            self.wf(),
        ensures
            entries@ == self.spec_entries(),
    {
        let entries = match self {
            Group::Scene(parity) => bind_scene(
                Resource::Agents(parity),
                Resource::Trees,
                Resource::Landmarks,
            ),
            Group::Viewer => bind_scene(
                Resource::ViewerAgent,
                Resource::ViewerTree,
                Resource::ViewerLandmark,
            ),
            Group::Sim => vec![
                bind(0, Resource::Params),
                bind(1, Resource::Interaction),
                bind(2, Resource::Keys(0)),
                bind(3, Resource::CellStart),
                bind(4, Resource::CellEnd),
            ],
            Group::AgentPair(read) => {
                let write: u32 = 1 - read;
                vec![bind(0, Resource::Agents(read)), bind(1, Resource::Agents(write))]
            },
            Group::KeyPair(read) => {
                let write: u32 = 1 - read;
                vec![bind(0, Resource::Keys(read)), bind(1, Resource::Keys(write))]
            },
            Group::Post(first, second) => vec![
                bind(0, Resource::Post),
                bind(1, Resource::LinearSampler),
                bind(2, Resource::Image(first)),
                bind(3, Resource::Image(second)),
            ],
            Group::OceanResolve => vec![
                bind(0, Resource::Ocean),
                bind(1, Resource::LinearSampler),
            ],
        };
        assert(entries@ =~= self.spec_entries());
        entries
    }
}

/// The structure that a uniform buffer holds; `None` for any other resource.
pub open spec fn uniform_struct(resource: Resource) -> Option<GpuStruct> {
    match resource {
        Resource::Scene => Some(GpuStruct::SceneUniform),
        Resource::Water => Some(GpuStruct::WaterParams),
        Resource::SceneInteraction | Resource::Interaction => Some(GpuStruct::InteractionUniforms),
        Resource::Post => Some(GpuStruct::PostParams),
        Resource::Terrain => Some(GpuStruct::TerrainParams),
        Resource::Sky => Some(GpuStruct::SkyParams),
        Resource::Params => Some(GpuStruct::SimParams),
        _ => None,
    }
}

/// Whether a resource is a storage buffer.
pub open spec fn is_storage(resource: Resource) -> bool {
    match resource {
        Resource::Trees
        | Resource::Landmarks
        | Resource::Agents(_)
        | Resource::Keys(_)
        | Resource::CellStart
        | Resource::CellEnd
        | Resource::ViewerAgent
        | Resource::ViewerTree
        | Resource::ViewerLandmark => true,
        _ => false,
    }
}

/// Whether a resource is what a layout expects.
pub open spec fn fits(kind: BindingKind, resource: Resource) -> bool {
    match kind {
        BindingKind::Uniform(s) => uniform_struct(resource) == Some(s),
        BindingKind::StorageRead | BindingKind::StorageWrite => is_storage(resource),
        BindingKind::FilteredTexture => resource == Resource::Ocean || resource is Image,
        BindingKind::PlainTexture => resource == Resource::Heightfield,
        BindingKind::Sampler => resource == Resource::LinearSampler,
    }
}

/// Every group matches its layout: the bindings are numbered from zero without a gap, in both, and each
/// holds a resource of the kind that the layout expects there.
pub proof fn law_groups_match_their_layouts(group: Group, i: int)
    requires
        group.wf(),
    ensures
        group.spec_entries().len() == group.spec_layout().spec_entries().len(),
        0 <= i < group.spec_entries().len() ==> {
            &&& group.spec_entries()[i].binding == i
            &&& group.spec_layout().spec_entries()[i].binding == i
            &&& fits(group.spec_layout().spec_entries()[i].kind, group.spec_entries()[i].resource)
        },
{
}

/// A step never reads the buffer that it writes, and the next step reads what this one wrote.
pub proof fn law_pairs_are_two_buffers(read: u32)
    requires
        read < 2,
    ensures
        Group::AgentPair(read).spec_entries()[0].resource != Group::AgentPair(
            read,
        ).spec_entries()[1].resource,
        Group::AgentPair((1 - read) as u32).spec_entries()[0].resource == Group::AgentPair(
            read,
        ).spec_entries()[1].resource,
        Group::KeyPair(read).spec_entries()[0].resource != Group::KeyPair(
            read,
        ).spec_entries()[1].resource,
{
}

/// The viewer shows the scene's own resources but for the three instance buffers.
pub proof fn law_the_viewer_swaps_only_instances(parity: u32, i: int)
    requires
        parity < 2,
        0 <= i < 10,
    ensures
        Group::Viewer.spec_entries()[i] == Group::Scene(parity).spec_entries()[i] <==> i != 1 && i != 7
            && i != 9,
        Group::Scene(0).spec_entries()[i] == Group::Scene(1).spec_entries()[i] <==> i != 1,
{
}

/// Where the shaders of the scene look for each resource.
pub proof fn law_scene_resources_are_where_the_shaders_look(parity: u32)
    requires
        parity < 2,
    ensures
        ({
            let held = Group::Scene(parity).spec_entries();
            &&& held.len() == 10
            &&& held[0].resource == Resource::Scene
            &&& held[1].resource == Resource::Agents(parity)
            &&& held[2].resource == Resource::Water
            &&& held[3].resource == Resource::SceneInteraction
            &&& held[4].resource == Resource::Post
            &&& held[5].resource == Resource::Terrain
            &&& held[6].resource == Resource::Heightfield
            &&& held[7].resource == Resource::Trees
            &&& held[8].resource == Resource::Sky
            &&& held[9].resource == Resource::Landmarks
        }),
        ({
            let shown = Group::Viewer.spec_entries();
            &&& shown[1].resource == Resource::ViewerAgent
            &&& shown[7].resource == Resource::ViewerTree
            &&& shown[9].resource == Resource::ViewerLandmark
        }),
{
}

/// Where the compute and the post shaders look for each resource: what is read comes before what is
/// written, and uniforms before everything.
pub proof fn law_other_resources_are_where_the_shaders_look(read: u32, first: PostImage, second: PostImage)
    requires
        read < 2,
    ensures
        ({
            let held = Group::Sim.spec_entries();
            &&& held.len() == 5
            &&& held[0].resource == Resource::Params
            &&& held[1].resource == Resource::Interaction
            &&& held[2].resource == Resource::Keys(0)
            &&& held[3].resource == Resource::CellStart
            &&& held[4].resource == Resource::CellEnd
        }),
        Group::AgentPair(read).spec_entries()[0].resource == Resource::Agents(read),
        Group::AgentPair(read).spec_entries()[1].resource == Resource::Agents(
            if read == 0 {
                1
            } else {
                0
            },
        ),
        Group::KeyPair(read).spec_entries()[0].resource == Resource::Keys(read),
        Group::KeyPair(read).spec_entries()[1].resource == Resource::Keys(
            if read == 0 {
                1
            } else {
                0
            },
        ),
        ({
            let held = Group::Post(first, second).spec_entries();
            &&& held.len() == 4
            &&& held[0].resource == Resource::Post
            &&& held[1].resource == Resource::LinearSampler
            &&& held[2].resource == Resource::Image(first)
            &&& held[3].resource == Resource::Image(second)
        }),
        Group::OceanResolve.spec_entries()[0].resource == Resource::Ocean,
        Group::OceanResolve.spec_entries()[1].resource == Resource::LinearSampler,
{
}

/// The stages that read a resource see it: the compute layouts are seen by compute shaders alone, the
/// full-screen ones by fragment shaders alone, and in the scene the instance buffers by vertex shaders
/// alone, the water, the cursor, the grade and the sky by fragment shaders alone, and the rest by both.
pub proof fn law_stages_see_what_they_read(layout: GroupLayout, i: int)
    requires
        0 <= i < layout.spec_entries().len(),
    ensures
        layout == GroupLayout::Sim || layout == GroupLayout::Pair ==> layout.spec_entries()[i].stages
            == Stages::Compute,
        layout == GroupLayout::Post || layout == GroupLayout::OceanResolve
            ==> layout.spec_entries()[i].stages == Stages::Fragment,
        layout == GroupLayout::Scene ==> layout.spec_entries()[i].stages == (if i == 7 || i == 9 {
            Stages::Vertex
        } else if i == 2 || i == 3 || i == 4 || i == 8 {
            Stages::Fragment
        } else {
            Stages::VertexFragment
        }),
{
}

/// What is bound where is of the kind that the shaders declare there: uniforms of the right structure, and
/// storage that is written only as the second buffer of a pair.
pub proof fn law_bindings_are_of_their_kind(layout: GroupLayout, i: int)
    requires
        0 <= i < layout.spec_entries().len(),
    ensures
        layout.spec_entries()[i].kind == BindingKind::StorageWrite <==> layout == GroupLayout::Pair && i
            == 1,
        layout.spec_entries()[i].kind == BindingKind::Sampler <==> (layout == GroupLayout::Post || layout
            == GroupLayout::OceanResolve) && i == 1,
        layout.spec_entries()[i].kind matches BindingKind::Uniform(s) ==> {
            ||| layout == GroupLayout::Scene && i == 0 && s == GpuStruct::SceneUniform
            ||| layout == GroupLayout::Scene && i == 2 && s == GpuStruct::WaterParams
            ||| layout == GroupLayout::Scene && i == 3 && s == GpuStruct::InteractionUniforms
            ||| layout == GroupLayout::Scene && i == 4 && s == GpuStruct::PostParams
            ||| layout == GroupLayout::Scene && i == 5 && s == GpuStruct::TerrainParams
            ||| layout == GroupLayout::Scene && i == 8 && s == GpuStruct::SkyParams
            ||| layout == GroupLayout::Sim && i == 0 && s == GpuStruct::SimParams
            ||| layout == GroupLayout::Sim && i == 1 && s == GpuStruct::InteractionUniforms
            ||| layout == GroupLayout::Post && i == 0 && s == GpuStruct::PostParams
        },
        layout.spec_entries()[i].kind == BindingKind::PlainTexture <==> layout == GroupLayout::Scene && i
            == 6,
{
}

/// Every group is made for its layout.
pub proof fn law_groups_are_made_for_their_layouts(group: Group)
    ensures
        group.spec_layout() == GroupLayout::Scene <==> group is Scene || group is Viewer,
        group.spec_layout() == GroupLayout::Sim <==> group is Sim,
        group.spec_layout() == GroupLayout::Pair <==> group is AgentPair || group is KeyPair,
        group.spec_layout() == GroupLayout::Post <==> group is Post,
        group.spec_layout() == GroupLayout::OceanResolve <==> group is OceanResolve,
{
}

} // verus!
