//! The uniforms that the host fills in: their words in memory order, and the tables they are filled
//! from.
//!
//! Unless said otherwise, a field is the bit pattern of a single.

use crate::config::SimConfig;
use crate::layout::GpuStruct;
use crate::modes::{InteractionMode, SimMode};
use crate::transfer::bytes_of_words;
use vstd::prelude::*;

verus! {

fn put_one(words: &mut Vec<u32>, word: u32, Ghost(parts): Ghost<Seq<Seq<u32>>>)
    requires
        old(words)@ == crate::layout::flat(parts),
    ensures
        final(words)@ == crate::layout::flat(parts.push(seq![word])),
{
    words.push(word);
    proof {
        assert(parts.push(seq![word]).drop_last() =~= parts);
        assert(words@ =~= crate::layout::flat(parts) + seq![word]);
    }
}

fn put_three(words: &mut Vec<u32>, three: [u32; 3], Ghost(parts): Ghost<Seq<Seq<u32>>>)
    requires
        old(words)@ == crate::layout::flat(parts),
    ensures
        final(words)@ == crate::layout::flat(parts.push(three@)),
{
    words.push(three[0]);
    words.push(three[1]);
    words.push(three[2]);
    proof {
        assert(parts.push(three@).drop_last() =~= parts);
        assert(words@ =~= crate::layout::flat(parts) + three@);
    }
}

/// The cursor's influence.
#[derive(Debug, Clone, Copy, PartialEq, Eq)]
pub struct InteractionUniforms {
    /// Where the cursor's ray starts.
    pub ray_origin: [u32; 3],
    /// The cursor mode, as its code.
    pub mode: u32,
    /// The point that attracts or repels.
    pub focus_point: [u32; 3],
    /// How far the influence reaches.
    pub radius: u32,
    /// Acceleration at the focus.
    pub strength: u32,
    /// How fast the influence fades.
    pub falloff: u32,
    /// Acceleration around the focus.
    pub tangent: u32,
    /// Padding.
    pub _pad: u32,
}

impl InteractionUniforms {
    /// The fields as the sequences of words they are stored as.
    pub open spec fn field_data(self) -> Seq<Seq<u32>> {
        seq![
            self.ray_origin@,
            seq![self.mode],
            self.focus_point@,
            seq![self.radius],
            seq![self.strength],
            seq![self.falloff],
            seq![self.tangent],
            seq![self._pad],
        ]
    }

    /// The words of the structure in memory order.
    pub fn words(&self) -> (words: Vec<u32>)
        ensures
            words@ == crate::layout::flat(self.field_data()),
    {
        let mut words: Vec<u32> = Vec::new();
        let ghost parts = Seq::<Seq<u32>>::empty();
        put_three(&mut words, self.ray_origin, Ghost(parts));
        let ghost parts = parts.push(self.ray_origin@);
        put_one(&mut words, self.mode, Ghost(parts));
        let ghost parts = parts.push(seq![self.mode]);
        put_three(&mut words, self.focus_point, Ghost(parts));
        let ghost parts = parts.push(self.focus_point@);
        put_one(&mut words, self.radius, Ghost(parts));
        let ghost parts = parts.push(seq![self.radius]);
        put_one(&mut words, self.strength, Ghost(parts));
        let ghost parts = parts.push(seq![self.strength]);
        put_one(&mut words, self.falloff, Ghost(parts));
        let ghost parts = parts.push(seq![self.falloff]);
        put_one(&mut words, self.tangent, Ghost(parts));
        let ghost parts = parts.push(seq![self.tangent]);
        put_one(&mut words, self._pad, Ghost(parts));
        let ghost parts = parts.push(seq![self._pad]);
        assert(parts == self.field_data());
        words
    }
}

/// Everything one simulation step reads.
#[derive(Debug, Clone, Copy, PartialEq, Eq)]
pub struct SimParams {
    /// World-space minimum corner of the grid.
    pub grid_min: [u32; 3],
    /// Edge length of a cell.
    pub cell_size: u32,
    /// Cells per axis, as integers.
    pub grid_dim: [u32; 3],
    /// Number of live agents, as an integer.
    pub num_boids: u32,
    /// Separation weight.
    pub w_sep: u32,
    /// Alignment weight.
    pub w_ali: u32,
    /// Cohesion weight.
    pub w_coh: u32,
    /// Perception radius.
    pub r_percept: u32,
    /// Separation radius.
    pub r_sep: u32,
    /// Speed clamp.
    pub max_speed: u32,
    /// Speed clamp.
    pub min_speed: u32,
    /// Steering force clamp.
    pub max_force: u32,
    /// Timestep.
    pub dt: u32,
    /// Simulation clock.
    pub time: u32,
    /// Avoidance scale.
    pub sdf_strength: u32,
    /// Forward probe distance.
    pub sdf_probe: u32,
    /// Half extent of the soft bounds.
    pub bounds_half: [u32; 3],
    /// The world, as its code.
    pub mode: u32,
    /// Wander force scale.
    pub wander: u32,
    /// Reciprocal of the reference density, which turns a neighbour count into a density.
    pub sep_boost: u32,
    /// Exponent of the density feedback: the separation weight is multiplied by the density to this power,
    /// and the cohesion weight divided by it.
    pub coh_falloff: u32,
    /// Margin kept from surfaces.
    pub r_safe: u32,
    /// Constant vertical push.
    pub buoyancy: u32,
    /// Medium drag.
    pub drag: u32,
    /// Scale of the environment field.
    pub env_scale: u32,
    /// Height of the sea floor.
    pub env_floor_y: u32,
    /// The environment, as its code.
    pub env_id: u32,
    /// Frequency of the environment field.
    pub env_freq: u32,
    /// Padding.
    pub _pad1: u32,
    /// Padding.
    pub _pad2: u32,
}

impl SimParams {
    /// The fields as the sequences of words they are stored as.
    pub open spec fn field_data(self) -> Seq<Seq<u32>> {
        seq![
            self.grid_min@,
            seq![self.cell_size],
            self.grid_dim@,
            seq![self.num_boids],
            seq![self.w_sep],
            seq![self.w_ali],
            seq![self.w_coh],
            seq![self.r_percept],
            seq![self.r_sep],
            seq![self.max_speed],
            seq![self.min_speed],
            seq![self.max_force],
            seq![self.dt],
            seq![self.time],
            seq![self.sdf_strength],
            seq![self.sdf_probe],
            self.bounds_half@,
            seq![self.mode],
            seq![self.wander],
            seq![self.sep_boost],
            seq![self.coh_falloff],
            seq![self.r_safe],
            seq![self.buoyancy],
            seq![self.drag],
            seq![self.env_scale],
            seq![self.env_floor_y],
            seq![self.env_id],
            seq![self.env_freq],
            seq![self._pad1],
            seq![self._pad2],
        ]
    }

    /// The words of the structure in memory order.
    pub fn words(&self) -> (words: Vec<u32>)
        ensures
            words@ == crate::layout::flat(self.field_data()),
    {
        let mut words: Vec<u32> = Vec::new();
        let ghost parts = Seq::<Seq<u32>>::empty();
        put_three(&mut words, self.grid_min, Ghost(parts));
        let ghost parts = parts.push(self.grid_min@);
        put_one(&mut words, self.cell_size, Ghost(parts));
        let ghost parts = parts.push(seq![self.cell_size]);
        put_three(&mut words, self.grid_dim, Ghost(parts));
        let ghost parts = parts.push(self.grid_dim@);
        put_one(&mut words, self.num_boids, Ghost(parts));
        let ghost parts = parts.push(seq![self.num_boids]);
        put_one(&mut words, self.w_sep, Ghost(parts));
        let ghost parts = parts.push(seq![self.w_sep]);
        put_one(&mut words, self.w_ali, Ghost(parts));
        let ghost parts = parts.push(seq![self.w_ali]);
        put_one(&mut words, self.w_coh, Ghost(parts));
        let ghost parts = parts.push(seq![self.w_coh]);
        put_one(&mut words, self.r_percept, Ghost(parts));
        let ghost parts = parts.push(seq![self.r_percept]);
        put_one(&mut words, self.r_sep, Ghost(parts));
        let ghost parts = parts.push(seq![self.r_sep]);
        put_one(&mut words, self.max_speed, Ghost(parts));
        let ghost parts = parts.push(seq![self.max_speed]);
        put_one(&mut words, self.min_speed, Ghost(parts));
        let ghost parts = parts.push(seq![self.min_speed]);
        put_one(&mut words, self.max_force, Ghost(parts));
        let ghost parts = parts.push(seq![self.max_force]);
        put_one(&mut words, self.dt, Ghost(parts));
        let ghost parts = parts.push(seq![self.dt]);
        put_one(&mut words, self.time, Ghost(parts));
        let ghost parts = parts.push(seq![self.time]);
        put_one(&mut words, self.sdf_strength, Ghost(parts));
        let ghost parts = parts.push(seq![self.sdf_strength]);
        put_one(&mut words, self.sdf_probe, Ghost(parts));
        let ghost parts = parts.push(seq![self.sdf_probe]);
        put_three(&mut words, self.bounds_half, Ghost(parts));
        let ghost parts = parts.push(self.bounds_half@);
        put_one(&mut words, self.mode, Ghost(parts));
        let ghost parts = parts.push(seq![self.mode]);
        put_one(&mut words, self.wander, Ghost(parts));
        let ghost parts = parts.push(seq![self.wander]);
        put_one(&mut words, self.sep_boost, Ghost(parts));
        let ghost parts = parts.push(seq![self.sep_boost]);
        put_one(&mut words, self.coh_falloff, Ghost(parts));
        let ghost parts = parts.push(seq![self.coh_falloff]);
        put_one(&mut words, self.r_safe, Ghost(parts));
        let ghost parts = parts.push(seq![self.r_safe]);
        put_one(&mut words, self.buoyancy, Ghost(parts));
        let ghost parts = parts.push(seq![self.buoyancy]);
        put_one(&mut words, self.drag, Ghost(parts));
        let ghost parts = parts.push(seq![self.drag]);
        put_one(&mut words, self.env_scale, Ghost(parts));
        let ghost parts = parts.push(seq![self.env_scale]);
        put_one(&mut words, self.env_floor_y, Ghost(parts));
        let ghost parts = parts.push(seq![self.env_floor_y]);
        put_one(&mut words, self.env_id, Ghost(parts));
        let ghost parts = parts.push(seq![self.env_id]);
        put_one(&mut words, self.env_freq, Ghost(parts));
        let ghost parts = parts.push(seq![self.env_freq]);
        put_one(&mut words, self._pad1, Ghost(parts));
        let ghost parts = parts.push(seq![self._pad1]);
        put_one(&mut words, self._pad2, Ghost(parts));
        let ghost parts = parts.push(seq![self._pad2]);
        assert(parts == self.field_data());
        words
    }
}

/// The shape and palette of a creature.
#[derive(Debug, Clone, Copy, PartialEq, Eq)]
pub struct MeshParams {
    /// Width of the body.
    pub body_w: u32,
    /// Height of the body.
    pub body_h: u32,
    /// Length ahead of the middle.
    pub nose: u32,
    /// Length behind it.
    pub tail: u32,
    /// Size of the tail fin.
    pub fin_size: u32,
    /// Where the fin starts.
    pub fin_z: u32,
    /// Amplitude of the body wave or the flap.
    pub wave_amp: u32,
    /// Its frequency.
    pub wave_freq: u32,
    /// Span of the wings.
    pub wing_span: u32,
    /// Sweep of the wings.
    pub wing_sweep: u32,
    /// Light that the body gives off.
    pub emissive: u32,
    /// Zero for a fish, one for a bird.
    pub variant: u32,
    /// Start of the hue range.
    pub hue_base: u32,
    /// Its width.
    pub hue_range: u32,
    /// Saturation.
    pub saturation: u32,
    /// Brightness.
    pub value: u32,
    /// Speed at which the body is stretched most.
    pub speed_ref: u32,
    /// Size in the world.
    pub scale: u32,
    /// Which medium dims the agent: zero for water, one for air.
    pub medium: u32,
    /// Padding.
    pub _pad_b: u32,
}

impl MeshParams {
    /// The fields as the sequences of words they are stored as.
    pub open spec fn field_data(self) -> Seq<Seq<u32>> {
        seq![
            seq![self.body_w],
            seq![self.body_h],
            seq![self.nose],
            seq![self.tail],
            seq![self.fin_size],
            seq![self.fin_z],
            seq![self.wave_amp],
            seq![self.wave_freq],
            seq![self.wing_span],
            seq![self.wing_sweep],
            seq![self.emissive],
            seq![self.variant],
            seq![self.hue_base],
            seq![self.hue_range],
            seq![self.saturation],
            seq![self.value],
            seq![self.speed_ref],
            seq![self.scale],
            seq![self.medium],
            seq![self._pad_b],
        ]
    }

    /// The words of the structure in memory order.
    pub fn words(&self) -> (words: Vec<u32>)
        ensures
            words@ == crate::layout::flat(self.field_data()),
    {
        let mut words: Vec<u32> = Vec::new();
        let ghost parts = Seq::<Seq<u32>>::empty();
        put_one(&mut words, self.body_w, Ghost(parts));
        let ghost parts = parts.push(seq![self.body_w]);
        put_one(&mut words, self.body_h, Ghost(parts));
        let ghost parts = parts.push(seq![self.body_h]);
        put_one(&mut words, self.nose, Ghost(parts));
        let ghost parts = parts.push(seq![self.nose]);
        put_one(&mut words, self.tail, Ghost(parts));
        let ghost parts = parts.push(seq![self.tail]);
        put_one(&mut words, self.fin_size, Ghost(parts));
        let ghost parts = parts.push(seq![self.fin_size]);
        put_one(&mut words, self.fin_z, Ghost(parts));
        let ghost parts = parts.push(seq![self.fin_z]);
        put_one(&mut words, self.wave_amp, Ghost(parts));
        let ghost parts = parts.push(seq![self.wave_amp]);
        put_one(&mut words, self.wave_freq, Ghost(parts));
        let ghost parts = parts.push(seq![self.wave_freq]);
        put_one(&mut words, self.wing_span, Ghost(parts));
        let ghost parts = parts.push(seq![self.wing_span]);
        put_one(&mut words, self.wing_sweep, Ghost(parts));
        let ghost parts = parts.push(seq![self.wing_sweep]);
        put_one(&mut words, self.emissive, Ghost(parts));
        let ghost parts = parts.push(seq![self.emissive]);
        put_one(&mut words, self.variant, Ghost(parts));
        let ghost parts = parts.push(seq![self.variant]);
        put_one(&mut words, self.hue_base, Ghost(parts));
        let ghost parts = parts.push(seq![self.hue_base]);
        put_one(&mut words, self.hue_range, Ghost(parts));
        let ghost parts = parts.push(seq![self.hue_range]);
        put_one(&mut words, self.saturation, Ghost(parts));
        let ghost parts = parts.push(seq![self.saturation]);
        put_one(&mut words, self.value, Ghost(parts));
        let ghost parts = parts.push(seq![self.value]);
        put_one(&mut words, self.speed_ref, Ghost(parts));
        let ghost parts = parts.push(seq![self.speed_ref]);
        put_one(&mut words, self.scale, Ghost(parts));
        let ghost parts = parts.push(seq![self.scale]);
        put_one(&mut words, self.medium, Ghost(parts));
        let ghost parts = parts.push(seq![self.medium]);
        put_one(&mut words, self._pad_b, Ghost(parts));
        let ghost parts = parts.push(seq![self._pad_b]);
        assert(parts == self.field_data());
        words
    }
}

/// Where the cursor aims and how strongly it acts there.
#[derive(Debug, Clone, Copy, PartialEq, Eq)]
pub struct Aim {
    /// Where the cursor's ray starts.
    pub ray_origin: [u32; 3],
    /// The point it aims at.
    pub focus_point: [u32; 3],
    /// How far the influence reaches.
    pub radius: u32,
    /// Acceleration of an attractor.
    pub attract: u32,
    /// Acceleration of a repeller.
    pub repel: u32,
    /// Acceleration of a repeller around itself.
    pub swirl: u32,
}

/// 1.6
pub const FALLOFF: u32 = 0x3fcc_cccd;

/// 2.0
pub const IDLE_FALLOFF: u32 = 0x4000_0000;

impl InteractionUniforms {
    /// Whether the uniform leaves the swarm alone.
    pub open spec fn is_idle(self) -> bool {
        &&& self.ray_origin@ == seq![0u32, 0, 0]
        &&& self.mode == InteractionMode::Off.code()
        &&& self.focus_point@ == seq![0u32, 0, 0]
        &&& self.radius == 0
        &&& self.strength == 0
        &&& self.falloff == IDLE_FALLOFF
        &&& self.tangent == 0
        &&& self._pad == 0
    }

    /// The cursor's influence in a frame. Without activation, without an aim and without a mode there
    /// is none: a cursor that leaves the window must not throw the swarm about.
    pub fn for_cursor(enabled: bool, mode: InteractionMode, aim: Option<Aim>) -> (uniform:
        InteractionUniforms)
        ensures
            !enabled || mode == InteractionMode::Off || aim is None ==> uniform.is_idle(),
            enabled && mode != InteractionMode::Off && aim is Some ==> {
                let a = aim->Some_0;
                &&& uniform.ray_origin == a.ray_origin
                &&& uniform.mode == mode.code()
                &&& uniform.focus_point == a.focus_point
                &&& uniform.radius == a.radius
                &&& uniform.strength == (if mode == InteractionMode::Attract {
                    a.attract
                } else {
                    a.repel
                })
                &&& uniform.falloff == FALLOFF
                &&& uniform.tangent == (if mode == InteractionMode::Attract {
                    0
                } else {
                    a.swirl
                })
                &&& uniform._pad == 0
            },
    {
        if !enabled {
            return SimConfig::idle_interaction();
        }
        match aim {
            None => SimConfig::idle_interaction(),
            Some(aim) => {
                let (strength, tangent): (u32, u32) = match mode {
                    InteractionMode::Attract => (aim.attract, 0),
                    InteractionMode::Repel => (aim.repel, aim.swirl),
                    InteractionMode::Off => {
                        return SimConfig::idle_interaction();
                    },
                };
                InteractionUniforms {
                    ray_origin: aim.ray_origin,
                    mode: mode.as_u32(),
                    focus_point: aim.focus_point,
                    radius: aim.radius,
                    strength,
                    falloff: FALLOFF,
                    tangent,
                    _pad: 0,
                }
            },
        }
    }
}

/// The shape and palette of a world's creature.
///
/// A fish is laterally compressed, with a large tail fin, a travelling wave and light of its own. A
/// bird has a compact body, wide swept wings and a flap, and gives off no light. `speed_ref` is the
/// fastest an agent goes, so that the stretch of a body follows the motion, and `scale` its size in
/// the world.
pub open spec fn spec_mesh_profile(mode: SimMode, speed_ref: u32, scale: u32) -> MeshParams {
    match mode {
        SimMode::Fish => {
            MeshParams {
                body_w: 0x3e23_d70a,  // 0.16
                body_h: 0x3e99_999a,  // 0.3
                nose: 0x3f73_3333,  // 0.95
                tail: 0x3f0c_cccd,  // 0.55
                fin_size: 0x3ee6_6666,  // 0.45
                fin_z: 0x3e61_47ae,  // 0.22
                wave_amp: 0x3e23_d70a,  // 0.16
                wave_freq: 0x4190_0000,  // 18.0
                wing_span: 0,
                wing_sweep: 0,
                emissive: 0x3f99_999a,  // 1.2
                variant: 0,
                hue_base: 0x3ef5_c28f,  // 0.48
                hue_range: 0x3e61_47ae,  // 0.22
                saturation: 0x3f59_999a,  // 0.85
                value: 0x3f66_6666,  // 0.9
                speed_ref,
                scale,
                medium: 0,
                _pad_b: 0,
            }
        },
        SimMode::Birds => {
            MeshParams {
                body_w: 0x3eae_147b,  // 0.34
                body_h: 0x3e85_1eb8,  // 0.26
                nose: 0x3f59_999a,  // 0.85
                tail: 0x3f00_0000,  // 0.5
                fin_size: 0x3ea3_d70a,  // 0.32
                fin_z: 0x3e38_51ec,  // 0.18
                wave_amp: 0x3f00_0000,  // 0.5
                wave_freq: 0x4180_0000,  // 16.0
                wing_span: 0x3fc0_0000,  // 1.5
                wing_sweep: 0x3f0c_cccd,  // 0.55
                emissive: 0,
                variant: 0x3f80_0000,  // 1.0
                hue_base: 0x3ca3_d70a,  // 0.02
                hue_range: 0x3ee6_6666,  // 0.45
                saturation: 0x3f4c_cccd,  // 0.8
                value: 0x3f80_0000,  // 1.0
                speed_ref,
                scale,
                medium: 0x3f80_0000,  // 1.0
                _pad_b: 0,
            }
        },
    }
}

/// The shape and palette of a world's creature.
pub fn mesh_profile(mode: SimMode, speed_ref: u32, scale: u32) -> (mesh: MeshParams)
    ensures
        mesh == spec_mesh_profile(mode, speed_ref, scale),
{
    match mode {
        SimMode::Fish => {
            MeshParams {
                body_w: 0x3e23_d70a,  // 0.16
                body_h: 0x3e99_999a,  // 0.3
                nose: 0x3f73_3333,  // 0.95
                tail: 0x3f0c_cccd,  // 0.55
                fin_size: 0x3ee6_6666,  // 0.45
                fin_z: 0x3e61_47ae,  // 0.22
                wave_amp: 0x3e23_d70a,  // 0.16
                wave_freq: 0x4190_0000,  // 18.0
                wing_span: 0,
                wing_sweep: 0,
                emissive: 0x3f99_999a,  // 1.2
                variant: 0,
                hue_base: 0x3ef5_c28f,  // 0.48
                hue_range: 0x3e61_47ae,  // 0.22
                saturation: 0x3f59_999a,  // 0.85
                value: 0x3f66_6666,  // 0.9
                speed_ref,
                scale,
                medium: 0,
                _pad_b: 0,
            }
        },
        SimMode::Birds => {
            MeshParams {
                body_w: 0x3eae_147b,  // 0.34
                body_h: 0x3e85_1eb8,  // 0.26
                nose: 0x3f59_999a,  // 0.85
                tail: 0x3f00_0000,  // 0.5
                fin_size: 0x3ea3_d70a,  // 0.32
                fin_z: 0x3e38_51ec,  // 0.18
                wave_amp: 0x3f00_0000,  // 0.5
                wave_freq: 0x4180_0000,  // 16.0
                wing_span: 0x3fc0_0000,  // 1.5
                wing_sweep: 0x3f0c_cccd,  // 0.55
                emissive: 0,
                variant: 0x3f80_0000,  // 1.0
                hue_base: 0x3ca3_d70a,  // 0.02
                hue_range: 0x3ee6_6666,  // 0.45
                saturation: 0x3f4c_cccd,  // 0.8
                value: 0x3f80_0000,  // 1.0
                speed_ref,
                scale,
                medium: 0x3f80_0000,  // 1.0
                _pad_b: 0,
            }
        },
    }
}

/// The light and the fog of a world.
#[derive(Debug, Clone, Copy, PartialEq, Eq)]
pub struct SceneMedium {
    /// Direction the light travels.
    pub light_dir: [u32; 3],
    /// Light that comes from everywhere.
    pub ambient: u32,
    /// Colour of the medium at a distance.
    pub fog_color: [u32; 3],
    /// How fast things fade into it.
    pub fog_density: u32,
}

/// The light and the fog of a world: water is dense and blue, air a thin and pale haze.
pub fn scene_medium(mode: SimMode) -> (medium: SceneMedium)
    ensures
        mode == SimMode::Fish ==> {
            &&& medium.light_dir@ == seq![0x3e80_0000u32, 0xbf80_0000, 0x3e19_999a]
            &&& medium.ambient == 0x3e85_1eb8
            &&& medium.fog_color@ == seq![0x3c75_c28fu32, 0x3deb_851f, 0x3e23_d70a]
            &&& medium.fog_density == 0x3cb4_3958
        },
        mode == SimMode::Birds ==> {
            &&& medium.light_dir@ == seq![0x3ecc_cccdu32, 0xbf59_999a, 0xbe99_999a]
            &&& medium.ambient == 0x3ea3_d70a
            &&& medium.fog_color@ == seq![0x3ee6_6666u32, 0x3f19_999a, 0x3f47_ae14]
            &&& medium.fog_density == 0x3a9d_4952
        },
{
    match mode {
        SimMode::Fish => SceneMedium {
            light_dir: [0x3e80_0000, 0xbf80_0000, 0x3e19_999a],  // 0.25, -1.0, 0.15
            ambient: 0x3e85_1eb8,  // 0.26
            fog_color: [0x3c75_c28f, 0x3deb_851f, 0x3e23_d70a],  // 0.015, 0.115, 0.16
            fog_density: 0x3cb4_3958,  // 0.022
        },
        SimMode::Birds => SceneMedium {
            light_dir: [0x3ecc_cccd, 0xbf59_999a, 0xbe99_999a],  // 0.4, -0.85, -0.3
            ambient: 0x3ea3_d70a,  // 0.32
            fog_color: [0x3ee6_6666, 0x3f19_999a, 0x3f47_ae14],  // 0.45, 0.6, 0.78
            fog_density: 0x3a9d_4952,  // 0.0012
        },
    }
}

/// The parts of the scene uniform: camera, creature, light and fog.
pub open spec fn scene_parts(camera: Seq<u32>, mesh: MeshParams, medium: SceneMedium) -> Seq<Seq<u32>> {
    seq![
        camera,
        crate::layout::flat(mesh.field_data()),
        medium.light_dir@,
        seq![medium.ambient],
        medium.fog_color@,
        seq![medium.fog_density],
    ]
}

/// The words of the scene uniform for one frame, given the words of the camera.
pub fn scene_words(camera: &[u32], mesh: &MeshParams, medium: &SceneMedium) -> (words: Vec<u32>)
    ensures
        words@ == crate::layout::flat(scene_parts(camera@, *mesh, *medium)),
{
    let mut words: Vec<u32> = Vec::new();
    words.extend_from_slice(camera);
    assert(words@ =~= camera@);
    let shape = mesh.words();
    words.extend_from_slice(shape.as_slice());
    assert(words@ =~= camera@ + shape@);
    let ghost parts = seq![camera@, shape@];
    proof {
        reveal_with_fuel(crate::layout::flat, 3);
        assert(parts.drop_last() =~= seq![camera@]);
        assert(seq![camera@].drop_last() =~= Seq::<Seq<u32>>::empty());
        assert(words@ =~= crate::layout::flat(parts));
    }
    put_three(&mut words, medium.light_dir, Ghost(parts));
    let ghost parts = parts.push(medium.light_dir@);
    put_one(&mut words, medium.ambient, Ghost(parts));
    let ghost parts = parts.push(seq![medium.ambient]);
    put_three(&mut words, medium.fog_color, Ghost(parts));
    let ghost parts = parts.push(medium.fog_color@);
    put_one(&mut words, medium.fog_density, Ghost(parts));
    let ghost parts = parts.push(seq![medium.fog_density]);
    assert(parts =~= scene_parts(camera@, *mesh, *medium));
    words
}

/// The bytes that a uniform is uploaded as.
pub fn uniform_bytes(words: &[u32]) -> (bytes: Vec<u8>)
    ensures
        crate::transfer::stores(words@, bytes@),
{
    bytes_of_words(words)
}

/// The uniforms have the fields that their layouts describe, so each field is where the shaders look
/// for it.
pub proof fn law_uniforms_match_their_layouts(
    interaction: InteractionUniforms,
    params: SimParams,
    mesh: MeshParams,
    camera: Seq<u32>,
    medium: SceneMedium,
)
    requires
        camera.len() == 48,
    ensures
        crate::layout::matches_fields(GpuStruct::InteractionUniforms, interaction.field_data()),
        crate::layout::matches_fields(GpuStruct::SimParams, params.field_data()),
        crate::layout::matches_fields(GpuStruct::MeshParams, mesh.field_data()),
        crate::layout::matches_fields(
            GpuStruct::SceneUniform,
            scene_parts(camera, mesh, medium),
        ),
{
    assert(crate::layout::matches_fields(GpuStruct::MeshParams, mesh.field_data()));
    crate::layout::law_fields_are_at_their_offsets(GpuStruct::MeshParams, mesh.field_data(), 0);
    crate::layout::law_the_sizes_are_known();
}

/// Only birds have wings, only fish give off light, and the body and the medium tell the two apart.
pub proof fn law_creatures_differ(speed: u32, scale: u32)
    ensures
        ({
            let fish = spec_mesh_profile(SimMode::Fish, speed, scale);
            let bird = spec_mesh_profile(SimMode::Birds, speed, scale);
            &&& fish.wing_span == 0 && bird.wing_span != 0
            &&& fish.emissive != 0 && bird.emissive == 0
            &&& fish.variant != bird.variant
            &&& fish.medium == fish.variant && bird.medium == bird.variant
            &&& fish.speed_ref == speed && bird.speed_ref == speed
            &&& fish.scale == scale && bird.scale == scale
        }),
{
}

/// The shaders find each field of the cursor's influence at its word.
pub proof fn law_the_words_of_the_influence(u: InteractionUniforms)
    ensures
        ({
            let words = crate::layout::flat(u.field_data());
            &&& words.len() == 12
            &&& words[0] == u.ray_origin@[0]
            &&& words[1] == u.ray_origin@[1]
            &&& words[2] == u.ray_origin@[2]
            &&& words[3] == u.mode
            &&& words[4] == u.focus_point@[0]
            &&& words[5] == u.focus_point@[1]
            &&& words[6] == u.focus_point@[2]
            &&& words[7] == u.radius
            &&& words[8] == u.strength
            &&& words[9] == u.falloff
            &&& words[10] == u.tangent
            &&& words[11] == u._pad
        }),
{
    reveal_with_fuel(crate::layout::flat, 9);
}

proof fn lemma_parameter(p: SimParams, i: int, at: int, len: int)
    requires
        0 <= i < 30,
        4 * at == crate::layout::known_offsets(GpuStruct::SimParams)[i],
        len == GpuStruct::SimParams.fields()[i],
    ensures
        crate::layout::flat(p.field_data()).len() == 36,
        crate::layout::flat(p.field_data()).subrange(at, at + len) == p.field_data()[i],
        0 <= at < 36 ==> crate::layout::flat(p.field_data())[at] == p.field_data()[i][0],
{
    let parts = p.field_data();
    let words = crate::layout::flat(parts);
    assert(crate::layout::matches_fields(GpuStruct::SimParams, parts));
    crate::layout::law_fields_start_where_the_shaders_declare_them(GpuStruct::SimParams, i);
    crate::layout::law_fields_are_at_their_offsets(GpuStruct::SimParams, parts, i);
    crate::layout::law_the_sizes_are_known();
    assert(words.subrange(at, at + len).len() == len);
    assert(words.subrange(at, at + len)[0] == words[at]);
}

/// The shaders find each simulation parameter at its word.
pub proof fn law_the_words_of_the_parameters(p: SimParams)
    ensures
        ({
            let words = crate::layout::flat(p.field_data());
            &&& words.len() == 36
            &&& words[0] == p.grid_min@[0]
            &&& words[1] == p.grid_min@[1]
            &&& words[2] == p.grid_min@[2]
            &&& words[3] == p.cell_size
            &&& words[4] == p.grid_dim@[0]
            &&& words[5] == p.grid_dim@[1]
            &&& words[6] == p.grid_dim@[2]
            &&& words[7] == p.num_boids
            &&& words[8] == p.w_sep
            &&& words[9] == p.w_ali
            &&& words[10] == p.w_coh
            &&& words[11] == p.r_percept
            &&& words[12] == p.r_sep
            &&& words[13] == p.max_speed
            &&& words[14] == p.min_speed
            &&& words[15] == p.max_force
            &&& words[16] == p.dt
            &&& words[17] == p.time
            &&& words[18] == p.sdf_strength
            &&& words[19] == p.sdf_probe
            &&& words[20] == p.bounds_half@[0]
            &&& words[21] == p.bounds_half@[1]
            &&& words[22] == p.bounds_half@[2]
            &&& words[23] == p.mode
            &&& words[24] == p.wander
            &&& words[25] == p.sep_boost
            &&& words[26] == p.coh_falloff
            &&& words[27] == p.r_safe
            &&& words[28] == p.buoyancy
            &&& words[29] == p.drag
            &&& words[30] == p.env_scale
            &&& words[31] == p.env_floor_y
            &&& words[32] == p.env_id
            &&& words[33] == p.env_freq
            &&& words[34] == p._pad1
            &&& words[35] == p._pad2
        }),
{
    let words = crate::layout::flat(p.field_data());
    lemma_parameter(p, 0, 0, 3);
    assert(words.subrange(0, 3)[0] == words[0] && words.subrange(0, 3)[1] == words[1]);
    assert(words.subrange(0, 3)[2] == words[2]);
    lemma_parameter(p, 1, 3, 1);
    lemma_parameter(p, 2, 4, 3);
    assert(words.subrange(4, 7)[0] == words[4] && words.subrange(4, 7)[1] == words[5]);
    assert(words.subrange(4, 7)[2] == words[6]);
    lemma_parameter(p, 3, 7, 1);
    lemma_parameter(p, 4, 8, 1);
    lemma_parameter(p, 5, 9, 1);
    lemma_parameter(p, 6, 10, 1);
    lemma_parameter(p, 7, 11, 1);
    lemma_parameter(p, 8, 12, 1);
    lemma_parameter(p, 9, 13, 1);
    lemma_parameter(p, 10, 14, 1);
    lemma_parameter(p, 11, 15, 1);
    lemma_parameter(p, 12, 16, 1);
    lemma_parameter(p, 13, 17, 1);
    lemma_parameter(p, 14, 18, 1);
    lemma_parameter(p, 15, 19, 1);
    lemma_parameter(p, 16, 20, 3);
    assert(words.subrange(20, 23)[0] == words[20] && words.subrange(20, 23)[1] == words[21]);
    assert(words.subrange(20, 23)[2] == words[22]);
    lemma_parameter(p, 17, 23, 1);
    lemma_parameter(p, 18, 24, 1);
    lemma_parameter(p, 19, 25, 1);
    lemma_parameter(p, 20, 26, 1);
    lemma_parameter(p, 21, 27, 1);
    lemma_parameter(p, 22, 28, 1);
    lemma_parameter(p, 23, 29, 1);
    lemma_parameter(p, 24, 30, 1);
    lemma_parameter(p, 25, 31, 1);
    lemma_parameter(p, 26, 32, 1);
    lemma_parameter(p, 27, 33, 1);
    lemma_parameter(p, 28, 34, 1);
    lemma_parameter(p, 29, 35, 1);
}

proof fn lemma_shape(m: MeshParams, i: int, at: int, len: int)
    requires
        0 <= i < 20,
        4 * at == crate::layout::known_offsets(GpuStruct::MeshParams)[i],
        len == GpuStruct::MeshParams.fields()[i],
    ensures
        crate::layout::flat(m.field_data()).len() == 20,
        0 <= at < 20 ==> crate::layout::flat(m.field_data())[at] == m.field_data()[i][0],
{
    let parts = m.field_data();
    let words = crate::layout::flat(parts);
    assert(crate::layout::matches_fields(GpuStruct::MeshParams, parts));
    crate::layout::law_fields_start_where_the_shaders_declare_them(GpuStruct::MeshParams, i);
    crate::layout::law_fields_are_at_their_offsets(GpuStruct::MeshParams, parts, i);
    crate::layout::law_the_sizes_are_known();
    assert(words.subrange(at, at + len)[0] == words[at]);
}

/// The shaders find each field of a creature's shape at its word.
pub proof fn law_the_words_of_the_creature(m: MeshParams)
    ensures
        ({
            let words = crate::layout::flat(m.field_data());
            &&& words.len() == 20
            &&& words[0] == m.body_w
            &&& words[1] == m.body_h
            &&& words[2] == m.nose
            &&& words[3] == m.tail
            &&& words[4] == m.fin_size
            &&& words[5] == m.fin_z
            &&& words[6] == m.wave_amp
            &&& words[7] == m.wave_freq
            &&& words[8] == m.wing_span
            &&& words[9] == m.wing_sweep
            &&& words[10] == m.emissive
            &&& words[11] == m.variant
            &&& words[12] == m.hue_base
            &&& words[13] == m.hue_range
            &&& words[14] == m.saturation
            &&& words[15] == m.value
            &&& words[16] == m.speed_ref
            &&& words[17] == m.scale
            &&& words[18] == m.medium
            &&& words[19] == m._pad_b
        }),
{
    lemma_shape(m, 0, 0, 1);
    lemma_shape(m, 1, 1, 1);
    lemma_shape(m, 2, 2, 1);
    lemma_shape(m, 3, 3, 1);
    lemma_shape(m, 4, 4, 1);
    lemma_shape(m, 5, 5, 1);
    lemma_shape(m, 6, 6, 1);
    lemma_shape(m, 7, 7, 1);
    lemma_shape(m, 8, 8, 1);
    lemma_shape(m, 9, 9, 1);
    lemma_shape(m, 10, 10, 1);
    lemma_shape(m, 11, 11, 1);
    lemma_shape(m, 12, 12, 1);
    lemma_shape(m, 13, 13, 1);
    lemma_shape(m, 14, 14, 1);
    lemma_shape(m, 15, 15, 1);
    lemma_shape(m, 16, 16, 1);
    lemma_shape(m, 17, 17, 1);
    lemma_shape(m, 18, 18, 1);
    lemma_shape(m, 19, 19, 1);
}

/// The scene uniform is the camera, the creature, the light and the fog, one behind the other.
pub proof fn law_the_words_of_the_scene(camera: Seq<u32>, mesh: MeshParams, medium: SceneMedium)
    ensures
        crate::layout::flat(scene_parts(camera, mesh, medium)) == camera + crate::layout::flat(
            mesh.field_data(),
        ) + medium.light_dir@ + seq![medium.ambient] + medium.fog_color@ + seq![medium.fog_density],
{
    reveal_with_fuel(crate::layout::flat, 7);
    assert(crate::layout::flat(scene_parts(camera, mesh, medium)) =~= camera + crate::layout::flat(
        mesh.field_data(),
    ) + medium.light_dir@ + seq![medium.ambient] + medium.fog_color@ + seq![medium.fog_density]);
}

/// The shape and palette of a fish are the numbers they are meant to be.
pub proof fn law_the_numbers_of_a_fish(speed: u32, scale: u32)
    ensures
        crate::singles::is_nearly(spec_mesh_profile(SimMode::Fish, speed, scale).body_w, 16, 100),
        crate::singles::is_nearly(spec_mesh_profile(SimMode::Fish, speed, scale).body_h, 3, 10),
        crate::singles::is_nearly(spec_mesh_profile(SimMode::Fish, speed, scale).nose, 95, 100),
        crate::singles::is_nearly(spec_mesh_profile(SimMode::Fish, speed, scale).tail, 55, 100),
        crate::singles::is_nearly(spec_mesh_profile(SimMode::Fish, speed, scale).fin_size, 45, 100),
        crate::singles::is_nearly(spec_mesh_profile(SimMode::Fish, speed, scale).fin_z, 22, 100),
        crate::singles::is_nearly(spec_mesh_profile(SimMode::Fish, speed, scale).wave_amp, 16, 100),
        crate::singles::is_nearly(spec_mesh_profile(SimMode::Fish, speed, scale).wave_freq, 18, 1),
        crate::singles::is_nearly(spec_mesh_profile(SimMode::Fish, speed, scale).emissive, 12, 10),
        crate::singles::is_nearly(spec_mesh_profile(SimMode::Fish, speed, scale).hue_base, 48, 100),
        crate::singles::is_nearly(spec_mesh_profile(SimMode::Fish, speed, scale).hue_range, 22, 100),
        crate::singles::is_nearly(spec_mesh_profile(SimMode::Fish, speed, scale).saturation, 85, 100),
        crate::singles::is_nearly(spec_mesh_profile(SimMode::Fish, speed, scale).value, 9, 10),
        spec_mesh_profile(SimMode::Fish, speed, scale).wing_span == 0,
        spec_mesh_profile(SimMode::Fish, speed, scale).wing_sweep == 0,
        spec_mesh_profile(SimMode::Fish, speed, scale).variant == 0,
        spec_mesh_profile(SimMode::Fish, speed, scale).medium == 0,
        spec_mesh_profile(SimMode::Fish, speed, scale)._pad_b == 0,
        spec_mesh_profile(SimMode::Fish, speed, scale).speed_ref == speed,
        spec_mesh_profile(SimMode::Fish, speed, scale).scale == scale,
{
    vstd::arithmetic::power2::lemma2_to64();
    crate::singles::lemma_nearly(0x3e23_d70a, 16, 100, 0xa3_d70a, 0x100_0000);
    crate::singles::lemma_nearly(0x3e99_999a, 3, 10, 0x99_999a, 0x200_0000);
    crate::singles::lemma_nearly(0x3f73_3333, 95, 100, 0xf3_3333, 0x400_0000);
    crate::singles::lemma_nearly(0x3f0c_cccd, 55, 100, 0x8c_cccd, 0x400_0000);
    crate::singles::lemma_nearly(0x3ee6_6666, 45, 100, 0xe6_6666, 0x200_0000);
    crate::singles::lemma_nearly(0x3e61_47ae, 22, 100, 0xe1_47ae, 0x100_0000);
    crate::singles::lemma_nearly(0x4190_0000, 18, 1, 0x90_0000, 0x8000_0000);
    crate::singles::lemma_nearly(0x3f99_999a, 12, 10, 0x99_999a, 0x800_0000);
    crate::singles::lemma_nearly(0x3ef5_c28f, 48, 100, 0xf5_c28f, 0x200_0000);
    crate::singles::lemma_nearly(0x3f59_999a, 85, 100, 0xd9_999a, 0x400_0000);
    crate::singles::lemma_nearly(0x3f66_6666, 9, 10, 0xe6_6666, 0x400_0000);
}

/// The shape and palette of a bird are the numbers they are meant to be.
pub proof fn law_the_numbers_of_a_bird(speed: u32, scale: u32)
    ensures
        crate::singles::is_nearly(spec_mesh_profile(SimMode::Birds, speed, scale).body_w, 34, 100),
        crate::singles::is_nearly(spec_mesh_profile(SimMode::Birds, speed, scale).body_h, 26, 100),
        crate::singles::is_nearly(spec_mesh_profile(SimMode::Birds, speed, scale).nose, 85, 100),
        crate::singles::is_nearly(spec_mesh_profile(SimMode::Birds, speed, scale).tail, 1, 2),
        crate::singles::is_nearly(spec_mesh_profile(SimMode::Birds, speed, scale).fin_size, 32, 100),
        crate::singles::is_nearly(spec_mesh_profile(SimMode::Birds, speed, scale).fin_z, 18, 100),
        crate::singles::is_nearly(spec_mesh_profile(SimMode::Birds, speed, scale).wave_amp, 1, 2),
        crate::singles::is_nearly(spec_mesh_profile(SimMode::Birds, speed, scale).wave_freq, 16, 1),
        crate::singles::is_nearly(spec_mesh_profile(SimMode::Birds, speed, scale).wing_span, 3, 2),
        crate::singles::is_nearly(spec_mesh_profile(SimMode::Birds, speed, scale).wing_sweep, 55, 100),
        crate::singles::is_nearly(spec_mesh_profile(SimMode::Birds, speed, scale).variant, 1, 1),
        crate::singles::is_nearly(spec_mesh_profile(SimMode::Birds, speed, scale).hue_base, 2, 100),
        crate::singles::is_nearly(spec_mesh_profile(SimMode::Birds, speed, scale).hue_range, 45, 100),
        crate::singles::is_nearly(spec_mesh_profile(SimMode::Birds, speed, scale).saturation, 8, 10),
        crate::singles::is_nearly(spec_mesh_profile(SimMode::Birds, speed, scale).value, 1, 1),
        crate::singles::is_nearly(spec_mesh_profile(SimMode::Birds, speed, scale).medium, 1, 1),
        spec_mesh_profile(SimMode::Birds, speed, scale).emissive == 0,
        spec_mesh_profile(SimMode::Birds, speed, scale)._pad_b == 0,
        spec_mesh_profile(SimMode::Birds, speed, scale).speed_ref == speed,
        spec_mesh_profile(SimMode::Birds, speed, scale).scale == scale,
{
    vstd::arithmetic::power2::lemma2_to64();
    crate::singles::lemma_nearly(0x3eae_147b, 34, 100, 0xae_147b, 0x200_0000);
    crate::singles::lemma_nearly(0x3e85_1eb8, 26, 100, 0x85_1eb8, 0x200_0000);
    crate::singles::lemma_nearly(0x3f59_999a, 85, 100, 0xd9_999a, 0x400_0000);
    crate::singles::lemma_nearly(0x3f00_0000, 1, 2, 0x80_0000, 0x400_0000);
    crate::singles::lemma_nearly(0x3ea3_d70a, 32, 100, 0xa3_d70a, 0x200_0000);
    crate::singles::lemma_nearly(0x3e38_51ec, 18, 100, 0xb8_51ec, 0x100_0000);
    crate::singles::lemma_nearly(0x4180_0000, 16, 1, 0x80_0000, 0x8000_0000);
    crate::singles::lemma_nearly(0x3fc0_0000, 3, 2, 0xc0_0000, 0x800_0000);
    crate::singles::lemma_nearly(0x3f0c_cccd, 55, 100, 0x8c_cccd, 0x400_0000);
    crate::singles::lemma_nearly(0x3f80_0000, 1, 1, 0x80_0000, 0x800_0000);
    crate::singles::lemma_nearly(0x3ca3_d70a, 2, 100, 0xa3_d70a, 0x20_0000);
    crate::singles::lemma_nearly(0x3ee6_6666, 45, 100, 0xe6_6666, 0x200_0000);
    crate::singles::lemma_nearly(0x3f4c_cccd, 8, 10, 0xcc_cccd, 0x400_0000);
}

/// The influence falls off with the power 1.6 where there is one, and with the square where there is none;
/// without one every other field is zero.
pub proof fn law_idle_cursors_do_nothing(uniform: InteractionUniforms)
    ensures
        crate::singles::is_nearly(FALLOFF, 16, 10),
        crate::singles::is_nearly(IDLE_FALLOFF, 2, 1),
        uniform.is_idle() ==> {
            &&& uniform.mode == 0 && uniform.radius == 0 && uniform.strength == 0 && uniform.tangent == 0
            &&& uniform.falloff == IDLE_FALLOFF
            &&& uniform.ray_origin@ == uniform.focus_point@
            &&& uniform.ray_origin@ == seq![0u32, 0, 0]
        },
{
    vstd::arithmetic::power2::lemma2_to64();
    crate::singles::lemma_nearly(0x3fcc_cccd, 16, 10, 0xcc_cccd, 0x800_0000);
    crate::singles::lemma_nearly(0x4000_0000, 2, 1, 0x80_0000, 0x1000_0000);
}

} // verus!
