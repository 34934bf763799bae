//! Simulation settings: the presets of the two worlds, and what the shaders are given of them.
//!
//! Real numbers are bit patterns of singles. Patterns of positive singles are ordered as the singles
//! are.

use crate::grid::GridDims;
use crate::modes::{EnvironmentKind, InteractionMode, SimMode};
use crate::uniforms::{InteractionUniforms, SimParams, IDLE_FALLOFF};
use vstd::prelude::*;

verus! {

/// Cells that a preset's grid has at most along an axis.
pub const MAX_CELLS_PER_AXIS: u32 = 256;

/// Agents of the default settings.
pub const DEFAULT_AGENTS: usize = 100_000;

/// Everything the simulation needs to run one step.
#[derive(Debug, Clone, Copy, PartialEq, Eq)]
pub struct SimConfig {
    /// Number of live agents.
    pub num_boids: usize,
    /// Which world is active.
    pub mode: SimMode,
    /// Grid geometry.
    pub grid: GridDims,
    /// Half extent of the soft bounds.
    pub bounds_half: [u32; 3],
    /// Separation weight.
    pub w_sep: u32,
    /// Alignment weight.
    pub w_ali: u32,
    /// Cohesion weight.
    pub w_coh: u32,
    /// Perception radius, metres.
    pub r_percept: u32,
    /// Separation radius, metres.
    pub r_sep: u32,
    /// Density at which the adaptive weights set in.
    pub density_ref: u32,
    /// Its reciprocal.
    pub density_inverse: u32,
    /// Speed clamp.
    pub min_speed: u32,
    /// Speed clamp.
    pub max_speed: u32,
    /// Steering force clamp.
    pub max_force: u32,
    /// Timestep, seconds.
    pub dt: u32,
    /// Wander force scale.
    pub wander: u32,
    /// Avoidance scale.
    pub sdf_strength: u32,
    /// Forward probe distance, metres.
    pub sdf_probe: u32,
    /// Margin kept from surfaces, metres.
    pub r_safe: u32,
    /// Constant vertical push.
    pub buoyancy: u32,
    /// Medium drag, per second.
    pub drag: u32,
    /// Which avoidance field the environment has.
    pub env: EnvironmentKind,
    /// Field scale: the period of the reef's columns, or the amplitude of the terrain in metres.
    pub env_scale: u32,
    /// Height of the sea floor. The terrain has none.
    pub env_floor_y: u32,
    /// Base noise frequency of the terrain, per metre. The reef has none.
    pub env_freq: u32,
}

/// A count that fits a word, or the largest word.
pub open spec fn saturated(n: usize) -> u32 {
    if n <= u32::MAX {
        n as u32
    } else {
        u32::MAX
    }
}

impl Default for SimConfig {
    fn default() -> (config: Self)
        ensures
            config.is_preset(SimMode::Fish, DEFAULT_AGENTS),
    {
        SimConfig::for_mode(SimMode::Fish, DEFAULT_AGENTS)
    }
}

impl SimConfig {
    /// Whether the settings are the preset of a world for a number of agents.
    pub open spec fn is_preset(self, mode: SimMode, num_boids: usize) -> bool {
        &&& self.num_boids == num_boids
        &&& self.mode == mode
        &&& self.w_sep == 0x3fcc_cccd
        &&& self.w_ali == 0x3f80_0000
        &&& self.w_coh == 0x3f66_6666
        &&& self.density_ref == 0x4140_0000
        &&& self.density_inverse == 0x3daa_aaab
        &&& self.dt == 0x3c88_8889
        &&& self.wander == 0x3eb3_3333
        &&& match mode {
            SimMode::Fish => self.is_underwater(),
            SimMode::Birds => self.is_sky(),
        }
    }

    /// Whether the settings are those of the underwater world.
    pub open spec fn is_underwater(self) -> bool {
        &&& self.grid.min@ == seq![0xc320_0000u32, 0xc28c_0000, 0xc320_0000]
        &&& self.grid.cell_size == 0x4015_5555
        &&& self.grid.dim@ == seq![137u32, 60, 137]
        &&& self.bounds_half@ == seq![0x4320_0000u32, 0x428c_0000, 0x4320_0000]
        &&& self.r_percept == 0x4060_0000
        &&& self.r_sep == 0x3f9c_cccd
        &&& self.min_speed == 0x409c_cccd
        &&& self.max_speed == 0x4160_0000
        &&& self.max_force == 0x4228_0000
        &&& self.sdf_strength == 0x4228_0000
        &&& self.sdf_probe == 0x4015_5555
        &&& self.r_safe == 0x403a_aaaa
        &&& self.buoyancy == 0x3e19_999a
        &&& self.drag == 0x3eb3_3333
        &&& self.env_scale == 0x4228_0000
        &&& self.env_floor_y == 0xc28c_0000
        &&& self.env == EnvironmentKind::Reef
        &&& self.env_freq == 0
    }

    /// Whether the settings are those of the sky world.
    pub open spec fn is_sky(self) -> bool {
        &&& self.grid.min@ == seq![0xc416_0000u32, 0xc35c_0000, 0xc416_0000]
        &&& self.grid.cell_size == 0x4115_5555
        &&& self.grid.dim@ == seq![129u32, 47, 129]
        &&& self.bounds_half@ == seq![0x4416_0000u32, 0x435c_0000, 0x4416_0000]
        &&& self.r_percept == 0x4160_0000
        &&& self.r_sep == 0x409c_cccd
        &&& self.min_speed == 0x4133_3333
        &&& self.max_speed == 0x4200_0000
        &&& self.max_force == 0x42c0_0000
        &&& self.sdf_strength == 0x42c0_0000
        &&& self.sdf_probe == 0x4106_6667
        &&& self.r_safe == 0x40d5_5556
        &&& self.buoyancy == 0xbd4c_cccd
        &&& self.drag == 0x3df5_c28f
        &&& self.env_scale == 0x4284_0000
        &&& self.env_floor_y == 0
        &&& self.env == EnvironmentKind::Terrain
        &&& self.env_freq == 0x3b23_d70a
    }

    /// Preset for a given world and agent count.
    ///
    /// The cells follow the perception radius: a search then only needs the 27 cells around an agent.
    /// The safety margin exceeds the distance an agent needs to stop from full speed under the avoidance
    /// force, or agents would tunnel through thin terrain.
    pub fn for_mode(mode: SimMode, num_boids: usize) -> (config: SimConfig)
        ensures
            config.is_preset(mode, num_boids),
            config.grid.wf(),
    {
        let config = match mode {
            SimMode::Fish => SimConfig {
                num_boids,
                mode,
                grid: GridDims::for_domain(
                    [0xc320_0000, 0xc28c_0000, 0xc320_0000],
                    0x4015_5555,  // two thirds of the perception radius
                    [137, 60, 137],
                    MAX_CELLS_PER_AXIS,
                ),
                bounds_half: [0x4320_0000, 0x428c_0000, 0x4320_0000],
                w_sep: 0x3fcc_cccd,  // 1.6
                w_ali: 0x3f80_0000,  // 1.0
                w_coh: 0x3f66_6666,  // 0.9
                density_ref: 0x4140_0000,  // 12.0
                density_inverse: 0x3daa_aaab,  // 1 / 12
                dt: 0x3c88_8889,  // 1 / 60
                wander: 0x3eb3_3333,  // 0.35
                r_percept: 0x4060_0000,  // 3.5
                r_sep: 0x3f9c_cccd,  // 1.225, 0.35 of the perception radius
                min_speed: 0x409c_cccd,  // 4.9, 0.35 of the maximum
                max_speed: 0x4160_0000,  // 14.0
                max_force: 0x4228_0000,  // 42.0, three times the maximum speed
                sdf_strength: 0x4228_0000,  // 42.0, three times the maximum speed
                sdf_probe: 0x4015_5555,  // 2.333, the distance it takes to stop
                r_safe: 0x403a_aaaa,  // 2.917, a quarter more than it takes to stop
                buoyancy: 0x3e19_999a,  // 0.15
                drag: 0x3eb3_3333,  // 0.35
                env_scale: 0x4228_0000,  // 42.0
                env_floor_y: 0xc28c_0000,  // -70.0
                env: EnvironmentKind::Reef,
                env_freq: 0,
            },
            SimMode::Birds => SimConfig {
                num_boids,
                mode,
                grid: GridDims::for_domain(
                    [0xc416_0000, 0xc35c_0000, 0xc416_0000],
                    0x4115_5555,  // two thirds of the perception radius
                    [129, 47, 129],
                    MAX_CELLS_PER_AXIS,
                ),
                bounds_half: [0x4416_0000, 0x435c_0000, 0x4416_0000],
                w_sep: 0x3fcc_cccd,  // 1.6
                w_ali: 0x3f80_0000,  // 1.0
                w_coh: 0x3f66_6666,  // 0.9
                density_ref: 0x4140_0000,  // 12.0
                density_inverse: 0x3daa_aaab,  // 1 / 12
                dt: 0x3c88_8889,  // 1 / 60
                wander: 0x3eb3_3333,  // 0.35
                r_percept: 0x4160_0000,  // 14.0
                r_sep: 0x409c_cccd,  // 4.9, 0.35 of the perception radius
                min_speed: 0x4133_3333,  // 11.2, 0.35 of the maximum
                max_speed: 0x4200_0000,  // 32.0
                max_force: 0x42c0_0000,  // 96.0, three times the maximum speed
                sdf_strength: 0x42c0_0000,  // 96.0, three times the maximum speed
                sdf_probe: 0x4106_6667,  // 8.4, 0.6 of the perception radius
                r_safe: 0x40d5_5556,  // 6.667, a quarter more than it takes to stop
                buoyancy: 0xbd4c_cccd,  // -0.05
                drag: 0x3df5_c28f,  // 0.12
                env_scale: 0x4284_0000,  // 66.0, 0.3 of the world's half-height
                env_floor_y: 0,  // 0.0
                env: EnvironmentKind::Terrain,
                env_freq: 0x3b23_d70a,  // 0.0025, three features across the world
            },
        };
        proof {
            let grid = config.grid;
            assert(grid.dim@[0] == grid.nx() && grid.dim@[1] == grid.ny() && grid.dim@[2] == grid.nz());
            match mode {
                SimMode::Fish => {
                    assert(grid.min@ =~= seq![0xc320_0000u32, 0xc28c_0000, 0xc320_0000]);
                    assert(grid.dim@ =~= seq![137u32, 60, 137]);
                    assert(config.bounds_half@ =~= seq![0x4320_0000u32, 0x428c_0000, 0x4320_0000]);
                },
                SimMode::Birds => {
                    assert(grid.min@ =~= seq![0xc416_0000u32, 0xc35c_0000, 0xc416_0000]);
                    assert(grid.dim@ =~= seq![129u32, 47, 129]);
                    assert(config.bounds_half@ =~= seq![0x4416_0000u32, 0x435c_0000, 0x4416_0000]);
                },
            }
        }
        config
    }

    /// Perception radius used by the shaders.
    pub fn radius(&self) -> (bits: u32)
        ensures
            bits == self.r_percept,
    {
        self.r_percept
    }

    /// Packs the settings into what one simulation step reads: the shaders know the world and the
    /// environment by their codes, and both adaptive weights take the reciprocal density.
    pub fn to_params(&self, time: u32, dt: u32) -> (params: SimParams)
        ensures
            params.grid_min == self.grid.min,
            params.cell_size == self.grid.cell_size,
            params.grid_dim == self.grid.dim,
            params.w_sep == self.w_sep,
            params.w_ali == self.w_ali,
            params.w_coh == self.w_coh,
            params.r_percept == self.r_percept,
            params.r_sep == self.r_sep,
            params.max_speed == self.max_speed,
            params.min_speed == self.min_speed,
            params.max_force == self.max_force,
            params.sdf_strength == self.sdf_strength,
            params.sdf_probe == self.sdf_probe,
            params.bounds_half == self.bounds_half,
            params.wander == self.wander,
            params.r_safe == self.r_safe,
            params.buoyancy == self.buoyancy,
            params.drag == self.drag,
            params.env_scale == self.env_scale,
            params.env_floor_y == self.env_floor_y,
            params.env_freq == self.env_freq,
            params.num_boids == saturated(self.num_boids),
            params.mode == self.mode.code(),
            params.env_id == self.env.code(),
            params.sep_boost == self.density_inverse,
            params.coh_falloff == self.density_inverse,
            params.time == time,
            params.dt == dt,
            params._pad1 == 0,
            params._pad2 == 0,
    {
        SimParams {
            grid_min: self.grid.min,
            cell_size: self.grid.cell_size,
            grid_dim: self.grid.dim,
            num_boids: if self.num_boids as u64 <= u32::MAX as u64 {
                self.num_boids as u32
            } else {
                u32::MAX
            },
            dt,
            time,
            mode: self.mode.as_u32(),
            env_id: self.env.as_u32(),
            sep_boost: self.density_inverse,
            coh_falloff: self.density_inverse,
            w_sep: self.w_sep,
            w_ali: self.w_ali,
            w_coh: self.w_coh,
            r_percept: self.r_percept,
            r_sep: self.r_sep,
            max_speed: self.max_speed,
            min_speed: self.min_speed,
            max_force: self.max_force,
            sdf_strength: self.sdf_strength,
            sdf_probe: self.sdf_probe,
            bounds_half: self.bounds_half,
            wander: self.wander,
            r_safe: self.r_safe,
            buoyancy: self.buoyancy,
            drag: self.drag,
            env_scale: self.env_scale,
            env_floor_y: self.env_floor_y,
            env_freq: self.env_freq,
            _pad1: 0,
            _pad2: 0,
        }
    }

    /// Disables the cursor's influence.
    pub fn idle_interaction() -> (uniform: InteractionUniforms)
        ensures
            uniform.is_idle(),
    {
        InteractionUniforms {
            ray_origin: [0, 0, 0],
            mode: InteractionMode::Off.as_u32(),
            focus_point: [0, 0, 0],
            radius: 0,
            strength: 0,
            falloff: IDLE_FALLOFF,
            tangent: 0,
            _pad: 0,
        }
    }
}

/// In both worlds the speeds, the radii and the forces are in order: an agent never flies slower than it
/// may, keeps its distance within what it perceives, keeps a margin to surfaces, and is pushed away from
/// them as hard as it can steer.
pub proof fn law_presets_are_in_order(config: SimConfig, mode: SimMode, num_boids: usize)
    requires
        config.is_preset(mode, num_boids),
    ensures
        0 < config.min_speed < config.max_speed,
        0 < config.r_sep < config.r_percept,
        0 < config.grid.cell_size < config.r_percept,
        0 < config.r_safe < config.r_percept,
        config.sdf_strength == config.max_force,
        config.env == EnvironmentKind::Reef <==> mode == SimMode::Fish,
{
}

/// A count that fits a word is kept; a larger one becomes the largest word.
pub proof fn law_counts_saturate(n: usize)
    ensures
        n <= 0xffff_ffff ==> saturated(n) == n,
        n >= 0xffff_ffff ==> saturated(n) == 0xffff_ffff,
{
}

/// The weights, the densities, the timestep and the wandering of a preset are the numbers they are meant to
/// be, in both worlds.
pub proof fn law_presets_share_their_weights(config: SimConfig, mode: SimMode, num_boids: usize)
    requires
        config.is_preset(mode, num_boids),
    ensures
        crate::singles::is_nearly(config.w_sep, 16, 10),
        crate::singles::is_nearly(config.w_ali, 1, 1),
        crate::singles::is_nearly(config.w_coh, 9, 10),
        crate::singles::is_nearly(config.density_ref, 12, 1),
        crate::singles::is_nearly(config.density_inverse, 1, 12),
        crate::singles::is_nearly(config.dt, 1, 60),
        crate::singles::is_nearly(config.wander, 35, 100),
{
    vstd::arithmetic::power2::lemma2_to64();
    crate::singles::lemma_nearly(0x3fcc_cccd, 16, 10, 0xcc_cccd, 0x800_0000);
    crate::singles::lemma_nearly(0x3f80_0000, 1, 1, 0x80_0000, 0x800_0000);
    crate::singles::lemma_nearly(0x3f66_6666, 9, 10, 0xe6_6666, 0x400_0000);
    crate::singles::lemma_nearly(0x4140_0000, 12, 1, 0xc0_0000, 0x4000_0000);
    crate::singles::lemma_nearly(0x3daa_aaab, 1, 12, 0xaa_aaab, 0x80_0000);
    crate::singles::lemma_nearly(0x3c88_8889, 1, 60, 0x88_8889, 0x20_0000);
    crate::singles::lemma_nearly(0x3eb3_3333, 35, 100, 0xb3_3333, 0x200_0000);
}

/// The underwater preset is the numbers it is meant to be: a box of 320 by 140 by 320 metres in cells of two
/// thirds of the perception radius of 3.5 metres, agents that keep 0.35 of that radius apart and go between
/// 4.9 and 14 metres per second, forces of three times the top speed, and a margin of a quarter more than it
/// takes to stop.
pub proof fn law_the_underwater_numbers(config: SimConfig, num_boids: usize)
    requires
        config.is_preset(SimMode::Fish, num_boids),
    ensures
        config.num_boids == num_boids,
        config.mode == SimMode::Fish,
        config.grid.dim@ == seq![137u32, 60, 137],
        config.env_freq == 0,
        crate::singles::is_nearly(config.grid.min@[0], -160, 1),
        crate::singles::is_nearly(config.grid.min@[1], -70, 1),
        crate::singles::is_nearly(config.grid.min@[2], -160, 1),
        crate::singles::is_nearly(config.grid.cell_size, 7, 3),
        crate::singles::is_nearly(config.bounds_half@[0], 160, 1),
        crate::singles::is_nearly(config.bounds_half@[1], 70, 1),
        crate::singles::is_nearly(config.bounds_half@[2], 160, 1),
        crate::singles::is_nearly(config.r_percept, 7, 2),
        crate::singles::is_nearly(config.r_sep, 1225, 1000),
        crate::singles::is_nearly(config.min_speed, 49, 10),
        crate::singles::is_nearly(config.max_speed, 14, 1),
        crate::singles::is_nearly(config.max_force, 42, 1),
        crate::singles::is_nearly(config.sdf_strength, 42, 1),
        crate::singles::is_nearly(config.sdf_probe, 7, 3),
        crate::singles::is_nearly(config.r_safe, 35, 12),
        crate::singles::is_nearly(config.buoyancy, 15, 100),
        crate::singles::is_nearly(config.drag, 35, 100),
        crate::singles::is_nearly(config.env_scale, 42, 1),
        crate::singles::is_nearly(config.env_floor_y, -70, 1),
{
    vstd::arithmetic::power2::lemma2_to64();
    vstd::arithmetic::power2::lemma2_to64_rest();
    crate::singles::lemma_nearly(0xc320_0000, -160, 1, 0xa0_0000, 0x4_0000_0000);
    crate::singles::lemma_nearly(0xc28c_0000, -70, 1, 0x8c_0000, 0x2_0000_0000);
    crate::singles::lemma_nearly(0x4015_5555, 7, 3, 0x95_5555, 0x1000_0000);
    crate::singles::lemma_nearly(0x4320_0000, 160, 1, 0xa0_0000, 0x4_0000_0000);
    crate::singles::lemma_nearly(0x428c_0000, 70, 1, 0x8c_0000, 0x2_0000_0000);
    crate::singles::lemma_nearly(0x4060_0000, 7, 2, 0xe0_0000, 0x1000_0000);
    crate::singles::lemma_nearly(0x3f9c_cccd, 1225, 1000, 0x9c_cccd, 0x800_0000);
    crate::singles::lemma_nearly(0x409c_cccd, 49, 10, 0x9c_cccd, 0x2000_0000);
    crate::singles::lemma_nearly(0x4160_0000, 14, 1, 0xe0_0000, 0x4000_0000);
    crate::singles::lemma_nearly(0x4228_0000, 42, 1, 0xa8_0000, 0x1_0000_0000);
    crate::singles::lemma_nearly(0x403a_aaaa, 35, 12, 0xba_aaaa, 0x1000_0000);
    crate::singles::lemma_nearly(0x3e19_999a, 15, 100, 0x99_999a, 0x100_0000);
    crate::singles::lemma_nearly(0x3eb3_3333, 35, 100, 0xb3_3333, 0x200_0000);
}

/// The sky preset is the numbers it is meant to be: a box of 1200 by 440 by 1200 metres in cells of two
/// thirds of the perception radius of 14 metres, agents that keep 0.35 of that radius apart and go between
/// 11.2 and 32 metres per second, forces of three times the top speed, and a margin of a quarter more than it
/// takes to stop.
pub proof fn law_the_sky_numbers(config: SimConfig, num_boids: usize)
    requires
        config.is_preset(SimMode::Birds, num_boids),
    ensures
        config.num_boids == num_boids,
        config.mode == SimMode::Birds,
        config.grid.dim@ == seq![129u32, 47, 129],
        config.env_floor_y == 0,
        crate::singles::is_nearly(config.grid.min@[0], -600, 1),
        crate::singles::is_nearly(config.grid.min@[1], -220, 1),
        crate::singles::is_nearly(config.grid.min@[2], -600, 1),
        crate::singles::is_nearly(config.grid.cell_size, 28, 3),
        crate::singles::is_nearly(config.bounds_half@[0], 600, 1),
        crate::singles::is_nearly(config.bounds_half@[1], 220, 1),
        crate::singles::is_nearly(config.bounds_half@[2], 600, 1),
        crate::singles::is_nearly(config.r_percept, 14, 1),
        crate::singles::is_nearly(config.r_sep, 49, 10),
        crate::singles::is_nearly(config.min_speed, 112, 10),
        crate::singles::is_nearly(config.max_speed, 32, 1),
        crate::singles::is_nearly(config.max_force, 96, 1),
        crate::singles::is_nearly(config.sdf_strength, 96, 1),
        crate::singles::is_nearly(config.sdf_probe, 84, 10),
        crate::singles::is_nearly(config.r_safe, 20, 3),
        crate::singles::is_nearly(config.buoyancy, -5, 100),
        crate::singles::is_nearly(config.drag, 12, 100),
        crate::singles::is_nearly(config.env_scale, 66, 1),
        crate::singles::is_nearly(config.env_freq, 25, 10000),
{
    vstd::arithmetic::power2::lemma2_to64();
    vstd::arithmetic::power2::lemma2_to64_rest();
    crate::singles::lemma_nearly(0xc416_0000, -600, 1, 0x96_0000, 0x10_0000_0000);
    crate::singles::lemma_nearly(0xc35c_0000, -220, 1, 0xdc_0000, 0x4_0000_0000);
    crate::singles::lemma_nearly(0x4115_5555, 28, 3, 0x95_5555, 0x4000_0000);
    crate::singles::lemma_nearly(0x4416_0000, 600, 1, 0x96_0000, 0x10_0000_0000);
    crate::singles::lemma_nearly(0x435c_0000, 220, 1, 0xdc_0000, 0x4_0000_0000);
    crate::singles::lemma_nearly(0x4160_0000, 14, 1, 0xe0_0000, 0x4000_0000);
    crate::singles::lemma_nearly(0x409c_cccd, 49, 10, 0x9c_cccd, 0x2000_0000);
    crate::singles::lemma_nearly(0x4133_3333, 112, 10, 0xb3_3333, 0x4000_0000);
    crate::singles::lemma_nearly(0x4200_0000, 32, 1, 0x80_0000, 0x1_0000_0000);
    crate::singles::lemma_nearly(0x42c0_0000, 96, 1, 0xc0_0000, 0x2_0000_0000);
    crate::singles::lemma_nearly(0x4106_6667, 84, 10, 0x86_6667, 0x4000_0000);
    crate::singles::lemma_nearly(0x40d5_5556, 20, 3, 0xd5_5556, 0x2000_0000);
    crate::singles::lemma_nearly(0xbd4c_cccd, -5, 100, 0xcc_cccd, 0x40_0000);
    crate::singles::lemma_nearly(0x3df5_c28f, 12, 100, 0xf5_c28f, 0x80_0000);
    crate::singles::lemma_nearly(0x4284_0000, 66, 1, 0x84_0000, 0x2_0000_0000);
    crate::singles::lemma_nearly(0x3b23_d70a, 25, 10000, 0xa3_d70a, 0x4_0000);
}

/// A preset is for 100000 agents by default, and its grid has at most 256 cells along an axis.
pub proof fn law_the_defaults_are_known()
    ensures
        DEFAULT_AGENTS == 100_000,
        MAX_CELLS_PER_AXIS == 256,
{
}

} // verus!
