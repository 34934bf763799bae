//! The worlds, the cursor modes and the environments, with the numbers the shaders know them by.

use vstd::prelude::*;

verus! {

/// Which world the swarm lives in.
#[derive(Debug, Clone, Copy, PartialEq, Eq, Structural)]
pub enum SimMode {
    /// Underwater: buoyancy, drag, reef avoidance.
    Fish,
    /// Sky: gravity-free glide, heightfield terrain avoidance.
    Birds,
}

impl Default for SimMode {
    fn default() -> (mode: Self)
        ensures
            mode == SimMode::Fish,
    {
        SimMode::Fish
    }
}

impl SimMode {
    /// Raw value as the shaders read it.
    pub open spec fn code(self) -> u32 {
        match self {
            SimMode::Fish => 0,
            SimMode::Birds => 1,
        }
    }

    /// Raw value as the shaders read it.
    pub fn as_u32(self) -> (code: u32)
        ensures
            code == self.code(),
    {
        match self {
            SimMode::Fish => 0,
            SimMode::Birds => 1,
        }
    }

    /// The other world.
    pub open spec fn opposite(self) -> SimMode {
        match self {
            SimMode::Fish => SimMode::Birds,
            SimMode::Birds => SimMode::Fish,
        }
    }
}

/// Cursor interaction mode.
#[derive(Debug, Clone, Copy, PartialEq, Eq, Structural)]
pub enum InteractionMode {
    /// Cursor does not affect the swarm.
    Off,
    /// Agents steer toward the focus point.
    Attract,
    /// Agents flee the focus point and swirl around it.
    Repel,
}

impl Default for InteractionMode {
    fn default() -> (mode: Self)
        ensures
            mode == InteractionMode::Off,
    {
        InteractionMode::Off
    }
}

impl InteractionMode {
    /// Raw value as the shaders read it.
    pub open spec fn code(self) -> u32 {
        match self {
            InteractionMode::Off => 0,
            InteractionMode::Attract => 1,
            InteractionMode::Repel => 2,
        }
    }

    /// Raw value as the shaders read it.
    pub fn as_u32(self) -> (code: u32)
        ensures
            code == self.code(),
    {
        match self {
            InteractionMode::Off => 0,
            InteractionMode::Attract => 1,
            InteractionMode::Repel => 2,
        }
    }
}

/// Which environment field the simulation avoids.
#[derive(Debug, Clone, Copy, PartialEq, Eq, Structural)]
pub enum EnvironmentKind {
    /// Free space, no avoidance force at all.
    Free,
    /// Underwater reef.
    Reef,
    /// Procedural terrain.
    Terrain,
}

impl Default for EnvironmentKind {
    fn default() -> (kind: Self)
        ensures
            kind == EnvironmentKind::Free,
    {
        EnvironmentKind::Free
    }
}

impl EnvironmentKind {
    /// Raw value as the shaders read it.
    pub open spec fn code(self) -> u32 {
        match self {
            EnvironmentKind::Free => 0,
            EnvironmentKind::Reef => 1,
            EnvironmentKind::Terrain => 2,
        }
    }

    /// Raw value as the shaders read it.
    pub fn as_u32(self) -> (code: u32)
        ensures
            code == self.code(),
    {
        match self {
            EnvironmentKind::Free => 0,
            EnvironmentKind::Reef => 1,
            EnvironmentKind::Terrain => 2,
        }
    }
}

/// The shaders tell any two worlds apart.
pub proof fn law_sim_mode_codes_are_distinct(a: SimMode, b: SimMode)
    ensures
        a.code() == b.code() ==> a == b,
{
}

/// The shaders tell any two cursor modes apart.
pub proof fn law_interaction_codes_are_distinct(a: InteractionMode, b: InteractionMode)
    ensures
        a.code() == b.code() ==> a == b,
{
}

/// The shaders tell any two environments apart.
pub proof fn law_environment_codes_are_distinct(a: EnvironmentKind, b: EnvironmentKind)
    ensures
        a.code() == b.code() ==> a == b,
{
}

/// The shaders know each world, each cursor mode and each environment by its number.
pub proof fn law_the_shaders_know_the_codes()
    ensures
        SimMode::Fish.code() == 0 && SimMode::Birds.code() == 1,
        InteractionMode::Off.code() == 0 && InteractionMode::Attract.code() == 1
            && InteractionMode::Repel.code() == 2,
        EnvironmentKind::Free.code() == 0 && EnvironmentKind::Reef.code() == 1
            && EnvironmentKind::Terrain.code() == 2,
{
}

/// There are two worlds, and each is the other's opposite.
pub proof fn law_opposites_are_mutual(mode: SimMode)
    ensures
        mode.opposite() != mode,
        mode.opposite().opposite() == mode,
{
}

} // verus!
