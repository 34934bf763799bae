//! The models the viewer can show, one mesh at a time.
//!
//! Lengths, angles and palette positions are bit patterns of singles.

use crate::layout::{Boid, TreeInstance};
use crate::modes::SimMode;
use crate::text::same;
use vstd::prelude::*;

verus! {

/// 0.0
pub const ZERO: u32 = 0;

/// 0.5
pub const HALF: u32 = 0x3f00_0000;

/// 1.0
pub const ONE: u32 = 0x3f80_0000;

/// -0.1
pub const MINUS_0_1: u32 = 0xbdcc_cccd;

/// Speed the synthetic agent is given, in metres per second: 0.01.
pub const CREATURE_SPEED: u32 = 0x3c23_d70a;

/// Which mesh the viewer shows.
#[derive(Debug, Clone, Copy, PartialEq, Eq, Structural)]
pub enum Model {
    /// The fish the underwater world draws.
    Fish,
    /// The bird the sky world draws.
    Bird,
    /// The tree the scatter pass plants.
    Tree,
    /// The castle the landmark pass draws.
    Castle,
}

impl Default for Model {
    fn default() -> (model: Self)
        ensures
            model == Model::Fish,
    {
        Model::Fish
    }
}

impl Model {
    /// Every model, in the order the viewer cycles them.
    pub const ALL: [Model; 4] = [Model::Fish, Model::Bird, Model::Tree, Model::Castle];

    /// The model's place in the cycle.
    pub open spec fn position(self) -> int {
        match self {
            Model::Fish => 0,
            Model::Bird => 1,
            Model::Tree => 2,
            Model::Castle => 3,
        }
    }

    /// The model's name.
    pub open spec fn name(self) -> Seq<char> {
        match self {
            Model::Fish => "fish"@,
            Model::Bird => "bird"@,
            Model::Tree => "tree"@,
            Model::Castle => "castle"@,
        }
    }

    /// Name, for the window title, the log line and `--model`.
    pub fn label(self) -> (name: &'static str)
        ensures
            name@ == self.name(),
    {
        match self {
            Model::Fish => "fish",
            Model::Bird => "bird",
            Model::Tree => "tree",
            Model::Castle => "castle",
        }
    }

    /// Looks a model up by name, for the command line.
    pub fn from_name(name: &str) -> (found: Option<Self>)
        ensures
            match found {
                Some(model) => model.name() == name@,
                None => forall|model: Model| #[trigger] model.name() != name@,
            },
    {
        if same(name, "fish") {
            Some(Model::Fish)
        } else if same(name, "bird") {
            Some(Model::Bird)
        } else if same(name, "tree") {
            Some(Model::Tree)
        } else if same(name, "castle") {
            Some(Model::Castle)
        } else {
            None
        }
    }

    /// The next model, wrapping.
    pub fn next(self) -> (model: Self)
        ensures
            model.position() == (self.position() + 1) % 4,
    {
        match self {
            Model::Fish => Model::Bird,
            Model::Bird => Model::Tree,
            Model::Tree => Model::Castle,
            Model::Castle => Model::Fish,
        }
    }

    /// The previous model, wrapping.
    pub fn previous(self) -> (model: Self)
        ensures
            model.position() == (self.position() + 3) % 4,
    {
        match self {
            Model::Fish => Model::Castle,
            Model::Bird => Model::Fish,
            Model::Tree => Model::Bird,
            Model::Castle => Model::Tree,
        }
    }

    /// The world whose creature this is, or whose grade and medium show a static mesh best.
    ///
    /// The fish is shown in water and the other three in air, because that is where each of them is
    /// drawn.
    pub fn world(self) -> (mode: SimMode)
        ensures
            mode == (if self == Model::Fish {
                SimMode::Fish
            } else {
                SimMode::Birds
            }),
    {
        match self {
            Model::Fish => SimMode::Fish,
            Model::Bird | Model::Tree | Model::Castle => SimMode::Birds,
        }
    }

    /// Whether the mesh is the vertex-pulled creature rather than a host-built static mesh.
    pub fn is_creature(self) -> (creature: bool)
        ensures
            creature == (self == Model::Fish || self == Model::Bird),
    {
        match self {
            Model::Fish | Model::Bird => true,
            Model::Tree | Model::Castle => false,
        }
    }

    /// Point the viewer's camera orbits, in model space: a creature about its body, a static mesh
    /// about its middle.
    pub fn target(self) -> (point: [u32; 3])
        ensures
            point@ == (if self == Model::Fish || self == Model::Bird {
                seq![ZERO, ZERO, MINUS_0_1]
            } else {
                seq![ZERO, HALF, ZERO]
            }),
    {
        match self {
            Model::Fish | Model::Bird => [ZERO, ZERO, MINUS_0_1],
            Model::Tree | Model::Castle => [ZERO, HALF, ZERO],
        }
    }

    /// How far the camera sits from the target, in model units.
    pub fn distance(self) -> (bits: u32)
        ensures
            bits == (match self {
                Model::Fish => 0x4026_6666u32,
                Model::Bird => 0x4066_6666,
                Model::Tree => 0x3fd9_999a,
                Model::Castle => 0x3fcc_cccd,
            }),
    {
        match self {
            Model::Fish => 0x4026_6666,  // 2.6
            Model::Bird => 0x4066_6666,  // 3.6
            Model::Tree => 0x3fd9_999a,  // 1.7
            Model::Castle => 0x3fcc_cccd,  // 1.6
        }
    }

    /// Elevation the camera starts at, radians.
    pub fn pitch(self) -> (bits: u32)
        ensures
            bits == (if self == Model::Fish || self == Model::Bird {
                0x3e99_999au32
            } else {
                0x3e75_c28f
            }),
    {
        match self {
            Model::Fish | Model::Bird => 0x3e99_999a,  // 0.30
            Model::Tree | Model::Castle => 0x3e75_c28f,  // 0.24
        }
    }

    /// The synthetic agent a creature model is instanced from: one agent facing +Z, with a
    /// mid-palette species and no colour jitter.
    ///
    /// It moves slowly, because the shader stretches a body with its speed, and not at zero speed,
    /// because the shader builds its orientation from the velocity.
    pub fn agent(self) -> (boid: Boid)
        ensures
            boid.pos@ == seq![ZERO, ZERO, ZERO],
            boid.species == 0x3ecc_cccd,
            boid.vel@ == seq![ZERO, ZERO, CREATURE_SPEED],
            boid.phase == ZERO,
            boid.prev_dir@ == seq![ZERO, ZERO, ONE],
            boid.color_seed == HALF,
    {
        Boid {
            pos: [ZERO, ZERO, ZERO],
            species: 0x3ecc_cccd,  // 0.4
            vel: [ZERO, ZERO, CREATURE_SPEED],
            phase: ZERO,
            prev_dir: [ZERO, ZERO, ONE],
            color_seed: HALF,
        }
    }

    /// The single instance a static model is drawn from, turned so that the first frame shows it at
    /// an angle.
    pub fn instance(self) -> (instance: TreeInstance)
        ensures
            instance.pos@ == seq![ZERO, ZERO, ZERO],
            instance.scale == ONE,
            instance.yaw == (match self {
                Model::Castle => 0x3eb3_3333u32,
                Model::Tree => 0x3f33_3333,
                Model::Fish | Model::Bird => ZERO,
            }),
            instance.kind == 0x3e99_999a,
            instance.mask == ZERO,
            instance.pad1 == ZERO,
    {
        TreeInstance {
            pos: [ZERO, ZERO, ZERO],
            scale: ONE,
            yaw: match self {
                // The entrance faces +Z, so a small yaw turns it towards the default orbit.
                Model::Castle => 0x3eb3_3333,  // 0.35
                // Trees grow in a golden-angle spiral, so any yaw shows a different silhouette.
                Model::Tree => 0x3f33_3333,  // 0.7
                Model::Fish | Model::Bird => ZERO,
            },
            kind: 0x3e99_999a,  // 0.3
            mask: ZERO,
            pad1: ZERO,
        }
    }
}

/// `Model::ALL` lists every model once, each at its place in the cycle.
pub proof fn law_all_lists_every_model(model: Model)
    ensures
        Model::ALL@.len() == 4,
        0 <= model.position() < 4,
        Model::ALL@[model.position()] == model,
        forall|i: int| 0 <= i < 4 ==> (#[trigger] Model::ALL@[i]).position() == i,
{
}

/// A step forward and a step back lead to where they started.
pub proof fn law_steps_undo_each_other(model: Model, next: Model, back: Model)
    requires
        next.position() == (model.position() + 1) % 4,
        back.position() == (next.position() + 3) % 4,
    ensures
        back == model,
        next != model,
{
}

/// Four steps forward visit every model and end where they started.
pub proof fn law_four_steps_go_round(steps: Seq<Model>, model: Model)
    requires
        steps.len() == 5,
        forall|i: int, j: int|
            0 <= i < 4 && j == i + 1 ==> (#[trigger] steps[j]).position() == ((#[trigger] steps[i]).position()
                + 1) % 4,
    ensures
        steps[4] == steps[0],
        steps.take(4).contains(model),
{
    let (a, b, c, d, e) = (steps[0], steps[1], steps[2], steps[3], steps[4]);
    assert(b.position() == (a.position() + 1) % 4);
    assert(c.position() == (b.position() + 1) % 4);
    assert(d.position() == (c.position() + 1) % 4);
    assert(e.position() == (d.position() + 1) % 4);
    let i = (model.position() + 4 - steps[0].position()) % 4;
    assert(steps[i].position() == model.position());
    assert(steps.take(4)[i] == model);
}

/// No two models share a name, so looking a name up gives the model that bears it.
pub proof fn law_names_are_distinct(a: Model, b: Model)
    ensures
        a.name() == b.name() ==> a == b,
{
    reveal_strlit("fish");
    reveal_strlit("bird");
    reveal_strlit("tree");
    reveal_strlit("castle");
    if a.name() == b.name() {
        assert(a.name().len() == b.name().len());
        assert(a.name()[0] == b.name()[0]);
    }
}

/// The viewer goes through the models in a fixed order: fish, bird, tree, castle.
pub proof fn law_the_viewer_goes_from_fish_to_castle()
    ensures
        Model::Fish.position() == 0,
        Model::Bird.position() == 1,
        Model::Tree.position() == 2,
        Model::Castle.position() == 3,
        Model::Fish.name() == "fish"@,
        Model::Bird.name() == "bird"@,
        Model::Tree.name() == "tree"@,
        Model::Castle.name() == "castle"@,
{
}

/// The constants stand for the numbers in their names, and a creature on show moves a centimetre per second.
pub proof fn law_constants_are_what_they_say()
    ensures
        ZERO == 0,
        crate::singles::is_nearly(HALF, 1, 2),
        crate::singles::is_nearly(ONE, 1, 1),
        crate::singles::is_nearly(MINUS_0_1, -1, 10),
        crate::singles::is_nearly(CREATURE_SPEED, 1, 100),
{
    vstd::arithmetic::power2::lemma2_to64();
    crate::singles::lemma_nearly(0x3f00_0000, 1, 2, 0x80_0000, 0x400_0000);
    crate::singles::lemma_nearly(0x3f80_0000, 1, 1, 0x80_0000, 0x800_0000);
    crate::singles::lemma_nearly(0xbdcc_cccd, -1, 10, 0xcc_cccd, 0x80_0000);
    crate::singles::lemma_nearly(0x3c23_d70a, 1, 100, 0xa3_d70a, 0x10_0000);
}

} // verus!
