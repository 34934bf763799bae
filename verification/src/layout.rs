//! The memory layout of every structure shared with the shaders.
//!
//! A shader reads a buffer by byte offset, so host and shader have to agree on where each field of a
//! structure starts. Here each structure is described once, as the list of its fields in declaration
//! order with each field's length in 32-bit words, and the offsets and sizes follow from the list by
//! the C layout rule.
//!
//! A real number in a buffer is one word: the bit pattern of an IEEE-754 single.

use vstd::prelude::*;

verus! {

/// Marker written into `cell_start` for an empty grid cell.
pub const EMPTY_CELL: u32 = 0xffff_ffff;

/// Bytes in a word.
pub const WORD: u32 = 4;

/// The structures shared with the shaders.
#[derive(Debug, Clone, Copy, PartialEq, Eq, Structural)]
pub enum GpuStruct {
    /// One agent.
    Boid,
    /// A grid key and the agent it belongs to.
    KeyVal,
    /// The stage of the sort.
    SortParams,
    /// Everything one simulation step reads.
    SimParams,
    /// The cursor's influence.
    InteractionUniforms,
    /// The camera.
    CameraUniform,
    /// The shape and palette of a creature.
    MeshParams,
    /// Camera, creature, light and fog together.
    SceneUniform,
    /// The water.
    WaterParams,
    /// The post-processing grade.
    PostParams,
    /// The terrain.
    TerrainParams,
    /// The sky.
    SkyParams,
    /// One scattered mesh.
    TreeInstance,
}

/// Words taken by the first `n` of `fields`.
pub open spec fn words_before(fields: Seq<u32>, n: int) -> nat
    decreases n,
{
    if n <= 0 {
        0
    } else {
        words_before(fields, n - 1) + fields[n - 1] as nat
    }
}

/// The smallest multiple of `align` that is at least `size`.
pub open spec fn round_up(size: nat, align: nat) -> nat
    recommends
        align > 0,
{
    ((size + align - 1) as nat / align) * align
}

impl GpuStruct {
    /// The length of each field in words, in declaration order.
    pub open spec fn fields(self) -> Seq<u32> {
        match self {
            // pos, species, vel, phase, prev_dir, color_seed
            GpuStruct::Boid => seq![3, 1, 3, 1, 3, 1],
            // key, val
            GpuStruct::KeyVal => seq![1, 1],
            // j, k, n_padded, padding
            GpuStruct::SortParams => seq![1, 1, 1, 1],
            // grid_min, cell_size; grid_dim, num_boids; w_sep, w_ali, w_coh, r_percept;
            // r_sep, max_speed, min_speed, max_force; dt, time, sdf_strength, sdf_probe;
            // bounds_half, mode; wander, sep_boost, coh_falloff, r_safe;
            // buoyancy, drag, env_scale, env_floor_y; env_id, env_freq, padding, padding
            GpuStruct::SimParams => seq![
                3, 1, 3, 1, 1, 1, 1, 1, 1, 1, 1, 1, 1, 1, 1, 1, 3, 1, 1, 1, 1, 1, 1, 1, 1, 1, 1, 1, 1,
                1,
            ],
            // ray_origin, mode; focus_point, radius; strength, falloff, tangent, padding
            GpuStruct::InteractionUniforms => seq![3, 1, 3, 1, 1, 1, 1, 1],
            // view_proj; inv_view_proj; eye, time; forward, near; up, far;
            // viewport, tan_half_fovy, aspect
            GpuStruct::CameraUniform => seq![16, 16, 3, 1, 3, 1, 3, 1, 2, 1, 1],
            // body_w, body_h, nose, tail; fin_size, fin_z, wave_amp, wave_freq;
            // wing_span, wing_sweep, emissive, variant; hue_base, hue_range, saturation, value;
            // speed_ref, scale, medium, padding
            GpuStruct::MeshParams => seq![
                1, 1, 1, 1, 1, 1, 1, 1, 1, 1, 1, 1, 1, 1, 1, 1, 1, 1, 1, 1,
            ],
            // camera; mesh; light_dir, ambient; fog_color, fog_density
            GpuStruct::SceneUniform => seq![48, 20, 3, 1, 3, 1],
            // surface_y, floor_y, reef_period, caustic_strength; extinction, scatter;
            // godray_strength, surface_glow, caustic_scale, caustic_drift
            GpuStruct::WaterParams => seq![1, 1, 1, 1, 3, 1, 1, 1, 1, 1],
            // exposure, bloom_threshold, bloom_knee, bloom_strength; vignette, grain, aberration,
            // tonemap_white; time, saturation, contrast, lift
            GpuStruct::PostParams => seq![1, 1, 1, 1, 1, 1, 1, 1, 1, 1, 1, 1],
            // min_xz, size_xz; amplitude, frequency, biome_frequency, segments;
            // tree_height, tree_capacity, tree_candidates, resolution
            GpuStruct::TerrainParams => seq![2, 2, 1, 1, 1, 1, 1, 1, 1, 1],
            // beta_rayleigh, sun_intensity; beta_mie, mie_g;
            // ray_scale_height, mie_scale_height, horizon_boost, aerial_boost
            GpuStruct::SkyParams => seq![3, 1, 3, 1, 1, 1, 1, 1],
            // pos, scale; yaw, kind, mask, padding
            GpuStruct::TreeInstance => seq![3, 1, 1, 1, 1, 1],
        }
    }

    /// The structure's alignment in bytes.
    pub open spec fn alignment(self) -> nat {
        match self {
            GpuStruct::KeyVal => 4,
            _ => 16,
        }
    }

    /// Byte offset of field `i`: every field is made of words, so it follows the one before it.
    pub open spec fn field_offset(self, i: int) -> nat {
        4 * words_before(self.fields(), i)
    }

    /// Size in bytes: the fields, padded to the alignment.
    pub open spec fn byte_size(self) -> nat {
        round_up(self.field_offset(self.fields().len() as int), self.alignment())
    }

    /// The length of each field in words, in declaration order.
    pub fn field_words(self) -> (fields: Vec<u32>)
        ensures
            fields@ == self.fields(),
    {
        match self {
            GpuStruct::Boid => vec![3, 1, 3, 1, 3, 1],
            GpuStruct::KeyVal => vec![1, 1],
            GpuStruct::SortParams => vec![1, 1, 1, 1],
            GpuStruct::SimParams => vec![
                3, 1, 3, 1, 1, 1, 1, 1, 1, 1, 1, 1, 1, 1, 1, 1, 3, 1, 1, 1, 1, 1, 1, 1, 1, 1, 1, 1, 1,
                1,
            ],
            GpuStruct::InteractionUniforms => vec![3, 1, 3, 1, 1, 1, 1, 1],
            GpuStruct::CameraUniform => vec![16, 16, 3, 1, 3, 1, 3, 1, 2, 1, 1],
            GpuStruct::MeshParams => vec![
                1, 1, 1, 1, 1, 1, 1, 1, 1, 1, 1, 1, 1, 1, 1, 1, 1, 1, 1, 1,
            ],
            GpuStruct::SceneUniform => vec![48, 20, 3, 1, 3, 1],
            GpuStruct::WaterParams => vec![1, 1, 1, 1, 3, 1, 1, 1, 1, 1],
            GpuStruct::PostParams => vec![1, 1, 1, 1, 1, 1, 1, 1, 1, 1, 1, 1],
            GpuStruct::TerrainParams => vec![2, 2, 1, 1, 1, 1, 1, 1, 1, 1],
            GpuStruct::SkyParams => vec![3, 1, 3, 1, 1, 1, 1, 1],
            GpuStruct::TreeInstance => vec![3, 1, 1, 1, 1, 1],
        }
    }

    /// Byte offset of field `i`; the offset of the end for `i` equal to the number of fields.
    pub fn offset(self, i: usize) -> (bytes: u32)
        requires
            i <= self.fields().len(),
        ensures
            bytes == self.field_offset(i as int),
    {
        let fields = self.field_words();
        proof {
            lemma_sizes(self);
        }
        let mut words: u32 = 0;
        let mut k: usize = 0;
        while k < i
            invariant
                k <= i <= fields@.len(),
                fields@ == self.fields(),
                words == words_before(self.fields(), k as int),
                words_before(self.fields(), self.fields().len() as int) <= 76,
            decreases i - k,
        {
            proof {
                lemma_words_monotone(self.fields(), k + 1, self.fields().len() as int);
            }
            words = words + fields[k];
            k += 1;
        }
        proof {
            lemma_words_monotone(self.fields(), i as int, self.fields().len() as int);
        }
        words * WORD
    }

    /// Size in bytes.
    pub fn size(self) -> (bytes: u32)
        ensures
            bytes == self.byte_size(),
    {
        let fields = self.field_words();
        let end: u32 = self.offset(fields.len());
        let align: u32 = match self {
            GpuStruct::KeyVal => 4,
            _ => 16,
        };
        proof {
            lemma_sizes(self);
        }
        (end + align - 1) / align * align
    }
}

proof fn lemma_words_monotone(fields: Seq<u32>, i: int, j: int)
    requires
        0 <= i <= j <= fields.len(),
    ensures
        words_before(fields, i) <= words_before(fields, j),
        i < j ==> words_before(fields, i) + fields[i] <= words_before(fields, j),
    decreases j,
{
    if i < j {
        lemma_words_monotone(fields, i, j - 1);
    }
}

/// Where the fields of each structure end, spelled out.
proof fn lemma_ends(s: GpuStruct)
    ensures
        s.field_offset(s.fields().len() as int) == (match s {
            GpuStruct::Boid => 48nat,
            GpuStruct::KeyVal => 8,
            GpuStruct::SortParams => 16,
            GpuStruct::SimParams => 144,
            GpuStruct::InteractionUniforms => 48,
            GpuStruct::CameraUniform => 192,
            GpuStruct::MeshParams => 80,
            GpuStruct::SceneUniform => 304,
            GpuStruct::WaterParams => 48,
            GpuStruct::PostParams => 48,
            GpuStruct::TerrainParams => 48,
            GpuStruct::SkyParams => 48,
            GpuStruct::TreeInstance => 32,
        }),
{
    reveal_with_fuel(words_before, 31);
}

proof fn lemma_sizes(s: GpuStruct)
    ensures
        s.byte_size() == s.field_offset(s.fields().len() as int),
        s.byte_size() <= 304,
        s.byte_size() % s.alignment() == 0,
{
    lemma_ends(s);
    let end = s.field_offset(s.fields().len() as int);
    if s is KeyVal {
        assert(round_up(end, 4) == end);
    } else {
        assert(round_up(end, 16) == end);
    }
}

/// The size of each structure in bytes.
pub proof fn law_the_sizes_are_known()
    ensures
        GpuStruct::Boid.byte_size() == 48,
        GpuStruct::KeyVal.byte_size() == 8,
        GpuStruct::SortParams.byte_size() == 16,
        GpuStruct::SimParams.byte_size() == 144,
        GpuStruct::InteractionUniforms.byte_size() == 48,
        GpuStruct::CameraUniform.byte_size() == 192,
        GpuStruct::MeshParams.byte_size() == 80,
        GpuStruct::SceneUniform.byte_size() == 304,
        GpuStruct::WaterParams.byte_size() == 48,
        GpuStruct::PostParams.byte_size() == 48,
        GpuStruct::TerrainParams.byte_size() == 48,
        GpuStruct::SkyParams.byte_size() == 48,
        GpuStruct::TreeInstance.byte_size() == 32,
{
    assert forall|s: GpuStruct| #[trigger] s.byte_size() == s.field_offset(s.fields().len() as int) by {
        lemma_sizes(s);
    }
    lemma_ends(GpuStruct::Boid);
    lemma_ends(GpuStruct::KeyVal);
    lemma_ends(GpuStruct::SortParams);
    lemma_ends(GpuStruct::SimParams);
    lemma_ends(GpuStruct::InteractionUniforms);
    lemma_ends(GpuStruct::CameraUniform);
    lemma_ends(GpuStruct::MeshParams);
    lemma_ends(GpuStruct::SceneUniform);
    lemma_ends(GpuStruct::WaterParams);
    lemma_ends(GpuStruct::PostParams);
    lemma_ends(GpuStruct::TerrainParams);
    lemma_ends(GpuStruct::SkyParams);
    lemma_ends(GpuStruct::TreeInstance);
}

/// No structure holds padding that is not a field: the fields fill it to the last byte.
///
/// A field added without adjusting the explicit padding breaks this, and with it the agreement with
/// the shaders.
pub proof fn law_no_implicit_padding(s: GpuStruct)
    ensures
        s.byte_size() == s.field_offset(s.fields().len() as int),
        s.byte_size() % s.alignment() == 0,
{
    lemma_sizes(s);
}

/// Fields lie one after the other, inside the structure, each on a word boundary.
pub proof fn law_fields_do_not_overlap(s: GpuStruct, i: int, j: int)
    requires
        0 <= i < j < s.fields().len(),
    ensures
        s.field_offset(i) % 4 == 0,
        s.field_offset(j) % 4 == 0,
        s.field_offset(i) + 4 * s.fields()[i] <= s.field_offset(j),
        s.field_offset(j) + 4 * s.fields()[j] <= s.byte_size(),
{
    lemma_sizes(s);
    lemma_words_monotone(s.fields(), i, j);
    lemma_words_monotone(s.fields(), j, s.fields().len() as int);
}

/// Every three-component vector starts on a 16-byte boundary, which is where the shading language
/// places one.
pub proof fn law_vectors_are_aligned(s: GpuStruct, i: int)
    requires
        0 <= i < s.fields().len(),
        s.fields()[i] == 3,
    ensures
        s.field_offset(i) % 16 == 0,
{
    let f = s.fields();
    assert(i == 0 || i == 2 || i == 4 || i == 6 || (i == 16 && s is SimParams));
    if i == 16 {
        lemma_bounds_offset();
    } else {
        assert(words_before(f, 0) == 0);
        if i >= 2 {
            assert(words_before(f, 1) == f[0]);
            assert(words_before(f, 2) == f[0] + f[1]);
        }
        if i >= 4 {
            assert(words_before(f, 3) == f[0] + f[1] + f[2]);
            assert(words_before(f, 4) == f[0] + f[1] + f[2] + f[3]);
        }
        if i >= 6 {
            assert(words_before(f, 5) == f[0] + f[1] + f[2] + f[3] + f[4]);
            assert(words_before(f, 6) == f[0] + f[1] + f[2] + f[3] + f[4] + f[5]);
        }
    }
}

proof fn lemma_bounds_offset()
    ensures
        words_before(GpuStruct::SimParams.fields(), 16) == 20,
{
    reveal_with_fuel(words_before, 17);
}

/// One agent. Positions and velocities are bit patterns of singles.
#[derive(Debug, Clone, Copy, PartialEq, Eq)]
pub struct Boid {
    /// World-space position.
    pub pos: [u32; 3],
    /// Species selector.
    pub species: u32,
    /// World-space velocity.
    pub vel: [u32; 3],
    /// Animation phase.
    pub phase: u32,
    /// Direction of the previous step, for the bank angle.
    pub prev_dir: [u32; 3],
    /// Colour jitter seed.
    pub color_seed: u32,
}

impl Boid {
    /// The fields as the sequences of words they are stored as.
    pub open spec fn field_data(self) -> Seq<Seq<u32>> {
        seq![
            self.pos@,
            seq![self.species],
            self.vel@,
            seq![self.phase],
            self.prev_dir@,
            seq![self.color_seed],
        ]
    }

    /// Appends the words of one agent in memory order.
    pub fn push_words(&self, out: &mut Vec<u32>)
        ensures
            final(out)@ == old(out)@ + flat(self.field_data()),
    {
        out.push(self.pos[0]);
        out.push(self.pos[1]);
        out.push(self.pos[2]);
        out.push(self.species);
        out.push(self.vel[0]);
        out.push(self.vel[1]);
        out.push(self.vel[2]);
        out.push(self.phase);
        out.push(self.prev_dir[0]);
        out.push(self.prev_dir[1]);
        out.push(self.prev_dir[2]);
        out.push(self.color_seed);
        proof {
            reveal_with_fuel(flat, 7);
            assert(final(out)@ =~= old(out)@ + flat(self.field_data()));
        }
    }
}

/// One scattered mesh. All fields but the padding are bit patterns of singles.
#[derive(Debug, Clone, Copy, PartialEq, Eq)]
pub struct TreeInstance {
    /// Where the mesh stands.
    pub pos: [u32; 3],
    /// Its height.
    pub scale: u32,
    /// Rotation about the vertical axis.
    pub yaw: u32,
    /// Species selector.
    pub kind: u32,
    /// Biome mask at the position.
    pub mask: u32,
    /// Padding.
    pub pad1: u32,
}

impl TreeInstance {
    /// The fields as the sequences of words they are stored as.
    pub open spec fn field_data(self) -> Seq<Seq<u32>> {
        seq![
            self.pos@,
            seq![self.scale],
            seq![self.yaw],
            seq![self.kind],
            seq![self.mask],
            seq![self.pad1],
        ]
    }

    /// Appends the words of one instance in memory order.
    pub fn push_words(&self, out: &mut Vec<u32>)
        ensures
            final(out)@ == old(out)@ + flat(self.field_data()),
    {
        out.push(self.pos[0]);
        out.push(self.pos[1]);
        out.push(self.pos[2]);
        out.push(self.scale);
        out.push(self.yaw);
        out.push(self.kind);
        out.push(self.mask);
        out.push(self.pad1);
        proof {
            reveal_with_fuel(flat, 7);
            assert(final(out)@ =~= old(out)@ + flat(self.field_data()));
        }
    }
}

/// A grid key and the agent it belongs to.
#[derive(Debug, Clone, Copy, PartialEq, Eq, Structural)]
pub struct KeyVal {
    /// Flattened grid cell.
    pub key: u32,
    /// Index of the agent.
    pub val: u32,
}

/// The stage of the bitonic sort, one per dispatch.
#[derive(Debug, Clone, Copy, PartialEq, Eq, Structural)]
pub struct SortParams {
    /// Distance between the compared elements.
    pub j: u32,
    /// Length of the runs being merged.
    pub k: u32,
    /// Number of elements, a power of two.
    pub n_padded: u32,
    /// Padding.
    pub _pad: u32,
}

impl Default for SortParams {
    fn default() -> (params: Self)
        ensures
            params == (SortParams { j: 0, k: 0, n_padded: 0, _pad: 0 }),
    {
        SortParams { j: 0, k: 0, n_padded: 0, _pad: 0 }
    }
}

/// The parts one after the other.
pub open spec fn flat(parts: Seq<Seq<u32>>) -> Seq<u32>
    decreases parts.len(),
{
    if parts.len() == 0 {
        Seq::empty()
    } else {
        flat(parts.drop_last()) + parts.last()
    }
}

/// Whether `parts` has the lengths of the fields of `s`.
pub open spec fn matches_fields(s: GpuStruct, parts: Seq<Seq<u32>>) -> bool {
    &&& parts.len() == s.fields().len()
    &&& forall|i: int| 0 <= i < parts.len() ==> #[trigger] parts[i].len() == s.fields()[i]
}

proof fn lemma_flat_prefix(s: GpuStruct, parts: Seq<Seq<u32>>, n: int)
    requires
        matches_fields(s, parts),
        0 <= n <= parts.len(),
    ensures
        flat(parts.take(n)).len() == words_before(s.fields(), n),
    decreases n,
{
    if n > 0 {
        lemma_flat_prefix(s, parts, n - 1);
        assert(parts.take(n).drop_last() =~= parts.take(n - 1));
        assert(parts.take(n).last() == parts[n - 1]);
    } else {
        assert(parts.take(0).len() == 0);
    }
}

proof fn lemma_flat_extends(s: GpuStruct, parts: Seq<Seq<u32>>, i: int, n: int)
    requires
        matches_fields(s, parts),
        0 <= i < n <= parts.len(),
    ensures
        flat(parts.take(n)).subrange(
            words_before(s.fields(), i) as int,
            words_before(s.fields(), i + 1) as int,
        ) == parts[i],
    decreases n,
{
    lemma_flat_prefix(s, parts, n);
    lemma_flat_prefix(s, parts, n - 1);
    lemma_words_monotone(s.fields(), i + 1, n);
    let from = words_before(s.fields(), i) as int;
    let to = words_before(s.fields(), i + 1) as int;
    assert(parts.take(n).drop_last() =~= parts.take(n - 1));
    assert(parts.take(n).last() == parts[n - 1]);
    if i < n - 1 {
        lemma_flat_extends(s, parts, i, n - 1);
        lemma_words_monotone(s.fields(), i + 1, n - 1);
        assert(flat(parts.take(n)).subrange(from, to) =~= flat(parts.take(n - 1)).subrange(from, to));
    } else {
        assert(flat(parts.take(n)).subrange(from, to) =~= parts[i]);
    }
}

/// A field is stored where the offset says: the words from its offset on are the field's words, and
/// the whole is as long as the structure.
pub proof fn law_fields_are_at_their_offsets(s: GpuStruct, parts: Seq<Seq<u32>>, i: int)
    requires
        matches_fields(s, parts),
        0 <= i < parts.len(),
    ensures
        flat(parts).subrange(
            s.field_offset(i) as int / 4,
            s.field_offset(i) as int / 4 + s.fields()[i] as int,
        ) == parts[i],
        4 * flat(parts).len() == s.byte_size(),
{
    assert(parts.take(parts.len() as int) =~= parts);
    lemma_flat_extends(s, parts, i, parts.len() as int);
    lemma_flat_prefix(s, parts, parts.len() as int);
    lemma_sizes(s);
}

/// An agent and a scattered mesh have the fields their layouts describe.
pub proof fn law_stored_structs_match_their_layout(boid: Boid, tree: TreeInstance)
    ensures
        matches_fields(GpuStruct::Boid, boid.field_data()),
        matches_fields(GpuStruct::TreeInstance, tree.field_data()),
{
}

/// Field offsets of the structures whose agreement with the shaders is checked on the device.
#[derive(Debug, Clone, Copy, PartialEq, Eq)]
pub struct OffsetTable {
    /// `Boid` field offsets in declaration order.
    pub boid: [u32; 6],
    /// `SimParams` field offsets in declaration order.
    pub sim_params: [u32; 16],
    /// `InteractionUniforms` field offsets in declaration order.
    pub interaction: [u32; 7],
    /// `WaterParams` field offsets in declaration order, then the two later extinction channels.
    pub water: [u32; 12],
    /// `PostParams` field offsets in declaration order.
    pub post: [u32; 12],
    /// Sizes of the structs, in the same order as the fields above.
    pub sizes: [u32; 5],
}

/// The structures of the table, in order.
pub open spec fn table_structs() -> Seq<GpuStruct> {
    seq![
        GpuStruct::Boid,
        GpuStruct::SimParams,
        GpuStruct::InteractionUniforms,
        GpuStruct::WaterParams,
        GpuStruct::PostParams,
    ]
}

/// Builds the table of field offsets.
///
/// The three extinction channels of the water are one field here and three scalars in the shader, so
/// the table lists the second and the third after the fields.
pub fn offset_table() -> (table: OffsetTable)
    ensures
        forall|i: int| 0 <= i < 6 ==> #[trigger] table.boid@[i] == GpuStruct::Boid.field_offset(i),
        forall|i: int|
            0 <= i < 16 ==> #[trigger] table.sim_params@[i] == GpuStruct::SimParams.field_offset(i),
        forall|i: int|
            0 <= i < 7 ==> #[trigger] table.interaction@[i]
                == GpuStruct::InteractionUniforms.field_offset(i),
        forall|i: int|
            0 <= i < 10 ==> #[trigger] table.water@[i] == GpuStruct::WaterParams.field_offset(i),
        table.water@[10] == GpuStruct::WaterParams.field_offset(4) + 4,
        table.water@[11] == GpuStruct::WaterParams.field_offset(4) + 8,
        forall|i: int| 0 <= i < 12 ==> #[trigger] table.post@[i] == GpuStruct::PostParams.field_offset(i),
        forall|i: int| 0 <= i < 5 ==> #[trigger] table.sizes@[i] == table_structs()[i].byte_size(),
{
    let boid = GpuStruct::Boid;
    let sim = GpuStruct::SimParams;
    let cursor = GpuStruct::InteractionUniforms;
    let water = GpuStruct::WaterParams;
    let post = GpuStruct::PostParams;
    proof {
        lemma_sizes(water);
        lemma_words_monotone(water.fields(), 4, water.fields().len() as int);
    }
    let extinction: u32 = water.offset(4);
    OffsetTable {
        boid: [
            boid.offset(0),
            boid.offset(1),
            boid.offset(2),
            boid.offset(3),
            boid.offset(4),
            boid.offset(5),
        ],
        sim_params: [
            sim.offset(0),
            sim.offset(1),
            sim.offset(2),
            sim.offset(3),
            sim.offset(4),
            sim.offset(5),
            sim.offset(6),
            sim.offset(7),
            sim.offset(8),
            sim.offset(9),
            sim.offset(10),
            sim.offset(11),
            sim.offset(12),
            sim.offset(13),
            sim.offset(14),
            sim.offset(15),
        ],
        interaction: [
            cursor.offset(0),
            cursor.offset(1),
            cursor.offset(2),
            cursor.offset(3),
            cursor.offset(4),
            cursor.offset(5),
            cursor.offset(6),
        ],
        water: [
            water.offset(0),
            water.offset(1),
            water.offset(2),
            water.offset(3),
            extinction,
            water.offset(5),
            water.offset(6),
            water.offset(7),
            water.offset(8),
            water.offset(9),
            extinction + 4,
            extinction + 8,
        ],
        post: [
            post.offset(0),
            post.offset(1),
            post.offset(2),
            post.offset(3),
            post.offset(4),
            post.offset(5),
            post.offset(6),
            post.offset(7),
            post.offset(8),
            post.offset(9),
            post.offset(10),
            post.offset(11),
        ],
        sizes: [boid.size(), sim.size(), cursor.size(), water.size(), post.size()],
    }
}

/// The shaders find each field of an agent at its word.
pub proof fn law_the_words_of_an_agent(b: Boid)
    ensures
        ({
            let words = flat(b.field_data());
            &&& words.len() == 12
            &&& words[0] == b.pos@[0]
            &&& words[1] == b.pos@[1]
            &&& words[2] == b.pos@[2]
            &&& words[3] == b.species
            &&& words[4] == b.vel@[0]
            &&& words[5] == b.vel@[1]
            &&& words[6] == b.vel@[2]
            &&& words[7] == b.phase
            &&& words[8] == b.prev_dir@[0]
            &&& words[9] == b.prev_dir@[1]
            &&& words[10] == b.prev_dir@[2]
            &&& words[11] == b.color_seed
        }),
{
    reveal_with_fuel(flat, 7);
}

/// The shaders find each field of a scattered mesh at its word.
pub proof fn law_the_words_of_a_scattered_mesh(t: TreeInstance)
    ensures
        ({
            let words = flat(t.field_data());
            &&& words.len() == 8
            &&& words[0] == t.pos@[0]
            &&& words[1] == t.pos@[1]
            &&& words[2] == t.pos@[2]
            &&& words[3] == t.scale
            &&& words[4] == t.yaw
            &&& words[5] == t.kind
            &&& words[6] == t.mask
            &&& words[7] == t.pad1
        }),
{
    reveal_with_fuel(flat, 7);
}

/// Where each field of each structure starts, in bytes, as the shaders declare it.
pub open spec fn known_offsets(s: GpuStruct) -> Seq<nat> {
    match s {
        GpuStruct::Boid => seq![0nat, 12, 16, 28, 32, 44],
        GpuStruct::KeyVal => seq![0nat, 4],
        GpuStruct::SortParams => seq![0nat, 4, 8, 12],
        GpuStruct::SimParams => seq![
            0nat, 12, 16, 28, 32, 36, 40, 44, 48, 52, 56, 60, 64, 68, 72, 76, 80, 92, 96, 100, 104, 108, 112,
            116, 120, 124, 128, 132, 136, 140,
        ],
        GpuStruct::InteractionUniforms => seq![0nat, 12, 16, 28, 32, 36, 40, 44],
        GpuStruct::CameraUniform => seq![0nat, 64, 128, 140, 144, 156, 160, 172, 176, 184, 188],
        GpuStruct::MeshParams => seq![
            0nat, 4, 8, 12, 16, 20, 24, 28, 32, 36, 40, 44, 48, 52, 56, 60, 64, 68, 72, 76,
        ],
        GpuStruct::SceneUniform => seq![0nat, 192, 272, 284, 288, 300],
        GpuStruct::WaterParams => seq![0nat, 4, 8, 12, 16, 28, 32, 36, 40, 44],
        GpuStruct::PostParams => seq![0nat, 4, 8, 12, 16, 20, 24, 28, 32, 36, 40, 44],
        GpuStruct::TerrainParams => seq![0nat, 8, 16, 20, 24, 28, 32, 36, 40, 44],
        GpuStruct::SkyParams => seq![0nat, 12, 16, 28, 32, 36, 40, 44],
        GpuStruct::TreeInstance => seq![0nat, 12, 16, 20, 24, 28],
    }
}

/// Every field starts at the byte where the shaders declare it, in every structure.
pub proof fn law_fields_start_where_the_shaders_declare_them(s: GpuStruct, i: int)
    requires
        0 <= i < s.fields().len(),
    ensures
        s.fields().len() == known_offsets(s).len(),
        s.field_offset(i) == known_offsets(s)[i],
    decreases i,
{
    if i > 0 {
        law_fields_start_where_the_shaders_declare_them(s, i - 1);
        lemma_known_steps(s, i);
    } else {
        assert(known_offsets(s)[0] == 0);
    }
}

proof fn lemma_known_steps(s: GpuStruct, i: int)
    requires
        0 < i < s.fields().len(),
    ensures
        s.fields().len() == known_offsets(s).len(),
        known_offsets(s)[i] == known_offsets(s)[i - 1] + 4 * s.fields()[i - 1],
{
}

/// Rounding up gives a multiple that is not below the size, and no further from it than it has to be.
pub proof fn law_rounding_up_goes_no_further_than_needed(size: nat, align: nat)
    requires
        align > 0,
    ensures
        round_up(size, align) % align == 0,
        size <= round_up(size, align) < size + align,
{
    let n = (size + align - 1) as int;
    let a = align as int;
    vstd::arithmetic::div_mod::lemma_fundamental_div_mod(n, a);
    assert((n / a) * a == a * (n / a)) by (nonlinear_arith);
    vstd::arithmetic::div_mod::lemma_mod_multiples_basic(n / a, a);
}

} // verus!
