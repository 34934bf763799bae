use boids::layout::{
    offset_table, Boid, GpuStruct, KeyVal, SortParams, TreeInstance, EMPTY_CELL,
};
use boids::modes::{EnvironmentKind, InteractionMode, SimMode};

#[test]
fn no_implicit_padding_holds() {
    // If any of these fail, a field was added without updating the padding fields and the shader's
    // copy of the structure.
    assert_eq!(GpuStruct::Boid.size(), 48);
    assert_eq!(GpuStruct::SimParams.size(), 144);
    assert_eq!(GpuStruct::InteractionUniforms.size(), 48);
    assert_eq!(GpuStruct::WaterParams.size(), 48);
    assert_eq!(GpuStruct::PostParams.size(), 48);
}

#[test]
fn offset_table_is_16_aligned() {
    let t = offset_table();
    for (name, offs) in [("boid", &t.boid[..]), ("sim_params", &t.sim_params[..])] {
        for (i, o) in offs.iter().enumerate() {
            assert_eq!(o % 4, 0, "{name}[{i}] offset {o} is not 4-byte aligned");
        }
    }
    assert_eq!(t.sizes[0], 48);
    assert_eq!(t.sizes[1], 144);
    assert_eq!(t.sizes[2], 48);
}

#[test]
fn the_offset_table_holds_the_documented_offsets() {
    let t = offset_table();
    assert_eq!(t.boid, [0, 12, 16, 28, 32, 44]);
    assert_eq!(
        t.sim_params,
        [0, 12, 16, 28, 32, 36, 40, 44, 48, 52, 56, 60, 64, 68, 72, 76]
    );
    assert_eq!(t.interaction, [0, 12, 16, 28, 32, 36, 40]);
    assert_eq!(t.water, [0, 4, 8, 12, 16, 28, 32, 36, 40, 44, 20, 24]);
    assert_eq!(t.post, [0, 4, 8, 12, 16, 20, 24, 28, 32, 36, 40, 44]);
    assert_eq!(t.sizes, [48, 144, 48, 48, 48]);
    assert_eq!(GpuStruct::SimParams.offset(16), 80);
    assert_eq!(GpuStruct::SceneUniform.offset(2), 272);
}

#[test]
fn every_structure_has_its_documented_size() {
    for (s, size) in [
        (GpuStruct::Boid, 48),
        (GpuStruct::KeyVal, 8),
        (GpuStruct::SortParams, 16),
        (GpuStruct::SimParams, 144),
        (GpuStruct::InteractionUniforms, 48),
        (GpuStruct::CameraUniform, 192),
        (GpuStruct::MeshParams, 80),
        (GpuStruct::SceneUniform, 304),
        (GpuStruct::WaterParams, 48),
        (GpuStruct::PostParams, 48),
        (GpuStruct::TerrainParams, 48),
        (GpuStruct::SkyParams, 48),
        (GpuStruct::TreeInstance, 32),
    ] {
        assert_eq!(s.size(), size, "{s:?}");
        let words: u32 = s.field_words().iter().sum();
        assert_eq!(words * 4, size, "{s:?} is filled by its fields");
    }
}

#[test]
fn agents_and_trees_are_stored_field_by_field() {
    let boid = Boid {
        pos: [1, 2, 3],
        species: 4,
        vel: [5, 6, 7],
        phase: 8,
        prev_dir: [9, 10, 11],
        color_seed: 12,
    };
    let mut words = Vec::new();
    boid.push_words(&mut words);
    assert_eq!(words, (1..=12).collect::<Vec<u32>>());
    assert_eq!(words[offset_table().boid[2] as usize / 4], 5);

    let tree = TreeInstance {
        pos: [1, 2, 3],
        scale: 4,
        yaw: 5,
        kind: 6,
        mask: 7,
        pad1: 8,
    };
    let mut words = Vec::new();
    tree.push_words(&mut words);
    assert_eq!(words, (1..=8).collect::<Vec<u32>>());
}

#[test]
fn modes_have_the_codes_the_shaders_know() {
    assert_eq!(SimMode::Fish.as_u32(), 0);
    assert_eq!(SimMode::Birds.as_u32(), 1);
    assert_eq!(InteractionMode::Off.as_u32(), 0);
    assert_eq!(InteractionMode::Attract.as_u32(), 1);
    assert_eq!(InteractionMode::Repel.as_u32(), 2);
    assert_eq!(EnvironmentKind::Free.as_u32(), 0);
    assert_eq!(EnvironmentKind::Reef.as_u32(), 1);
    assert_eq!(EnvironmentKind::Terrain.as_u32(), 2);
    assert_eq!(SimMode::default(), SimMode::Fish);
    assert_eq!(InteractionMode::default(), InteractionMode::Off);
    assert_eq!(EnvironmentKind::default(), EnvironmentKind::Free);
    assert_eq!(EMPTY_CELL, u32::MAX);
    assert_eq!(
        SortParams::default(),
        SortParams { j: 0, k: 0, n_padded: 0, _pad: 0 }
    );
    assert_eq!(KeyVal { key: 1, val: 2 }, KeyVal { key: 1, val: 2 });
}
