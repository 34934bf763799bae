use boids::bindings::Resource;
use boids::config::{SimConfig, DEFAULT_AGENTS};
use boids::grid::GridDims;
use boids::layout::{Boid, KeyVal, TreeInstance, EMPTY_CELL};
use boids::modes::{EnvironmentKind, SimMode};
use boids::separation::{Placement, SeparationGrid, Verdict, SEPARATION_TRIES};
use boids::sim::{clear_plan, dispatch_size, padded_count, uniform_size, PingPong, SimSizes};
use boids::sort::sort_keys;
use boids::strategy::{Strategy, GRID_CROSSOVER};
use boids::transfer::{boid_bytes, boids_of_words, read_boids, read_words, tree_bytes, upload_boids};

fn bits(v: [f32; 3]) -> [u32; 3] {
    [v[0].to_bits(), v[1].to_bits(), v[2].to_bits()]
}

/// The grid over a box of half extents, with cells of a size.
fn grid_over(half: [f32; 3], cell: f32, max: u32) -> GridDims {
    let cells = half.map(|h| (2.0 * h / cell).round().max(1.0) as u32);
    GridDims::for_domain(bits(half.map(|h| -h)), cell.to_bits(), cells, max)
}

/// The cell of a position.
fn cell_of(grid: &GridDims, p: [f32; 3]) -> u32 {
    let cell = f32::from_bits(grid.cell_size);
    let at = |i: usize| ((p[i] - f32::from_bits(grid.min[i])) / cell).floor() as i64;
    grid.cell_of([at(0), at(1), at(2)])
}

#[test]
fn cell_lookup_is_clamped_and_injective_in_range() {
    let grid = grid_over([100.0; 3], 2.0, 256);
    let n = grid.num_cells();
    for p in [
        [-1000.0; 3],
        [1000.0; 3],
        [0.0; 3],
        [99.0, -99.0, 0.0],
    ] {
        assert!(cell_of(&grid, p) < n, "cell index out of range for {p:?}");
    }
    // Distinct interior positions must not collide into the same cell index.
    let a = cell_of(&grid, [0.0, 0.0, 0.0]);
    let b = cell_of(&grid, [40.0, 0.0, 0.0]);
    assert_ne!(a, b);
}

#[test]
fn flatten_matches_manual_indexing() {
    let grid = GridDims {
        dim: [4, 3, 2],
        min: bits([0.0; 3]),
        cell_size: 1.0f32.to_bits(),
    };
    assert_eq!(grid.num_cells(), 24);
    assert_eq!(grid.flatten([1, 0, 0]), 1);
    assert_eq!(grid.flatten([0, 1, 0]), 4);
    assert_eq!(grid.flatten([0, 0, 1]), 12);
    assert_eq!(grid.flatten([3, 2, 1]), 23);
}

#[test]
fn every_cell_of_a_grid_has_its_own_number() {
    let grid = GridDims { dim: [4, 3, 2], min: [0; 3], cell_size: 0 };
    let mut seen = vec![false; 24];
    for z in 0..2 {
        for y in 0..3 {
            for x in 0..4 {
                let n = grid.flatten([x, y, z]) as usize;
                assert!(!seen[n]);
                seen[n] = true;
            }
        }
    }
    assert_eq!(grid.cell_of([-5, 1, 99]), grid.flatten([0, 1, 1]));
    assert_eq!(grid.cell_of([i64::MAX, i64::MIN, 0]), grid.flatten([3, 0, 0]));
    let narrow = GridDims::for_domain([7; 3], 9, [0, 300, 5], 256);
    assert_eq!(narrow.dim, [1, 256, 5]);
    assert_eq!((narrow.min, narrow.cell_size), ([7; 3], 9));
}

#[test]
fn cell_size_follows_perception_radius() {
    let fish = SimConfig::for_mode(SimMode::Fish, 1000);
    let cell_size = f32::from_bits(fish.grid.cell_size);
    let r_percept = f32::from_bits(fish.r_percept);
    assert!((cell_size - 2.0 * r_percept / 3.0).abs() < 1e-6);
    let p = fish.to_params(0.0f32.to_bits(), fish.dt);
    assert_eq!(p.num_boids, 1000);
    assert_eq!(p.mode, SimMode::Fish.as_u32());
}

#[test]
fn presets_hold_the_values_they_are_derived_from() {
    for (mode, half, r_percept, max_speed, buoyancy, drag) in [
        (SimMode::Fish, [160.0f32, 70.0, 160.0], 3.5f32, 14.0f32, 0.15f32, 0.35f32),
        (SimMode::Birds, [600.0, 220.0, 600.0], 14.0, 32.0, -0.05, 0.12),
    ] {
        let config = SimConfig::for_mode(mode, 77);
        assert_eq!(config.num_boids, 77);
        assert_eq!(config.mode, mode);
        assert_eq!(config.bounds_half, bits(half));
        assert_eq!(config.grid, grid_over(half, 2.0 * r_percept / 3.0, 256));
        let sdf_strength = max_speed * 3.0;
        let stopping = max_speed * max_speed / (2.0 * sdf_strength);
        for (name, got, want) in [
            ("w_sep", config.w_sep, 1.6f32),
            ("w_ali", config.w_ali, 1.0),
            ("w_coh", config.w_coh, 0.9),
            ("r_percept", config.r_percept, r_percept),
            ("radius", config.radius(), r_percept),
            ("r_sep", config.r_sep, r_percept * 0.35),
            ("density_ref", config.density_ref, 12.0),
            ("density_inverse", config.density_inverse, 1.0 / 12.0f32.max(1e-3)),
            ("min_speed", config.min_speed, max_speed * 0.35),
            ("max_speed", config.max_speed, max_speed),
            ("max_force", config.max_force, max_speed * 3.0),
            ("dt", config.dt, 1.0 / 60.0),
            ("wander", config.wander, 0.35),
            ("sdf_strength", config.sdf_strength, sdf_strength),
            ("sdf_probe", config.sdf_probe, (r_percept * 0.6).max(stopping)),
            ("r_safe", config.r_safe, (r_percept * 0.4).max(stopping * 1.25)),
            ("buoyancy", config.buoyancy, buoyancy),
            ("drag", config.drag, drag),
        ] {
            assert_eq!(f32::from_bits(got), want, "{mode:?} {name}");
        }
    }
    let fish = SimConfig::for_mode(SimMode::Fish, 1);
    assert_eq!(fish.env, EnvironmentKind::Reef);
    assert_eq!(f32::from_bits(fish.env_scale), 42.0);
    assert_eq!(f32::from_bits(fish.env_floor_y), -70.0);
    let bird = SimConfig::for_mode(SimMode::Birds, 1);
    assert_eq!(bird.env, EnvironmentKind::Terrain);
    // A third of the half-height, and three features across the world.
    assert_eq!(f32::from_bits(bird.env_scale), 220.0 * 0.3);
    assert_eq!(f32::from_bits(bird.env_freq), 3.0 / (2.0 * 600.0f32).max(1.0));
    assert_eq!(fish.env_freq, 0);
    assert_eq!(f32::from_bits(bird.env_floor_y), 0.0);
    assert_eq!(SimConfig::default(), SimConfig::for_mode(SimMode::Fish, DEFAULT_AGENTS));
}

#[test]
fn settings_are_packed_for_the_shaders() {
    let config = SimConfig::for_mode(SimMode::Birds, usize::MAX);
    let p = config.to_params(5, 6);
    assert_eq!(p.num_boids, u32::MAX);
    assert_eq!((p.time, p.dt), (5, 6));
    assert_eq!(p.mode, 1);
    assert_eq!(p.env_id, 2);
    assert_eq!(p.sep_boost, config.density_inverse);
    assert_eq!(p.coh_falloff, config.density_inverse);
    assert_eq!(p.grid_dim, config.grid.dim);
    assert_eq!(p.grid_min, config.grid.min);
    let words = p.words();
    assert_eq!(words.len(), 36);
    assert_eq!(&words[0..4], &[p.grid_min[0], p.grid_min[1], p.grid_min[2], p.cell_size]);
    assert_eq!(words[16], 6);
    assert_eq!(words[17], 5);
}

#[test]
fn strategies_are_named_and_chosen() {
    assert_eq!(Strategy::for_count(GRID_CROSSOVER - 1), Strategy::Naive);
    assert_eq!(Strategy::for_count(GRID_CROSSOVER), Strategy::Grid);
    assert_eq!(Strategy::choose_for(Some(Strategy::Naive), 100_000), Strategy::Naive);
    assert_eq!(Strategy::choose_for(None, 100_000), Strategy::Grid);
    assert_eq!(Strategy::parse("naive"), Ok(Strategy::Naive));
    assert_eq!(Strategy::parse("grid"), Ok(Strategy::Grid));
    assert!(Strategy::parse("Grid").is_err());
}

#[test]
fn workgroups_cover_every_invocation() {
    for (count, groups) in [
        (0, 0),
        (1, 1),
        (255, 1),
        (256, 1),
        (257, 2),
        (100_000, 391),
        (u32::MAX, 16_777_216),
    ] {
        assert_eq!(dispatch_size(count), groups);
    }
}

#[test]
fn buffers_are_sized_for_the_padded_swarm() {
    for (n, padded) in [(1, 1), (2, 2), (3, 4), (1000, 1024), (1024, 1024), (100_000, 131_072)] {
        assert_eq!(padded_count(n), padded);
    }
    assert_eq!(padded_count(0x8000_0000), 0x8000_0000);
    let grid = GridDims { dim: [4, 3, 2], min: [0; 3], cell_size: 0 };
    let sizes = SimSizes::new(1000, &grid);
    assert_eq!(sizes.num_boids, 1000);
    assert_eq!(sizes.padded_n, 1024);
    assert_eq!(sizes.num_cells, 24);
    assert_eq!(sizes.boid_bytes, 1024 * 48);
    assert_eq!(sizes.key_bytes, 1024 * 8);
    assert_eq!(sizes.cell_bytes, 24 * 4);
    assert_eq!(sizes.params_bytes, 144);
    assert_eq!(sizes.interaction_bytes, 48);
    assert_eq!(uniform_size(boids::layout::GpuStruct::KeyVal), 16);
}

#[test]
fn buffers_are_made_for_what_they_are_bound_as() {
    let grid = GridDims { dim: [4, 3, 2], min: [0; 3], cell_size: 0 };
    let sizes = SimSizes::new(1000, &grid);
    let plan = |resource| {
        let p = sizes.plan(resource).expect("one of the simulation's");
        (p.size, p.storage, p.uniform, p.copy_src, p.copy_dst)
    };
    assert_eq!(plan(Resource::Agents(1)), (1024 * 48, true, false, true, true));
    assert_eq!(plan(Resource::Keys(0)), (1024 * 8, true, false, true, false));
    assert_eq!(plan(Resource::CellStart), (96, true, false, false, true));
    assert_eq!(plan(Resource::CellEnd), (96, true, false, false, false));
    assert_eq!(plan(Resource::Params), (144, false, true, false, true));
    assert_eq!(plan(Resource::Interaction), (48, false, true, false, true));
    assert_eq!(sizes.plan(Resource::Sky), None);
}

#[test]
fn buffers_swap_after_every_step() {
    let mut pair = PingPong::new();
    assert_eq!((pair.read_index(), pair.write_index()), (0, 1));
    pair.swap();
    assert_eq!((pair.read_index(), pair.write_index()), (1, 0));
    pair.swap();
    assert_eq!((pair.read_index(), pair.write_index()), (0, 1));
}

#[test]
fn clearing_writes_markers_in_pieces() {
    assert!(clear_plan(0).is_empty());
    let plan = clear_plan(150_000);
    let pieces: Vec<(u64, u32)> = plan.iter().map(|w| (w.offset(), w.count)).collect();
    assert_eq!(pieces, [(0, 65_536), (262_144, 65_536), (524_288, 18_928)]);
    let bytes = plan[2].bytes();
    assert_eq!(bytes.len(), 18_928 * 4);
    assert!(bytes.iter().all(|b| *b == 0xff));
    assert_eq!(EMPTY_CELL.to_ne_bytes(), [0xff; 4]);
    assert_eq!(clear_plan(65_536).len(), 1);
    assert_eq!(clear_plan(65_537).len(), 2);
}

fn sample_boid(seed: u32) -> Boid {
    Boid {
        pos: [seed, seed + 1, seed + 2],
        species: seed + 3,
        vel: [seed + 4, seed + 5, seed + 6],
        phase: seed + 7,
        prev_dir: [seed + 8, seed + 9, seed + 10],
        color_seed: seed + 11,
    }
}

#[test]
fn swarms_survive_the_way_to_a_buffer_and_back() {
    let swarm: Vec<Boid> = (0..5).map(|i| sample_boid(i * 0x0102_0304)).collect();
    let bytes = upload_boids(&swarm, 240);
    assert_eq!(bytes.len(), 240);
    assert_eq!(&bytes[0..8], &[0u32.to_ne_bytes(), 1u32.to_ne_bytes()].concat()[..]);
    assert_eq!(&bytes[48..52], &0x0102_0304u32.to_ne_bytes());
    assert_eq!(read_boids(&bytes), swarm);
    assert_eq!(boid_bytes(&swarm[3]), bytes[144..192]);
    let words = read_words(&bytes);
    assert_eq!(words.len(), 60);
    assert_eq!(words[13], 0x0102_0305);
    assert_eq!(boids_of_words(&words), swarm);
    assert!(read_boids(&[]).is_empty());
    let tree = TreeInstance { pos: [1, 2, 3], scale: 4, yaw: 5, kind: 6, mask: 7, pad1: 8 };
    assert_eq!(read_words(&tree_bytes(&tree)), (1..=8).collect::<Vec<u32>>());
}

#[test]
fn sorted_keys_keep_cells_together_and_padding_last() {
    let mut keys: Vec<KeyVal> = [3, EMPTY_CELL, 1, 3, EMPTY_CELL, 0, 1]
        .iter()
        .enumerate()
        .map(|(i, key)| KeyVal { key: *key, val: i as u32 })
        .collect();
    sort_keys(&mut keys);
    let order: Vec<u32> = keys.iter().map(|k| k.key).collect();
    assert_eq!(order, [0, 1, 1, 3, 3, EMPTY_CELL, EMPTY_CELL]);
}

#[test]
fn placed_agents_are_found_around_their_cell() {
    let mut grid = SeparationGrid::new();
    grid.insert([0, 0, 0], 1);
    grid.insert([1, -1, 0], 2);
    grid.insert([0, 0, 0], 3);
    grid.insert([2, 0, 0], 4);
    let mut near = grid.neighbours([0, 0, 0]);
    near.sort();
    assert_eq!(near, [1, 2, 3]);
    assert_eq!(grid.neighbours([0, 0, 0]), [2, 1, 3]);
    assert_eq!(grid.neighbours([3, 0, 0]), [4]);
    assert!(grid.neighbours([0, 0, 2]).is_empty());
    assert!(grid.neighbours([i32::MAX - 1, i32::MIN + 1, 0]).is_empty());
}

#[test]
fn a_placement_gives_up_after_its_tries() {
    let mut search = Placement::new();
    for _ in 0..SEPARATION_TRIES - 1 {
        assert_eq!(search.consider(&[false, true]), Verdict::TryAgain);
    }
    assert_eq!(search.consider(&[true]), Verdict::GiveUp);
    let mut search = Placement::new();
    assert_eq!(search.consider(&[true]), Verdict::TryAgain);
    assert_eq!(search.consider(&[false, false]), Verdict::Accept);
    assert_eq!(Placement::new().consider(&[]), Verdict::Accept);
}
