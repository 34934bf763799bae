use boids::bindings::{
    BindingKind, Group, GroupLayout, Resource, Stages,
};
use boids::frame::{
    mesh_triangles, scene_draws, terrain_triangles, Draw, FrameStats, SceneBinding, MESH_TRIANGLES,
    MESH_VERTICES,
};
use boids::layout::GpuStruct;
use boids::model::Model;
use boids::modes::SimMode;
use boids::pipelines::{integrate_entry, ColorTarget, DepthPlan, DepthTest, RenderPass};
use boids::post::{composite_entry, level_sizes, needs_rebuild, post_steps, PostImage, PostPipeline};
use boids::profile::{
    decode_ticks, decode_ticks_in, group_passes, pass_ticks, FrameTimings, PassRecorder, PassSlot,
    PassTotal, MAX_TIMED_PASSES,
};
use boids::readback::ReadbackPlan;
use boids::strategy::Strategy;
use boids::surface::{
    acquire, choose_format, choose_present_mode, device_plan, AcquireAction, PresentMode, SurfaceSize,
    SurfaceStatus, TargetSizes,
};
use boids::transfer::ByteOrder;
use boids::validation::validation_issues;

#[test]
fn pyramid_halves_and_never_collapses() {
    assert_eq!(level_sizes(2560, 1440), vec![(1280, 720), (640, 360), (320, 180)]);
    // A tiny target keeps at least one level rather than an empty chain.
    assert_eq!(level_sizes(4, 4), vec![(2, 2)]);
    assert_eq!(level_sizes(1, 1), vec![(1, 1)]);
    // And no level is degenerate, which would make the tent kernel sample its own texel nine times and
    // produce a black pyramid level.
    for size in [(1920, 1080), (400, 300), (17, 33)] {
        for (w, h) in level_sizes(size.0, size.1) {
            assert!(w >= 1 && h >= 1);
        }
    }
}

#[test]
fn small_pyramids_stop_early() {
    assert_eq!(level_sizes(17, 33), vec![(8, 16), (4, 8)]);
    assert_eq!(level_sizes(0, 0), vec![(1, 1)]);
    assert_eq!(level_sizes(6, 1000), vec![(3, 500)]);
    assert!(!needs_rebuild(&level_sizes(2560, 1440), 2561, 1440, false));
    assert!(needs_rebuild(&level_sizes(2560, 1440), 2562, 1440, false));
    assert!(needs_rebuild(&level_sizes(2560, 1440), 4, 4, false));
    // The levels keep their sizes, but their passes read an image that is gone.
    assert!(needs_rebuild(&level_sizes(2560, 1440), 2561, 1440, true));
}

#[test]
fn the_post_chain_goes_down_up_and_out() {
    let steps = post_steps(3);
    let shape: Vec<(PostPipeline, PostImage, PostImage, bool)> =
        steps.iter().map(|s| (s.pipeline, s.first, s.dest, s.clear)).collect();
    assert_eq!(
        shape,
        [
            (PostPipeline::Bright, PostImage::Hdr, PostImage::Level(0), true),
            (PostPipeline::Down, PostImage::Level(0), PostImage::Level(1), true),
            (PostPipeline::Down, PostImage::Level(1), PostImage::Level(2), true),
            (PostPipeline::Up, PostImage::Level(2), PostImage::Level(1), false),
            (PostPipeline::Up, PostImage::Level(1), PostImage::Level(0), false),
            (PostPipeline::Composite, PostImage::Hdr, PostImage::Target, true),
        ]
    );
    assert_eq!(steps[5].second, PostImage::Level(0));
    for step in &steps {
        assert_ne!(step.first, step.dest);
        assert_ne!(step.second, step.dest);
    }
    assert_eq!(post_steps(1).len(), 2);
    assert_eq!(composite_entry(true), "fs_composite");
    assert_eq!(composite_entry(false), "fs_composite_encoded");
}

#[test]
fn every_model_is_named_cycled_and_looked_up() {
    // A model that is missing from `ALL` cannot be selected from the command line and is never drawn;
    // one that is missing from the cycle is unreachable from the keyboard.
    for (i, model) in Model::ALL.iter().enumerate() {
        assert_eq!(Model::from_name(model.label()), Some(*model));
        assert_eq!(model.next(), Model::ALL[(i + 1) % Model::ALL.len()]);
        assert_eq!(
            model.previous(),
            Model::ALL[(i + Model::ALL.len() - 1) % Model::ALL.len()]
        );
    }
    assert_eq!(Model::from_name("dragon"), None);
}

/// The camera has to be outside the model and its near plane inside it, or the viewer shows the inside
/// of a wall.
#[test]
fn every_model_is_framed_from_outside_itself() {
    for model in Model::ALL {
        let distance = f32::from_bits(model.distance());
        assert!(
            distance > 0.5,
            "{:?} is framed from {} units away",
            model,
            distance
        );
        // The static meshes stand on y = 0 and are one unit tall; the creatures are centred on the
        // origin and are about two units long.
        assert!((0.0..=1.0).contains(&f32::from_bits(model.target()[1])));
    }
}

/// The studio shows the fish in water and everything else in air.
#[test]
fn the_medium_follows_the_model() {
    assert_eq!(Model::Fish.world(), SimMode::Fish);
    assert!(Model::Fish.is_creature());
    for model in [Model::Bird, Model::Tree, Model::Castle] {
        assert_eq!(model.world(), SimMode::Birds);
    }
    assert!(Model::Bird.is_creature());
    assert!(!Model::Tree.is_creature() && !Model::Castle.is_creature());
}

#[test]
fn models_are_framed_by_their_numbers() {
    let reals = |v: [u32; 3]| v.map(f32::from_bits);
    assert_eq!(Model::default(), Model::Fish);
    for (model, target, distance, pitch, yaw) in [
        (Model::Fish, [0.0, 0.0, -0.1], 2.6, 0.30, 0.0),
        (Model::Bird, [0.0, 0.0, -0.1], 3.6, 0.30, 0.0),
        (Model::Tree, [0.0, 0.5, 0.0], 1.7, 0.24, 0.7),
        (Model::Castle, [0.0, 0.5, 0.0], 1.6, 0.24, 0.35),
    ] {
        assert_eq!(reals(model.target()), target);
        assert_eq!(f32::from_bits(model.distance()), distance);
        assert_eq!(f32::from_bits(model.pitch()), pitch);
        let instance = model.instance();
        assert_eq!(reals(instance.pos), [0.0; 3]);
        assert_eq!(f32::from_bits(instance.scale), 1.0);
        assert_eq!(f32::from_bits(instance.yaw), yaw);
        assert_eq!(f32::from_bits(instance.kind), 0.3);
        let agent = model.agent();
        assert_eq!(reals(agent.pos), [0.0; 3]);
        assert_eq!(reals(agent.vel), [0.0, 0.0, 0.01]);
        assert_eq!(reals(agent.prev_dir), [0.0, 0.0, 1.0]);
        assert_eq!(f32::from_bits(agent.species), 0.4);
        assert_eq!(f32::from_bits(agent.color_seed), 0.5);
        assert_eq!(f32::from_bits(agent.phase), 0.0);
    }
}

#[test]
fn devices_and_surfaces_are_planned_from_what_is_offered() {
    assert!(device_plan(true, true, 8).timestamps);
    assert!(!device_plan(true, false, 8).timestamps);
    assert!(!device_plan(false, true, 8).timestamps);
    assert_eq!(device_plan(true, true, 4).storage_buffers, 8);
    assert_eq!(device_plan(true, true, 31).storage_buffers, 31);
    assert_eq!(choose_format(&[false, true, true]), Ok(1));
    assert_eq!(choose_format(&[false, false]), Ok(0));
    assert_eq!(choose_format(&[]), Err("adapter offers no surface formats".to_string()));
    assert_eq!(
        choose_present_mode(&[PresentMode::Fifo, PresentMode::Mailbox]),
        PresentMode::Mailbox
    );
    assert_eq!(choose_present_mode(&[PresentMode::Other]), PresentMode::Fifo);
}

#[test]
fn surfaces_ignore_empty_and_equal_sizes() {
    let mut size = SurfaceSize::new(0, 720);
    assert_eq!(size, SurfaceSize { width: 1, height: 720 });
    assert!(size.resize(1280, 720));
    assert!(!size.resize(1280, 720));
    assert!(!size.resize(0, 720));
    assert!(!size.resize(1280, 0));
    assert_eq!(size, SurfaceSize { width: 1280, height: 720 });
    for (status, action) in [
        (SurfaceStatus::Success, AcquireAction::Draw),
        (SurfaceStatus::Suboptimal, AcquireAction::Draw),
        (SurfaceStatus::Outdated, AcquireAction::Resize),
        (SurfaceStatus::Lost, AcquireAction::Resize),
        (SurfaceStatus::Timeout, AcquireAction::Skip),
        (SurfaceStatus::Occluded, AcquireAction::Skip),
        (SurfaceStatus::Validation, AcquireAction::Skip),
    ] {
        assert_eq!(acquire(status), action);
    }
}

#[test]
fn the_ocean_target_covers_the_scene_target() {
    let mut targets = TargetSizes::new(1281, 720);
    assert_eq!(targets.size, (1281, 720));
    assert_eq!(targets.ocean_size, (641, 360));
    assert!(!targets.resize(1281, 720));
    assert!(targets.resize(0, 0));
    assert_eq!(targets, TargetSizes { size: (1, 1), ocean_size: (1, 1) });
    assert_eq!(TargetSizes::new(u32::MAX, 1).ocean_size, (0x8000_0000, 1));
}

#[test]
fn frames_draw_a_backdrop_and_the_swarm() {
    assert_eq!(scene_draws(SimMode::Fish, 10), vec![Draw::Ocean, Draw::Agents(10)]);
    assert_eq!(scene_draws(SimMode::Birds, 0), vec![Draw::Background]);
    assert_eq!(
        FrameStats::for_frame(SimMode::Fish, 100_000),
        FrameStats { draw_calls: 2, instances: 100_000, triangles: 2_200_000 }
    );
    assert_eq!(
        FrameStats::for_frame(SimMode::Birds, 0),
        FrameStats { draw_calls: 1, instances: 0, triangles: 0 }
    );
    assert_eq!(FrameStats::default().draw_calls, 0);
    assert_eq!(MESH_VERTICES, MESH_TRIANGLES * 3);
    assert_eq!(terrain_triangles(0), 2);
    assert_eq!(terrain_triangles(512), 524_288);
    assert_eq!(mesh_triangles(66), 22);
    assert_eq!(SceneBinding::new(3).index(), 1);
    assert_eq!(SceneBinding::new(4).index(), 0);
}

#[test]
fn readback_strips_the_row_padding() {
    let plan = ReadbackPlan::new(3, 2, 4);
    assert_eq!((plan.row_bytes, plan.padded_row, plan.size), (12, 256, 512));
    assert_eq!(ReadbackPlan::new(64, 1, 4).padded_row, 256);
    assert_eq!(ReadbackPlan::new(65, 1, 4).padded_row, 512);
    let mut view = vec![0xeeu8; 512];
    for i in 0..12u8 {
        view[i as usize] = i;
        view[256 + i as usize] = 100 + i;
    }
    let want: Vec<u8> = (0..12).chain(100..112).collect();
    assert_eq!(plan.strip(&view), want);
}

#[test]
fn groups_bind_what_their_layouts_expect() {
    let layout = GroupLayout::Scene.entries();
    assert_eq!(layout.len(), 10);
    assert_eq!(layout[0].kind, BindingKind::Uniform(GpuStruct::SceneUniform));
    assert_eq!(layout[6].kind, BindingKind::PlainTexture);
    assert_eq!(layout[9].stages, Stages::Vertex);
    for group in [
        Group::Scene(0),
        Group::Scene(1),
        Group::Viewer,
        Group::Sim,
        Group::AgentPair(0),
        Group::KeyPair(1),
        Group::Post(PostImage::Hdr, PostImage::Level(0)),
        Group::OceanResolve,
    ] {
        let layout = group.layout().entries();
        let entries = group.entries();
        assert_eq!(layout.len(), entries.len(), "{group:?}");
        for (i, (l, e)) in layout.iter().zip(&entries).enumerate() {
            assert_eq!((l.binding, e.binding), (i as u32, i as u32));
        }
    }
    let pair: Vec<Resource> = Group::AgentPair(1).entries().iter().map(|e| e.resource).collect();
    assert_eq!(pair, [Resource::Agents(1), Resource::Agents(0)]);
    assert_eq!(Group::Viewer.entries()[7].resource, Resource::ViewerTree);
    assert_eq!(Group::Scene(1).entries()[1].resource, Resource::Agents(1));
}

#[test]
fn pipelines_have_their_fixed_state() {
    let sky = RenderPass::Background.plan();
    assert_eq!(sky.shader, "render/background.wgsl");
    assert_eq!(sky.depth, Some(DepthPlan { write: false, test: DepthTest::Always }));
    let swarm = RenderPass::Boids.plan();
    assert_eq!((swarm.vertex, swarm.fragment), ("vs_main", "fs_main"));
    assert_eq!(swarm.depth, Some(DepthPlan { write: true, test: DepthTest::LessEqual }));
    assert!(!swarm.cull_back && !swarm.mesh);
    let forest = RenderPass::Trees.plan();
    assert!(forest.cull_back && forest.mesh);
    let ground = RenderPass::Terrain.plan();
    assert!(ground.cull_back && !ground.mesh);
    let up = RenderPass::Post(PostPipeline::Up, true).plan();
    assert!(up.additive);
    assert_eq!((up.label, up.fragment, up.target), ("bloom up", "fs_up", ColorTarget::Hdr));
    let out = RenderPass::Post(PostPipeline::Composite, false).plan();
    assert_eq!((out.shader, out.fragment), ("render/composite.wgsl", "fs_composite_encoded"));
    assert_eq!(out.target, ColorTarget::Surface);
    assert_eq!(out.depth, None);
    assert_eq!(
        RenderPass::OceanResolve.groups(),
        vec![GroupLayout::Scene, GroupLayout::OceanResolve]
    );
    assert_eq!(RenderPass::Landmarks.groups(), vec![GroupLayout::Scene]);
    assert_eq!(integrate_entry(Strategy::Naive), "integrate_naive");
    assert_eq!(integrate_entry(Strategy::Grid), "integrate_grid");
}

#[test]
fn passes_get_slots_until_there_are_none_left() {
    let mut recorder = PassRecorder::new(2, 2);
    assert_eq!(recorder.query_count(), 4);
    assert_eq!(recorder.begin_pass("keys"), PassSlot::Timed { begin: 0, end: 1 });
    assert_eq!(recorder.begin_pass("sort"), PassSlot::Timed { begin: 2, end: 3 });
    assert_eq!(recorder.begin_pass("sort"), PassSlot::Untimed { first: true });
    assert_eq!(recorder.begin_pass("sort"), PassSlot::Untimed { first: false });
    assert_eq!(recorder.recorded_passes(), 2);
    assert_eq!(recorder.resolve_count(), 4);
    // The first frame of two is not reported, and the passes are gone either way.
    assert_eq!(recorder.finish_frame(), None);
    assert_eq!(recorder.recorded_passes(), 0);
    recorder.begin_pass("integrate");
    assert_eq!(recorder.finish_frame(), Some(vec!["integrate"]));
    // A frame without passes is not reported even when its turn has come.
    recorder.begin_pass("integrate");
    assert_eq!(recorder.finish_frame(), None);
    assert_eq!(recorder.finish_frame(), None);
    assert_eq!(PassRecorder::new(0, 0).query_count(), 2);
    assert_eq!(PassRecorder::new(9999, 1).query_count(), 2 * MAX_TIMED_PASSES as u32);
}

#[test]
fn ticks_are_paired_and_grouped_by_label() {
    assert_eq!(pass_ticks(3, &[10, 15, 20, 20, 40, 30]), vec![5, 0, 0]);
    assert_eq!(pass_ticks(3, &[10, 15, 20]), vec![5]);
    let labels = vec!["keys", "sort", "sort", "integrate", "sort"];
    let groups = group_passes(&labels, &vec![1, 2, 3, 4, 5]);
    let shape: Vec<(&str, Vec<u64>)> = groups.iter().map(|g| (g.label, g.ticks.clone())).collect();
    assert_eq!(
        shape,
        [("keys", vec![1]), ("sort", vec![2, 3, 5]), ("integrate", vec![4])]
    );
}

#[test]
fn timestamps_are_decoded_in_the_order_of_the_machine() {
    let ticks = [0x0102_0304_0506_0708u64, 9, u64::MAX];
    let mut view: Vec<u8> = ticks.iter().flat_map(|t| t.to_ne_bytes()).collect();
    assert_eq!(decode_ticks(&view), ticks);
    view.push(1);
    assert_eq!(decode_ticks(&view), ticks);
    assert!(decode_ticks(&[1, 2, 3]).is_empty());
}

#[test]
fn a_byte_order_decides_the_timestamps() {
    assert_eq!(ByteOrder::of_one(&1u32.to_le_bytes()), ByteOrder::LeastFirst);
    assert_eq!(ByteOrder::of_one(&1u32.to_be_bytes()), ByteOrder::MostFirst);
    let ticks = [0x0102_0304_0506_0708u64, 0, 0xfedc_ba98_7654_3210, u64::MAX];
    let mut least: Vec<u8> = ticks.iter().flat_map(|t| t.to_le_bytes()).collect();
    let most: Vec<u8> = ticks.iter().flat_map(|t| t.to_be_bytes()).collect();
    least.extend([5, 6, 7]);
    assert_eq!(decode_ticks_in(&least, ByteOrder::LeastFirst), ticks);
    assert_eq!(decode_ticks_in(&most, ByteOrder::MostFirst), ticks);
    assert_eq!(decode_ticks_in(&most, ByteOrder::LeastFirst)[0], 0x0807_0605_0403_0201);
    assert!(decode_ticks_in(&[], ByteOrder::MostFirst).is_empty());
}

#[test]
fn the_table_lines_up() {
    let totals = vec![
        PassTotal { label: "integrate", passes: 1, millis: "1.250".to_string() },
        PassTotal { label: "sort", passes: 153, millis: "12.500".to_string() },
        PassTotal { label: "a very long label", passes: 2, millis: "0.001".to_string() },
    ];
    let expected = format!(
        "GPU\n    {:<14} {}   {:>7} ms\n    {:<14} {:>3} passes   {:>7} ms\n    {:<14} {:>3} passes   \
         {:>7} ms\n    {:<14}            {:>7} ms\n",
        "integrate", "1 pass", "1.250", "sort", 153, "12.500", "a very long label", 2, "0.001", "total",
        "13.751"
    );
    let timings = FrameTimings { totals, total_millis: "13.751".to_string() };
    assert_eq!(timings.format_table("GPU"), expected);
}

#[test]
fn complaints_are_cut_off() {
    let good = vec![None, None];
    assert!(validation_issues(&good).is_empty());
    let few: Vec<Option<String>> = vec![None, Some("a".to_string()), None, Some("b".to_string())];
    assert_eq!(validation_issues(&few), ["a", "b"]);
    let many: Vec<Option<String>> = (0..30).map(|i| Some(format!("agent {i}"))).collect();
    let issues = validation_issues(&many);
    assert_eq!(issues.len(), 10);
    assert_eq!(issues[8], "agent 8");
    assert_eq!(issues[9], "...");
}
