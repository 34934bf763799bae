use boids::args::BenchRequest;
use boids::config::SimConfig;
use boids::input::{
    Button, Drag, FrameActions, InputEvent, InputKey, InputState, Motion, Point, Scroll,
};
use boids::layout::GpuStruct;
use boids::modes::{InteractionMode, SimMode};
use boids::session::{Event, FrameWork, Response, Session};
use boids::uniforms::{
    mesh_profile, scene_medium, scene_words, uniform_bytes, Aim, InteractionUniforms,
};
use boids::world::{
    commands, cursor_name, is_timed, log_due, log_line, title, title_due, total_frames, world_name,
    Command, WorldMorph, WorldState,
};

fn at(x: f32, y: f32) -> Point {
    Point { x: x.to_bits(), y: y.to_bits() }
}

fn character(text: &str) -> InputKey {
    InputKey::Character(text.to_string())
}

/// The distance that movements add up to.
fn motion(motions: &[Motion]) -> (f32, f32) {
    motions.iter().fold((0.0, 0.0), |(x, y), m| {
        (
            x + (f32::from_bits(m.to.x) - f32::from_bits(m.from.x)),
            y + (f32::from_bits(m.to.y) - f32::from_bits(m.from.y)),
        )
    })
}

/// The lines that wheel movements add up to.
fn scroll(scrolls: &[Scroll]) -> f32 {
    scrolls
        .iter()
        .map(|s| match s {
            Scroll::Lines(y) => f32::from_bits(*y),
            Scroll::Pixels(y) => f64::from_bits(*y) as f32 / 50.0,
        })
        .sum()
}

#[test]
fn interaction_requires_a_cursor_a_mode_and_activation() {
    let mut input = InputState::default();
    // No cursor position yet, so nothing can influence the swarm.
    assert!(!input.interaction_enabled());

    input.on_cursor_move(at(10.0, 10.0));
    assert!(input.interaction_enabled(), "default mode is attract");

    input.on_key(&character("0"), false);
    assert!(!input.interaction_enabled(), "mode 0 must disable influence");

    input.on_key(&character("2"), false);
    assert_eq!(input.mode, InteractionMode::Repel);
    assert!(input.interaction_enabled());
}

#[test]
fn middle_button_overrides_activation_without_losing_the_mode() {
    let mut input = InputState::default();
    input.on_cursor_move(at(0.0, 0.0));
    input.on_key(&character("2"), false);
    input.on_button(Button::Middle, true);
    assert!(input.interaction_enabled());
    input.on_button(Button::Middle, false);
    assert!(!input.interaction_enabled());
    assert_eq!(
        input.mode,
        InteractionMode::Repel,
        "the selected mode must survive the gesture"
    );
}

#[test]
fn first_cursor_sample_produces_no_motion() {
    let mut input = InputState::default();
    input.drag = Drag::Orbit;
    input.on_cursor_move(at(500.0, 400.0));
    assert_eq!(
        motion(&input.motions),
        (0.0, 0.0),
        "the first sample is a baseline, not motion"
    );
    let (_, camera) = input.consume();
    assert_eq!(camera.drag, Drag::Orbit);
    assert!(camera.motions.is_empty(), "no motion means no rotation");

    input.on_cursor_move(at(520.0, 400.0));
    assert_eq!(motion(&input.motions), (20.0, 0.0));
}

#[test]
fn motion_accumulates_and_is_consumed_once() {
    let mut input = InputState::default();
    input.on_cursor_move(at(100.0, 100.0));
    input.drag = Drag::Orbit;
    // Three successive 20-pixel steps: the deltas must sum, not overwrite. Reporting the same position
    // three times would produce one delta, which is what an accumulate-by-assignment bug would also
    // produce, so the positions have to advance.
    for step in 1..=3 {
        input.on_cursor_move(at(100.0 + 20.0 * step as f32, 100.0));
    }
    assert_eq!(motion(&input.motions).0, 60.0, "three 20-pixel steps should accumulate");
    let (_, camera) = input.consume();
    assert_eq!(camera.drag, Drag::Orbit);
    assert_ne!(
        motion(&camera.motions),
        (0.0, 0.0),
        "the orbit drag should have rotated the camera"
    );
    assert!(input.motions.is_empty(), "motion must be cleared after consumption");
    // A second consume with no new events must not move the camera again.
    let (_, camera) = input.consume();
    assert!(camera.motions.is_empty(), "a drained input must not be applied twice");
}

#[test]
fn scroll_accumulates_and_zooms_in() {
    let mut input = InputState::default();
    for _ in 0..4 {
        input.on_scroll(Scroll::Lines(1.0f32.to_bits()));
    }
    assert_eq!(scroll(&input.scrolls), 4.0);
    let (_, camera) = input.consume();
    assert!(scroll(&camera.scrolls) > 0.0, "scrolling up should zoom in");
    assert_eq!(scroll(&input.scrolls), 0.0);
}

#[test]
fn one_shot_flags_survive_until_consumed() {
    let mut input = InputState::default();
    input.on_key(&InputKey::Tab, false);
    input.on_key(&character("r"), false);
    let (actions, _) = input.consume();
    assert!(actions.toggle_world && actions.reset);
    let (actions, _) = input.consume();
    assert!(
        !actions.toggle_world && !actions.reset,
        "one-shot flags must not repeat"
    );
}

#[test]
fn key_repeats_are_ignored() {
    let mut input = InputState::default();
    input.on_key(&InputKey::Tab, true);
    assert!(!input.consume().0.toggle_world);
}

#[test]
fn space_toggles_pause_both_ways() {
    let mut input = InputState::default();
    assert!(!input.paused);
    input.on_key(&InputKey::Space, false);
    assert!(input.paused);
    input.on_key(&InputKey::Space, false);
    assert!(!input.paused);
}

#[test]
fn buttons_start_and_end_their_gestures() {
    let mut input = InputState::default();
    for (button, drag) in [
        (Button::Left, Drag::Orbit),
        (Button::Right, Drag::Pan),
        (Button::Middle, Drag::Attract),
    ] {
        input.on_button(button, true);
        assert_eq!(input.drag, drag);
        input.on_button(Button::Other, false);
        assert_eq!(input.drag, drag);
        input.on_button(button, false);
        assert_eq!(input.drag, Drag::Idle);
    }
    assert_eq!(Drag::default(), Drag::Idle);
}

#[test]
fn events_are_handled_or_say_that_they_are_not() {
    let mut input = InputState::default();
    assert!(input.handle(&InputEvent::CursorMoved(at(1.0, 2.0))));
    assert_eq!(input.cursor, Some(at(1.0, 2.0)));
    assert!(input.handle(&InputEvent::MouseInput { button: Button::Right, pressed: true }));
    assert_eq!(input.drag, Drag::Pan);
    assert!(input.handle(&InputEvent::MouseWheel(Scroll::Pixels(100.0f64.to_bits()))));
    assert_eq!(scroll(&input.scrolls), 2.0);
    let release = InputEvent::KeyboardInput { key: InputKey::Escape, pressed: false, repeat: false };
    assert!(!input.handle(&release));
    assert!(!input.quit);
    let press = InputEvent::KeyboardInput { key: InputKey::Escape, pressed: true, repeat: false };
    assert!(input.handle(&press));
    assert!(input.quit);
    assert!(!input.handle(&InputEvent::Other));
    for text in ["R", "r"] {
        let mut input = InputState::default();
        input.on_key(&character(text), false);
        assert!(input.reset);
    }
    input.on_key(&character("x"), false);
    input.on_key(&InputKey::Other, false);
    assert!(!input.reset);
}

fn key(key: InputKey) -> Event {
    Event::Input(InputEvent::KeyboardInput { key, pressed: true, repeat: false })
}

#[test]
fn a_session_answers_every_event() {
    let mut session = Session::new(false);
    assert_eq!(session.world.mode, SimMode::Fish);
    assert_eq!(session.on_event(&Event::CloseRequested), Response::Exit);
    assert_eq!(
        session.on_event(&Event::Resized { width: 3, height: 4 }),
        Response::Resize { width: 3, height: 4 }
    );
    assert_eq!(session.on_event(&Event::RedrawRequested), Response::Frame);
    assert_eq!(session.on_event(&key(InputKey::Tab)), Response::Noted { handled: true });
    assert_eq!(
        session.on_event(&Event::Input(InputEvent::Other)),
        Response::Noted { handled: false }
    );
    // Nothing happens before the frame.
    assert_eq!(session.world.mode, SimMode::Fish);
    assert_eq!(session.begin_frame().commands, [Command::ToggleWorld]);
    assert_eq!(session.world.mode, SimMode::Birds);
    session.on_event(&key(character("r")));
    assert_eq!(session.begin_frame().commands, [Command::Respawn]);
    session.on_event(&key(InputKey::Tab));
    session.on_event(&key(InputKey::Escape));
    assert_eq!(session.begin_frame().commands, [Command::Exit]);
    assert_eq!(session.world.mode, SimMode::Birds, "quitting comes first");
    assert!(session.begin_frame().commands.is_empty());
}

#[test]
fn input_accumulates_and_a_frame_consumes_it_once() {
    let mut session = Session::new(false);
    // Two presses between two frames are one switch.
    session.on_event(&key(InputKey::Tab));
    session.on_event(&key(character("r")));
    session.on_event(&key(InputKey::Tab));
    for x in [0.0, 5.0, 7.0] {
        session.on_event(&Event::Input(InputEvent::CursorMoved(at(x, 1.0))));
    }
    let start = session.begin_frame();
    assert_eq!(start.commands, [Command::ToggleWorld, Command::Respawn]);
    assert_eq!(motion(&start.camera.motions), (7.0, 0.0));
    assert_eq!(session.world.mode, SimMode::Birds);
    assert!(session.input.motions.is_empty());
    let start = session.begin_frame();
    assert!(start.commands.is_empty() && start.camera.motions.is_empty());
    assert_eq!(session.world.mode, SimMode::Birds);
}

#[test]
fn a_paused_session_draws_without_stepping() {
    let mut session = Session::new(true);
    assert_eq!(session.advance(false), None);
    session.ready = true;
    assert_eq!(session.advance(false), Some(FrameWork { step: true, arrived: false }));
    session.on_event(&key(InputKey::Space));
    assert_eq!(session.advance(false), Some(FrameWork { step: false, arrived: false }));
    session.on_event(&key(InputKey::Tab));
    session.begin_frame();
    assert!(session.world.morph.is_some());
    // The switch ends although the simulation is paused.
    assert_eq!(session.advance(true), Some(FrameWork { step: false, arrived: true }));
    assert_eq!(session.world.morph, None);
    session.presented();
    assert_eq!(session.frames, 1);
}

#[test]
fn worlds_switch_back_and_forth() {
    let mut world = WorldState::new(true);
    assert_eq!(world.mode, SimMode::Birds);
    world.toggle();
    assert_eq!(world.morph, Some(WorldMorph { from: SimMode::Birds, to: SimMode::Fish }));
    // A second switch redirects the first instead of queueing behind it: it starts from the world that is
    // current by then.
    world.toggle();
    assert_eq!(world.mode, SimMode::Birds);
    assert_eq!(world.morph, Some(WorldMorph { from: SimMode::Fish, to: SimMode::Birds }));
    world.settle(false);
    assert!(world.morph.is_some());
    world.settle(true);
    assert_eq!(world.morph, None);
}

#[test]
fn quitting_leaves_nothing_else_to_do() {
    let actions = |toggle_world, reset, quit| FrameActions { toggle_world, reset, quit };
    assert_eq!(commands(actions(true, true, true)), [Command::Exit]);
    assert_eq!(
        commands(actions(true, true, false)),
        [Command::ToggleWorld, Command::Respawn]
    );
    assert_eq!(commands(actions(false, true, false)), [Command::Respawn]);
    assert!(commands(FrameActions::default()).is_empty());
}

#[test]
fn titles_and_log_lines_are_put_together() {
    assert_eq!(
        title(100_000, SimMode::Fish, "60", "16.7", InteractionMode::Attract),
        "boids | 100000 agents | underwater | 60 fps | 16.7 ms | attract"
    );
    assert_eq!(
        log_line(240, "59.9", "16.69", 5000, "card", InteractionMode::Off),
        "frame 240: 59.9 fps (16.69 ms) | 5000 agents | card | no cursor"
    );
    assert_eq!(world_name(SimMode::Birds), "sky");
    assert_eq!(cursor_name(InteractionMode::Repel), "repel");
    assert!(title_due(0) && title_due(15) && !title_due(16));
    assert!(log_due(0) && log_due(120) && !log_due(15));
}

#[test]
fn warmup_frames_are_not_timed() {
    let request = BenchRequest::default();
    assert_eq!(total_frames(&request), 140);
    let timed = (0..total_frames(&request)).filter(|f| is_timed(&request, *f)).count();
    assert_eq!(timed, request.frames);
    assert!(!is_timed(&request, 19) && is_timed(&request, 20));
}

#[test]
fn fish_and_bird_profiles_differ_in_the_expected_ways() {
    let fish = mesh_profile(SimMode::Fish, 14.0f32.to_bits(), 3.5f32.to_bits());
    let bird = mesh_profile(SimMode::Birds, 32.0f32.to_bits(), 14.0f32.to_bits());
    let real = f32::from_bits;

    // The fish cross-section is taller than it is wide; the bird's is the other way around.
    assert!(real(fish.body_h) > real(fish.body_w), "fish should be laterally compressed");
    assert!(real(bird.body_w) > real(bird.body_h), "bird should be broader than deep");

    // Only birds have wings, and only fish emit light.
    assert!(real(bird.wing_span) > 0.0);
    assert_eq!(real(fish.wing_span), 0.0);
    assert!(real(fish.emissive) > 0.0);
    assert_eq!(real(bird.emissive), 0.0);

    assert_eq!(real(fish.variant), 0.0);
    assert_eq!(real(bird.variant), 1.0);
}

#[test]
fn fish_medium_is_much_denser_than_air() {
    let fish = scene_medium(SimMode::Fish);
    let bird = scene_medium(SimMode::Birds);
    assert!(
        f32::from_bits(fish.fog_density) > f32::from_bits(bird.fog_density) * 10.0,
        "water should extinguish far faster than air"
    );
    // Blue must survive longer than red in water, so the fog colour is blue-dominant.
    assert!(f32::from_bits(fish.fog_color[2]) > f32::from_bits(fish.fog_color[0]));
}

#[test]
fn profile_carries_the_speed_reference() {
    let speed = |mode, speed: f32, percept: f32| {
        f32::from_bits(mesh_profile(mode, speed.to_bits(), percept.to_bits()).speed_ref)
    };
    assert_eq!(speed(SimMode::Fish, 14.0, 3.5), 14.0);
    assert_eq!(speed(SimMode::Birds, 32.0, 14.0), 32.0);
}

#[test]
fn profiles_and_media_hold_their_documented_numbers() {
    let real = f32::from_bits;
    let fish = mesh_profile(SimMode::Fish, 0, 0);
    for (got, want) in [
        (fish.body_w, 0.16f32),
        (fish.body_h, 0.30),
        (fish.nose, 0.95),
        (fish.tail, 0.55),
        (fish.fin_size, 0.45),
        (fish.fin_z, 0.22),
        (fish.wave_amp, 0.16),
        (fish.wave_freq, 18.0),
        (fish.emissive, 1.2),
        (fish.hue_base, 0.48),
        (fish.hue_range, 0.22),
        (fish.saturation, 0.85),
        (fish.value, 0.9),
    ] {
        assert_eq!(real(got), want);
    }
    let bird = mesh_profile(SimMode::Birds, 0, 0);
    for (got, want) in [
        (bird.body_w, 0.34f32),
        (bird.body_h, 0.26),
        (bird.nose, 0.85),
        (bird.tail, 0.5),
        (bird.fin_size, 0.32),
        (bird.fin_z, 0.18),
        (bird.wave_amp, 0.5),
        (bird.wave_freq, 16.0),
        (bird.wing_span, 1.5),
        (bird.wing_sweep, 0.55),
        (bird.hue_base, 0.02),
        (bird.hue_range, 0.45),
        (bird.saturation, 0.8),
        (bird.value, 1.0),
    ] {
        assert_eq!(real(got), want);
    }
    let water = scene_medium(SimMode::Fish);
    assert_eq!(water.light_dir.map(real), [0.25, -1.0, 0.15]);
    assert_eq!(real(water.ambient), 0.26);
    assert_eq!(water.fog_color.map(real), [0.015, 0.115, 0.16]);
    assert_eq!(real(water.fog_density), 0.022);
    let air = scene_medium(SimMode::Birds);
    assert_eq!(air.light_dir.map(real), [0.4, -0.85, -0.3]);
    assert_eq!(real(air.ambient), 0.32);
    assert_eq!(air.fog_color.map(real), [0.45, 0.60, 0.78]);
    assert_eq!(real(air.fog_density), 0.0012);
}

#[test]
fn the_scene_uniform_is_put_together_in_order() {
    let camera: Vec<u32> = (0..48).collect();
    let mesh = mesh_profile(SimMode::Birds, 7, 9);
    let medium = scene_medium(SimMode::Birds);
    let words = scene_words(&camera, &mesh, &medium);
    assert_eq!(words.len() as u32 * 4, GpuStruct::SceneUniform.size());
    assert_eq!(&words[0..48], &camera[..]);
    assert_eq!(&words[48..68], &mesh.words()[..]);
    assert_eq!(words[GpuStruct::SceneUniform.offset(2) as usize / 4], medium.light_dir[0]);
    assert_eq!(words[71], medium.ambient);
    assert_eq!(words[75], medium.fog_density);
    let bytes = uniform_bytes(&[1, 0x0102_0304]);
    assert_eq!(bytes, [1u32.to_ne_bytes(), 0x0102_0304u32.to_ne_bytes()].concat());
}

#[test]
fn pod_impls_exist_and_are_zeroable() {
    // Every structure is as many bytes as the shaders read.
    assert_eq!(GpuStruct::Boid.size(), 48);
    assert_eq!(GpuStruct::SimParams.size(), 144);
    assert_eq!(GpuStruct::InteractionUniforms.size(), 48);
    assert_eq!(GpuStruct::CameraUniform.size(), 192);
    assert_eq!(GpuStruct::KeyVal.size(), 8);
    assert_eq!(GpuStruct::SortParams.size(), 16);
    assert_eq!(GpuStruct::MeshParams.size(), 80);
    assert_eq!(GpuStruct::SceneUniform.size(), 304);
    assert_eq!(GpuStruct::WaterParams.size(), 48);
    assert_eq!(GpuStruct::PostParams.size(), 48);
    let idle = uniform_bytes(&SimConfig::idle_interaction().words());
    assert_eq!(idle.len(), 48);
    let params = SimConfig::for_mode(SimMode::Fish, 1).to_params(0, 0);
    assert_eq!(uniform_bytes(&params.words()).len(), 144);
    assert_eq!(uniform_bytes(&mesh_profile(SimMode::Fish, 0, 0).words()).len(), 80);
}

#[test]
fn the_cursor_acts_only_where_it_aims() {
    let aim = Aim {
        ray_origin: [1, 2, 3],
        focus_point: [4, 5, 6],
        radius: 7,
        attract: 8,
        repel: 9,
        swirl: 10,
    };
    let idle = SimConfig::idle_interaction();
    assert_eq!(idle.mode, 0);
    assert_eq!(f32::from_bits(idle.falloff), 2.0);
    for (enabled, mode, aim) in [
        (false, InteractionMode::Attract, Some(aim)),
        (true, InteractionMode::Off, Some(aim)),
        (true, InteractionMode::Repel, None),
    ] {
        assert_eq!(InteractionUniforms::for_cursor(enabled, mode, aim), idle);
    }
    let pull = InteractionUniforms::for_cursor(true, InteractionMode::Attract, Some(aim));
    assert_eq!((pull.mode, pull.strength, pull.tangent), (1, 8, 0));
    assert_eq!(f32::from_bits(pull.falloff), 1.6);
    let push = InteractionUniforms::for_cursor(true, InteractionMode::Repel, Some(aim));
    assert_eq!((push.mode, push.strength, push.tangent), (2, 9, 10));
    assert_eq!(push.words(), [1, 2, 3, 2, 4, 5, 6, 7, 9, push.falloff, 10, 0]);
}
