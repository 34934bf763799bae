use boids::args::{
    parse_args, usage, BenchRequest, Invocation, ScreenshotRequest, StartupConfig,
    DEFAULT_BENCH_FRAMES, TWO_MODES,
};
use boids::model::Model;
use boids::modes::SimMode;
use boids::strategy::Strategy;

/// Parses a command line written the way it would be typed.
fn parse(args: &[&str]) -> Result<Invocation, String> {
    let owned: Vec<String> = args.iter().map(|a| (*a).to_string()).collect();
    parse_args(&owned)
}

/// The window configuration, or a panic naming what was parsed instead.
fn window(args: &[&str]) -> StartupConfig {
    match parse(args) {
        Ok(Invocation::Window(config)) => config,
        other => panic!("expected a window run, got {other:?}"),
    }
}

fn bench(args: &[&str]) -> BenchRequest {
    match parse(args) {
        Ok(Invocation::Bench(request)) => request,
        other => panic!("expected a benchmark, got {other:?}"),
    }
}

fn screenshot(args: &[&str]) -> ScreenshotRequest {
    match parse(args) {
        Ok(Invocation::Screenshot(request)) => request,
        other => panic!("expected a screenshot, got {other:?}"),
    }
}

#[test]
fn no_arguments_runs_the_window_on_the_target_agent_count() {
    let config = window(&[]);
    assert_eq!(config.num_agents, 100_000);
    assert_eq!(config.seed, 1);
    assert!(!config.start_in_birds);
    assert!(!config.deterministic);
    assert!(!config.profile);
    assert_eq!(config.strategy, None);
}

#[test]
fn world_flags_apply_to_the_window() {
    let config = window(&[
        "--agents",
        "5000",
        "--seed",
        "7",
        "--birds",
        "--deterministic",
        "--profile",
    ]);
    assert_eq!(config.num_agents, 5000);
    assert_eq!(config.seed, 7);
    assert!(config.start_in_birds);
    assert!(config.deterministic);
    assert!(config.profile);
}

#[test]
fn the_benchmark_inherits_the_world_flags() {
    let request = bench(&[
        "--birds",
        "--agents",
        "20000",
        "--seed",
        "3",
        "--strategy",
        "grid",
        "--bench",
        "30",
    ]);
    assert_eq!(request.frames, 30);
    assert_eq!(request.num_agents, 20_000);
    assert_eq!(request.seed, 3);
    assert_eq!(request.mode, SimMode::Birds);
    assert_eq!(request.strategy, Some(Strategy::Grid));
}

#[test]
fn a_benchmark_without_a_frame_count_takes_the_default_and_not_the_next_flag() {
    let request = bench(&["--bench", "--birds"]);
    assert_eq!(request.frames, DEFAULT_BENCH_FRAMES);
    assert_eq!(request.mode, SimMode::Birds);
}

#[test]
fn the_screenshot_inherits_the_world_flags_it_was_given() {
    let request = screenshot(&["--agents", "3000", "--birds", "--screenshot", "out.png"]);
    assert_eq!(request.path, "out.png");
    assert_eq!(request.num_agents, 3000);
    assert_eq!(request.mode, SimMode::Birds);
    assert_eq!(request.strategy, None);
    // The screenshot's own defaults survive: only the world flags are inherited.
    assert_eq!(request.width, 1280);
    assert_eq!(request.height, 720);
}

#[test]
fn a_screenshot_without_world_flags_keeps_the_agent_count_it_was_sized_for() {
    let defaults = ScreenshotRequest::default();
    let request = screenshot(&["--screenshot", "out.png"]);
    // Not the window's 100,000: at 720p that is a frame of uniform speckle rather than a flock.
    assert_eq!(request.num_agents, defaults.num_agents);
    assert_eq!(request.warmup_steps, defaults.warmup_steps);
    assert_eq!(request.mode, SimMode::Fish);
    assert_eq!(request.seed, 1);
}

#[test]
fn a_benchmark_without_world_flags_times_the_target_agent_count() {
    let request = bench(&["--bench", "5"]);
    assert_eq!(request.num_agents, 100_000);
    assert_eq!(request.frames, 5);
}

#[test]
fn strategy_auto_clears_an_earlier_override() {
    assert_eq!(
        window(&["--strategy", "naive"]).strategy,
        Some(Strategy::Naive)
    );
    assert_eq!(
        window(&["--strategy", "grid"]).strategy,
        Some(Strategy::Grid)
    );
    assert_eq!(window(&["--strategy", "auto"]).strategy, None);
    assert_eq!(
        window(&["--strategy", "naive", "--strategy", "auto"]).strategy,
        None
    );
}

#[test]
fn two_headless_modes_at_once_are_refused() {
    let error = parse(&["--screenshot", "out.png", "--bench", "5"]).unwrap_err();
    assert!(error.contains("--bench"), "{error}");
    assert!(parse(&["--bench", "5", "--screenshot", "out.png"]).is_err());
}

#[test]
fn bad_arguments_are_errors_rather_than_silent_defaults() {
    assert!(parse(&["--agents", "10000x"]).is_err());
    assert!(parse(&["--agents"]).is_err());
    assert!(parse(&["--seed"]).is_err());
    assert!(parse(&["--strategy", "radix"]).is_err());
    assert!(parse(&["--strategy"]).is_err());
    assert!(parse(&["--screenshot"]).is_err());
    assert!(parse(&["--nonsense"]).is_err());
}

#[test]
fn help_wins_over_everything_after_it() {
    assert!(matches!(parse(&["--help"]), Ok(Invocation::Help)));
    assert!(matches!(parse(&["-h"]), Ok(Invocation::Help)));
    assert!(matches!(parse(&["-h", "--nonsense"]), Ok(Invocation::Help)));
    // ...but a bad argument before it is still a bad argument.
    assert!(parse(&["--nonsense", "-h"]).is_err());
}

#[test]
fn help_may_be_asked_for_twice() {
    assert!(matches!(parse(&["--help", "-h", "7"]), Ok(Invocation::Help)));
    assert!(matches!(parse(&["-h", "--nonsense", "--help"]), Ok(Invocation::Help)));
    assert!(matches!(parse(&["--bench", "-h", "--bench"]), Ok(Invocation::Help)));
}

#[test]
fn a_number_is_unknown_unless_a_bare_benchmark_awaits_it() {
    let message = |args: &[&str]| parse(args).unwrap_err();
    assert_eq!(message(&["5"]), "unknown argument 5");
    assert_eq!(message(&["--birds", "5"]), "unknown argument 5");
    assert_eq!(message(&["--bench", "5", "6"]), "unknown argument 6");
    assert_eq!(message(&["--bench", "--birds", "5"]), "unknown argument 5");
    // Here `--bench` is the name of a file.
    assert_eq!(message(&["--screenshot", "--bench", "5"]), "unknown argument 5");
    assert_eq!(bench(&["--birds", "--bench", "5"]).frames, 5);
}

#[test]
fn every_mistake_is_answered_with_its_own_message() {
    let message = |args: &[&str]| parse(args).unwrap_err();
    assert_eq!(message(&["-n"]), "-n needs a value");
    assert_eq!(message(&["--agents"]), "--agents needs a value");
    assert_eq!(
        message(&["-n", "10000x"]),
        "--agents 10000x: invalid digit found in string"
    );
    assert_eq!(
        message(&["--agents", ""]),
        "--agents : cannot parse integer from empty string"
    );
    assert_eq!(
        message(&["--seed", "18446744073709551616"]),
        "--seed 18446744073709551616: number too large to fit in target type"
    );
    assert_eq!(
        message(&["--seed", "-1"]),
        "--seed -1: invalid digit found in string"
    );
    assert_eq!(
        message(&["--model", "dragon"]),
        "--model dragon: expected one of fish, bird, tree, castle"
    );
    assert_eq!(message(&["--bench", "--bench"]), TWO_MODES);
    assert_eq!(message(&["nonsense"]), "unknown argument nonsense");
    assert_eq!(message(&["--export-castle"]), "--export-castle needs a value");
}

#[test]
fn numbers_read_as_the_standard_library_reads_them() {
    assert_eq!(window(&["--seed", "18446744073709551615"]).seed, u64::MAX);
    assert_eq!(window(&["--seed", "+5"]).seed, 5);
    assert_eq!(window(&["--seed", "007"]).seed, 7);
    for text in ["", "+", "-", "+-1", "1_000", " 1", "99999999999999999999x", "x"] {
        let expected = text.parse::<u64>();
        let got = boids::text::parse_number(text, u64::MAX);
        match (expected, got) {
            (Ok(a), Ok(b)) => assert_eq!(a, b),
            (Err(a), Err(b)) => assert_eq!(a.to_string(), b.message()),
            (a, b) => panic!("{text}: {a:?} against {b:?}"),
        }
    }
}

#[test]
fn the_last_word_on_a_flag_counts() {
    let config = window(&["--birds", "-n", "10", "--fish", "--agents", "20"]);
    assert!(!config.start_in_birds);
    assert_eq!(config.num_agents, 20);
    assert_eq!(
        window(&["--model", "tree", "--model", "castle"]).viewer,
        Some(Model::Castle)
    );
}

#[test]
fn the_export_takes_its_path_and_the_screenshot_its_model() {
    match parse(&["--export-castle", "castle.obj"]) {
        Ok(Invocation::Export(path)) => assert_eq!(path, "castle.obj"),
        other => panic!("expected an export, got {other:?}"),
    }
    let request = screenshot(&["--model", "tree", "--screenshot", "t.png"]);
    assert_eq!(request.model, Some(Model::Tree));
    assert_eq!(f32::from_bits(request.camera_distance), 1.1);
    assert_eq!(f32::from_bits(request.camera_pitch), 0.22);
}

#[test]
fn the_usage_text_names_every_flag() {
    let text = usage();
    for flag in [
        "--agents",
        "--seed",
        "--strategy",
        "--fish",
        "--birds",
        "--model",
        "--deterministic",
        "--profile",
        "--bench",
        "--screenshot",
        "--export-castle",
        "--help",
    ] {
        assert!(text.contains(flag), "{flag}");
    }
    assert!(text.starts_with("boids - GPU flocking simulation\n\nUSAGE:\n    boids [OPTIONS]\n\n"));
    assert!(text.ends_with("    v                  back to the swarm"));
}
