//! The command line.
//!
//! An argument list is read left to right as a row of directives: most are one argument long, some
//! take a value. The directives describe the world and ask for at most one headless mode; what they
//! add up to decides what the program does. The first mistake ends the reading with a message, and so
//! does a request for help, with the help.

use crate::model::Model;
use crate::modes::SimMode;
use crate::strategy::Strategy;
use crate::text::{parse_number, same};
use vstd::prelude::*;
use vstd::string::StringExecFns;

verus! {

/// How the window should start.
#[derive(Debug, Clone, Copy)]
pub struct StartupConfig {
    /// Number of agents to simulate.
    pub num_agents: usize,
    /// World seed. Fixed by default so that a run is reproducible.
    pub seed: u64,
    /// Start in the sky world rather than the underwater one.
    pub start_in_birds: bool,
    /// Use a fixed timestep regardless of real elapsed time.
    pub deterministic: bool,
    /// Time the simulation's compute passes and log a breakdown.
    pub profile: bool,
    /// Neighbour search to force, or `None` to pick one from the agent count.
    pub strategy: Option<Strategy>,
    /// The mesh the model viewer opens on, or `None` to open on the swarm.
    pub viewer: Option<Model>,
}

impl StartupConfig {
    /// The window on the target world.
    pub open spec fn spec_default() -> StartupConfig {
        StartupConfig {
            num_agents: 100_000,
            seed: 1,
            start_in_birds: false,
            deterministic: false,
            profile: false,
            strategy: None,
            viewer: None,
        }
    }
}

impl Default for StartupConfig {
    fn default() -> (config: Self)
        ensures
            config == StartupConfig::spec_default(),
    {
        StartupConfig {
            num_agents: 100_000,
            seed: 1,
            start_in_birds: false,
            deterministic: false,
            profile: false,
            strategy: None,
            viewer: None,
        }
    }
}

/// What to benchmark.
#[derive(Debug, Clone, Copy)]
pub struct BenchRequest {
    /// World to simulate.
    pub mode: SimMode,
    /// Number of agents.
    pub num_agents: usize,
    /// Frames to time, after the warmup.
    pub frames: usize,
    /// Frames to run untimed, so that first touches do not land in the average.
    pub warmup_frames: usize,
    /// World seed.
    pub seed: u64,
    /// Strategy to use, or `None` to let the agent count decide.
    pub strategy: Option<Strategy>,
}

impl BenchRequest {
    /// The benchmark of the target world.
    pub open spec fn spec_default() -> BenchRequest {
        BenchRequest {
            mode: SimMode::Fish,
            num_agents: 100_000,
            frames: 120,
            warmup_frames: 20,
            seed: 1,
            strategy: None,
        }
    }
}

impl Default for BenchRequest {
    fn default() -> (request: Self)
        ensures
            request == BenchRequest::spec_default(),
    {
        BenchRequest {
            mode: SimMode::Fish,
            num_agents: 100_000,
            frames: 120,
            warmup_frames: 20,
            seed: 1,
            strategy: None,
        }
    }
}

/// Everything a screenshot needs.
#[derive(Debug, Clone)]
pub struct ScreenshotRequest {
    /// Where to write the image.
    pub path: String,
    /// Which world to draw.
    pub mode: SimMode,
    /// Number of agents.
    pub num_agents: usize,
    /// Steps to simulate before drawing, so the swarm has had time to form.
    pub warmup_steps: usize,
    /// Output size in pixels.
    pub width: u32,
    /// Output size in pixels.
    pub height: u32,
    /// World seed, so a screenshot is reproducible.
    pub seed: u64,
    /// Camera distance as a multiple of the world's half extent, as the bit pattern of a single.
    pub camera_distance: u32,
    /// Camera elevation in radians, as the bit pattern of a single.
    pub camera_pitch: u32,
    /// Strategy to use, or `None` to let the agent count decide.
    pub strategy: Option<Strategy>,
    /// The model to draw alone, or `None` to draw the swarm.
    pub model: Option<Model>,
}

/// A screenshot request with its path as characters.
pub struct ScreenshotView {
    pub path: Seq<char>,
    pub mode: SimMode,
    pub num_agents: usize,
    pub warmup_steps: usize,
    pub width: u32,
    pub height: u32,
    pub seed: u64,
    pub camera_distance: u32,
    pub camera_pitch: u32,
    pub strategy: Option<Strategy>,
    pub model: Option<Model>,
}

impl View for ScreenshotRequest {
    type V = ScreenshotView;

    open spec fn view(&self) -> ScreenshotView {
        ScreenshotView {
            path: self.path@,
            mode: self.mode,
            num_agents: self.num_agents,
            warmup_steps: self.warmup_steps,
            width: self.width,
            height: self.height,
            seed: self.seed,
            camera_distance: self.camera_distance,
            camera_pitch: self.camera_pitch,
            strategy: self.strategy,
            model: self.model,
        }
    }
}

impl ScreenshotView {
    /// A picture of a swarm small enough to be seen as one.
    pub open spec fn spec_default() -> ScreenshotView {
        ScreenshotView {
            path: "boids.png"@,
            mode: SimMode::Fish,
            num_agents: 2_000,
            warmup_steps: 240,
            width: 1_280,
            height: 720,
            seed: 1,
            camera_distance: 0x3f8c_cccd,
            camera_pitch: 0x3e61_47ae,
            strategy: None,
            model: None,
        }
    }
}

impl Default for ScreenshotRequest {
    fn default() -> (request: Self)
        ensures
            request@ == ScreenshotView::spec_default(),
    {
        ScreenshotRequest {
            path: "boids.png".to_owned(),
            mode: SimMode::Fish,
            num_agents: 2_000,
            // Enough steps for the random initial velocities to organise into flocks.
            warmup_steps: 240,
            width: 1_280,
            height: 720,
            seed: 1,
            camera_distance: 0x3f8c_cccd,  // 1.1
            camera_pitch: 0x3e61_47ae,  // 0.22
            strategy: None,
            model: None,
        }
    }
}

/// What the command line asked the program to do.
#[derive(Debug)]
pub enum Invocation {
    /// Open a window and run the interactive loop.
    Window(StartupConfig),
    /// Print the usage text and exit successfully.
    Help,
    /// Render one frame headlessly.
    Screenshot(ScreenshotRequest),
    /// Time a headless simulation and print the per-pass breakdown.
    Bench(BenchRequest),
    /// Write a static mesh to a Wavefront OBJ and exit.
    Export(String),
}

/// An invocation with its texts as characters.
pub enum InvocationView {
    Window(StartupConfig),
    Help,
    Screenshot(ScreenshotView),
    Bench(BenchRequest),
    Export(Seq<char>),
}

impl View for Invocation {
    type V = InvocationView;

    open spec fn view(&self) -> InvocationView {
        match *self {
            Invocation::Window(config) => InvocationView::Window(config),
            Invocation::Help => InvocationView::Help,
            Invocation::Screenshot(request) => InvocationView::Screenshot(request@),
            Invocation::Bench(request) => InvocationView::Bench(request),
            Invocation::Export(path) => InvocationView::Export(path@),
        }
    }
}

/// The flags that describe the world, whichever mode consumes them.
///
/// Every field is optional so that a mode can fall back to its own default rather than to the
/// window's: a screenshot of the window's hundred thousand agents would be uniform speckle.
#[derive(Debug, Clone, Copy)]
pub struct WorldFlags {
    pub num_agents: Option<usize>,
    pub seed: Option<u64>,
    pub mode: Option<SimMode>,
    pub deterministic: bool,
    pub profile: bool,
    pub strategy: Option<Strategy>,
    pub model: Option<Model>,
}

impl WorldFlags {
    /// No flag given.
    pub open spec fn spec_default() -> WorldFlags {
        WorldFlags {
            num_agents: None,
            seed: None,
            mode: None,
            deterministic: false,
            profile: false,
            strategy: None,
            model: None,
        }
    }
}

impl Default for WorldFlags {
    fn default() -> (flags: Self)
        ensures
            flags == WorldFlags::spec_default(),
    {
        WorldFlags {
            num_agents: None,
            seed: None,
            mode: None,
            deterministic: false,
            profile: false,
            strategy: None,
            model: None,
        }
    }
}

/// A headless mode.
#[derive(Debug)]
pub enum Headless {
    /// Render one frame to a file.
    Screenshot(String),
    /// Time this many frames.
    Bench(usize),
    /// Write a static mesh to a file. Needs no device at all.
    Export(String),
}

/// A headless mode with its texts as characters.
pub enum HeadlessView {
    Screenshot(Seq<char>),
    Bench(usize),
    Export(Seq<char>),
}

impl View for Headless {
    type V = HeadlessView;

    open spec fn view(&self) -> HeadlessView {
        match *self {
            Headless::Screenshot(path) => HeadlessView::Screenshot(path@),
            Headless::Bench(frames) => HeadlessView::Bench(frames),
            Headless::Export(path) => HeadlessView::Export(path@),
        }
    }
}

/// The view of an optional headless mode.
pub open spec fn headless_view(headless: Option<Headless>) -> Option<HeadlessView> {
    match headless {
        Some(h) => Some(h@),
        None => None,
    }
}

/// One thing that the command line says.
#[derive(Debug)]
pub enum Directive {
    Agents(usize),
    Seed(u64),
    /// A forced strategy, or `None` for no override.
    Search(Option<Strategy>),
    World(SimMode),
    Show(Model),
    Deterministic,
    Profile,
    Run(Headless),
    Help,
}

/// A directive with its texts as characters.
pub enum DirectiveView {
    Agents(usize),
    Seed(u64),
    Search(Option<Strategy>),
    World(SimMode),
    Show(Model),
    Deterministic,
    Profile,
    Run(HeadlessView),
    Help,
}

impl View for Directive {
    type V = DirectiveView;

    open spec fn view(&self) -> DirectiveView {
        match *self {
            Directive::Agents(n) => DirectiveView::Agents(n),
            Directive::Seed(n) => DirectiveView::Seed(n),
            Directive::Search(strategy) => DirectiveView::Search(strategy),
            Directive::World(mode) => DirectiveView::World(mode),
            Directive::Show(model) => DirectiveView::Show(model),
            Directive::Deterministic => DirectiveView::Deterministic,
            Directive::Profile => DirectiveView::Profile,
            Directive::Run(headless) => DirectiveView::Run(headless@),
            Directive::Help => DirectiveView::Help,
        }
    }
}

/// Frames a bare `--bench` runs.
pub const DEFAULT_BENCH_FRAMES: usize = 120;

/// The argument at `i`, which `flag` needs.
pub open spec fn spec_required(args: Seq<Seq<char>>, i: int, flag: Seq<char>) -> Result<
    Seq<char>,
    Seq<char>,
> {
    if i < args.len() {
        Ok(args[i])
    } else {
        Err(flag + " needs a value"@)
    }
}

/// The number that `value` spells, or the complaint about it.
pub open spec fn spec_count(flag: Seq<char>, value: Seq<char>, max: nat) -> Result<nat, Seq<char>> {
    match crate::text::spec_parse_number(value, max) {
        Ok(n) => Ok(n),
        Err(e) => Err(flag + " "@ + value + ": "@ + e.spec_message()),
    }
}

/// The model that bears a name, if any does.
pub open spec fn model_named(name: Seq<char>) -> Option<Model> {
    if name == Model::Fish.name() {
        Some(Model::Fish)
    } else if name == Model::Bird.name() {
        Some(Model::Bird)
    } else if name == Model::Tree.name() {
        Some(Model::Tree)
    } else if name == Model::Castle.name() {
        Some(Model::Castle)
    } else {
        None
    }
}

/// The frame count at `i`, if there is one: a bare `--bench` must not swallow the next flag.
pub open spec fn frame_count_at(args: Seq<Seq<char>>, i: int) -> Option<usize> {
    if i < args.len() {
        match crate::text::spec_parse_number(args[i], usize::MAX as nat) {
            Ok(n) => Some(n as usize),
            Err(_) => None,
        }
    } else {
        None
    }
}

/// The directive that starts at argument `i` and the index just behind it, or the mistake.
pub open spec fn spec_read(args: Seq<Seq<char>>, i: int) -> Result<(DirectiveView, int), Seq<char>> {
    let flag = args[i];
    let value = spec_required(args, i + 1, flag);
    if flag == "--agents"@ || flag == "-n"@ {
        match value {
            Err(e) => Err(e),
            Ok(v) => match spec_count("--agents"@, v, usize::MAX as nat) {
                Err(e) => Err(e),
                Ok(n) => Ok((DirectiveView::Agents(n as usize), i + 2)),
            },
        }
    } else if flag == "--seed"@ {
        match value {
            Err(e) => Err(e),
            Ok(v) => match spec_count("--seed"@, v, u64::MAX as nat) {
                Err(e) => Err(e),
                Ok(n) => Ok((DirectiveView::Seed(n as u64), i + 2)),
            },
        }
    } else if flag == "--strategy"@ {
        match value {
            Err(e) => Err(e),
            Ok(v) => if v == "auto"@ {
                Ok((DirectiveView::Search(None), i + 2))
            } else {
                match Strategy::spec_parse(v) {
                    Err(e) => Err(e),
                    Ok(strategy) => Ok((DirectiveView::Search(Some(strategy)), i + 2)),
                }
            },
        }
    } else if flag == "--fish"@ {
        Ok((DirectiveView::World(SimMode::Fish), i + 1))
    } else if flag == "--birds"@ {
        Ok((DirectiveView::World(SimMode::Birds), i + 1))
    } else if flag == "--model"@ {
        match value {
            Err(e) => Err(e),
            Ok(v) => match model_named(v) {
                None => Err("--model "@ + v + ": expected one of fish, bird, tree, castle"@),
                Some(model) => Ok((DirectiveView::Show(model), i + 2)),
            },
        }
    } else if flag == "--deterministic"@ {
        Ok((DirectiveView::Deterministic, i + 1))
    } else if flag == "--profile"@ {
        Ok((DirectiveView::Profile, i + 1))
    } else if flag == "--screenshot"@ {
        match value {
            Err(e) => Err(e),
            Ok(v) => Ok((DirectiveView::Run(HeadlessView::Screenshot(v)), i + 2)),
        }
    } else if flag == "--bench"@ {
        match frame_count_at(args, i + 1) {
            Some(frames) => Ok((DirectiveView::Run(HeadlessView::Bench(frames)), i + 2)),
            None => Ok((DirectiveView::Run(HeadlessView::Bench(DEFAULT_BENCH_FRAMES)), i + 1)),
        }
    } else if flag == "--export-castle"@ {
        match value {
            Err(e) => Err(e),
            Ok(v) => Ok((DirectiveView::Run(HeadlessView::Export(v)), i + 2)),
        }
    } else if flag == "--help"@ || flag == "-h"@ {
        Ok((DirectiveView::Help, i + 1))
    } else {
        Err("unknown argument "@ + flag)
    }
}

/// What the directives so far add up to.
pub struct Settings {
    pub world: WorldFlags,
    pub headless: Option<HeadlessView>,
}

impl Settings {
    /// Nothing said yet.
    pub open spec fn initial() -> Settings {
        Settings { world: WorldFlags::spec_default(), headless: None }
    }

    /// The settings after one more directive: the last word on each flag counts, and a second
    /// headless mode is refused.
    pub open spec fn apply(self, directive: DirectiveView) -> Result<Settings, Seq<char>> {
        let w = self.world;
        match directive {
            DirectiveView::Agents(n) => Ok(self.with(WorldFlags { num_agents: Some(n), ..w })),
            DirectiveView::Seed(n) => Ok(self.with(WorldFlags { seed: Some(n), ..w })),
            DirectiveView::Search(strategy) => Ok(self.with(WorldFlags { strategy, ..w })),
            DirectiveView::World(mode) => Ok(self.with(WorldFlags { mode: Some(mode), ..w })),
            DirectiveView::Show(model) => Ok(self.with(WorldFlags { model: Some(model), ..w })),
            DirectiveView::Deterministic => Ok(self.with(WorldFlags { deterministic: true, ..w })),
            DirectiveView::Profile => Ok(self.with(WorldFlags { profile: true, ..w })),
            DirectiveView::Run(headless) => if self.headless is Some {
                Err(TWO_MODES@)
            } else {
                Ok(Settings { headless: Some(headless), ..self })
            },
            DirectiveView::Help => Ok(self),
        }
    }

    /// The settings with other world flags.
    pub open spec fn with(self, world: WorldFlags) -> Settings {
        Settings { world, ..self }
    }

    /// What the program does, once every argument has been read.
    pub open spec fn invocation(self) -> InvocationView {
        let w = self.world;
        match self.headless {
            Some(HeadlessView::Screenshot(path)) => {
                let d = ScreenshotView::spec_default();
                InvocationView::Screenshot(
                    ScreenshotView {
                        path,
                        mode: or(w.mode, d.mode),
                        num_agents: or(w.num_agents, d.num_agents),
                        seed: or(w.seed, d.seed),
                        strategy: w.strategy,
                        model: w.model,
                        ..d
                    },
                )
            },
            Some(HeadlessView::Bench(frames)) => {
                let d = BenchRequest::spec_default();
                InvocationView::Bench(
                    BenchRequest {
                        mode: or(w.mode, d.mode),
                        num_agents: or(w.num_agents, d.num_agents),
                        frames,
                        seed: or(w.seed, d.seed),
                        strategy: w.strategy,
                        ..d
                    },
                )
            },
            Some(HeadlessView::Export(path)) => InvocationView::Export(path),
            None => {
                let d = StartupConfig::spec_default();
                InvocationView::Window(
                    StartupConfig {
                        num_agents: or(w.num_agents, d.num_agents),
                        seed: or(w.seed, d.seed),
                        start_in_birds: w.mode == Some(SimMode::Birds),
                        deterministic: w.deterministic,
                        profile: w.profile,
                        strategy: w.strategy,
                        viewer: w.model,
                    },
                )
            },
        }
    }
}

/// The value that was given, or the default.
pub open spec fn or<T>(given: Option<T>, default: T) -> T {
    match given {
        Some(v) => v,
        None => default,
    }
}

/// The complaint about a second headless mode.
pub const TWO_MODES: &'static str =
    "--bench, --screenshot and --export-castle each run headlessly: ask for one of them";

/// The settings after reading `args` from argument `i` on, with `settings` so far; `None` if help was
/// asked for on the way.
pub open spec fn spec_scan(args: Seq<Seq<char>>, i: int, settings: Settings) -> Result<
    Option<Settings>,
    Seq<char>,
>
    decreases args.len() - i,
{
    if i >= args.len() {
        Ok(Some(settings))
    } else {
        match spec_read(args, i) {
            Err(e) => Err(e),
            Ok((DirectiveView::Help, _)) => Ok(None),
            Ok((directive, next)) => match settings.apply(directive) {
                Err(e) => Err(e),
                Ok(s) => spec_scan(args, next, s),
            },
        }
    }
}

/// What the command line asks for, or the mistake in it.
pub open spec fn spec_parse(args: Seq<Seq<char>>) -> Result<InvocationView, Seq<char>> {
    match spec_scan(args, 0, Settings::initial()) {
        Err(e) => Err(e),
        Ok(None) => Ok(InvocationView::Help),
        Ok(Some(settings)) => Ok(settings.invocation()),
    }
}

/// The argument at `cursor`, which the caller needs; the cursor moves behind it.
pub fn required<'a>(args: &'a [String], cursor: &mut usize, flag: &str) -> (r: Result<
    &'a str,
    String,
>)
    ensures
        match r {
            Ok(value) => {
                &&& spec_required(crate::text::texts(args@), *old(cursor) as int, flag@) == Ok::<
                    Seq<char>,
                    Seq<char>,
                >(value@)
                &&& *final(cursor) == *old(cursor) + 1
            },
            Err(e) => {
                &&& spec_required(crate::text::texts(args@), *old(cursor) as int, flag@) == Err::<
                    Seq<char>,
                    Seq<char>,
                >(e@)
                &&& *final(cursor) == *old(cursor)
            },
        },
{
    if *cursor < args.len() {
        let value: &'a str = args[*cursor].as_str();
        *cursor = *cursor + 1;
        Ok(value)
    } else {
        Err(flag.to_owned().concat(" needs a value"))
    }
}

/// Records the requested headless mode, refusing to guess between two.
pub fn set_headless(slot: &mut Option<Headless>, request: Headless) -> (r: Result<(), String>)
    ensures
        match r {
            Ok(_) => *old(slot) is None && *final(slot) == Some(request),
            Err(e) => *old(slot) is Some && *final(slot) == *old(slot) && e@ == TWO_MODES@,
        },
{
    if slot.is_some() {
        return Err(TWO_MODES.to_owned());
    }
    *slot = Some(request);
    Ok(())
}

/// Reads the value of a flag as a number that is at most `max`.
fn count(flag: &str, value: &str, max: u64) -> (r: Result<u64, String>)
    ensures
        match r {
            Ok(n) => spec_count(flag@, value@, max as nat) == Ok::<nat, Seq<char>>(n as nat),
            Err(e) => spec_count(flag@, value@, max as nat) == Err::<nat, Seq<char>>(e@),
        },
{
    match parse_number(value, max) {
        Ok(n) => Ok(n),
        Err(e) => Err(flag.to_owned().concat(" ").concat(value).concat(": ").concat(e.message())),
    }
}

/// Reads the directive that starts at `cursor`; the result holds the index just behind it.
pub fn read_directive(args: &[String], cursor: usize) -> (r: Result<(Directive, usize), String>)
    requires
        cursor < args@.len(),
    ensures
        match r {
            Ok((directive, next)) => {
                &&& spec_read(crate::text::texts(args@), cursor as int) == Ok::<
                    (DirectiveView, int),
                    Seq<char>,
                >((directive@, next as int))
                &&& cursor < next <= args@.len()
            },
            Err(e) => spec_read(crate::text::texts(args@), cursor as int) == Err::<
                (DirectiveView, int),
                Seq<char>,
            >(e@),
        },
{
    let flag: &str = args[cursor].as_str();
    let mut next: usize = cursor + 1;
    assert(crate::text::texts(args@)[cursor as int] == flag@);
    if same(flag, "--agents") || same(flag, "-n") {
        match required(args, &mut next, flag) {
            Err(e) => Err(e),
            Ok(value) => match count("--agents", value, usize::MAX as u64) {
                Err(e) => Err(e),
                Ok(n) => Ok((Directive::Agents(n as usize), next)),
            },
        }
    } else if same(flag, "--seed") {
        match required(args, &mut next, flag) {
            Err(e) => Err(e),
            Ok(value) => match count("--seed", value, u64::MAX) {
                Err(e) => Err(e),
                Ok(n) => Ok((Directive::Seed(n), next)),
            },
        }
    } else if same(flag, "--strategy") {
        match required(args, &mut next, flag) {
            Err(e) => Err(e),
            Ok(value) => {
                // `auto` is the default and means "no override", so it clears an earlier override
                // rather than being an error.
                if same(value, "auto") {
                    Ok((Directive::Search(None), next))
                } else {
                    match Strategy::parse(value) {
                        Err(e) => Err(e),
                        Ok(strategy) => Ok((Directive::Search(Some(strategy)), next)),
                    }
                }
            },
        }
    } else if same(flag, "--fish") {
        Ok((Directive::World(SimMode::Fish), next))
    } else if same(flag, "--birds") {
        Ok((Directive::World(SimMode::Birds), next))
    } else if same(flag, "--model") {
        match required(args, &mut next, flag) {
            Err(e) => Err(e),
            Ok(value) => match Model::from_name(value) {
                Some(model) => {
                    proof {
                        lemma_model_named(model);
                    }
                    Ok((Directive::Show(model), next))
                },
                None => {
                    assert(Model::Fish.name() != value@ && Model::Bird.name() != value@
                        && Model::Tree.name() != value@ && Model::Castle.name() != value@);
                    Err(
                        "--model ".to_owned().concat(value).concat(
                            ": expected one of fish, bird, tree, castle",
                        ),
                    )
                },
            },
        }
    } else if same(flag, "--deterministic") {
        Ok((Directive::Deterministic, next))
    } else if same(flag, "--profile") {
        Ok((Directive::Profile, next))
    } else if same(flag, "--screenshot") {
        match required(args, &mut next, flag) {
            Err(e) => Err(e),
            Ok(path) => Ok((Directive::Run(Headless::Screenshot(path.to_owned())), next)),
        }
    } else if same(flag, "--bench") {
        // The frame count is optional: `--bench --birds` means the default count in the sky.
        if next < args.len() {
            match parse_number(args[next].as_str(), usize::MAX as u64) {
                Ok(frames) => Ok((Directive::Run(Headless::Bench(frames as usize)), next + 1)),
                Err(_) => Ok((Directive::Run(Headless::Bench(DEFAULT_BENCH_FRAMES)), next)),
            }
        } else {
            Ok((Directive::Run(Headless::Bench(DEFAULT_BENCH_FRAMES)), next))
        }
    } else if same(flag, "--export-castle") {
        match required(args, &mut next, flag) {
            Err(e) => Err(e),
            Ok(path) => Ok((Directive::Run(Headless::Export(path.to_owned())), next)),
        }
    } else if same(flag, "--help") || same(flag, "-h") {
        Ok((Directive::Help, next))
    } else {
        Err("unknown argument ".to_owned().concat(flag))
    }
}

proof fn lemma_model_named(model: Model)
    ensures
        model_named(model.name()) == Some(model),
{
    crate::model::law_names_are_distinct(model, Model::Fish);
    crate::model::law_names_are_distinct(model, Model::Bird);
    crate::model::law_names_are_distinct(model, Model::Tree);
    crate::model::law_names_are_distinct(model, Model::Castle);
}

/// The usage text.
pub const USAGE: &'static str =
    "boids - GPU flocking simulation\n\n\
     USAGE:\n    boids [OPTIONS]\n\n\
     OPTIONS:\n    \
     -n, --agents <N>   number of agents (default 100000)\n    \
     --seed <N>         world seed (default 1)\n    \
     --strategy <S>     neighbour search: naive, grid, or auto by agent count (default auto)\n    \
     --fish             start in the underwater world (default)\n    \
     --birds            start in the sky world\n    \
     --model <M>        open the model viewer on fish, bird, tree or castle\n    \
     --deterministic    fixed timestep, for screenshot comparison\n    \
     --profile          log per-pass GPU timings once a second\n    \
     --bench <N>        time N headless simulation frames and print a per-pass\n    \
                        breakdown, then exit\n    \
     --screenshot <f>   render one frame headlessly to a PNG and exit; with\n    \
                        --model, render that model alone\n    \
     --export-castle <f>  write the castle mesh as a Wavefront OBJ and exit\n    \
     -h, --help         print this help\n\n\
     CONTROLS:\n    \
     left drag          orbit the camera\n    \
     right drag         pan\n    \
     wheel              zoom\n    \
     middle drag / 1    attractor at the cursor\n    \
     2                  repeller at the cursor\n    \
     0                  cursor influence off\n    \
     tab                switch between fish and birds\n    \
     space              pause\n    \
     r                  reset the swarm\n    \
     esc                quit\n\n\
     MODEL VIEWER (v):\n    \
     left drag          rotate the model\n    \
     wheel              zoom\n    \
     1..4 / [ ]         select fish, bird, tree, castle\n    \
     r                  reframe the camera\n    \
     v                  back to the swarm";

/// The usage text.
pub fn usage() -> (text: &'static str)
    ensures
        text@ == USAGE@,
{
    USAGE
}

/// Parses the command line.
///
/// Returns a message for a flag that needs a value and has none, a value that does not parse, and a
/// request for two headless modes at once: each is a mistake worth refusing to run on.
pub fn parse_args(args: &[String]) -> (r: Result<Invocation, String>)
    ensures
        match r {
            Ok(invocation) => spec_parse(crate::text::texts(args@)) == Ok::<InvocationView, Seq<char>>(invocation@),
            Err(e) => spec_parse(crate::text::texts(args@)) == Err::<InvocationView, Seq<char>>(e@),
        },
{
    let mut world = WorldFlags::default();
    let mut headless: Option<Headless> = None;
    let mut cursor: usize = 0;
    let ghost outcome = spec_scan(crate::text::texts(args@), 0, Settings::initial());
    while cursor < args.len()
        invariant
            cursor <= args@.len(),
            outcome == spec_scan(crate::text::texts(args@), 0, Settings::initial()),
            outcome == spec_scan(
                crate::text::texts(args@),
                cursor as int,
                Settings { world, headless: headless_view(headless) },
            ),
        decreases args@.len() - cursor,
    {
        let ghost settings = Settings { world, headless: headless_view(headless) };
        match read_directive(args, cursor) {
            Err(e) => {
                return Err(e);
            },
            Ok((directive, next)) => {
                match directive {
                    Directive::Agents(n) => {
                        world.num_agents = Some(n);
                    },
                    Directive::Seed(n) => {
                        world.seed = Some(n);
                    },
                    Directive::Search(strategy) => {
                        world.strategy = strategy;
                    },
                    Directive::World(mode) => {
                        world.mode = Some(mode);
                    },
                    Directive::Show(model) => {
                        world.model = Some(model);
                    },
                    Directive::Deterministic => {
                        world.deterministic = true;
                    },
                    Directive::Profile => {
                        world.profile = true;
                    },
                    Directive::Run(request) => {
                        match set_headless(&mut headless, request) {
                            Err(e) => {
                                return Err(e);
                            },
                            Ok(_) => {},
                        }
                    },
                    Directive::Help => {
                        return Ok(Invocation::Help);
                    },
                }
                assert(settings.apply(directive@) == Ok::<Settings, Seq<char>>(
                    Settings { world, headless: headless_view(headless) },
                ));
                cursor = next;
            },
        }
    }
    Ok(settle(world, headless))
}

/// What the program does, once every argument has been read.
fn settle(world: WorldFlags, headless: Option<Headless>) -> (invocation: Invocation)
    ensures
        invocation@ == (Settings { world, headless: headless_view(headless) }).invocation(),
{
    match headless {
        Some(Headless::Screenshot(path)) => {
            let defaults = ScreenshotRequest::default();
            Invocation::Screenshot(
                ScreenshotRequest {
                    path,
                    mode: world.mode.unwrap_or(defaults.mode),
                    num_agents: world.num_agents.unwrap_or(defaults.num_agents),
                    seed: world.seed.unwrap_or(defaults.seed),
                    strategy: world.strategy,
                    model: world.model,
                    ..defaults
                },
            )
        },
        // The benchmark inherits the flags that describe the world, the same way the screenshot
        // does. Its own defaults are the target, which is the number worth timing.
        Some(Headless::Bench(frames)) => {
            let defaults = BenchRequest::default();
            Invocation::Bench(
                BenchRequest {
                    mode: world.mode.unwrap_or(defaults.mode),
                    num_agents: world.num_agents.unwrap_or(defaults.num_agents),
                    frames,
                    seed: world.seed.unwrap_or(defaults.seed),
                    strategy: world.strategy,
                    ..defaults
                },
            )
        },
        Some(Headless::Export(path)) => Invocation::Export(path),
        None => {
            let defaults = StartupConfig::default();
            Invocation::Window(
                StartupConfig {
                    num_agents: world.num_agents.unwrap_or(defaults.num_agents),
                    seed: world.seed.unwrap_or(defaults.seed),
                    start_in_birds: world.mode.unwrap_or(SimMode::Fish) == SimMode::Birds,
                    deterministic: world.deterministic,
                    profile: world.profile,
                    strategy: world.strategy,
                    viewer: world.model,
                },
            )
        },
    }
}

/// The flags.
pub open spec fn is_flag(arg: Seq<char>) -> bool {
    ||| needs_value(arg)
    ||| arg == "--fish"@
    ||| arg == "--birds"@
    ||| arg == "--deterministic"@
    ||| arg == "--profile"@
    ||| arg == "--bench"@
    ||| arg == "--help"@
    ||| arg == "-h"@
}

/// The flags that cannot do without a value.
pub open spec fn needs_value(arg: Seq<char>) -> bool {
    ||| arg == "--agents"@
    ||| arg == "-n"@
    ||| arg == "--seed"@
    ||| arg == "--strategy"@
    ||| arg == "--model"@
    ||| arg == "--screenshot"@
    ||| arg == "--export-castle"@
}

/// Whether `arg` would be taken as the frame count of a `--bench` before it.
pub open spec fn is_frame_count(arg: Seq<char>) -> bool {
    crate::text::spec_parse_number(arg, usize::MAX as nat) is Ok
}

/// Whether `args` reads without a mistake and without a request for help, and adds up to `settings`.
pub open spec fn adds_up_to(args: Seq<Seq<char>>, settings: Settings) -> bool {
    spec_scan(args, 0, Settings::initial()) == Ok::<Option<Settings>, Seq<char>>(Some(settings))
}

proof fn lemma_literals()
    ensures
        "--agents"@.len() == 8 && "-n"@.len() == 2 && "--seed"@.len() == 6 && "--strategy"@.len() == 10,
        "--fish"@.len() == 6 && "--birds"@.len() == 7 && "--model"@.len() == 7,
        "--deterministic"@.len() == 15 && "--profile"@.len() == 9 && "--screenshot"@.len() == 12,
        "--bench"@.len() == 7 && "--export-castle"@.len() == 15 && "--help"@.len() == 6
            && "-h"@.len() == 2,
        "--agents"@[2] == 'a' && "-n"@[1] == 'n' && "-h"@[1] == 'h' && "--seed"@[2] == 's',
        "--fish"@[2] == 'f' && "--help"@[2] == 'h' && "--birds"@[3] == 'i' && "--bench"@[3] == 'e',
        "--model"@[2] == 'm' && "--model"@[3] == 'o' && "--deterministic"@[2] == 'd'
            && "--export-castle"@[2] == 'e',
        forall|arg: Seq<char>| #[trigger] is_flag(arg) ==> arg[0] == '-',
{
    reveal_strlit("--agents");
    reveal_strlit("-n");
    reveal_strlit("--seed");
    reveal_strlit("--strategy");
    reveal_strlit("--fish");
    reveal_strlit("--birds");
    reveal_strlit("--model");
    reveal_strlit("--deterministic");
    reveal_strlit("--profile");
    reveal_strlit("--screenshot");
    reveal_strlit("--bench");
    reveal_strlit("--export-castle");
    reveal_strlit("--help");
    reveal_strlit("-h");
}

proof fn lemma_flags_are_no_frame_counts(arg: Seq<char>)
    requires
        is_flag(arg),
    ensures
        !is_frame_count(arg),
{
    lemma_literals();
    assert(arg.take(0) =~= Seq::<char>::empty());
    assert(crate::text::number(Seq::<char>::empty()) == 0);
    assert(crate::text::digit_run(arg) == 0);
}

/// Whether the last thing read in `args`, from argument `i` on, is a bare `--bench`, which a frame count
/// may follow.
pub open spec fn awaits_frame_count(args: Seq<Seq<char>>, i: int) -> bool
    decreases args.len() - i,
{
    if i >= args.len() {
        false
    } else {
        match spec_read(args, i) {
            Err(_) => false,
            Ok((_, next)) => if next < args.len() {
                awaits_frame_count(args, next)
            } else {
                args[i] == "--bench"@ && next == i + 1
            },
        }
    }
}

proof fn lemma_scan_splits(p: Seq<Seq<char>>, q: Seq<Seq<char>>, i: int, s: Settings, t: Settings)
    requires
        0 <= i <= p.len(),
        q.len() > 0 ==> !(is_frame_count(q[0]) && awaits_frame_count(p, i)),
        spec_scan(p, i, s) == Ok::<Option<Settings>, Seq<char>>(Some(t)),
    ensures
        spec_scan(p + q, i, s) == spec_scan(p + q, p.len() as int, t),
    decreases p.len() - i,
{
    if i < p.len() {
        let all = p + q;
        let read = spec_read(p, i);
        assert(all[i] == p[i]);
        if i + 1 < p.len() {
            assert(all[i + 1] == p[i + 1]);
        } else if q.len() > 0 {
            assert(all[i + 1] == q[0]);
        }
        assert(spec_read(all, i) == read);
        let (directive, next) = read->Ok_0;
        let after = s.apply(directive)->Ok_0;
        lemma_scan_splits(p, q, next, after, t);
    }
}

proof fn lemma_help_stays(p: Seq<Seq<char>>, q: Seq<Seq<char>>, i: int, s: Settings)
    requires
        0 <= i <= p.len(),
        spec_scan(p, i, s) == Ok::<Option<Settings>, Seq<char>>(None),
    ensures
        spec_scan(p + q, i, s) == Ok::<Option<Settings>, Seq<char>>(None),
    decreases p.len() - i,
{
    let all = p + q;
    let (directive, next) = spec_read(p, i)->Ok_0;
    assert(all[i] == p[i]);
    if i + 1 < p.len() {
        assert(all[i + 1] == p[i + 1]);
    }
    if directive != DirectiveView::Help {
        let after = s.apply(directive)->Ok_0;
        assert(spec_scan(p, i, s) == spec_scan(p, next, after));
        assert(next < p.len());
        assert(spec_read(all, i) == spec_read(p, i));
        lemma_help_stays(p, q, next, after);
    }
}

/// Help wins over everything after it, whatever that is: an unknown flag, a value out of place, a
/// second headless mode. Nothing but a mistake before it stands in its way.
pub proof fn law_help_wins_over_everything_after_it(
    before: Seq<Seq<char>>,
    help: Seq<char>,
    rest: Seq<Seq<char>>,
)
    requires
        spec_parse(before) is Ok,
        help == "--help"@ || help == "-h"@,
    ensures
        spec_parse(before + (seq![help] + rest)) == Ok::<InvocationView, Seq<char>>(
            InvocationView::Help,
        ),
{
    let q = seq![help] + rest;
    lemma_literals();
    lemma_flags_are_no_frame_counts(help);
    match spec_scan(before, 0, Settings::initial()) {
        Ok(Some(settings)) => {
            lemma_scan_splits(before, q, 0, Settings::initial(), settings);
            assert((before + q)[before.len() as int] == help);
        },
        _ => {
            lemma_help_stays(before, q, 0, Settings::initial());
        },
    }
}

/// An argument that is no flag is refused by name, whatever comes after it. The one exception is a frame
/// count behind a bare `--bench`, which is its value.
pub proof fn law_unknown_arguments_are_refused(
    before: Seq<Seq<char>>,
    settings: Settings,
    arg: Seq<char>,
    rest: Seq<Seq<char>>,
)
    requires
        adds_up_to(before, settings),
        !is_flag(arg),
        !(is_frame_count(arg) && awaits_frame_count(before, 0)),
    ensures
        spec_parse(before + (seq![arg] + rest)) == Err::<InvocationView, Seq<char>>(
            "unknown argument "@ + arg,
        ),
{
    let q = seq![arg] + rest;
    lemma_scan_splits(before, q, 0, Settings::initial(), settings);
    assert((before + q)[before.len() as int] == arg);
}

/// A flag that needs a value and ends the command line is refused by name.
pub proof fn law_a_missing_value_is_refused(
    before: Seq<Seq<char>>,
    settings: Settings,
    flag: Seq<char>,
)
    requires
        adds_up_to(before, settings),
        needs_value(flag),
    ensures
        spec_parse(before + seq![flag]) == Err::<InvocationView, Seq<char>>(flag + " needs a value"@),
{
    let q = seq![flag];
    lemma_literals();
    lemma_flags_are_no_frame_counts(flag);
    lemma_scan_splits(before, q, 0, Settings::initial(), settings);
    assert((before + q)[before.len() as int] == flag);
}

/// A second headless mode is refused, whichever the two are and whatever comes after them.
pub proof fn law_two_headless_modes_are_refused(
    before: Seq<Seq<char>>,
    settings: Settings,
    flag: Seq<char>,
    path: Seq<char>,
    rest: Seq<Seq<char>>,
)
    requires
        adds_up_to(before, settings),
        settings.headless is Some,
        flag == "--bench"@ || flag == "--screenshot"@ || flag == "--export-castle"@,
    ensures
        spec_parse(before + (seq![flag, path] + rest)) == Err::<InvocationView, Seq<char>>(TWO_MODES@),
        flag == "--bench"@ ==> spec_parse(before + seq![flag]) == Err::<InvocationView, Seq<char>>(
            TWO_MODES@,
        ),
{
    let q = seq![flag, path] + rest;
    lemma_literals();
    lemma_flags_are_no_frame_counts(flag);
    lemma_scan_splits(before, q, 0, Settings::initial(), settings);
    lemma_scan_splits(before, seq![flag], 0, Settings::initial(), settings);
    assert((before + q)[before.len() as int] == flag);
    assert((before + q)[before.len() as int + 1] == path);
    assert((before + seq![flag])[before.len() as int] == flag);
}

/// `--strategy auto` takes back an earlier override and changes nothing else.
pub proof fn law_auto_clears_an_earlier_override(before: Seq<Seq<char>>, settings: Settings)
    requires
        adds_up_to(before, settings),
    ensures
        adds_up_to(
            before + seq!["--strategy"@, "auto"@],
            settings.with(WorldFlags { strategy: None, ..settings.world }),
        ),
{
    let q = seq!["--strategy"@, "auto"@];
    lemma_literals();
    lemma_flags_are_no_frame_counts("--strategy"@);
    lemma_scan_splits(before, q, 0, Settings::initial(), settings);
    assert((before + q)[before.len() as int] == "--strategy"@);
    assert((before + q)[before.len() as int + 1] == "auto"@);
    let cleared = settings.with(WorldFlags { strategy: None, ..settings.world });
    assert(spec_scan(before + q, before.len() as int + 2, cleared) == Ok::<Option<Settings>, Seq<char>>(
        Some(cleared),
    ));
}

/// Every mode falls back to its own agent count, and a given agent count overrides each of them.
pub proof fn law_each_mode_has_its_own_agent_count(settings: Settings)
    ensures
        match settings.invocation() {
            InvocationView::Window(config) => config.num_agents == or(
                settings.world.num_agents,
                100_000,
            ),
            InvocationView::Bench(request) => request.num_agents == or(
                settings.world.num_agents,
                100_000,
            ),
            InvocationView::Screenshot(request) => request.num_agents == or(
                settings.world.num_agents,
                2_000,
            ),
            InvocationView::Help => false,
            InvocationView::Export(_) => settings.headless is Some,
        },
{
}

/// Whether the setting `of` is `given`, where something was given, and `otherwise`, where nothing was.
pub open spec fn is_given_or<T>(of: T, given: Option<T>, otherwise: T) -> bool {
    &&& given matches Some(v) ==> of == v
    &&& given is None ==> of == otherwise
}

/// Every mode takes each flag it was given, and falls back to its own default where none was: the seed, the
/// agents, the world, the strategy and the model reach the window, the benchmark and the screenshot alike.
pub proof fn law_every_mode_takes_the_flags_it_was_given(settings: Settings)
    ensures
        settings.headless is None <==> settings.invocation() is Window,
        settings.headless matches Some(HeadlessView::Screenshot(_)) <==> settings.invocation() is Screenshot,
        settings.headless matches Some(HeadlessView::Bench(_)) <==> settings.invocation() is Bench,
        settings.headless matches Some(HeadlessView::Export(_)) <==> settings.invocation() is Export,
        settings.invocation() matches InvocationView::Window(config) ==> {
            &&& is_given_or(config.num_agents, settings.world.num_agents, 100_000)
            &&& is_given_or(config.seed, settings.world.seed, 1)
            &&& config.start_in_birds == (settings.world.mode == Some(SimMode::Birds))
            &&& config.deterministic == settings.world.deterministic
            &&& config.profile == settings.world.profile
            &&& config.strategy == settings.world.strategy
            &&& config.viewer == settings.world.model
        },
        settings.invocation() matches InvocationView::Bench(request) ==> {
            &&& is_given_or(request.num_agents, settings.world.num_agents, 100_000)
            &&& is_given_or(request.seed, settings.world.seed, 1)
            &&& is_given_or(request.mode, settings.world.mode, SimMode::Fish)
            &&& request.strategy == settings.world.strategy
            &&& request.warmup_frames == 20
            &&& settings.headless == Some(HeadlessView::Bench(request.frames))
        },
        settings.invocation() matches InvocationView::Screenshot(request) ==> {
            &&& is_given_or(request.num_agents, settings.world.num_agents, 2_000)
            &&& is_given_or(request.seed, settings.world.seed, 1)
            &&& is_given_or(request.mode, settings.world.mode, SimMode::Fish)
            &&& request.strategy == settings.world.strategy
            &&& request.model == settings.world.model
            &&& settings.headless == Some(HeadlessView::Screenshot(request.path))
            &&& request.warmup_steps == 240
            &&& request.width == 1_280
            &&& request.height == 720
            &&& request.camera_distance == 0x3f8c_cccd
            &&& request.camera_pitch == 0x3e61_47ae
        },
        settings.invocation() matches InvocationView::Export(path) ==> settings.headless == Some(
            HeadlessView::Export(path),
        ),
{
}

/// What an argument list that adds up asks for is what it adds up to, and nothing said adds up to a window
/// with every default.
pub proof fn law_the_settings_decide_the_invocation(args: Seq<Seq<char>>, settings: Settings)
    ensures
        adds_up_to(args, settings) ==> spec_parse(args) == Ok::<InvocationView, Seq<char>>(
            settings.invocation(),
        ),
        adds_up_to(
            Seq::empty(),
            Settings {
                world: WorldFlags {
                    num_agents: None,
                    seed: None,
                    mode: None,
                    deterministic: false,
                    profile: false,
                    strategy: None,
                    model: None,
                },
                headless: None,
            },
        ),
{
}

proof fn lemma_adds_up(
    before: Seq<Seq<char>>,
    settings: Settings,
    more: Seq<Seq<char>>,
    directive: DirectiveView,
    after: Settings,
)
    requires
        adds_up_to(before, settings),
        more.len() > 0,
        is_flag(more[0]),
        spec_read(before + more, before.len() as int) == Ok::<(DirectiveView, int), Seq<char>>(
            (directive, (before.len() + more.len()) as int),
        ),
        directive !is Help,
        settings.apply(directive) == Ok::<Settings, Seq<char>>(after),
    ensures
        adds_up_to(before + more, after),
{
    lemma_flags_are_no_frame_counts(more[0]);
    lemma_scan_splits(before, more, 0, Settings::initial(), settings);
    let all = before + more;
    let end = before.len() + more.len();
    assert(spec_scan(all, end as int, after) == Ok::<Option<Settings>, Seq<char>>(Some(after)));
}

/// A flag with a number sets its number, whatever was said before, and nothing else: the agent count, under
/// both its names, and the seed.
pub proof fn law_numbers_reach_their_settings(before: Seq<Seq<char>>, settings: Settings, n: nat)
    requires
        adds_up_to(before, settings),
    ensures
        n <= usize::MAX ==> adds_up_to(
            before + seq!["--agents"@, crate::text::decimal(n)],
            Settings {
                world: WorldFlags { num_agents: Some(n as usize), ..settings.world },
                headless: settings.headless,
            },
        ),
        n <= usize::MAX ==> adds_up_to(
            before + seq!["-n"@, crate::text::decimal(n)],
            Settings {
                world: WorldFlags { num_agents: Some(n as usize), ..settings.world },
                headless: settings.headless,
            },
        ),
        n <= u64::MAX ==> adds_up_to(
            before + seq!["--seed"@, crate::text::decimal(n)],
            Settings {
                world: WorldFlags { seed: Some(n as u64), ..settings.world },
                headless: settings.headless,
            },
        ),
{
    lemma_literals();
    let text = crate::text::decimal(n);
    let at = before.len() as int;
    if n <= usize::MAX {
        crate::text::law_decimal_reads_back(n, usize::MAX as nat);
        let after = Settings {
            world: WorldFlags { num_agents: Some(n as usize), ..settings.world },
            headless: settings.headless,
        };
        let long = seq!["--agents"@, text];
        let short = seq!["-n"@, text];
        assert((before + long)[at] == "--agents"@ && (before + long)[at + 1] == text);
        assert((before + short)[at] == "-n"@ && (before + short)[at + 1] == text);
        lemma_adds_up(before, settings, long, DirectiveView::Agents(n as usize), after);
        lemma_adds_up(before, settings, short, DirectiveView::Agents(n as usize), after);
    }
    if n <= u64::MAX {
        crate::text::law_decimal_reads_back(n, u64::MAX as nat);
        let after = Settings {
            world: WorldFlags { seed: Some(n as u64), ..settings.world },
            headless: settings.headless,
        };
        let seed = seq!["--seed"@, text];
        assert((before + seed)[at] == "--seed"@ && (before + seed)[at + 1] == text);
        lemma_adds_up(before, settings, seed, DirectiveView::Seed(n as u64), after);
    }
}

/// A flag without a value sets its setting, whatever was said before, and nothing else.
pub proof fn law_switches_reach_their_settings(before: Seq<Seq<char>>, settings: Settings)
    requires
        adds_up_to(before, settings),
    ensures
        adds_up_to(
            before + seq!["--fish"@],
            Settings {
                world: WorldFlags { mode: Some(SimMode::Fish), ..settings.world },
                headless: settings.headless,
            },
        ),
        adds_up_to(
            before + seq!["--birds"@],
            Settings {
                world: WorldFlags { mode: Some(SimMode::Birds), ..settings.world },
                headless: settings.headless,
            },
        ),
        adds_up_to(
            before + seq!["--deterministic"@],
            Settings {
                world: WorldFlags { deterministic: true, ..settings.world },
                headless: settings.headless,
            },
        ),
        adds_up_to(
            before + seq!["--profile"@],
            Settings {
                world: WorldFlags { profile: true, ..settings.world },
                headless: settings.headless,
            },
        ),
{
    lemma_literals();
    let at = before.len() as int;
    let (w, h) = (settings.world, settings.headless);
    assert((before + seq!["--fish"@])[at] == "--fish"@);
    assert((before + seq!["--birds"@])[at] == "--birds"@);
    assert((before + seq!["--deterministic"@])[at] == "--deterministic"@);
    assert((before + seq!["--profile"@])[at] == "--profile"@);
    lemma_adds_up(
        before,
        settings,
        seq!["--fish"@],
        DirectiveView::World(SimMode::Fish),
        Settings { world: WorldFlags { mode: Some(SimMode::Fish), ..w }, headless: h },
    );
    lemma_adds_up(
        before,
        settings,
        seq!["--birds"@],
        DirectiveView::World(SimMode::Birds),
        Settings { world: WorldFlags { mode: Some(SimMode::Birds), ..w }, headless: h },
    );
    lemma_adds_up(
        before,
        settings,
        seq!["--deterministic"@],
        DirectiveView::Deterministic,
        Settings { world: WorldFlags { deterministic: true, ..w }, headless: h },
    );
    lemma_adds_up(
        before,
        settings,
        seq!["--profile"@],
        DirectiveView::Profile,
        Settings { world: WorldFlags { profile: true, ..w }, headless: h },
    );
}

/// A name reaches its setting, whatever was said before, and changes nothing else: each strategy and each
/// model goes by its own.
pub proof fn law_names_reach_their_settings(
    before: Seq<Seq<char>>,
    settings: Settings,
    strategy: Strategy,
    model: Model,
)
    requires
        adds_up_to(before, settings),
    ensures
        adds_up_to(
            before + seq![
                "--strategy"@,
                match strategy {
                    Strategy::Naive => "naive"@,
                    Strategy::Grid => "grid"@,
                },
            ],
            Settings {
                world: WorldFlags { strategy: Some(strategy), ..settings.world },
                headless: settings.headless,
            },
        ),
        adds_up_to(
            before + seq![
                "--model"@,
                match model {
                    Model::Fish => "fish"@,
                    Model::Bird => "bird"@,
                    Model::Tree => "tree"@,
                    Model::Castle => "castle"@,
                },
            ],
            Settings {
                world: WorldFlags { model: Some(model), ..settings.world },
                headless: settings.headless,
            },
        ),
{
    lemma_literals();
    let at = before.len() as int;
    let (w, h) = (settings.world, settings.headless);
    let search = match strategy {
        Strategy::Naive => "naive"@,
        Strategy::Grid => "grid"@,
    };
    reveal_strlit("naive");
    reveal_strlit("grid");
    reveal_strlit("auto");
    assert("naive"@.len() == 5 && "grid"@[0] == 'g' && "auto"@[0] == 'a' && "auto"@.len() == 4);
    let shown = match model {
        Model::Fish => "fish"@,
        Model::Bird => "bird"@,
        Model::Tree => "tree"@,
        Model::Castle => "castle"@,
    };
    lemma_model_named(model);
    let a = seq!["--strategy"@, search];
    let b = seq!["--model"@, shown];
    assert((before + a)[at] == "--strategy"@ && (before + a)[at + 1] == search);
    assert((before + b)[at] == "--model"@ && (before + b)[at + 1] == shown);
    lemma_adds_up(
        before,
        settings,
        a,
        DirectiveView::Search(Some(strategy)),
        Settings { world: WorldFlags { strategy: Some(strategy), ..w }, headless: h },
    );
    lemma_adds_up(
        before,
        settings,
        b,
        DirectiveView::Show(model),
        Settings { world: WorldFlags { model: Some(model), ..w }, headless: h },
    );
}

/// The first request for a headless mode is taken as it is: the file, or the frame count, or 120 frames if
/// none is given.
pub proof fn law_a_headless_mode_is_taken_as_it_is(
    before: Seq<Seq<char>>,
    settings: Settings,
    path: Seq<char>,
    frames: nat,
)
    requires
        adds_up_to(before, settings),
        settings.headless is None,
    ensures
        adds_up_to(
            before + seq!["--screenshot"@, path],
            Settings { world: settings.world, headless: Some(HeadlessView::Screenshot(path)) },
        ),
        adds_up_to(
            before + seq!["--export-castle"@, path],
            Settings { world: settings.world, headless: Some(HeadlessView::Export(path)) },
        ),
        adds_up_to(
            before + seq!["--bench"@],
            Settings { world: settings.world, headless: Some(HeadlessView::Bench(120)) },
        ),
        frames <= usize::MAX ==> adds_up_to(
            before + seq!["--bench"@, crate::text::decimal(frames)],
            Settings { world: settings.world, headless: Some(HeadlessView::Bench(frames as usize)) },
        ),
{
    lemma_literals();
    let at = before.len() as int;
    let w = settings.world;
    let a = seq!["--screenshot"@, path];
    let b = seq!["--export-castle"@, path];
    let c = seq!["--bench"@];
    let d = seq!["--bench"@, crate::text::decimal(frames)];
    assert((before + a)[at] == "--screenshot"@ && (before + a)[at + 1] == path);
    assert((before + b)[at] == "--export-castle"@ && (before + b)[at + 1] == path);
    assert((before + c)[at] == "--bench"@);
    assert((before + d)[at] == "--bench"@ && (before + d)[at + 1] == crate::text::decimal(frames));
    let shot = HeadlessView::Screenshot(path);
    let export = HeadlessView::Export(path);
    let bench = HeadlessView::Bench(120);
    lemma_adds_up(
        before,
        settings,
        a,
        DirectiveView::Run(shot),
        Settings { world: w, headless: Some(shot) },
    );
    lemma_adds_up(
        before,
        settings,
        b,
        DirectiveView::Run(export),
        Settings { world: w, headless: Some(export) },
    );
    lemma_adds_up(
        before,
        settings,
        c,
        DirectiveView::Run(bench),
        Settings { world: w, headless: Some(bench) },
    );
    if frames <= usize::MAX {
        crate::text::law_decimal_reads_back(frames, usize::MAX as nat);
        let timed = HeadlessView::Bench(frames as usize);
        lemma_adds_up(
            before,
            settings,
            d,
            DirectiveView::Run(timed),
            Settings { world: w, headless: Some(timed) },
        );
    }
}

/// A value that is no number, no strategy or no model is refused, whatever comes before and after.
pub proof fn law_bad_values_are_refused(
    before: Seq<Seq<char>>,
    settings: Settings,
    flag: Seq<char>,
    value: Seq<char>,
    rest: Seq<Seq<char>>,
)
    requires
        adds_up_to(before, settings),
        ({
            ||| (flag == "--agents"@ || flag == "-n"@) && crate::text::spec_parse_number(
                value,
                usize::MAX as nat,
            ) is Err
            ||| flag == "--seed"@ && crate::text::spec_parse_number(value, u64::MAX as nat) is Err
            ||| flag == "--strategy"@ && value != "auto"@ && value != "naive"@ && value != "grid"@
            ||| flag == "--model"@ && value != "fish"@ && value != "bird"@ && value != "tree"@ && value
                != "castle"@
        }),
    ensures
        spec_parse(before + (seq![flag, value] + rest)) is Err,
        flag == "--agents"@ || flag == "-n"@ ==> (crate::text::spec_parse_number(value, usize::MAX as nat)
            matches Err(e) ==> spec_parse(before + (seq![flag, value] + rest)) == Err::<
            InvocationView,
            Seq<char>,
        >("--agents"@ + " "@ + value + ": "@ + e.spec_message())),
        flag == "--seed"@ ==> (crate::text::spec_parse_number(value, u64::MAX as nat) matches Err(e)
            ==> spec_parse(before + (seq![flag, value] + rest)) == Err::<InvocationView, Seq<char>>(
            "--seed"@ + " "@ + value + ": "@ + e.spec_message(),
        )),
        flag == "--strategy"@ ==> spec_parse(before + (seq![flag, value] + rest)) == Err::<
            InvocationView,
            Seq<char>,
        >("--strategy "@ + value + ": expected naive, grid or auto"@),
        flag == "--model"@ ==> spec_parse(before + (seq![flag, value] + rest)) == Err::<
            InvocationView,
            Seq<char>,
        >("--model "@ + value + ": expected one of fish, bird, tree, castle"@),
{
    lemma_literals();
    let q = seq![flag, value] + rest;
    let at = before.len() as int;
    lemma_flags_are_no_frame_counts(flag);
    lemma_scan_splits(before, q, 0, Settings::initial(), settings);
    assert((before + q)[at] == flag && (before + q)[at + 1] == value);
}

/// A screenshot is taken after 240 steps, at 1280 by 720 pixels, from 1.1 times the world's half extent and
/// 0.22 radians up, and a benchmark drops the first 20 of its frames.
pub proof fn law_headless_modes_have_their_defaults()
    ensures
        ScreenshotView::spec_default().path == "boids.png"@,
        ScreenshotView::spec_default().warmup_steps == 240,
        ScreenshotView::spec_default().width == 1280,
        ScreenshotView::spec_default().height == 720,
        crate::singles::is_nearly(ScreenshotView::spec_default().camera_distance, 11, 10),
        crate::singles::is_nearly(ScreenshotView::spec_default().camera_pitch, 22, 100),
        BenchRequest::spec_default().warmup_frames == 20,
        BenchRequest::spec_default().frames == 120,
        DEFAULT_BENCH_FRAMES == 120,
{
    vstd::arithmetic::power2::lemma2_to64();
    crate::singles::lemma_nearly(0x3f8c_cccd, 11, 10, 0x8c_cccd, 0x800_0000);
    crate::singles::lemma_nearly(0x3e61_47ae, 22, 100, 0xe1_47ae, 0x100_0000);
}

} // verus!
