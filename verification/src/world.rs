//! The running program's decisions: switching worlds, carrying out actions, and when to report.

use crate::args::BenchRequest;
use crate::input::FrameActions;
use crate::modes::{InteractionMode, SimMode};
use crate::text::push_decimal;
use vstd::prelude::*;
use vstd::string::StringExecFns;

verus! {

/// Frames between two updates of the window title.
pub const TITLE_INTERVAL: u64 = 15;

/// Frames between two lines in the log.
pub const LOG_INTERVAL: u64 = 120;

/// Frames between two timing reports.
pub const PROFILE_INTERVAL_FRAMES: u64 = 60;

/// A world switch in progress: the agents change from one shape to the other.
#[derive(Debug, Clone, Copy, PartialEq, Eq, Structural)]
pub struct WorldMorph {
    /// World being left.
    pub from: SimMode,
    /// World being entered.
    pub to: SimMode,
}

/// The world that is shown.
#[derive(Debug, Clone, Copy, PartialEq, Eq)]
pub struct WorldState {
    /// The current world.
    pub mode: SimMode,
    /// The switch in progress, or `None` when settled.
    pub morph: Option<WorldMorph>,
}

impl WorldState {
    /// The invariant: a switch leads from the other world to the current one.
    pub open spec fn wf(self) -> bool {
        self.morph matches Some(morph) ==> morph.to == self.mode && morph.from == self.mode.opposite()
    }

    /// The world after a switch was asked for.
    pub open spec fn toggled(self) -> WorldState {
        let to = self.mode.opposite();
        WorldState { mode: to, morph: Some(WorldMorph { from: self.mode, to }) }
    }

    /// The world that the program starts in.
    pub fn new(start_in_birds: bool) -> (world: WorldState)
        ensures
            world.wf(),
            world.morph is None,
            world.mode == (if start_in_birds {
                SimMode::Birds
            } else {
                SimMode::Fish
            }),
    {
        let mode = if start_in_birds {
            SimMode::Birds
        } else {
            SimMode::Fish
        };
        WorldState { mode, morph: None }
    }

    /// Switches worlds. The switch starts from the current world's shape, even if another switch is in
    /// progress: a second key press redirects the change rather than queueing one.
    pub fn toggle(&mut self)
        requires
            old(self).wf(),
        ensures
            final(self).wf(),
            *final(self) == old(self).toggled(),
    {
        let from = self.mode;
        let to = match from {
            SimMode::Fish => SimMode::Birds,
            SimMode::Birds => SimMode::Fish,
        };
        self.morph = Some(WorldMorph { from, to });
        self.mode = to;
    }

    /// Ends the switch in progress, if its time has come.
    pub fn settle(&mut self, arrived: bool)
        requires
            old(self).wf(),
        ensures
            final(self).wf(),
            final(self).mode == old(self).mode,
            final(self).morph == (if arrived {
                None
            } else {
                old(self).morph
            }),
    {
        if arrived {
            self.morph = None;
        }
    }
}

/// Every switch starts from the world that is current when it is asked for, whether or not another is in
/// progress, and two switches lead back to the same world.
pub proof fn law_two_switches_lead_back(world: WorldState)
    requires
        world.wf(),
    ensures
        world.toggled().mode != world.mode,
        world.toggled().toggled().mode == world.mode,
        world.toggled().wf(),
        world.toggled().morph == Some(WorldMorph { from: world.mode, to: world.mode.opposite() }),
        world.toggled().toggled().morph == Some(
            WorldMorph { from: world.mode.opposite(), to: world.mode },
        ),
{
}

/// Something the program does.
#[derive(Debug, Clone, Copy, PartialEq, Eq, Structural)]
pub enum Command {
    Exit,
    ToggleWorld,
    Respawn,
}

/// What a frame's actions amount to.
pub open spec fn spec_commands(actions: FrameActions) -> Seq<Command> {
    if actions.quit {
        seq![Command::Exit]
    } else if actions.toggle_world && actions.reset {
        seq![Command::ToggleWorld, Command::Respawn]
    } else if actions.toggle_world {
        seq![Command::ToggleWorld]
    } else if actions.reset {
        seq![Command::Respawn]
    } else {
        Seq::empty()
    }
}

/// The commands that a frame's actions amount to, in order. Quitting leaves nothing else to do.
pub fn commands(actions: FrameActions) -> (out: Vec<Command>)
    ensures
        out@ == spec_commands(actions),
{
    let mut out: Vec<Command> = Vec::new();
    if actions.quit {
        out.push(Command::Exit);
    } else {
        if actions.toggle_world {
            out.push(Command::ToggleWorld);
        }
        if actions.reset {
            out.push(Command::Respawn);
        }
    }
    assert(out@ =~= spec_commands(actions));
    out
}

/// Whether the title is updated in a frame.
pub fn title_due(frames: u64) -> (due: bool)
    ensures
        due == (frames % TITLE_INTERVAL == 0),
{
    frames % TITLE_INTERVAL == 0
}

/// Whether a line is logged in a frame.
pub fn log_due(frames: u64) -> (due: bool)
    ensures
        due == (frames % LOG_INTERVAL == 0),
{
    frames % LOG_INTERVAL == 0
}

/// A line is only ever logged in a frame that updates the title as well.
pub proof fn law_logging_frames_update_the_title(frames: nat)
    ensures
        frames % LOG_INTERVAL as nat == 0 ==> frames % TITLE_INTERVAL as nat == 0,
{
}

/// The name of a world.
pub open spec fn spec_world_name(mode: SimMode) -> Seq<char> {
    match mode {
        SimMode::Fish => "underwater"@,
        SimMode::Birds => "sky"@,
    }
}

/// The name of a world.
pub fn world_name(mode: SimMode) -> (name: &'static str)
    ensures
        name@ == spec_world_name(mode),
{
    match mode {
        SimMode::Fish => "underwater",
        SimMode::Birds => "sky",
    }
}

/// The name of a cursor mode.
pub open spec fn spec_cursor_name(mode: InteractionMode) -> Seq<char> {
    match mode {
        InteractionMode::Attract => "attract"@,
        InteractionMode::Repel => "repel"@,
        InteractionMode::Off => "no cursor"@,
    }
}

/// The name of a cursor mode.
pub fn cursor_name(mode: InteractionMode) -> (name: &'static str)
    ensures
        name@ == spec_cursor_name(mode),
{
    match mode {
        InteractionMode::Attract => "attract",
        InteractionMode::Repel => "repel",
        InteractionMode::Off => "no cursor",
    }
}

/// The window title.
pub open spec fn title_text(
    num_boids: nat,
    world: SimMode,
    fps: Seq<char>,
    millis: Seq<char>,
    cursor: InteractionMode,
) -> Seq<char> {
    "boids | "@ + crate::text::decimal(num_boids) + " agents | "@ + spec_world_name(world) + " | "@
        + fps + " fps | "@ + millis + " ms | "@ + spec_cursor_name(cursor)
}

/// The window title, given the frame rate and the frame time as text.
pub fn title(
    num_boids: usize,
    world: SimMode,
    fps: &str,
    millis: &str,
    cursor: InteractionMode,
) -> (out: String)
    ensures
        out@ == title_text(num_boids as nat, world, fps@, millis@, cursor),
{
    let mut out = "boids | ".to_owned();
    push_decimal(&mut out, num_boids as u64);
    out.append(" agents | ");
    out.append(world_name(world));
    out.append(" | ");
    out.append(fps);
    out.append(" fps | ");
    out.append(millis);
    out.append(" ms | ");
    out.append(cursor_name(cursor));
    out
}

/// The line that is logged.
pub open spec fn log_text(
    frames: nat,
    fps: Seq<char>,
    millis: Seq<char>,
    num_boids: nat,
    adapter: Seq<char>,
    cursor: InteractionMode,
) -> Seq<char> {
    "frame "@ + crate::text::decimal(frames) + ": "@ + fps + " fps ("@ + millis + " ms) | "@
        + crate::text::decimal(num_boids) + " agents | "@ + adapter + " | "@ + spec_cursor_name(cursor)
}

/// The line that is logged, given the frame rate, the frame time and the adapter as text.
pub fn log_line(
    frames: u64,
    fps: &str,
    millis: &str,
    num_boids: usize,
    adapter: &str,
    cursor: InteractionMode,
) -> (out: String)
    ensures
        out@ == log_text(frames as nat, fps@, millis@, num_boids as nat, adapter@, cursor),
{
    let mut out = "frame ".to_owned();
    push_decimal(&mut out, frames);
    out.append(": ");
    out.append(fps);
    out.append(" fps (");
    out.append(millis);
    out.append(" ms) | ");
    push_decimal(&mut out, num_boids as u64);
    out.append(" agents | ");
    out.append(adapter);
    out.append(" | ");
    out.append(cursor_name(cursor));
    out
}

/// The frames of a benchmark, warmup and all.
pub fn total_frames(request: &BenchRequest) -> (n: usize)
    requires
        request.warmup_frames + request.frames <= usize::MAX,
    ensures
        n == request.warmup_frames + request.frames,
{
    request.warmup_frames + request.frames
}

/// Whether a frame of a benchmark counts: the first ones are dropped, so that first touches do not land
/// in the average.
pub fn is_timed(request: &BenchRequest, frame: usize) -> (timed: bool)
    ensures
        timed == (frame >= request.warmup_frames),
{
    frame >= request.warmup_frames
}

/// How many of the first `n` frames count.
pub open spec fn timed_among(request: BenchRequest, n: nat) -> nat
    decreases n,
{
    if n == 0 {
        0
    } else {
        timed_among(request, (n - 1) as nat) + (if n - 1 >= request.warmup_frames {
            1nat
        } else {
            0nat
        })
    }
}

/// Exactly as many frames count as were asked for.
pub proof fn law_the_asked_frames_are_timed(request: BenchRequest, n: nat)
    ensures
        timed_among(request, n) == (if n <= request.warmup_frames {
            0
        } else {
            n - request.warmup_frames
        }),
        timed_among(request, (request.warmup_frames + request.frames) as nat) == request.frames,
{
    lemma_timed(request, n);
    lemma_timed(request, (request.warmup_frames + request.frames) as nat);
}

proof fn lemma_timed(request: BenchRequest, n: nat)
    ensures
        timed_among(request, n) == (if n <= request.warmup_frames {
            0
        } else {
            n - request.warmup_frames
        }),
    decreases n,
{
    if n > 0 {
        lemma_timed(request, (n - 1) as nat);
    }
}

/// The title is updated every 15 frames, a line is logged every 120, and timings are reported every 60.
pub proof fn law_the_intervals_are_known()
    ensures
        TITLE_INTERVAL == 15,
        LOG_INTERVAL == 120,
        PROFILE_INTERVAL_FRAMES == 60,
{
}

/// The worlds and the cursor modes have names of their own.
pub proof fn law_names_tell_worlds_and_modes_apart()
    ensures
        spec_world_name(SimMode::Fish) == "underwater"@,
        spec_world_name(SimMode::Birds) == "sky"@,
        spec_cursor_name(InteractionMode::Attract) == "attract"@,
        spec_cursor_name(InteractionMode::Repel) == "repel"@,
        spec_cursor_name(InteractionMode::Off) == "no cursor"@,
{
}

/// The title says how many agents there are, in which world, how fast, and what the cursor does, in this
/// order.
pub proof fn law_the_title_says_what_is_shown(
    num_boids: nat,
    world: SimMode,
    fps: Seq<char>,
    millis: Seq<char>,
    cursor: InteractionMode,
)
    ensures
        ("boids | "@ + crate::text::decimal(num_boids) + " agents | "@ + (if world == SimMode::Fish {
            "underwater"@
        } else {
            "sky"@
        })).is_prefix_of(title_text(num_boids, world, fps, millis, cursor)),
        title_text(num_boids, world, fps, millis, cursor).skip(
            ("boids | "@ + crate::text::decimal(num_boids) + " agents | "@ + (if world == SimMode::Fish {
                "underwater"@
            } else {
                "sky"@
            })).len() as int,
        ) == " | "@ + fps + " fps | "@ + millis + " ms | "@ + (match cursor {
            InteractionMode::Attract => "attract"@,
            InteractionMode::Repel => "repel"@,
            InteractionMode::Off => "no cursor"@,
        }),
{
    let head = "boids | "@ + crate::text::decimal(num_boids) + " agents | "@ + spec_world_name(world);
    let tail = " | "@ + fps + " fps | "@ + millis + " ms | "@ + spec_cursor_name(cursor);
    let all = title_text(num_boids, world, fps, millis, cursor);
    assert(all =~= head + tail);
    assert(head =~= all.subrange(0, head.len() as int));
    assert(all.skip(head.len() as int) =~= tail);
}

/// Quitting is the only command of a frame that quits; otherwise a switch and a respawn are carried out
/// as they were asked for, the switch first.
pub proof fn law_commands_are_what_was_asked_for(toggle_world: bool, reset: bool)
    ensures
        spec_commands(FrameActions { toggle_world, reset, quit: true }) == seq![Command::Exit],
        spec_commands(FrameActions { toggle_world: true, reset: true, quit: false }) == seq![
            Command::ToggleWorld,
            Command::Respawn,
        ],
        spec_commands(FrameActions { toggle_world: true, reset: false, quit: false }) == seq![
            Command::ToggleWorld,
        ],
        spec_commands(FrameActions { toggle_world: false, reset: true, quit: false }) == seq![
            Command::Respawn,
        ],
        spec_commands(FrameActions { toggle_world: false, reset: false, quit: false }).len() == 0,
{
}

/// A logged line names the frame first, then how fast it was, how many agents there are, on which adapter,
/// and what the cursor does.
pub proof fn law_a_logged_line_says_what_was_shown(
    frames: nat,
    fps: Seq<char>,
    millis: Seq<char>,
    num_boids: nat,
    adapter: Seq<char>,
    cursor: InteractionMode,
)
    ensures
        ("frame "@ + crate::text::decimal(frames) + ": "@ + fps + " fps ("@ + millis
            + " ms) | "@).is_prefix_of(log_text(frames, fps, millis, num_boids, adapter, cursor)),
        log_text(frames, fps, millis, num_boids, adapter, cursor).skip(
            ("frame "@ + crate::text::decimal(frames) + ": "@ + fps + " fps ("@ + millis
                + " ms) | "@).len() as int,
        ) == crate::text::decimal(num_boids) + " agents | "@ + adapter + " | "@ + (match cursor {
            InteractionMode::Attract => "attract"@,
            InteractionMode::Repel => "repel"@,
            InteractionMode::Off => "no cursor"@,
        }),
{
    let head = "frame "@ + crate::text::decimal(frames) + ": "@ + fps + " fps ("@ + millis + " ms) | "@;
    let tail = crate::text::decimal(num_boids) + " agents | "@ + adapter + " | "@ + spec_cursor_name(cursor);
    let all = log_text(frames, fps, millis, num_boids, adapter, cursor);
    assert(all =~= head + tail);
    assert(head =~= all.subrange(0, head.len() as int));
    assert(all.skip(head.len() as int) =~= tail);
}

} // verus!
