//! The interactive session: what each window event and each frame asks of the program.
//!
//! The session decides; whoever runs it owns the window and the device and does the work.

use crate::input::{CameraInput, InputEvent, InputState};
use crate::world::{commands, Command, WorldState};
use vstd::prelude::*;

verus! {

/// An event of the window.
#[derive(Debug, Clone)]
pub enum Event {
    /// The window is to be closed.
    CloseRequested,
    /// The window has a new size.
    Resized { width: u32, height: u32 },
    /// The window is to be drawn.
    RedrawRequested,
    /// Anything else, as input sees it.
    Input(InputEvent),
}

/// What an event asks for.
#[derive(Debug, Clone, Copy, PartialEq, Eq, Structural)]
pub enum Response {
    /// End the program.
    Exit,
    /// Give the surface and the camera a new size.
    Resize { width: u32, height: u32 },
    /// Run a frame.
    Frame,
    /// Nothing now: the input waits for the next frame. If the event was one that input takes note of, a
    /// redraw is warranted.
    Noted { handled: bool },
}

/// What a frame starts with: the input that arrived since the frame before.
#[derive(Debug)]
pub struct FrameStart {
    /// How the camera moves.
    pub camera: CameraInput,
    /// What is carried out, in order.
    pub commands: Vec<Command>,
}

/// What a frame consists of.
#[derive(Debug, Clone, Copy, PartialEq, Eq, Structural)]
pub struct FrameWork {
    /// Whether the simulation advances before the frame is drawn.
    pub step: bool,
    /// Whether the switch between worlds ended with this frame.
    pub arrived: bool,
}

/// The state of the session.
#[derive(Debug)]
pub struct Session {
    /// Input of the current frame.
    pub input: InputState,
    /// The world that is shown.
    pub world: WorldState,
    /// Frames presented so far.
    pub frames: u64,
    /// Whether there is a device to draw with.
    pub ready: bool,
}

impl Session {
    /// The invariant.
    pub open spec fn wf(self) -> bool {
        self.world.wf()
    }

    /// Whether no action, movement or scroll waits to be consumed.
    pub open spec fn is_drained(self) -> bool {
        self.input@ == self.input@.consumed()
    }

    /// A session in the chosen world, with no input, no frame and no device yet.
    pub fn new(start_in_birds: bool) -> (session: Session)
        ensures
            session.wf(),
            session.is_drained(),
            session.input@ == crate::input::InputView::initial(),
            session.world.morph is None,
            session.world.mode == (if start_in_birds {
                crate::modes::SimMode::Birds
            } else {
                crate::modes::SimMode::Fish
            }),
            session.frames == 0,
            !session.ready,
    {
        Session {
            input: InputState::default(),
            world: WorldState::new(start_in_birds),
            frames: 0,
            ready: false,
        }
    }

    /// Takes an event and answers what to do.
    ///
    /// Input only accumulates here: many events can arrive between two frames, and the frame consumes
    /// them all at once.
    pub fn on_event(&mut self, event: &Event) -> (response: Response)
        requires
            old(self).wf(),
        ensures
            final(self).wf(),
            final(self).frames == old(self).frames,
            final(self).ready == old(self).ready,
            final(self).world == old(self).world,
            match *event {
                Event::CloseRequested => response == Response::Exit,
                Event::Resized { width, height } => response == (Response::Resize {
                    width,
                    height,
                }),
                Event::RedrawRequested => response == Response::Frame,
                Event::Input(input) => response == (Response::Noted { handled: input.is_handled() }),
            },
            final(self).input@ == (match *event {
                Event::Input(input) => old(self).input@.after(input),
                _ => old(self).input@,
            }),
    {
        match event {
            Event::CloseRequested => Response::Exit,
            Event::Resized { width, height } => Response::Resize { width: *width, height: *height },
            Event::RedrawRequested => Response::Frame,
            Event::Input(input) => Response::Noted { handled: self.input.handle(input) },
        }
    }

    /// Starts a frame: consumes the input that has accumulated, and gives out what it amounts to.
    ///
    /// Quitting comes before everything else that the input asks for; a switch of worlds takes place in
    /// the session at once.
    pub fn begin_frame(&mut self) -> (start: FrameStart)
        requires
            old(self).wf(),
        ensures
            final(self).wf(),
            final(self).is_drained(),
            final(self).input@ == old(self).input@.consumed(),
            final(self).frames == old(self).frames,
            final(self).ready == old(self).ready,
            start.camera.drag == old(self).input@.drag,
            start.camera.motions@ == old(self).input@.motions,
            start.camera.scrolls@ == old(self).input@.scrolls,
            start.commands@ == crate::world::spec_commands(old(self).input@.actions()),
            final(self).world == (if start.commands@.contains(Command::ToggleWorld) {
                old(self).world.toggled()
            } else {
                old(self).world
            }),
    {
        let (actions, camera) = self.input.consume();
        let commands = commands(actions);
        proof {
            let todo = crate::world::spec_commands(actions);
            if actions.toggle_world && !actions.quit {
                assert(todo[0] == Command::ToggleWorld);
            }
        }
        if actions.toggle_world && !actions.quit {
            self.world.toggle();
        }
        FrameStart { camera, commands }
    }

    /// Goes on with a frame, given whether a switch between worlds has run its time. There is nothing to
    /// do without a device.
    ///
    /// A switch goes on while the simulation is paused, so that pausing does not freeze it half-way.
    pub fn advance(&mut self, morph_is_over: bool) -> (work: Option<FrameWork>)
        requires
            old(self).wf(),
        ensures
            final(self).wf(),
            final(self).input@ == old(self).input@,
            final(self).frames == old(self).frames,
            final(self).ready == old(self).ready,
            final(self).world.mode == old(self).world.mode,
            final(self).world.morph == (if old(self).ready && morph_is_over {
                None
            } else {
                old(self).world.morph
            }),
            work == (if old(self).ready {
                Some(
                    FrameWork {
                        step: !old(self).input@.paused,
                        arrived: morph_is_over && old(self).world.morph is Some,
                    },
                )
            } else {
                None
            }),
    {
        if !self.ready {
            return None;
        }
        let arrived = morph_is_over && self.world.morph.is_some();
        self.world.settle(morph_is_over);
        Some(FrameWork { step: !self.input.paused, arrived })
    }

    /// Notes that a frame was presented.
    pub fn presented(&mut self)
        requires
            old(self).wf(),
            old(self).frames < u64::MAX,
        ensures
            final(self).wf(),
            final(self).frames == old(self).frames + 1,
            final(self).input@ == old(self).input@,
            final(self).world == old(self).world,
            final(self).ready == old(self).ready,
    {
        self.frames = self.frames + 1;
    }
}

/// Whether one of the events presses a key of a kind for the first time, and not as a repeat.
pub open spec fn pressed(events: Seq<InputEvent>, is_key: spec_fn(crate::input::InputKey) -> bool) -> bool {
    exists|i: int|
        0 <= i < events.len() && ((#[trigger] events[i]) matches InputEvent::KeyboardInput {
            key,
            pressed,
            repeat,
        } && pressed && !repeat && is_key(key))
}

proof fn lemma_pressed(events: Seq<InputEvent>, is_key: spec_fn(crate::input::InputKey) -> bool)
    requires
        events.len() > 0,
    ensures
        pressed(events, is_key) == (pressed(events.drop_last(), is_key) || pressed(
            seq![events.last()],
            is_key,
        )),
{
    let (before, last) = (events.drop_last(), seq![events.last()]);
    if pressed(before, is_key) {
        let i = choose|i: int|
            0 <= i < before.len() && ((#[trigger] before[i]) matches InputEvent::KeyboardInput {
                key,
                pressed,
                repeat,
            } && pressed && !repeat && is_key(key));
        assert(events[i] == before[i]);
    }
    if pressed(last, is_key) {
        assert(last[0] == events[events.len() - 1]);
    }
    if pressed(events, is_key) {
        let i = choose|i: int|
            0 <= i < events.len() && ((#[trigger] events[i]) matches InputEvent::KeyboardInput {
                key,
                pressed,
                repeat,
            } && pressed && !repeat && is_key(key));
        if i < before.len() {
            assert(before[i] == events[i]);
        } else {
            assert(last[0] == events[i]);
        }
    }
}

/// Events accumulate until the frame: what a frame carries out is what was asked for since the frame
/// before, once each, however many events asked for it and in whatever order they came.
pub proof fn law_events_accumulate_until_the_frame(
    input: crate::input::InputView,
    events: Seq<InputEvent>,
)
    requires
        input == input.consumed(),
    ensures
        input.after_all(events).actions() == (crate::input::FrameActions {
            toggle_world: pressed(events, |key: crate::input::InputKey| key is Tab),
            reset: pressed(
                events,
                |key: crate::input::InputKey|
                    key matches crate::input::InputKey::Character(text) && (text@ == "r"@ || text@ == "R"@),
            ),
            quit: pressed(events, |key: crate::input::InputKey| key is Escape),
        }),
    decreases events.len(),
{
    let tab = |key: crate::input::InputKey| key is Tab;
    let reset = |key: crate::input::InputKey|
        key matches crate::input::InputKey::Character(text) && (text@ == "r"@ || text@ == "R"@);
    let escape = |key: crate::input::InputKey| key is Escape;
    if events.len() > 0 {
        let (before, last) = (events.drop_last(), events.last());
        law_events_accumulate_until_the_frame(input, before);
        lemma_pressed(events, tab);
        lemma_pressed(events, reset);
        lemma_pressed(events, escape);
        assert(seq![last][0] == last);
        reveal_strlit("1");
        reveal_strlit("2");
        reveal_strlit("0");
        reveal_strlit("r");
        reveal_strlit("R");
        assert("1"@[0] == '1' && "2"@[0] == '2' && "0"@[0] == '0');
        assert("r"@[0] == 'r' && "R"@[0] == 'R');
    }
}

/// Asking twice between two frames is asking once: a second press of a key changes nothing that the first
/// has not changed. Space is the exception: it pauses and resumes at once.
pub proof fn law_asking_twice_is_asking_once(
    input: crate::input::InputView,
    key: crate::input::InputKey,
)
    requires
        !(key is Space),
    ensures
        input.typed(key, false).typed(key, false) == input.typed(key, false),
{
}

/// Quitting leaves no other command, and without quitting a switch comes before a respawn, so that the
/// swarm is spawned in the world that was switched to.
pub proof fn law_commands_come_in_order(actions: crate::input::FrameActions)
    ensures
        actions.quit ==> crate::world::spec_commands(actions) == seq![Command::Exit],
        !actions.quit ==> {
            &&& !crate::world::spec_commands(actions).contains(Command::Exit)
            &&& crate::world::spec_commands(actions).contains(Command::ToggleWorld)
                == actions.toggle_world
            &&& crate::world::spec_commands(actions).contains(Command::Respawn) == actions.reset
            &&& forall|i: int, j: int|
                0 <= i < crate::world::spec_commands(actions).len() && 0 <= j
                    < crate::world::spec_commands(actions).len() && (
                #[trigger] crate::world::spec_commands(actions)[i]) == Command::ToggleWorld && (
                #[trigger] crate::world::spec_commands(actions)[j]) == Command::Respawn ==> i < j
        },
{
    let todo = crate::world::spec_commands(actions);
    if !actions.quit {
        if actions.toggle_world {
            assert(todo[0] == Command::ToggleWorld);
        }
        if actions.reset {
            assert(todo[todo.len() - 1] == Command::Respawn);
        }
    }
}

} // verus!
