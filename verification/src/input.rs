//! Input accumulated from window events and consumed once per frame.
//!
//! Positions and scroll distances are real numbers, carried as bit patterns; what is accumulated is the
//! list of them, in order, and whoever drives the camera adds them up.

use crate::modes::InteractionMode;
use crate::text::same;
use vstd::prelude::*;

verus! {

/// Which drag gesture is in progress. Exactly one at a time: a mouse has one cursor.
#[derive(Debug, Clone, Copy, PartialEq, Eq, Structural)]
pub enum Drag {
    /// No button held.
    Idle,
    /// Left button: orbit.
    Orbit,
    /// Right button: pan.
    Pan,
    /// Middle button: momentary cursor attractor.
    Attract,
}

impl Default for Drag {
    fn default() -> (drag: Self)
        ensures
            drag == Drag::Idle,
    {
        Drag::Idle
    }
}

/// A mouse button.
#[derive(Debug, Clone, Copy, PartialEq, Eq, Structural)]
pub enum Button {
    Left,
    Right,
    Middle,
    Other,
}

/// A key.
#[derive(Debug, Clone)]
pub enum InputKey {
    Tab,
    Space,
    Escape,
    /// A key that writes text.
    Character(String),
    Other,
}

/// A position in pixels, each coordinate the bit pattern of a single.
#[derive(Debug, Clone, Copy, PartialEq, Eq, Structural)]
pub struct Point {
    pub x: u32,
    pub y: u32,
}

/// A movement of the pointer.
#[derive(Debug, Clone, Copy, PartialEq, Eq, Structural)]
pub struct Motion {
    pub from: Point,
    pub to: Point,
}

/// A movement of the wheel.
#[derive(Debug, Clone, Copy, PartialEq, Eq, Structural)]
pub enum Scroll {
    /// In lines, as the bit pattern of a single.
    Lines(u32),
    /// In pixels, as the bit pattern of a double. A notch is about fifty pixels.
    Pixels(u64),
}

/// An event of the window that input is made of.
#[derive(Debug, Clone)]
pub enum InputEvent {
    /// The pointer moved to a position.
    CursorMoved(Point),
    /// A mouse button was pressed or released.
    MouseInput { button: Button, pressed: bool },
    /// The wheel moved.
    MouseWheel(Scroll),
    /// A key was pressed or released.
    KeyboardInput { key: InputKey, pressed: bool, repeat: bool },
    /// Anything else.
    Other,
}

impl InputEvent {
    /// Whether the event is one that the input state takes note of.
    pub open spec fn is_handled(self) -> bool {
        match self {
            InputEvent::KeyboardInput { pressed, .. } => pressed,
            InputEvent::Other => false,
            _ => true,
        }
    }
}

/// One-shot actions for the frame.
#[derive(Debug, Clone, Copy, PartialEq, Eq, Structural)]
pub struct FrameActions {
    /// Switch between the underwater and sky worlds.
    pub toggle_world: bool,
    /// Respawn the swarm.
    pub reset: bool,
    /// Exit.
    pub quit: bool,
}

impl Default for FrameActions {
    fn default() -> (actions: Self)
        ensures
            actions == (FrameActions { toggle_world: false, reset: false, quit: false }),
    {
        FrameActions { toggle_world: false, reset: false, quit: false }
    }
}

/// What the camera does in a frame.
#[derive(Debug)]
pub struct CameraInput {
    /// The gesture that the motion belongs to. Only an orbit and a pan move the camera.
    pub drag: Drag,
    /// The pointer's movements, in order.
    pub motions: Vec<Motion>,
    /// The wheel's movements, in order.
    pub scrolls: Vec<Scroll>,
}

/// Accumulated input for the current frame.
#[derive(Debug)]
pub struct InputState {
    /// Cursor position, or `None` until the pointer has moved once.
    pub cursor: Option<Point>,
    /// Pointer movements since the previous frame.
    pub motions: Vec<Motion>,
    /// Wheel movements since the previous frame.
    pub scrolls: Vec<Scroll>,
    /// Which drag gesture is active.
    pub drag: Drag,
    /// Cursor interaction mode, changed by the number keys.
    pub mode: InteractionMode,
    /// Whether the cursor is influencing the swarm right now. Kept separate from `mode` so that
    /// releasing the middle button turns the influence off without forgetting the selected mode.
    pub active: bool,
    /// Whether the simulation is paused.
    pub paused: bool,
    /// Set when the user asked to quit.
    pub quit: bool,
    /// Set when the user asked to switch worlds.
    pub toggle_world: bool,
    /// Set when the user asked to reset the swarm.
    pub reset: bool,
}

/// Accumulated input, with its lists as sequences.
pub struct InputView {
    pub cursor: Option<Point>,
    pub motions: Seq<Motion>,
    pub scrolls: Seq<Scroll>,
    pub drag: Drag,
    pub mode: InteractionMode,
    pub active: bool,
    pub paused: bool,
    pub quit: bool,
    pub toggle_world: bool,
    pub reset: bool,
}

impl View for InputState {
    type V = InputView;

    open spec fn view(&self) -> InputView {
        InputView {
            cursor: self.cursor,
            motions: self.motions@,
            scrolls: self.scrolls@,
            drag: self.drag,
            mode: self.mode,
            active: self.active,
            paused: self.paused,
            quit: self.quit,
            toggle_world: self.toggle_world,
            reset: self.reset,
        }
    }
}

impl InputView {
    /// No input yet: the cursor attracts once it is known where it is.
    pub open spec fn initial() -> InputView {
        InputView {
            cursor: None,
            motions: Seq::empty(),
            scrolls: Seq::empty(),
            drag: Drag::Idle,
            mode: InteractionMode::Attract,
            active: true,
            paused: false,
            quit: false,
            toggle_world: false,
            reset: false,
        }
    }

    /// After the pointer moved to `to`. The first position is a baseline, not a movement.
    pub open spec fn moved(self, to: Point) -> InputView {
        InputView {
            cursor: Some(to),
            motions: match self.cursor {
                Some(from) => self.motions.push(Motion { from, to }),
                None => self.motions,
            },
            ..self
        }
    }

    /// After a button was pressed or released. The middle button is a momentary override of the
    /// influence, so the selected mode survives it.
    pub open spec fn clicked(self, button: Button, pressed: bool) -> InputView {
        let gesture = match button {
            Button::Left => Drag::Orbit,
            Button::Right => Drag::Pan,
            Button::Middle => Drag::Attract,
            Button::Other => self.drag,
        };
        InputView {
            drag: if pressed || button == Button::Other {
                gesture
            } else {
                Drag::Idle
            },
            active: if button == Button::Middle {
                pressed
            } else {
                self.active
            },
            ..self
        }
    }

    /// After a key was pressed. A repeat changes nothing.
    pub open spec fn typed(self, key: InputKey, repeat: bool) -> InputView {
        if repeat {
            self
        } else {
            match key {
                InputKey::Tab => InputView { toggle_world: true, ..self },
                InputKey::Space => InputView { paused: !self.paused, ..self },
                InputKey::Escape => InputView { quit: true, ..self },
                InputKey::Character(text) => if text@ == "1"@ {
                    InputView { mode: InteractionMode::Attract, active: true, ..self }
                } else if text@ == "2"@ {
                    InputView { mode: InteractionMode::Repel, active: true, ..self }
                } else if text@ == "0"@ {
                    InputView { mode: InteractionMode::Off, active: false, ..self }
                } else if text@ == "r"@ || text@ == "R"@ {
                    InputView { reset: true, ..self }
                } else {
                    self
                },
                InputKey::Other => self,
            }
        }
    }

    /// After the wheel moved.
    pub open spec fn scrolled(self, delta: Scroll) -> InputView {
        InputView { scrolls: self.scrolls.push(delta), ..self }
    }

    /// After an event. The release of a key changes nothing.
    pub open spec fn after(self, event: InputEvent) -> InputView {
        match event {
            InputEvent::CursorMoved(position) => self.moved(position),
            InputEvent::MouseInput { button, pressed } => self.clicked(button, pressed),
            InputEvent::MouseWheel(delta) => self.scrolled(delta),
            InputEvent::KeyboardInput { key, pressed, repeat } => if pressed {
                self.typed(key, repeat)
            } else {
                self
            },
            InputEvent::Other => self,
        }
    }

    /// After several events.
    pub open spec fn after_all(self, events: Seq<InputEvent>) -> InputView
        decreases events.len(),
    {
        if events.len() == 0 {
            self
        } else {
            self.after_all(events.drop_last()).after(events.last())
        }
    }

    /// After the frame took its input: what was accumulated is gone, what is held stays.
    pub open spec fn consumed(self) -> InputView {
        InputView {
            motions: Seq::empty(),
            scrolls: Seq::empty(),
            quit: false,
            toggle_world: false,
            reset: false,
            ..self
        }
    }

    /// The one-shot actions that are waiting.
    pub open spec fn actions(self) -> FrameActions {
        FrameActions { toggle_world: self.toggle_world, reset: self.reset, quit: self.quit }
    }

    /// Whether the cursor influences the swarm.
    pub open spec fn influences(self) -> bool {
        self.active && self.mode != InteractionMode::Off && self.cursor is Some
    }

    /// Whether the movements lead from one to the next and end where the cursor is.
    pub open spec fn is_chained(self) -> bool {
        &&& forall|i: int, j: int|
            0 <= i < self.motions.len() && j == i + 1 && j < self.motions.len() ==> (
            #[trigger] self.motions[i]).to == (#[trigger] self.motions[j]).from
        &&& self.motions.len() > 0 ==> self.cursor == Some(self.motions.last().to)
    }
}

impl Default for InputState {
    fn default() -> (input: Self)
        ensures
            input@ == InputView::initial(),
    {
        let input = InputState {
            cursor: None,
            motions: Vec::new(),
            scrolls: Vec::new(),
            drag: Drag::Idle,
            mode: InteractionMode::Attract,
            active: true,
            paused: false,
            quit: false,
            toggle_world: false,
            reset: false,
        };
        assert(input@.motions =~= Seq::<Motion>::empty());
        assert(input@.scrolls =~= Seq::<Scroll>::empty());
        input
    }
}

impl InputState {
    /// Records a new pointer position and accumulates the movement from the previous one.
    ///
    /// The first position only establishes a baseline: positions are absolute, so taking the first one
    /// for a movement would rotate the camera by the distance from the origin.
    pub fn on_cursor_move(&mut self, position: Point)
        ensures
            final(self)@ == old(self)@.moved(position),
    {
        if let Some(previous) = self.cursor {
            self.motions.push(Motion { from: previous, to: position });
        }
        self.cursor = Some(position);
    }

    /// Records a mouse button transition.
    pub fn on_button(&mut self, button: Button, pressed: bool)
        ensures
            final(self)@ == old(self)@.clicked(button, pressed),
    {
        match button {
            Button::Left => {
                self.drag = if pressed {
                    Drag::Orbit
                } else {
                    Drag::Idle
                };
            },
            Button::Right => {
                self.drag = if pressed {
                    Drag::Pan
                } else {
                    Drag::Idle
                };
            },
            Button::Middle => {
                self.drag = if pressed {
                    Drag::Attract
                } else {
                    Drag::Idle
                };
                self.active = pressed;
            },
            Button::Other => {},
        }
    }

    /// Accumulates a movement of the wheel.
    pub fn on_scroll(&mut self, delta: Scroll)
        ensures
            final(self)@ == old(self)@.scrolled(delta),
    {
        self.scrolls.push(delta);
    }

    /// Records a key press. Repeats are ignored so that holding `tab` does not thrash the world.
    pub fn on_key(&mut self, key: &InputKey, repeat: bool)
        ensures
            final(self)@ == old(self)@.typed(*key, repeat),
            repeat ==> final(self)@ == old(self)@,
    {
        if repeat {
            return;
        }
        match key {
            InputKey::Tab => {
                self.toggle_world = true;
            },
            InputKey::Space => {
                self.paused = !self.paused;
            },
            InputKey::Escape => {
                self.quit = true;
            },
            InputKey::Character(text) => {
                let text: &str = text.as_str();
                if same(text, "1") {
                    self.mode = InteractionMode::Attract;
                    self.active = true;
                } else if same(text, "2") {
                    self.mode = InteractionMode::Repel;
                    self.active = true;
                } else if same(text, "0") {
                    self.mode = InteractionMode::Off;
                    self.active = false;
                } else if same(text, "r") || same(text, "R") {
                    self.reset = true;
                }
            },
            InputKey::Other => {},
        }
    }

    /// Takes note of an event, and says whether it was one that changes input at all.
    pub fn handle(&mut self, event: &InputEvent) -> (handled: bool)
        ensures
            final(self)@ == old(self)@.after(*event),
            handled == event.is_handled(),
    {
        match event {
            InputEvent::CursorMoved(position) => {
                self.on_cursor_move(*position);
                true
            },
            InputEvent::MouseInput { button, pressed } => {
                self.on_button(*button, *pressed);
                true
            },
            InputEvent::MouseWheel(delta) => {
                self.on_scroll(*delta);
                true
            },
            InputEvent::KeyboardInput { key, pressed, repeat } => {
                if !*pressed {
                    return false;
                }
                self.on_key(key, *repeat);
                true
            },
            InputEvent::Other => false,
        }
    }

    /// Hands out the accumulated movements and drains the one-shot flags.
    ///
    /// Clearing here keeps "accumulate in the event handler, consume exactly once per frame" in one
    /// place: a key press that was not drained would be applied again on the next frame.
    pub fn consume(&mut self) -> (r: (FrameActions, CameraInput))
        ensures
            final(self)@ == old(self)@.consumed(),
            r.0 == old(self)@.actions(),
            r.1.drag == old(self)@.drag,
            r.1.motions@ == old(self)@.motions,
            r.1.scrolls@ == old(self)@.scrolls,
    {
        let actions = FrameActions {
            toggle_world: self.toggle_world,
            reset: self.reset,
            quit: self.quit,
        };
        self.toggle_world = false;
        self.reset = false;
        self.quit = false;
        let mut motions: Vec<Motion> = Vec::new();
        let mut scrolls: Vec<Scroll> = Vec::new();
        std::mem::swap(&mut motions, &mut self.motions);
        std::mem::swap(&mut scrolls, &mut self.scrolls);
        assert(self@.motions =~= Seq::<Motion>::empty());
        assert(self@.scrolls =~= Seq::<Scroll>::empty());
        (actions, CameraInput { drag: self.drag, motions, scrolls })
    }

    /// Whether the cursor should influence the swarm this frame.
    pub fn interaction_enabled(&self) -> (enabled: bool)
        ensures
            enabled == self@.influences(),
    {
        self.active && self.mode != InteractionMode::Off && self.cursor.is_some()
    }
}

/// What was consumed is not consumed again: without new events the next frame has no action, no
/// movement and no scroll, and what is held is as it was.
pub proof fn law_input_is_consumed_once(input: InputView)
    ensures
        input.consumed().actions() == (FrameActions {
            toggle_world: false,
            reset: false,
            quit: false,
        }),
        input.consumed().motions.len() == 0,
        input.consumed().scrolls.len() == 0,
        input.consumed().drag == input.drag,
        input.consumed().mode == input.mode,
        input.consumed().paused == input.paused,
        input.consumed().active == input.active,
        input.consumed().cursor == input.cursor,
        input.consumed().influences() == input.influences(),
        input.actions().toggle_world == input.toggle_world,
        input.actions().reset == input.reset,
        input.actions().quit == input.quit,
        input.consumed().consumed() == input.consumed(),
{
}

/// A repeated key changes nothing.
pub proof fn law_key_repeats_are_ignored(input: InputView, key: InputKey)
    ensures
        input.typed(key, true) == input,
{
}

/// Space pauses and space again resumes: the second press takes the first back.
pub proof fn law_space_toggles_pause_both_ways(input: InputView)
    ensures
        input.typed(InputKey::Space, false).paused == !input.paused,
        input.typed(InputKey::Space, false).typed(InputKey::Space, false) == input,
{
}

/// The middle button turns the influence on while it is held and off when it is released, and the
/// selected mode survives both.
pub proof fn law_the_middle_button_keeps_the_mode(input: InputView)
    ensures
        input.clicked(Button::Middle, true).mode == input.mode,
        input.clicked(Button::Middle, false).mode == input.mode,
        !input.clicked(Button::Middle, false).influences(),
        input.clicked(Button::Middle, true).influences() <==> input.mode != InteractionMode::Off
            && input.cursor is Some,
{
}

/// Influence takes a cursor, a mode and activation: without any one of them there is none.
pub proof fn law_influence_takes_cursor_mode_and_activation(input: InputView)
    ensures
        input.influences() <==> input.active && input.cursor is Some && (input.mode
            == InteractionMode::Attract || input.mode == InteractionMode::Repel),
        input.cursor is None ==> !input.influences(),
        input.mode == InteractionMode::Off ==> !input.influences(),
        !input.active ==> !input.influences(),
        !InputView::initial().influences(),
{
}

/// The first position is no movement; every later one adds one movement, which starts where the cursor
/// was.
pub proof fn law_the_first_position_is_no_movement(input: InputView, to: Point)
    ensures
        input.cursor is None ==> input.moved(to).motions == input.motions,
        input.cursor matches Some(from) ==> input.moved(to).motions == input.motions.push(
            Motion { from, to },
        ),
        input.moved(to).cursor == Some(to),
{
}

/// An event that is not handled changes nothing, and the release of a key is not handled.
pub proof fn law_unhandled_events_change_nothing(input: InputView, event: InputEvent)
    ensures
        !event.is_handled() ==> input.after(event) == input,
        event matches InputEvent::KeyboardInput { pressed, .. } ==> event.is_handled() == pressed,
        event == InputEvent::Other ==> !event.is_handled(),
        event is CursorMoved || event is MouseInput || event is MouseWheel ==> event.is_handled(),
{
}

/// The movements of a frame never lose the pointer: they lead from one to the next and end where the
/// cursor is, at the start, after every event and once they were consumed.
pub proof fn law_movements_stay_chained(input: InputView, event: InputEvent)
    requires
        input.is_chained(),
    ensures
        InputView::initial().is_chained(),
        input.after(event).is_chained(),
        input.consumed().is_chained(),
{
    let after = input.after(event);
    assert forall|i: int, j: int|
        0 <= i < after.motions.len() && j == i + 1 && j < after.motions.len() implies (
    #[trigger] after.motions[i]).to == (#[trigger] after.motions[j]).from by {
        assert(after.motions[i] == input.motions[i]);
        if j < input.motions.len() {
            assert(after.motions[j] == input.motions[j]);
        }
    }
}

/// Each number key selects its own cursor mode: `1` the attractor, `2` the repeller, `0` none. No other key
/// touches the mode or the influence.
pub proof fn law_number_keys_select_their_modes(input: InputView, key: InputKey)
    ensures
        (key matches InputKey::Character(text) && text@ == "1"@) ==> {
            &&& input.typed(key, false).mode == InteractionMode::Attract
            &&& input.typed(key, false).active
        },
        (key matches InputKey::Character(text) && text@ == "2"@) ==> {
            &&& input.typed(key, false).mode == InteractionMode::Repel
            &&& input.typed(key, false).active
        },
        (key matches InputKey::Character(text) && text@ == "0"@) ==> {
            &&& input.typed(key, false).mode == InteractionMode::Off
            &&& !input.typed(key, false).active
        },
        !(key matches InputKey::Character(text) && (text@ == "1"@ || text@ == "2"@ || text@ == "0"@)) ==> {
            &&& input.typed(key, false).mode == input.mode
            &&& input.typed(key, false).active == input.active
        },
{
    lemma_keys();
}

proof fn lemma_keys()
    ensures
        "1"@ != "2"@ && "1"@ != "0"@ && "2"@ != "0"@,
        "r"@ != "1"@ && "r"@ != "2"@ && "r"@ != "0"@,
        "R"@ != "1"@ && "R"@ != "2"@ && "R"@ != "0"@,
{
    reveal_strlit("1");
    reveal_strlit("2");
    reveal_strlit("0");
    reveal_strlit("r");
    reveal_strlit("R");
    assert("1"@[0] == '1' && "2"@[0] == '2' && "0"@[0] == '0');
    assert("r"@[0] == 'r' && "R"@[0] == 'R');
}

/// Each action has its own key: tab switches worlds, escape quits, `r` respawns, space pauses or resumes.
/// A key leaves alone what is not its own, and no key moves the pointer, the wheel or the drag.
pub proof fn law_keys_do_what_they_are_for(input: InputView, key: InputKey)
    ensures
        input.typed(key, false).toggle_world == (input.toggle_world || key is Tab),
        input.typed(key, false).quit == (input.quit || key is Escape),
        input.typed(key, false).reset == (input.reset || (key matches InputKey::Character(text) && (text@
            == "r"@ || text@ == "R"@))),
        input.typed(key, false).paused == (input.paused != (key is Space)),
        input.typed(key, false).cursor == input.cursor,
        input.typed(key, false).motions == input.motions,
        input.typed(key, false).scrolls == input.scrolls,
        input.typed(key, false).drag == input.drag,
{
    lemma_keys();
}

/// Each button starts its own drag when it is pressed and ends it when it is released: the left orbits, the
/// right pans, the middle attracts. Only the middle one touches the influence, and no button touches
/// anything else.
pub proof fn law_buttons_drag(input: InputView, button: Button, pressed: bool)
    ensures
        button == Button::Left && pressed ==> input.clicked(button, pressed).drag == Drag::Orbit,
        button == Button::Right && pressed ==> input.clicked(button, pressed).drag == Drag::Pan,
        button == Button::Middle && pressed ==> input.clicked(button, pressed).drag == Drag::Attract,
        button != Button::Other && !pressed ==> input.clicked(button, pressed).drag == Drag::Idle,
        button == Button::Other ==> input.clicked(button, pressed) == input,
        button == Button::Middle ==> input.clicked(button, pressed).active == pressed,
        button != Button::Middle ==> input.clicked(button, pressed).active == input.active,
        input.clicked(button, pressed) == (InputView {
            drag: input.clicked(button, pressed).drag,
            active: input.clicked(button, pressed).active,
            ..input
        }),
{
}

/// The wheel's movements are kept in order, and the wheel and the pointer change nothing but their own
/// lists and the cursor.
pub proof fn law_movements_are_kept_in_order(input: InputView, delta: Scroll, to: Point)
    ensures
        input.scrolled(delta).scrolls == input.scrolls + seq![delta],
        input.scrolled(delta) == (InputView { scrolls: input.scrolls + seq![delta], ..input }),
        input.moved(to) == (InputView {
            cursor: Some(to),
            motions: input.moved(to).motions,
            ..input
        }),
{
    assert(input.scrolls.push(delta) =~= input.scrolls + seq![delta]);
}

/// Every kind of event goes where it belongs.
pub proof fn law_events_go_where_they_belong(input: InputView, event: InputEvent)
    ensures
        event matches InputEvent::CursorMoved(to) ==> input.after(event).cursor == Some(to),
        event matches InputEvent::MouseWheel(delta) ==> input.after(event).scrolls == input.scrolls + seq![
            delta,
        ],
        event matches InputEvent::MouseInput { button, pressed } ==> input.after(event) == input.clicked(
            button,
            pressed,
        ),
        event matches InputEvent::KeyboardInput { key, pressed, repeat } ==> input.after(event) == (
        if pressed && !repeat {
            input.typed(key, false)
        } else {
            input
        }),
{
    if let InputEvent::MouseWheel(delta) = event {
        law_movements_are_kept_in_order(input, delta, Point { x: 0, y: 0 });
    }
}

/// At the start the cursor attracts, nothing is paused or asked for, and no button is held.
pub proof fn law_input_starts_idle()
    ensures
        InputView::initial().mode == InteractionMode::Attract,
        InputView::initial().active,
        InputView::initial().drag == Drag::Idle,
        InputView::initial().cursor is None,
        !InputView::initial().paused,
        InputView::initial() == InputView::initial().consumed(),
{
}

} // verus!
