use vstd::prelude::*;

use crate::player::{select_clip_index, step_clip_index};

verus! {

/// A key the player reacts to. `Digit(n)` is the number key `n`.
#[derive(Debug, Clone, Copy, PartialEq, Eq, Structural)]
pub enum Key {
    Escape,
    Space,
    ArrowRight,
    BracketRight,
    ArrowLeft,
    BracketLeft,
    ArrowUp,
    ArrowDown,
    KeyR,
    Period,
    Comma,
    Digit(u8),
    Other,
}

/// What a key press asks of the player.
#[derive(Debug, Clone, Copy, PartialEq, Eq, Structural)]
pub enum Command {
    Quit,
    TogglePlay,
    /// Move through the clip list by this many clips, wrapping.
    StepClip(isize),
    /// Change the playback speed by this many tenths.
    ChangeSpeed(i8),
    /// Back to the start of the clip.
    Restart,
    /// Pause and move this many frames.
    StepFrame(i8),
    /// Jump to this clip (wrapping around the clip list).
    SelectClip(usize),
}

/// The key bindings: escape quits, space plays / pauses, left / right (or
/// `[` / `]`) step through the clips, up / down change the speed by a tenth,
/// `r` restarts, `,` / `.` step one frame back / forward, and `1`–`9` jump
/// to the first nine clips.
pub open spec fn spec_command_for_key(key: Key) -> Option<Command> {
    match key {
        Key::Escape => Some(Command::Quit),
        Key::Space => Some(Command::TogglePlay),
        Key::ArrowRight | Key::BracketRight => Some(Command::StepClip(1isize)),
        Key::ArrowLeft | Key::BracketLeft => Some(Command::StepClip(-1isize)),
        Key::ArrowUp => Some(Command::ChangeSpeed(1i8)),
        Key::ArrowDown => Some(Command::ChangeSpeed(-1i8)),
        Key::KeyR => Some(Command::Restart),
        Key::Period => Some(Command::StepFrame(1i8)),
        Key::Comma => Some(Command::StepFrame(-1i8)),
        Key::Digit(n) => if 1 <= n <= 9 {
            Some(Command::SelectClip((n - 1) as usize))
        } else {
            None
        },
        Key::Other => None,
    }
}

/// The command a pressed key gives, if any.
pub fn command_for_key(key: Key) -> (r: Option<Command>)
    ensures
        r == spec_command_for_key(key),
{
    match key {
        Key::Escape => Some(Command::Quit),
        Key::Space => Some(Command::TogglePlay),
        Key::ArrowRight | Key::BracketRight => Some(Command::StepClip(1)),
        Key::ArrowLeft | Key::BracketLeft => Some(Command::StepClip(-1)),
        Key::ArrowUp => Some(Command::ChangeSpeed(1)),
        Key::ArrowDown => Some(Command::ChangeSpeed(-1)),
        Key::KeyR => Some(Command::Restart),
        Key::Period => Some(Command::StepFrame(1)),
        Key::Comma => Some(Command::StepFrame(-1)),
        Key::Digit(n) => if 1 <= n && n <= 9 {
            Some(Command::SelectClip((n - 1) as usize))
        } else {
            None
        },
        Key::Other => None,
    }
}

/// Which clip is playing, and whether time runs.
#[derive(Debug, Clone, Copy, PartialEq, Eq, Structural)]
pub struct Playback {
    pub clip_index: usize,
    pub playing: bool,
}

/// What the caller does with the clock after a command.
#[derive(Debug, Clone, Copy, PartialEq, Eq, Structural)]
pub enum Effect {
    /// Nothing beyond the new state.
    Nothing,
    /// Close the player.
    Quit,
    /// Set the clip time back to zero.
    ResetTime,
    /// Add this many tenths to the playback speed (the caller clamps it).
    ChangeSpeed(i8),
    /// Move the clip time by this many frames (the caller wraps it).
    StepFrame(i8),
}

/// The next state and effect of `command`, with `clip_count` clips loaded.
pub open spec fn spec_apply(state: Playback, command: Command, clip_count: usize) -> (Playback, Effect) {
    match command {
        Command::Quit => (state, Effect::Quit),
        Command::TogglePlay => (Playback { playing: !state.playing, ..state }, Effect::Nothing),
        Command::StepClip(delta) => if clip_count == 0 {
            (state, Effect::Nothing)
        } else {
            (
                Playback {
                    clip_index: ((state.clip_index as int + delta as int) % clip_count as int) as usize,
                    ..state
                },
                Effect::ResetTime,
            )
        },
        Command::SelectClip(index) => if clip_count == 0 {
            (state, Effect::Nothing)
        } else {
            (Playback { clip_index: (index % clip_count) as usize, ..state }, Effect::ResetTime)
        },
        Command::ChangeSpeed(tenths) => (state, Effect::ChangeSpeed(tenths)),
        Command::Restart => (state, Effect::ResetTime),
        Command::StepFrame(frames) => (Playback { playing: false, ..state }, Effect::StepFrame(frames)),
    }
}

impl Playback {
    /// Starts playing clip `clip_index`.
    pub fn new(clip_index: usize) -> (r: Self)
        ensures
            r == (Playback { clip_index, playing: true }),
    {
        Playback { clip_index, playing: true }
    }

    /// Carries out a command: selecting or stepping to a clip (which starts
    /// it from zero, and does nothing when no clip is loaded), pausing,
    /// restarting, stepping frames (which pauses), changing speed or
    /// quitting.
    pub fn apply(self, command: Command, clip_count: usize) -> (r: (Playback, Effect))
        ensures
            r == spec_apply(self, command, clip_count),
    {
        match command {
            Command::Quit => (self, Effect::Quit),
            Command::TogglePlay => (Playback { clip_index: self.clip_index, playing: !self.playing }, Effect::Nothing),
            Command::StepClip(delta) => match step_clip_index(self.clip_index, delta, clip_count) {
                Some(i) => (Playback { clip_index: i, playing: self.playing }, Effect::ResetTime),
                None => (self, Effect::Nothing),
            },
            Command::SelectClip(index) => match select_clip_index(index, clip_count) {
                Some(i) => (Playback { clip_index: i, playing: self.playing }, Effect::ResetTime),
                None => (self, Effect::Nothing),
            },
            Command::ChangeSpeed(tenths) => (self, Effect::ChangeSpeed(tenths)),
            Command::Restart => (self, Effect::ResetTime),
            Command::StepFrame(frames) => (Playback { clip_index: self.clip_index, playing: false }, Effect::StepFrame(frames)),
        }
    }
}

/// A mouse button.
#[derive(Debug, Clone, Copy, PartialEq, Eq, Structural)]
pub enum Button {
    Left,
    Right,
    Other,
}

/// How a cursor move drives the camera.
#[derive(Debug, Clone, Copy, PartialEq, Eq, Structural)]
pub enum CameraDrag {
    Orbit,
    Pan,
    Still,
}

/// The mouse-drag state: the left button orbits, the right button pans.
#[derive(Debug, Clone, Copy, PartialEq, Eq, Structural)]
pub struct Pointer {
    pub dragging: bool,
    pub panning: bool,
}

/// The pointer after a button goes down (`pressed`) or up: the left button
/// drives orbiting, the right one panning, and either cancels the other.
pub open spec fn spec_button(p: Pointer, button: Button, pressed: bool) -> Pointer {
    match button {
        Button::Left => Pointer { dragging: pressed, panning: false },
        Button::Right => Pointer { dragging: false, panning: pressed },
        Button::Other => p,
    }
}

impl Pointer {
    /// Neither button held.
    pub fn new() -> (r: Self)
        ensures
            r == (Pointer { dragging: false, panning: false }),
    {
        Pointer { dragging: false, panning: false }
    }

    /// A button went down (`pressed`) or up. Pressing or releasing one of
    /// the two buttons cancels the other's drag. The second result is
    /// whether the remembered cursor position must be forgotten, which is
    /// so on every release.
    pub fn button(self, button: Button, pressed: bool) -> (r: (Pointer, bool))
        ensures
            r.0 == spec_button(self, button, pressed),
            r.1 == !pressed,
    {
        let next = match button {
            Button::Left => Pointer { dragging: pressed, panning: false },
            Button::Right => Pointer { dragging: false, panning: pressed },
            Button::Other => self,
        };
        (next, !pressed)
    }

    /// What a cursor move does to the camera: orbit while dragging, else
    /// pan while panning.
    pub fn drag(self) -> (r: CameraDrag)
        ensures
            r == (if self.dragging {
                CameraDrag::Orbit
            } else if self.panning {
                CameraDrag::Pan
            } else {
                CameraDrag::Still
            }),
    {
        if self.dragging {
            CameraDrag::Orbit
        } else if self.panning {
            CameraDrag::Pan
        } else {
            CameraDrag::Still
        }
    }
}

/// The left button and the right button never drag at once, whatever
/// sequence of button events arrives.
pub proof fn lemma_one_drag_at_a_time(p: Pointer, button: Button, pressed: bool)
    requires
        !(p.dragging && p.panning),
    ensures
        !(spec_button(p, button, pressed).dragging && spec_button(p, button, pressed).panning),
{
}

/// A playing clip always stays within the clip list: every command keeps
/// the clip index below the clip count.
pub proof fn lemma_clip_stays_in_range(state: Playback, command: Command, clip_count: usize)
    requires
        state.clip_index < clip_count,
    ensures
        spec_apply(state, command, clip_count).0.clip_index < clip_count,
{
}

} // verus!
