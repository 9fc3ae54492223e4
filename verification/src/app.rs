use vstd::prelude::*;

verus! {

/// A key of the keyboard, as far as the game tells keys apart.
#[derive(Debug, Clone, Copy, PartialEq, Eq, Structural)]
pub enum Key {
    Left,
    Right,
    Up,
    Down,
    Char(char),
    Other,
}

/// An input event from the terminal, as far as the game tells them apart.
#[derive(Debug, Clone, Copy, PartialEq, Eq)]
pub enum Event {
    /// A key went down (`pressed`) or up; `control_only` when Control was the
    /// only modifier held.
    Key { pressed: bool, control_only: bool, key: Key },
    /// The terminal changed its size.
    Resize,
    /// Anything else.
    Other,
}

/// The state of the running program: whether it should stop, and the data
/// of whatever runs in it.
pub struct App<T> {
    should_exit: bool,
    pub data: T,
}

impl<T> App<T> {
    /// Whether the program stops after the current frame.
    pub closed spec fn exiting(&self) -> bool {
        self.should_exit
    }

    /// The data of whatever runs in the program.
    pub closed spec fn content(&self) -> T {
        self.data
    }

    /// A running program with this data.
    pub fn new(data: T) -> (r: App<T>)
        ensures
            !r.exiting(),
            r.content() == data,
    {
        App::<T> { should_exit: false, data: data }
    }

    /// Asks the program to stop after the current frame.
    pub fn exit(&mut self)
        ensures
            final(self).exiting(),
            final(self).content() == old(self).content(),
    {
        self.should_exit = true;
    }

    /// Whether the program stops after the current frame.
    pub fn should_exit(&self) -> (r: bool)
        ensures
            r == self.exiting(),
    {
        self.should_exit
    }

    /// Handles the quitting keys of an event: Control and `c` or `q`,
    /// pressed, ask the program to stop. Returns whether they did.
    pub fn note_event(&mut self, event: Event) -> (r: bool)
        ensures
            r == is_quit_event(event),
            final(self).exiting() == (old(self).exiting() || r),
            final(self).content() == old(self).content(),
    {
        let quit = quit_requested(event);
        if quit {
            self.exit();
        }
        quit
    }
}

/// Whether the event is a press of Control and `c` or `q`, with no other
/// modifier.
pub open spec fn is_quit_event(event: Event) -> bool {
    match event {
        Event::Key { pressed, control_only, key } => pressed && control_only && (key == Key::Char('c')
            || key == Key::Char('q')),
        _ => false,
    }
}

/// Whether the event asks the program to stop; see `is_quit_event`.
pub fn quit_requested(event: Event) -> (r: bool)
    ensures
        r == is_quit_event(event),
{
    match event {
        Event::Key { pressed, control_only, key } => {
            pressed && control_only && (key == Key::Char('c') || key == Key::Char('q'))
        },
        _ => false,
    }
}

/// The length of one frame in nanoseconds at the given number of frames per
/// second.
pub fn frame_delay_nanos(updates_per_second: u64) -> (r: u64)
    requires
        updates_per_second > 0,
    ensures
        r == 1_000_000_000u64 / updates_per_second,
{
    1_000_000_000u64 / updates_per_second
}

/// How long to wait at the end of a frame that took `elapsed` nanoseconds
/// so that it lasts `frame_delay`: the rest of the frame, or nothing when the
/// frame took that long already.
pub fn frame_rest_nanos(elapsed: u64, frame_delay: u64) -> (r: Option<u64>)
    ensures
        elapsed < frame_delay ==> r == Some((frame_delay - elapsed) as u64),
        elapsed >= frame_delay ==> r is None,
{
    if elapsed < frame_delay {
        Some(frame_delay - elapsed)
    } else {
        None
    }
}

} // verus!
