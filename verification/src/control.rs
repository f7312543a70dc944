//! What a key press asks of the counter.

use vstd::prelude::*;

verus! {

/// A pressed key, as far as the counter tells keys apart.
#[derive(Debug, Clone, Copy, PartialEq, Eq, Structural)]
pub enum Key {
    /// A character key.
    Char(char),
    /// The escape key.
    Esc,
    /// Any other key.
    Other,
}

/// What the driver is to do on a key press.
#[derive(Debug, Clone, Copy, PartialEq, Eq, Structural)]
pub enum Command {
    /// Leave the loop.
    Quit,
    /// Add one to the counter.
    Increment,
    /// Nothing: the key has no meaning.
    Ignore,
}

/// The command bound to each key: `q` and escape quit, `b` adds one to the
/// counter, and every other key is ignored.
pub open spec fn command_of(key: Key) -> Command {
    match key {
        Key::Esc => Command::Quit,
        Key::Char(c) => if c == 'q' {
            Command::Quit
        } else if c == 'b' {
            Command::Increment
        } else {
            Command::Ignore
        },
        Key::Other => Command::Ignore,
    }
}

/// The command that a press of `key` gives.
pub fn handle_key_event(key: Key) -> (command: Command)
    ensures
        command == command_of(key),
{
    match key {
        Key::Char('q') | Key::Esc => Command::Quit,
        Key::Char('b') => Command::Increment,
        _ => Command::Ignore,
    }
}

} // verus!
