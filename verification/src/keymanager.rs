use vstd::prelude::*;

verus! {

/// What happened to a key.
#[derive(Debug, Copy, Clone, PartialEq, Eq, Structural)]
pub enum KeyKind {
    Press,
    Repeat,
    Release,
}

/// The key that is held down, `' '` when none.
pub struct KeyManager {
    key: char,
}

impl View for KeyManager {
    type V = char;

    closed spec fn view(&self) -> char {
        self.key
    }
}

/// The held key after `event` (a character key and what happened to it, or nothing).
pub open spec fn key_after(event: Option<(char, KeyKind)>) -> char {
    match event {
        Some((c, KeyKind::Press)) => c,
        Some((c, KeyKind::Repeat)) => c,
        _ => ' ',
    }
}

impl KeyManager {
    /// No key held.
    pub fn new() -> (r: KeyManager)
        ensures
            r@ == ' ',
    {
        KeyManager { key: ' ' }
    }

    /// Takes the last key event (read by the caller from the terminal) and returns the
    /// key now held: the key of a press or a repeat, `' '` after a release or when
    /// nothing happened.
    pub fn get_key(&mut self, event: Option<(char, KeyKind)>) -> (r: char)
        ensures
            r == key_after(event),
            final(self)@ == r,
    {
        match event {
            Some((c, kind)) => {
                match kind {
                    KeyKind::Press => {
                        self.key = c;
                    },
                    KeyKind::Repeat => {
                        self.key = c;
                    },
                    KeyKind::Release => {
                        self.key = ' ';
                    },
                }
            },
            None => {
                self.key = ' ';
            },
        }
        self.key
    }
}

} // verus!
