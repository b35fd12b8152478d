use vstd::prelude::*;

verus! {

/// A key of the keyboard, as far as the screens tell keys apart.
#[derive(Clone, Copy, Debug, PartialEq, Eq, Structural)]
pub enum Key {
    Char(char),
    Up,
    Down,
    Left,
    Right,
    Enter,
    Esc,
    Other,
}

/// Whether a key went down, repeats or went up.
#[derive(Clone, Copy, Debug, PartialEq, Eq, Structural)]
pub enum KeyKind {
    Press,
    Repeat,
    Release,
}

/// One keyboard event.
#[derive(Clone, Copy, Debug, PartialEq, Eq, Structural)]
pub struct KeyEvent {
    pub key: Key,
    pub kind: KeyKind,
}

/// The key of `ev` when `ev` is a key press.
pub open spec fn pressed(ev: KeyEvent) -> Option<Key> {
    if ev.kind == KeyKind::Press { Some(ev.key) } else { None }
}

/// The key of an event when it is a key press, `None` otherwise.
pub fn pressed_key(ev: KeyEvent) -> (res: Option<Key>)
    ensures
        res == pressed(ev),
{
    match ev.kind {
        KeyKind::Press => Some(ev.key),
        _ => None,
    }
}

} // verus!
