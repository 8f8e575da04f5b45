//! The state a keyboard driver keeps: the pressed key and its modifiers.
use vstd::prelude::*;

verus! {

/// The letter keys.
#[derive(Clone, Copy, Debug, PartialEq, Eq, Structural)]
pub enum KeyCode {
    A,
    B,
    C,
    D,
    E,
    F,
    G,
    H,
    I,
    J,
    K,
    L,
    M,
    N,
    O,
    P,
    Q,
    R,
    S,
    T,
    U,
    V,
    W,
    X,
    Y,
    Z,
}

/// Which modifier keys are held.
#[derive(Clone, Copy, Debug, PartialEq, Eq, Structural)]
pub struct Modifiers {
    shift: bool,
    ctrl: bool,
    alt: bool,
}

/// A key with the modifiers held while it was pressed.
#[derive(Clone, Copy, Debug, PartialEq, Eq, Structural)]
pub struct Key {
    active_key_code: KeyCode,
    modifiers: Modifiers,
}

/// The keyboard driver's state: the key last pressed.
#[derive(Clone, Copy, Debug, PartialEq, Eq, Structural)]
pub struct KeyboardDriver {
    pressed_key: Key,
}

} // verus!
