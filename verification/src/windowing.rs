//! The input events a native window reports.

use vstd::prelude::*;

verus! {

/// The keys a native window reports; every other key is `not_mapped`.
#[allow(non_camel_case_types)]
#[derive(Clone, Copy, Debug, PartialEq, Eq, Structural)]
pub enum Key {
    key_w,
    key_a,
    key_s,
    key_d,
    not_mapped,
}

/// One poll of a native window: what happened, or that nothing did.
#[derive(Clone, Copy, Debug, PartialEq, Eq, Structural)]
pub enum InputEvent {
    Quit,
    MouseMotion { x_rel: i32, y_rel: i32 },
    KeyEvent { key: Key, down: bool },
    NotImplemented,
    NoEvent,
}

} // verus!
