use vstd::prelude::*;

verus! {

/// A click at an absolute screen coordinate.
#[derive(Debug, Clone, Copy, PartialEq, Eq, Structural)]
pub struct Click {
    pub x: u32,
    pub y: u32,
}

/// A key the automation can press.
#[derive(Debug, Clone, Copy, PartialEq, Eq, Structural)]
pub enum Key {
    Escape,
}

/// A key press action.
#[derive(Debug, Clone, Copy, PartialEq, Eq, Structural)]
pub struct Press {
    pub key: Key,
}

impl Key {
    /// The press action for this key.
    pub fn press(self) -> (r: Press)
        ensures
            r.key == self,
    {
        Press { key: self }
    }
}

/// A pause of the given number of milliseconds.
#[derive(Debug, Clone, Copy, PartialEq, Eq, Structural)]
pub struct WaitAction {
    pub ms: u64,
}

/// Launching an application by package name.
#[derive(Debug, Clone, PartialEq, Eq)]
pub struct LaunchAppAction {
    pub package: String,
}

} // verus!
