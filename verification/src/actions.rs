use vstd::prelude::*;

verus! {

/// An action failed; the message says why.
#[derive(Debug, Clone, PartialEq, Eq)]
pub struct ActionError {
    pub message: String,
}

/// An action for clicking a specific coordinate on the screen.
#[derive(Debug, Clone, Copy, PartialEq, Eq, Structural)]
pub struct Click {
    x: u32,
    y: u32,
}

impl Click {
    pub closed spec fn spec_pos(&self) -> (u32, u32) {
        (self.x, self.y)
    }

    pub fn new(x: u32, y: u32) -> (r: Self)
        ensures
            r.spec_pos() == (x, y),
    {
        Click { x, y }
    }
}

/// An action that matches a named template on the screen and clicks it.
#[derive(Debug, Clone, PartialEq, Eq)]
pub struct ClickMatchTemplate {
    template: String,
}

impl ClickMatchTemplate {
    pub closed spec fn spec_template(&self) -> Seq<char> {
        self.template@
    }

    pub fn new(template: &str) -> (r: Self)
        ensures
            r.spec_template() == template@,
    {
        ClickMatchTemplate { template: template.to_owned() }
    }
}

/// A key the press action can send.
#[derive(Debug, Clone, Copy, PartialEq, Eq, Structural)]
pub enum Key {
    Esc,
    Home,
}

/// A key press action.
#[derive(Debug, Clone, Copy, PartialEq, Eq, Structural)]
pub struct Press {
    key: Key,
}

impl Press {
    pub closed spec fn spec_key(&self) -> Key {
        self.key
    }

    pub fn esc() -> (r: Self)
        ensures
            r.spec_key() == Key::Esc,
    {
        Press { key: Key::Esc }
    }

    pub fn home() -> (r: Self)
        ensures
            r.spec_key() == Key::Home,
    {
        Press { key: Key::Home }
    }
}

/// A [`Runnable`] can be executed with a reference to its executor and
/// yields a value of its output type.
pub trait Runnable<T> {
    type Output;

    fn execute(&self, executor: &T) -> Result<Self::Output, ActionError>;
}

/// The executor of an action type: implementing this trait registers a
/// specific [`Runnable`] as the supported action.
pub trait ActionExecutor: Sized {
    type Action: Runnable<Self, Output = ()>;

    fn exec_action(&self, action: Self::Action) -> Result<(), ActionError> {
        action.execute(self)
    }
}

} // verus!
