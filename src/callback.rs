//! Follow-up actions a user command asks of the collections.
use vstd::prelude::*;

verus! {

/// What a collection does after a user command ran on an image.
#[derive(Clone, Debug, PartialEq, Eq)]
pub enum Callback {
    ReloadAll,
    Reload(Option<String>),
    Pop(Option<String>),
    NoAction,
}

impl Callback {
    /// The same callback, aimed at `path`.
    pub fn from_callback(callback: Callback, path: Option<String>) -> (r: Callback)
        ensures
            r == match callback {
                Callback::ReloadAll => Callback::ReloadAll,
                Callback::Reload(_) => Callback::Reload(path),
                Callback::Pop(_) => Callback::Pop(path),
                Callback::NoAction => Callback::NoAction,
            },
    {
        match callback {
            Callback::ReloadAll => Callback::ReloadAll,
            Callback::Reload(_) => Callback::Reload(path),
            Callback::Pop(_) => Callback::Pop(path),
            Callback::NoAction => Callback::NoAction,
        }
    }

    /// The callback a configuration names; an unknown or empty name asks
    /// for nothing.
    pub fn from_name(name: &str) -> (r: Callback)
        ensures
            r == if name@ == "ReloadAll"@ {
                Callback::ReloadAll
            } else if name@ == "Reload"@ {
                Callback::Reload(None)
            } else if name@ == "Pop"@ {
                Callback::Pop(None)
            } else {
                Callback::NoAction
            },
    {
        if crate::text::str_eq(name, "ReloadAll") {
            Callback::ReloadAll
        } else if crate::text::str_eq(name, "Reload") {
            Callback::Reload(None)
        } else if crate::text::str_eq(name, "Pop") {
            Callback::Pop(None)
        } else {
            Callback::NoAction
        }
    }

    /// The name a configuration gives the callback.
    pub fn name(&self) -> (r: &'static str)
        ensures
            r@ == match *self {
                Callback::NoAction => ""@,
                Callback::ReloadAll => "ReloadAll"@,
                Callback::Pop(_) => "Pop"@,
                Callback::Reload(_) => "Reload"@,
            },
    {
        match self {
            Callback::NoAction => "",
            Callback::ReloadAll => "ReloadAll",
            Callback::Pop(_) => "Pop",
            Callback::Reload(_) => "Reload",
        }
    }
}

} // verus!
