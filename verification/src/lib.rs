use vstd::prelude::*;

pub mod options;
pub mod pattern;
pub mod socket;
pub mod subprocesses;
pub mod text;
pub mod watch;

use crate::text::str_eq;

verus! {

/// Which dispatch backend drives restarts for a run: filesystem watching,
/// a control socket, or passive waiting until every child exits.
pub enum Manager {
    Watch,
    Socket,
    Passive,
}

/// The management mode each `--type` string selects: `watch`, `socket` (or
/// `sock`), and `none` for the passive supervisor; anything else selects
/// nothing.
pub open spec fn mode_spec(s: Seq<char>) -> Option<Manager> {
    if s == "watch"@ {
        Some(Manager::Watch)
    } else if s == "socket"@ || s == "sock"@ {
        Some(Manager::Socket)
    } else if s == "none"@ {
        Some(Manager::Passive)
    } else {
        None
    }
}

impl Manager {
    /// The management mode a `--type` string selects, if any.
    pub fn from_mode(s: &str) -> (r: Option<Manager>)
        ensures
            r == mode_spec(s@),
    {
        if str_eq(s, "watch") {
            Some(Manager::Watch)
        } else if str_eq(s, "socket") || str_eq(s, "sock") {
            Some(Manager::Socket)
        } else if str_eq(s, "none") {
            Some(Manager::Passive)
        } else {
            None
        }
    }
}

} // verus!
