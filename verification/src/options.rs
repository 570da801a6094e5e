use vstd::prelude::*;
use crate::Manager;

verus! {

/// The configuration one run is given: the program template (with its
/// optional `{}` placeholder), the control-channel path, the root
/// directory, the optional ignore pattern for the watch dispatcher, and
/// the selected management mode.
pub struct Options {
    pub sock_path: String,
    pub program: String,
    pub root_dir: String,
    pub watch_ignore: Option<regex::Regex>,
    pub management: Manager,
}

} // verus!
