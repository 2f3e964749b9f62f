//! The per-project CLI state file (`.nuvix/state.json`).
use vstd::prelude::*;

use crate::paths::{path_join, spec_path_join};

verus! {

/// The directory of the state file inside a project.
pub const STATE_DIR: &'static str = ".nuvix";

/// The state file's name.
pub const STATE_FILE: &'static str = "state.json";

/// What the CLI remembers about a project between runs.
pub struct CliState {
    pub local_running: bool,
}

impl Default for CliState {
    fn default() -> (s: Self)
        ensures
            !s.local_running,
    {
        CliState { local_running: false }
    }
}

/// Where the state file of a project lives.
pub fn state_path(project_dir: &str) -> (r: String)
    ensures
        r@ == spec_path_join(spec_path_join(project_dir@, ".nuvix"@), "state.json"@),
{
    let dir = path_join(project_dir, STATE_DIR);
    path_join(dir.as_str(), STATE_FILE)
}

} // verus!
