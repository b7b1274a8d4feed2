//! Records of the shared project database.

use vstd::prelude::*;

verus! {

/// A project as the shared database records it.
#[derive(Debug, Clone)]
pub struct Project {
    pub id: i64,
    pub name: String,
    pub repo_url: String,
}

/// Where a project lives on one machine.
#[derive(Debug, Clone)]
pub struct MachineLocation {
    pub id: i64,
    pub project_id: i64,
    pub machine_id: String,
    pub path: String,
    pub run_command: Option<String>,
}

} // verus!
