//! Settings of this machine.

use vstd::prelude::*;

verus! {

/// Settings that belong to one machine.
#[derive(Debug, Clone)]
pub struct MachineConfig {
    /// Default directory for cloning new projects.
    pub install_dir: Option<String>,
}

impl Default for MachineConfig {
    fn default() -> (r: MachineConfig)
        ensures
            r.install_dir is None,
    {
        MachineConfig { install_dir: None }
    }
}

impl MachineConfig {
    /// Sets (or clears) the directory new projects are cloned into; the
    /// caller saves the configuration afterwards.
    pub fn set_install_dir(&mut self, dir: Option<String>)
        ensures
            final(self).install_dir == dir,
    {
        self.install_dir = dir;
    }
}

} // verus!
