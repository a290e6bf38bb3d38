//! Which project is the active one.

use vstd::prelude::*;

verus! {

/// The tool's own settings: the name of the active project, if any.
#[derive(Debug)]
pub struct Config {
    pub active_project: Option<String>,
}

impl Config {
    /// The settings before anything was saved: no active project.
    pub fn new() -> (c: Config)
        ensures
            c.active_project is None,
    {
        Config { active_project: None }
    }

    /// Makes `project_name` the active project.
    pub fn activate(&mut self, project_name: &str)
        ensures
            final(self).active_project is Some,
            final(self).active_project->Some_0@ == project_name@,
    {
        self.active_project = Some(project_name.to_owned());
    }

    /// Leaves no project active; whether one was.
    pub fn deactivate(&mut self) -> (was_active: bool)
        ensures
            final(self).active_project is None,
            was_active == old(self).active_project is Some,
    {
        let was_active = self.active_project.is_some();
        self.active_project = None;
        was_active
    }
}

} // verus!
