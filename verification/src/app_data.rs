//! Shared application state: the container registry with its sort engine,
//! the per-item data model, and the top-level aggregate with its error slot.

use vstd::prelude::*;

pub mod container_data;
pub mod container_state;

verus! {

/// The root of the shared application state: the container registry, the
/// single surfaced error, and the configuration; protected by one lock
/// and passed by handle to every activity.
#[derive(Debug)]
pub struct AppData {
    pub container_data: container_data::ContainerData,
    pub error: Option<crate::app_error::AppError>,
    pub args: CliArgs,
}

impl AppData {
    /// Well-formedness of the whole aggregate.
    pub open spec fn wf(&self) -> bool {
        self.container_data.wf()
    }

    /// A fresh application state: an empty registry and no error.
    pub fn default(args: CliArgs) -> (r: Self)
        ensures
            r.container_data@.items == Seq::<crate::app_data::container_state::ItemV>::empty(),
            r.container_data@.sel is None,
            r.container_data@.sorted is None,
            r.error is None,
            r.args == args,
            r.wf(),
    {
        AppData { args, container_data: container_data::ContainerData::new(args), error: None }
    }

    /// The surfaced error, if any.
    pub fn get_error(&self) -> (r: Option<crate::app_error::AppError>)
        ensures
            r == self.error,
    {
        self.error
    }

    /// Clear the surfaced error.
    pub fn remove_error(&mut self)
        ensures
            final(self).error is None,
            final(self).container_data == old(self).container_data,
            final(self).args == old(self).args,
    {
        self.error = None;
    }

    /// Surface an error; a later one replaces an earlier one.
    pub fn set_error(&mut self, error: crate::app_error::AppError)
        ensures
            final(self).error == Some(error),
            final(self).container_data == old(self).container_data,
            final(self).args == old(self).args,
    {
        self.error = Some(error);
    }
}

/// Configuration consumed by the core, owned by the command-line parsing
/// collaborator outside the library: how log lines are displayed and how
/// often the runtime is polled.
#[derive(Debug, Clone, Copy)]
pub struct CliArgs {
    /// Interpret ANSI colour codes in log lines instead of stripping them.
    pub color: bool,
    /// Show log lines exactly as received.
    pub raw: bool,
    /// Keep the leading timestamp on displayed log lines.
    pub timestamp: bool,
    /// Poll interval in milliseconds; must be greater than zero.
    pub docker_interval: u32,
    /// Run the full-screen interface rather than the headless loop.
    pub gui: bool,
}

} // verus!
