//! Application errors surfaced in the shared status: fatal startup
//! failures and recoverable runtime-command failures.

use crate::app_data::container_state::{spec_control_display, DockerControls};
use vstd::prelude::*;

verus! {

/// Errors stored in the shared application state.
#[derive(Debug, Clone, Copy, PartialEq, Eq, Structural)]
pub enum AppError {
    /// A runtime command against a container failed.
    DockerCommand(DockerControls),
    /// The runtime daemon could not be reached at startup; fatal.
    DockerConnect,
    /// The poll interval was configured as zero; fatal.
    DockerInterval,
    /// Reading user input failed; recoverable.
    InputPoll,
    /// Enabling or disabling mouse capture failed; recoverable.
    MouseCapture(bool),
    /// Drawing to the terminal failed; fatal to the render loop.
    Terminal,
}

/// The banner text shown for each error.
pub open spec fn spec_app_error_message(e: AppError) -> Seq<char> {
    match e {
        AppError::DockerCommand(c) => "Unable to "@.add(spec_control_display(c)).add(
            " container"@,
        ),
        AppError::DockerConnect => "Unable to access docker daemon"@,
        AppError::DockerInterval => "Docker update interval needs to be greater than 0"@,
        AppError::InputPoll => "Unable to poll user input"@,
        AppError::MouseCapture(x) => if x {
            "Unable to enable mouse capture"@
        } else {
            "Unable to disable mouse capture"@
        },
        AppError::Terminal => "Unable to draw to terminal"@,
    }
}

impl AppError {
    /// The banner text shown for this error.
    pub fn message(&self) -> (r: String)
        ensures
            r@ == spec_app_error_message(*self),
    {
        match self {
            AppError::DockerCommand(c) => {
                let mut out = String::from_str("Unable to ");
                let verb = c.display();
                out.append(verb.as_str());
                out.append(" container");
                out
            },
            AppError::DockerConnect => String::from_str("Unable to access docker daemon"),
            AppError::DockerInterval => String::from_str(
                "Docker update interval needs to be greater than 0",
            ),
            AppError::InputPoll => String::from_str("Unable to poll user input"),
            AppError::MouseCapture(x) => if *x {
                String::from_str("Unable to enable mouse capture")
            } else {
                String::from_str("Unable to disable mouse capture")
            },
            AppError::Terminal => String::from_str("Unable to draw to terminal"),
        }
    }
}

} // verus!
