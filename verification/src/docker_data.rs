//! Messages consumed by the runtime orchestrator, and the decisions it
//! takes when a runtime call finishes: every failure is surfaced as a
//! status flag, never retried, since the next periodic update tick
//! re-attempts the work anyway.

use crate::app_data::container_state::{ContainerId, DockerControls};
use crate::app_data::AppData;
use crate::app_error::AppError;
use crate::ui::gui_state::{GuiState, Status};
use vstd::prelude::*;

verus! {

/// A message for the orchestrator's bounded command queue.
#[derive(Debug)]
pub enum DockerMessage {
    /// Ask the user to confirm deleting the container.
    ConfirmDeleteContainer(ContainerId),
    /// Delete the container.
    DeleteContainer(ContainerId),
    /// Fetch the container's inspect text.
    InfosContainer(ContainerId),
    PauseContainer(ContainerId),
    RestartContainer(ContainerId),
    /// Spawn a shell in the container; handled outside the core.
    ShellContainer(ContainerId),
    StartContainer(ContainerId),
    StopContainer(ContainerId),
    UnpauseContainer(ContainerId),
    /// Drain in-flight work and stop.
    Quit,
    /// Fetch a fresh snapshot and reconcile.
    Update,
}

/// The observable content of a message.
pub enum MsgV {
    ConfirmDeleteContainer(Seq<char>),
    DeleteContainer(Seq<char>),
    InfosContainer(Seq<char>),
    PauseContainer(Seq<char>),
    RestartContainer(Seq<char>),
    ShellContainer(Seq<char>),
    StartContainer(Seq<char>),
    StopContainer(Seq<char>),
    UnpauseContainer(Seq<char>),
    Quit,
    Update,
}

impl View for DockerMessage {
    type V = MsgV;

    open spec fn view(&self) -> MsgV {
        match self {
            DockerMessage::ConfirmDeleteContainer(id) => MsgV::ConfirmDeleteContainer(id@),
            DockerMessage::DeleteContainer(id) => MsgV::DeleteContainer(id@),
            DockerMessage::InfosContainer(id) => MsgV::InfosContainer(id@),
            DockerMessage::PauseContainer(id) => MsgV::PauseContainer(id@),
            DockerMessage::RestartContainer(id) => MsgV::RestartContainer(id@),
            DockerMessage::ShellContainer(id) => MsgV::ShellContainer(id@),
            DockerMessage::StartContainer(id) => MsgV::StartContainer(id@),
            DockerMessage::StopContainer(id) => MsgV::StopContainer(id@),
            DockerMessage::UnpauseContainer(id) => MsgV::UnpauseContainer(id@),
            DockerMessage::Quit => MsgV::Quit,
            DockerMessage::Update => MsgV::Update,
        }
    }
}

/// The control a message exercises, for error reporting; fetch and
/// housekeeping messages exercise none.
pub open spec fn spec_message_control(m: MsgV) -> Option<DockerControls> {
    match m {
        MsgV::ConfirmDeleteContainer(_) => None,
        MsgV::DeleteContainer(_) => Some(DockerControls::Delete),
        MsgV::PauseContainer(_) => Some(DockerControls::Pause),
        MsgV::RestartContainer(_) => Some(DockerControls::Restart),
        MsgV::StartContainer(_) => Some(DockerControls::Start),
        MsgV::StopContainer(_) => Some(DockerControls::Stop),
        MsgV::UnpauseContainer(_) => Some(DockerControls::Unpause),
        MsgV::InfosContainer(_) => None,
        MsgV::ShellContainer(_) => None,
        MsgV::Quit => None,
        MsgV::Update => None,
    }
}

/// The control a message exercises, for error reporting.
pub fn message_control(m: &DockerMessage) -> (r: Option<DockerControls>)
    ensures
        r == spec_message_control(m@),
{
    match m {
        DockerMessage::DeleteContainer(_) => Some(DockerControls::Delete),
        DockerMessage::PauseContainer(_) => Some(DockerControls::Pause),
        DockerMessage::RestartContainer(_) => Some(DockerControls::Restart),
        DockerMessage::StartContainer(_) => Some(DockerControls::Start),
        DockerMessage::StopContainer(_) => Some(DockerControls::Stop),
        DockerMessage::UnpauseContainer(_) => Some(DockerControls::Unpause),
        _ => None,
    }
}

/// Record the outcome of a runtime command: success is silent, failure
/// surfaces the error and raises the error flag for the user to
/// dismiss.
pub fn handle_command_result(
    app: &mut AppData,
    gui: &mut GuiState,
    control: DockerControls,
    ok: bool,
)
    ensures
        ok ==> *final(app) == *old(app) && *final(gui) == *old(gui),
        !ok ==> {
            &&& final(app).error == Some(AppError::DockerCommand(control))
            &&& final(app).container_data == old(app).container_data
            &&& final(app).args == old(app).args
            &&& *final(gui) == (GuiState { status: final(gui).status, ..*old(gui) })
            &&& final(gui).status@ == if crate::ui::gui_state::spec_has_status(
                old(gui).status@,
                Status::Error,
            ) {
                old(gui).status@
            } else {
                old(gui).status@.push(Status::Error)
            }
        },
{
    if !ok {
        app.set_error(AppError::DockerCommand(control));
        gui.status_push(Status::Error);
    }
}

/// Record a failed startup connection to the runtime: fatal, so the
/// connect flag replaces the whole interface with a countdown.
pub fn handle_connect_failure(app: &mut AppData, gui: &mut GuiState)
    ensures
        final(app).error == Some(AppError::DockerConnect),
        final(app).container_data == old(app).container_data,
        final(app).args == old(app).args,
        *final(gui) == (GuiState { status: final(gui).status, ..*old(gui) }),
        final(gui).status@ == if crate::ui::gui_state::spec_has_status(
            old(gui).status@,
            Status::DockerConnect,
        ) {
            old(gui).status@
        } else {
            old(gui).status@.push(Status::DockerConnect)
        },
{
    app.set_error(AppError::DockerConnect);
    gui.status_push(Status::DockerConnect);
}

} // verus!
