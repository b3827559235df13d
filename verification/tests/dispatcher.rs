//! Input dispatch: modal precedence, quit handling, action tables and
//! orchestrator result handling.

use oxker::app_data::container_data::{ContainerSummary, Header, SortedOrder};
use oxker::app_data::container_state::{ContainerId, DockerControls};
use oxker::app_data::{AppData, CliArgs};
use oxker::app_error::AppError;
use oxker::docker_data::{handle_command_result, message_control, DockerMessage};
use oxker::input_handler::{
    button_intersect, button_press, mouse_press, KeyCode, MouseEvent, MouseKind,
};
use oxker::ui::gui_state::{DeleteButton, GuiState, Rect, Region, Status};
use oxker::ui::nav::NavPanel;

fn args() -> CliArgs {
    CliArgs { color: false, raw: false, timestamp: true, docker_interval: 1000, gui: true }
}

fn summary(id: &str, name: &str, state: &str, created: i64) -> ContainerSummary {
    ContainerSummary {
        id: Some(id.to_string()),
        names: Some(vec![format!("/{name}")]),
        image: Some("img".to_string()),
        state: Some(state.to_string()),
        status: Some("Up".to_string()),
        created: Some(created),
        command: None,
    }
}

fn app_with(entries: Vec<ContainerSummary>) -> AppData {
    let mut app = AppData::default(args());
    app.container_data.update_containers(entries);
    app
}

#[test]
fn quit_key_sends_quit_message() {
    let mut app = app_with(vec![]);
    let mut gui = GuiState::new();
    let (msgs, force) = button_press(&mut app, &mut gui, KeyCode::Char('q'), false);
    assert!(!force);
    assert_eq!(msgs.len(), 1);
    assert!(matches!(msgs[0], DockerMessage::Quit));
}

#[test]
fn quit_with_error_flag_stops_at_once() {
    let mut app = app_with(vec![]);
    let mut gui = GuiState::new();
    gui.status_push(Status::Error);
    let (msgs, force) = button_press(&mut app, &mut gui, KeyCode::Char('c'), true);
    assert!(force);
    assert!(msgs.is_empty());
}

#[test]
fn error_banner_takes_only_its_dismiss_key() {
    let mut app = app_with(vec![summary("a", "alpha", "running", 1)]);
    let mut gui = GuiState::new();
    app.set_error(AppError::Terminal);
    gui.status_push(Status::Error);
    let (msgs, _) = button_press(&mut app, &mut gui, KeyCode::Char('l'), false);
    assert!(msgs.is_empty());
    assert!(gui.status_contains(&[Status::Error]));
    assert!(app.get_error().is_some());
    let (_, _) = button_press(&mut app, &mut gui, KeyCode::Char('c'), false);
    assert!(!gui.status_contains(&[Status::Error]));
    assert!(app.get_error().is_none());
}

#[test]
fn help_opens_and_dismisses() {
    let mut app = app_with(vec![]);
    let mut gui = GuiState::new();
    button_press(&mut app, &mut gui, KeyCode::Char('h'), false);
    assert!(gui.status_contains(&[Status::Help]));
    let (msgs, _) = button_press(&mut app, &mut gui, KeyCode::Char('x'), false);
    assert!(msgs.is_empty());
    assert!(gui.status_contains(&[Status::Help]));
    button_press(&mut app, &mut gui, KeyCode::Esc, false);
    assert!(!gui.status_contains(&[Status::Help]));
}

#[test]
fn delete_confirm_takes_only_yes_or_no() {
    let mut app = app_with(vec![summary("c9", "nine", "running", 1)]);
    let mut gui = GuiState::new();
    gui.set_delete_container(Some(ContainerId::new("c9".to_string())));
    let (msgs, _) = button_press(&mut app, &mut gui, KeyCode::Char('l'), false);
    assert!(msgs.is_empty());
    let (msgs, _) = button_press(&mut app, &mut gui, KeyCode::Char('y'), false);
    assert_eq!(msgs.len(), 1);
    match &msgs[0] {
        DockerMessage::DeleteContainer(id) => assert_eq!(id.get(), "c9"),
        other => panic!("unexpected message {other:?}"),
    }
    gui.set_delete_container(Some(ContainerId::new("c9".to_string())));
    let (msgs, _) = button_press(&mut app, &mut gui, KeyCode::Char('n'), false);
    assert!(msgs.is_empty());
    assert!(gui.get_delete_container().is_none());
    assert!(!gui.status_contains(&[Status::DeleteConfirm]));
}

#[test]
fn running_container_actions_navigate_and_command() {
    let mut app = app_with(vec![summary("r1", "runner", "running", 1)]);
    let mut gui = GuiState::new();
    let (msgs, _) = button_press(&mut app, &mut gui, KeyCode::Char('l'), false);
    assert!(msgs.is_empty());
    assert_eq!(gui.get_current_nav(), NavPanel::Logs);
    button_press(&mut app, &mut gui, KeyCode::Esc, false);
    assert_eq!(gui.get_current_nav(), NavPanel::Containers);
    let (msgs, _) = button_press(&mut app, &mut gui, KeyCode::Char('x'), false);
    assert_eq!(msgs.len(), 1);
    assert!(matches!(&msgs[0], DockerMessage::StopContainer(id) if id.get() == "r1"));
    let (msgs, _) = button_press(&mut app, &mut gui, KeyCode::Char('X'), false);
    assert!(matches!(&msgs[0], DockerMessage::ConfirmDeleteContainer(id) if id.get() == "r1"));
    let (msgs, _) = button_press(&mut app, &mut gui, KeyCode::Char('i'), false);
    assert!(matches!(&msgs[0], DockerMessage::InfosContainer(id) if id.get() == "r1"));
    assert_eq!(gui.get_current_nav(), NavPanel::Info);
}

#[test]
fn exited_container_offers_run_instead_of_stop() {
    let mut app = app_with(vec![summary("e1", "gone", "exited", 1)]);
    let mut gui = GuiState::new();
    let (msgs, _) = button_press(&mut app, &mut gui, KeyCode::Char('r'), false);
    assert!(matches!(&msgs[0], DockerMessage::StartContainer(id) if id.get() == "e1"));
    let (msgs, _) = button_press(&mut app, &mut gui, KeyCode::Char('x'), false);
    assert!(msgs.is_empty());
}

#[test]
fn loading_withholds_command_actions() {
    let mut app = app_with(vec![summary("r1", "runner", "running", 1)]);
    let mut gui = GuiState::new();
    gui.next_loading(1);
    let (msgs, _) = button_press(&mut app, &mut gui, KeyCode::Char('x'), false);
    assert!(msgs.is_empty());
    let (msgs, _) = button_press(&mut app, &mut gui, KeyCode::Char('l'), false);
    assert!(msgs.is_empty());
    assert_eq!(gui.get_current_nav(), NavPanel::Logs);
}

#[test]
fn sort_number_keys_cycle_the_header() {
    let mut app = app_with(vec![summary("a", "alpha", "running", 1)]);
    let mut gui = GuiState::new();
    button_press(&mut app, &mut gui, KeyCode::Char('6'), false);
    assert_eq!(app.container_data.get_sorted(), Some((Header::Name, SortedOrder::Asc)));
    button_press(&mut app, &mut gui, KeyCode::Char('6'), false);
    assert_eq!(app.container_data.get_sorted(), Some((Header::Name, SortedOrder::Desc)));
    button_press(&mut app, &mut gui, KeyCode::Char('6'), false);
    assert_eq!(app.container_data.get_sorted(), None);
}

#[test]
fn arrow_keys_move_the_container_selection() {
    let mut app = app_with(vec![
        summary("a", "alpha", "running", 1),
        summary("b", "beta", "running", 2),
        summary("c", "gamma", "running", 3),
    ]);
    let mut gui = GuiState::new();
    button_press(&mut app, &mut gui, KeyCode::Down, false);
    assert_eq!(app.container_data.get_selected_container_id().unwrap().get(), "b");
    button_press(&mut app, &mut gui, KeyCode::End, false);
    assert_eq!(app.container_data.get_selected_container_id().unwrap().get(), "c");
    button_press(&mut app, &mut gui, KeyCode::Up, false);
    assert_eq!(app.container_data.get_selected_container_id().unwrap().get(), "b");
    button_press(&mut app, &mut gui, KeyCode::Home, false);
    assert_eq!(app.container_data.get_selected_container_id().unwrap().get(), "a");
    button_press(&mut app, &mut gui, KeyCode::PageDown, false);
    assert_eq!(app.container_data.get_selected_container_id().unwrap().get(), "c");
}

#[test]
fn unmatched_key_is_a_no_op() {
    let mut app = app_with(vec![summary("a", "alpha", "running", 1)]);
    let mut gui = GuiState::new();
    let (msgs, force) = button_press(&mut app, &mut gui, KeyCode::Other, false);
    assert!(msgs.is_empty());
    assert!(!force);
    assert_eq!(app.container_data.get_container_len(), 1);
}

#[test]
fn mouse_scroll_and_header_click() {
    let mut app = app_with(vec![
        summary("a", "alpha", "running", 1),
        summary("b", "beta", "running", 2),
    ]);
    let mut gui = GuiState::new();
    mouse_press(
        &mut app,
        &mut gui,
        MouseEvent { kind: MouseKind::ScrollDown, column: 0, row: 0 },
    );
    assert_eq!(app.container_data.get_selected_container_id().unwrap().get(), "b");
    gui.update_region_map(Region::Header(Header::Name), Rect::new(10, 0, 6, 1));
    mouse_press(
        &mut app,
        &mut gui,
        MouseEvent { kind: MouseKind::DownLeft, column: 12, row: 0 },
    );
    assert_eq!(app.container_data.get_sorted(), Some((Header::Name, SortedOrder::Asc)));
}

#[test]
fn delete_dialog_buttons_by_mouse() {
    let mut app = app_with(vec![summary("c9", "nine", "running", 1)]);
    let mut gui = GuiState::new();
    gui.set_delete_container(Some(ContainerId::new("c9".to_string())));
    gui.update_region_map(Region::Delete(DeleteButton::Yes), Rect::new(0, 0, 3, 1));
    gui.update_region_map(Region::Delete(DeleteButton::No), Rect::new(10, 0, 3, 1));
    let msg = button_intersect(
        &app,
        &mut gui,
        MouseEvent { kind: MouseKind::DownLeft, column: 1, row: 0 },
    );
    assert!(matches!(msg, Some(DockerMessage::DeleteContainer(ref id)) if id.get() == "c9"));
    let msg = button_intersect(
        &app,
        &mut gui,
        MouseEvent { kind: MouseKind::DownLeft, column: 11, row: 0 },
    );
    assert!(msg.is_none());
    assert!(gui.get_delete_container().is_none());
}

#[test]
fn command_failure_surfaces_an_error() {
    let mut app = app_with(vec![]);
    let mut gui = GuiState::new();
    handle_command_result(&mut app, &mut gui, DockerControls::Stop, true);
    assert!(app.get_error().is_none());
    handle_command_result(&mut app, &mut gui, DockerControls::Stop, false);
    assert_eq!(app.get_error(), Some(AppError::DockerCommand(DockerControls::Stop)));
    assert!(gui.status_contains(&[Status::Error]));
}

#[test]
fn message_controls_for_error_reporting() {
    let id = || ContainerId::new("x".to_string());
    assert_eq!(
        message_control(&DockerMessage::StopContainer(id())),
        Some(DockerControls::Stop)
    );
    assert_eq!(
        message_control(&DockerMessage::DeleteContainer(id())),
        Some(DockerControls::Delete)
    );
    assert_eq!(message_control(&DockerMessage::Update), None);
    assert_eq!(message_control(&DockerMessage::InfosContainer(id())), None);
}
