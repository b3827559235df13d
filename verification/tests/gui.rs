//! Interface state: the navigation stack, modal flags, loading markers,
//! clickable regions and the small display helpers.

use oxker::app_data::container_data::Header;
use oxker::app_data::container_state::{ByteStats, ContainerId, CpuStats, DockerControls, State};
use oxker::app_error::AppError;
use oxker::text;
use oxker::ui::draw_blocks::max_line_width;
use oxker::ui::gui_state::{
    BoxLocation, DeleteButton, GuiState, Loading, Rect, Region, SelectablePanel, Status,
};
use oxker::ui::nav::NavPanel;

#[test]
fn nav_stack_root_is_never_removed() {
    let mut gui = GuiState::new();
    assert_eq!(gui.get_current_nav(), NavPanel::Containers);
    gui.append_nav(NavPanel::Logs);
    assert_eq!(gui.nav.len(), 2);
    assert_eq!(gui.get_current_nav(), NavPanel::Logs);
    gui.back_in_nav();
    assert_eq!(gui.nav.len(), 1);
    assert_eq!(gui.get_current_nav(), NavPanel::Containers);
    gui.back_in_nav();
    assert_eq!(gui.nav.len(), 1);
    assert_eq!(gui.get_current_nav(), NavPanel::Containers);
}

#[test]
fn status_flags_are_a_set() {
    let mut gui = GuiState::new();
    assert!(!gui.status_contains(&[Status::Help, Status::Error]));
    gui.status_push(Status::Help);
    gui.status_push(Status::Help);
    assert_eq!(gui.status.len(), 1);
    assert!(gui.status_contains(&[Status::Help]));
    assert!(!gui.status_contains(&[Status::Error]));
    gui.status_del(Status::Help);
    assert!(!gui.status_contains(&[Status::Help]));
}

#[test]
fn loading_markers_and_spinner() {
    let mut gui = GuiState::new();
    assert!(!gui.is_loading());
    assert_eq!(gui.get_loading(), " ");
    gui.next_loading(7);
    gui.next_loading(7);
    assert!(gui.is_loading());
    assert_eq!(gui.is_loading.len(), 1);
    assert_eq!(gui.get_loading(), Loading::Three.display());
    gui.remove_loading(7);
    assert!(!gui.is_loading());
}

#[test]
fn spinner_frames_cycle() {
    let mut frame = Loading::One;
    for _ in 0..10 {
        frame = frame.next();
    }
    assert_eq!(frame, Loading::One);
    assert_eq!(Loading::One.display(), "\u{280b}");
}

#[test]
fn region_maps_resolve_clicks() {
    let mut gui = GuiState::new();
    gui.update_region_map(Region::Header(Header::Name), Rect::new(10, 0, 5, 1));
    gui.update_region_map(Region::Header(Header::Image), Rect::new(20, 0, 5, 1));
    gui.update_region_map(Region::Panel(SelectablePanel::Logs), Rect::new(0, 10, 40, 5));
    gui.update_region_map(Region::Delete(DeleteButton::Yes), Rect::new(5, 20, 3, 1));
    let click = |x, y| Rect::new(x, y, 1, 1);
    assert_eq!(gui.header_intersect(click(11, 0)), Some(Header::Name));
    assert_eq!(gui.header_intersect(click(21, 0)), Some(Header::Image));
    assert_eq!(gui.header_intersect(click(3, 0)), None);
    assert_eq!(gui.button_intersect(click(6, 20)), Some(DeleteButton::Yes));
    gui.panel_intersect(click(1, 12));
    assert_eq!(gui.selected_panel, SelectablePanel::Logs);
    gui.clear_area_map();
    gui.panel_intersect(click(1, 12));
    assert_eq!(gui.selected_panel, SelectablePanel::Logs);
}

#[test]
fn region_update_replaces_existing_key() {
    let mut gui = GuiState::new();
    gui.update_region_map(Region::Header(Header::Name), Rect::new(0, 0, 2, 1));
    gui.update_region_map(Region::Header(Header::Name), Rect::new(30, 0, 2, 1));
    assert_eq!(gui.heading_map.len(), 1);
    assert_eq!(gui.header_intersect(Rect::new(31, 0, 1, 1)), Some(Header::Name));
    assert_eq!(gui.header_intersect(Rect::new(1, 0, 1, 1)), None);
}

#[test]
fn staging_a_delete_raises_the_confirm_flag() {
    let mut gui = GuiState::new();
    gui.set_delete_container(Some(ContainerId::new("c9".to_string())));
    assert!(gui.status_contains(&[Status::DeleteConfirm]));
    assert_eq!(gui.get_delete_container().unwrap().get(), "c9");
    gui.set_delete_container(None);
    assert!(!gui.status_contains(&[Status::DeleteConfirm]));
    assert!(gui.get_delete_container().is_none());
}

#[test]
fn panel_focus_cycles_both_ways() {
    let mut gui = GuiState::new();
    assert_eq!(gui.selected_panel, SelectablePanel::Containers);
    gui.next_panel();
    assert_eq!(gui.selected_panel, SelectablePanel::Commands);
    gui.next_panel();
    gui.next_panel();
    assert_eq!(gui.selected_panel, SelectablePanel::Containers);
    gui.previous_panel();
    assert_eq!(gui.selected_panel, SelectablePanel::Logs);
    assert_eq!(SelectablePanel::Containers.title(), "Containers");
}

#[test]
fn info_box_text_set_and_reset() {
    let mut gui = GuiState::new();
    gui.set_info_box("spawned".to_string());
    assert_eq!(gui.info_box_text.as_deref(), Some("spawned"));
    gui.reset_info_box();
    assert!(gui.info_box_text.is_none());
}

#[test]
fn box_locations_map_to_grid_indexes() {
    assert_eq!(BoxLocation::TopLeft.get_indexes(), (0, 0));
    assert_eq!(BoxLocation::MiddleCentre.get_indexes(), (1, 1));
    assert_eq!(BoxLocation::BottomRight.get_indexes(), (2, 2));
}

#[test]
fn app_error_messages() {
    assert_eq!(
        AppError::DockerCommand(DockerControls::Pause).message(),
        "Unable to pause container"
    );
    assert_eq!(AppError::DockerConnect.message(), "Unable to access docker daemon");
    assert_eq!(
        AppError::DockerInterval.message(),
        "Docker update interval needs to be greater than 0"
    );
    assert_eq!(AppError::MouseCapture(true).message(), "Unable to enable mouse capture");
    assert_eq!(AppError::MouseCapture(false).message(), "Unable to disable mouse capture");
    assert_eq!(AppError::Terminal.message(), "Unable to draw to terminal");
}

#[test]
fn display_helpers_format_exactly() {
    assert_eq!(text::fmt_u64(0), "0");
    assert_eq!(text::fmt_u64(1234567), "1234567");
    assert_eq!(CpuStats::new(0).display(), "00.00%");
    assert_eq!(CpuStats::new(250).display(), "02.50%");
    assert_eq!(CpuStats::new(10000).display(), "100.00%");
    assert_eq!(ByteStats::new(2_000).display(), "2.00 kB");
    assert_eq!(ByteStats::new(999_990).display(), "999.99 kB");
    assert_eq!(ByteStats::new(1_000_000).display(), "1.00 MB");
    assert_eq!(ByteStats::new(1_234_567_890).display(), "1.23 GB");
    assert_eq!(State::Running.display(), "\u{2713} running");
    assert_eq!(State::Dead.display(), "\u{2716} dead");
    assert_eq!(Header::Memory.display(), "memory/limit");
}

#[test]
fn state_parsing_and_order() {
    assert_eq!(State::from_str("running"), State::Running);
    assert_eq!(State::from_str("paused"), State::Paused);
    assert_eq!(State::from_str("banana"), State::Unknown);
    assert_eq!(State::Running.order(), 0);
    assert_eq!(State::Unknown.order(), 6);
}

#[test]
fn controls_derive_from_state() {
    assert_eq!(
        DockerControls::gen_vec(State::Running),
        vec![
            DockerControls::Pause,
            DockerControls::Restart,
            DockerControls::Stop,
            DockerControls::Delete
        ]
    );
    assert_eq!(
        DockerControls::gen_vec(State::Unknown),
        vec![DockerControls::Delete]
    );
    assert_eq!(DockerControls::Unpause.display(), "unpause");
}

#[test]
fn widest_line_measured_in_characters() {
    assert_eq!(max_line_width(""), 0);
    assert_eq!(max_line_width("ab\ncdef\nx"), 4);
    assert_eq!(max_line_width("one line"), 8);
}

#[test]
fn text_helpers() {
    assert!(text::str_eq("same", "same"));
    assert!(!text::str_eq("same", "different"));
    assert!(text::str_starts_with("/app/oxker --gui", "/app/oxker"));
    assert_eq!(text::trim_str("  padded \t"), "padded");
    assert_eq!(text::strip_ansi("\u{1b}[1;32mok\u{1b}[0m done"), "ok done");
    assert_eq!(text::take_chars(&"abcdef".to_string(), 3), "abc");
    assert_eq!(
        text::split_lines("a\nb\r\nc\n"),
        vec!["a".to_string(), "b".to_string(), "c".to_string()]
    );
}

#[test]
fn rect_intersection_is_strict_overlap() {
    let a = Rect::new(0, 0, 10, 10);
    assert!(a.intersects(&Rect::new(9, 9, 1, 1)));
    assert!(!a.intersects(&Rect::new(10, 0, 1, 1)));
    assert!(!a.intersects(&Rect::new(0, 10, 1, 1)));
}
