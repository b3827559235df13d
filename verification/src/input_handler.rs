//! Input dispatch: raw key and mouse events become state mutations or
//! outbound runtime commands, honouring the modal flags in strict
//! precedence. The surrounding message loop and channels live outside
//! the library; it hands events in and sends the returned messages on.

use crate::app_data::container_data::Header;
use crate::app_data::AppData;
use crate::docker_data::DockerMessage;
use crate::ui::gui_state::{DeleteButton, GuiState, Rect, Status};
use crate::ui::nav::{spec_actions, spec_find_action, Action, ActionV, NavPanel};
use vstd::prelude::*;

verus! {

/// The keys the dispatcher distinguishes; anything else is `Other` and
/// can only be a no-op.
#[derive(Debug, Clone, Copy, PartialEq, Eq, Structural)]
pub enum KeyCode {
    Char(char),
    Esc,
    Enter,
    Home,
    End,
    Up,
    Down,
    PageUp,
    PageDown,
    Other,
}

/// The mouse gestures the dispatcher distinguishes.
#[derive(Debug, Clone, Copy, PartialEq, Eq, Structural)]
pub enum MouseKind {
    DownLeft,
    ScrollUp,
    ScrollDown,
    Other,
}

/// A mouse event at a cell position.
#[derive(Debug, Clone, Copy, PartialEq, Eq, Structural)]
pub struct MouseEvent {
    pub kind: MouseKind,
    pub column: u16,
    pub row: u16,
}

/// A raw input event as the render loop forwards it.
#[derive(Debug)]
pub enum InputMessages {
    ButtonPress(KeyCode, bool),
    MouseEvent(MouseEvent),
}

/// Whether the key chord always quits: control-c or a plain q.
pub open spec fn spec_is_quit(key: KeyCode, ctrl: bool) -> bool {
    (ctrl && (key == KeyCode::Char('c') || key == KeyCode::Char('C'))) || key == KeyCode::Char('q')
        || key == KeyCode::Char('Q')
}

/// The header a sort-number key selects, in column order.
pub open spec fn spec_sort_key_header(key: KeyCode) -> Option<Header> {
    if key == KeyCode::Char('1') {
        Some(Header::State)
    } else if key == KeyCode::Char('2') {
        Some(Header::Status)
    } else if key == KeyCode::Char('3') {
        Some(Header::Cpu)
    } else if key == KeyCode::Char('4') {
        Some(Header::Memory)
    } else if key == KeyCode::Char('5') {
        Some(Header::Id)
    } else if key == KeyCode::Char('6') {
        Some(Header::Name)
    } else if key == KeyCode::Char('7') {
        Some(Header::Image)
    } else if key == KeyCode::Char('8') {
        Some(Header::Rx)
    } else if key == KeyCode::Char('9') {
        Some(Header::Tx)
    } else {
        None
    }
}

/// The header a sort-number key selects.
pub fn sort_key_header(key: KeyCode) -> (r: Option<Header>)
    ensures
        r == spec_sort_key_header(key),
{
    match key {
        KeyCode::Char(c) => {
            if c == '1' {
                Some(Header::State)
            } else if c == '2' {
                Some(Header::Status)
            } else if c == '3' {
                Some(Header::Cpu)
            } else if c == '4' {
                Some(Header::Memory)
            } else if c == '5' {
                Some(Header::Id)
            } else if c == '6' {
                Some(Header::Name)
            } else if c == '7' {
                Some(Header::Image)
            } else if c == '8' {
                Some(Header::Rx)
            } else if c == '9' {
                Some(Header::Tx)
            } else {
                None
            }
        },
        _ => None,
    }
}

/// The navigation stack with its root restored if it was ever left
/// empty.
pub open spec fn spec_nav_fix(nav: Seq<NavPanel>) -> Seq<NavPanel> {
    if nav.len() == 0 {
        seq![NavPanel::Containers]
    } else {
        nav
    }
}

/// The pane on top of the navigation stack.
pub open spec fn spec_nav_top(nav: Seq<NavPanel>) -> NavPanel {
    spec_nav_fix(nav).last()
}

/// One scroll step down in the active pane's list.
pub open spec fn spec_scroll_next(
    r: crate::app_data::container_data::RegV,
    panel: NavPanel,
) -> crate::app_data::container_data::RegV {
    match panel {
        NavPanel::Containers => crate::app_data::container_data::RegV {
            sel: crate::app_data::container_data::spec_sel_next(r.items.len() as int, r.sel),
            ..r
        },
        NavPanel::Logs => crate::app_data::container_data::spec_map_selected(
            r,
            (|it: crate::app_data::container_state::ItemV|
                crate::app_data::container_data::spec_log_next(it)),
        ),
        NavPanel::Metrics => r,
        NavPanel::Info => crate::app_data::container_data::spec_map_selected(
            r,
            (|it: crate::app_data::container_state::ItemV|
                crate::app_data::container_data::spec_info_next(it)),
        ),
    }
}

/// One scroll step up in the active pane's list.
pub open spec fn spec_scroll_previous(
    r: crate::app_data::container_data::RegV,
    panel: NavPanel,
) -> crate::app_data::container_data::RegV {
    match panel {
        NavPanel::Containers => crate::app_data::container_data::RegV {
            sel: crate::app_data::container_data::spec_sel_previous(r.items.len() as int, r.sel),
            ..r
        },
        NavPanel::Logs => crate::app_data::container_data::spec_map_selected(
            r,
            (|it: crate::app_data::container_state::ItemV|
                crate::app_data::container_data::spec_log_previous(it)),
        ),
        NavPanel::Metrics => r,
        NavPanel::Info => crate::app_data::container_data::spec_map_selected(
            r,
            (|it: crate::app_data::container_state::ItemV|
                crate::app_data::container_data::spec_info_previous(it)),
        ),
    }
}

/// A scroll to the top of the active pane's list.
pub open spec fn spec_scroll_start(
    r: crate::app_data::container_data::RegV,
    panel: NavPanel,
) -> crate::app_data::container_data::RegV {
    match panel {
        NavPanel::Containers => crate::app_data::container_data::RegV {
            sel: crate::app_data::container_data::spec_sel_start(r.items.len() as int, r.sel),
            ..r
        },
        NavPanel::Logs => crate::app_data::container_data::spec_map_selected(
            r,
            (|it: crate::app_data::container_state::ItemV|
                crate::app_data::container_data::spec_log_start(it)),
        ),
        NavPanel::Metrics => r,
        NavPanel::Info => crate::app_data::container_data::spec_map_selected(
            r,
            (|it: crate::app_data::container_state::ItemV|
                crate::app_data::container_data::spec_info_start(it)),
        ),
    }
}

/// A scroll to the bottom of the active pane's list.
pub open spec fn spec_scroll_end(
    r: crate::app_data::container_data::RegV,
    panel: NavPanel,
) -> crate::app_data::container_data::RegV {
    match panel {
        NavPanel::Containers => crate::app_data::container_data::RegV {
            sel: crate::app_data::container_data::spec_sel_end(r.items.len() as int, r.sel),
            ..r
        },
        NavPanel::Logs => crate::app_data::container_data::spec_map_selected(
            r,
            (|it: crate::app_data::container_state::ItemV|
                crate::app_data::container_data::spec_log_end(it)),
        ),
        NavPanel::Metrics => r,
        NavPanel::Info => crate::app_data::container_data::spec_map_selected(
            r,
            (|it: crate::app_data::container_state::ItemV|
                crate::app_data::container_data::spec_info_end(it)),
        ),
    }
}

/// Several scroll steps down.
pub open spec fn spec_scroll_next_n(
    r: crate::app_data::container_data::RegV,
    panel: NavPanel,
    n: nat,
) -> crate::app_data::container_data::RegV
    decreases n,
{
    if n == 0 {
        r
    } else {
        spec_scroll_next_n(spec_scroll_next(r, panel), panel, (n - 1) as nat)
    }
}

/// Several scroll steps up.
pub open spec fn spec_scroll_previous_n(
    r: crate::app_data::container_data::RegV,
    panel: NavPanel,
    n: nat,
) -> crate::app_data::container_data::RegV
    decreases n,
{
    if n == 0 {
        r
    } else {
        spec_scroll_previous_n(spec_scroll_previous(r, panel), panel, (n - 1) as nat)
    }
}

/// Scroll one step down in the given pane's list.
fn scroll_next(app: &mut AppData, panel: NavPanel)
    requires
        old(app).wf(),
    ensures
        final(app).container_data@ == spec_scroll_next(old(app).container_data@, panel),
        final(app).error == old(app).error,
        final(app).args == old(app).args,
        final(app).wf(),
{
    match panel {
        NavPanel::Containers => app.container_data.containers_next(),
        NavPanel::Logs => app.container_data.log_next(),
        NavPanel::Metrics => {},
        NavPanel::Info => app.container_data.info_next(),
    }
}

/// Scroll one step up in the given pane's list.
fn scroll_previous(app: &mut AppData, panel: NavPanel)
    requires
        old(app).wf(),
    ensures
        final(app).container_data@ == spec_scroll_previous(old(app).container_data@, panel),
        final(app).error == old(app).error,
        final(app).args == old(app).args,
        final(app).wf(),
{
    match panel {
        NavPanel::Containers => app.container_data.containers_previous(),
        NavPanel::Logs => app.container_data.log_previous(),
        NavPanel::Metrics => {},
        NavPanel::Info => app.container_data.info_previous(),
    }
}

/// Scroll to the top of the given pane's list.
fn scroll_start(app: &mut AppData, panel: NavPanel)
    requires
        old(app).wf(),
    ensures
        final(app).container_data@ == spec_scroll_start(old(app).container_data@, panel),
        final(app).error == old(app).error,
        final(app).args == old(app).args,
        final(app).wf(),
{
    match panel {
        NavPanel::Containers => app.container_data.containers_start(),
        NavPanel::Logs => app.container_data.log_start(),
        NavPanel::Metrics => {},
        NavPanel::Info => app.container_data.info_start(),
    }
}

/// Scroll to the bottom of the given pane's list.
fn scroll_end(app: &mut AppData, panel: NavPanel)
    requires
        old(app).wf(),
    ensures
        final(app).container_data@ == spec_scroll_end(old(app).container_data@, panel),
        final(app).error == old(app).error,
        final(app).args == old(app).args,
        final(app).wf(),
{
    match panel {
        NavPanel::Containers => app.container_data.containers_end(),
        NavPanel::Logs => app.container_data.log_end(),
        NavPanel::Metrics => {},
        NavPanel::Info => app.container_data.info_end(),
    }
}

/// Scroll several steps down in the given pane's list.
fn scroll_next_n(app: &mut AppData, panel: NavPanel, n: usize)
    requires
        old(app).wf(),
    ensures
        final(app).container_data@ == spec_scroll_next_n(old(app).container_data@, panel, n as nat),
        final(app).error == old(app).error,
        final(app).args == old(app).args,
        final(app).wf(),
{
    let mut i: usize = 0;
    while i < n
        invariant
            i <= n,
            app.wf(),
            app.container_data@ == spec_scroll_next_n(old(app).container_data@, panel, i as nat),
            app.error == old(app).error,
            app.args == old(app).args,
        decreases n - i,
    {
        scroll_next(app, panel);
        proof {
            lemma_scroll_next_n_step(old(app).container_data@, panel, i as nat);
        }
        i += 1;
    }
}

/// Scroll several steps up in the given pane's list.
fn scroll_previous_n(app: &mut AppData, panel: NavPanel, n: usize)
    requires
        old(app).wf(),
    ensures
        final(app).container_data@ == spec_scroll_previous_n(
            old(app).container_data@,
            panel,
            n as nat,
        ),
        final(app).error == old(app).error,
        final(app).args == old(app).args,
        final(app).wf(),
{
    let mut i: usize = 0;
    while i < n
        invariant
            i <= n,
            app.wf(),
            app.container_data@ == spec_scroll_previous_n(
                old(app).container_data@,
                panel,
                i as nat,
            ),
            app.error == old(app).error,
            app.args == old(app).args,
        decreases n - i,
    {
        scroll_previous(app, panel);
        proof {
            lemma_scroll_previous_n_step(old(app).container_data@, panel, i as nat);
        }
        i += 1;
    }
}

proof fn lemma_scroll_next_n_step(
    r: crate::app_data::container_data::RegV,
    panel: NavPanel,
    n: nat,
)
    ensures
        spec_scroll_next(spec_scroll_next_n(r, panel, n), panel) == spec_scroll_next_n(
            r,
            panel,
            n + 1,
        ),
    decreases n,
{
    let r1 = spec_scroll_next(r, panel);
    assert(spec_scroll_next_n(r, panel, n + 1) == spec_scroll_next_n(r1, panel, n));
    if n > 0 {
        lemma_scroll_next_n_step(r1, panel, (n - 1) as nat);
        assert(spec_scroll_next_n(r, panel, n) == spec_scroll_next_n(r1, panel, (n - 1) as nat));
    }
}

proof fn lemma_scroll_previous_n_step(
    r: crate::app_data::container_data::RegV,
    panel: NavPanel,
    n: nat,
)
    ensures
        spec_scroll_previous(spec_scroll_previous_n(r, panel, n), panel) == spec_scroll_previous_n(
            r,
            panel,
            n + 1,
        ),
    decreases n,
{
    let r1 = spec_scroll_previous(r, panel);
    assert(spec_scroll_previous_n(r, panel, n + 1) == spec_scroll_previous_n(r1, panel, n));
    if n > 0 {
        lemma_scroll_previous_n_step(r1, panel, (n - 1) as nat);
        assert(spec_scroll_previous_n(r, panel, n) == spec_scroll_previous_n(
            r1,
            panel,
            (n - 1) as nat,
        ));
    }
}

/// Scroll one step down in the active pane, as wheel and arrow input
/// do.
pub fn next(app: &mut AppData, gui: &mut GuiState)
    requires
        old(app).wf(),
    ensures
        final(app).container_data@ == spec_scroll_next(
            old(app).container_data@,
            spec_nav_top(old(gui).nav@),
        ),
        final(app).error == old(app).error,
        final(app).args == old(app).args,
        final(app).wf(),
        *final(gui) == (GuiState { nav: final(gui).nav, ..*old(gui) }),
        final(gui).nav@ == spec_nav_fix(old(gui).nav@),
{
    let panel = gui.get_current_nav();
    scroll_next(app, panel);
}

/// Scroll one step up in the active pane.
pub fn previous(app: &mut AppData, gui: &mut GuiState)
    requires
        old(app).wf(),
    ensures
        final(app).container_data@ == spec_scroll_previous(
            old(app).container_data@,
            spec_nav_top(old(gui).nav@),
        ),
        final(app).error == old(app).error,
        final(app).args == old(app).args,
        final(app).wf(),
        *final(gui) == (GuiState { nav: final(gui).nav, ..*old(gui) }),
        final(gui).nav@ == spec_nav_fix(old(gui).nav@),
{
    let panel = gui.get_current_nav();
    scroll_previous(app, panel);
}

/// Whether a quit must bypass the orchestrator: with the error or init
/// flag up the process stops at once instead of sending a quit message.
pub fn quit(gui: &GuiState) -> (force: bool)
    ensures
        force == (crate::ui::gui_state::spec_has_status(gui.status@, Status::Error)
            || crate::ui::gui_state::spec_has_status(gui.status@, Status::Init)),
{
    gui.status_contains(&[Status::Error, Status::Init])
}

/// The delete command for the staged container, if one awaits
/// confirmation.
pub fn confirm_delete(gui: &GuiState) -> (r: Option<DockerMessage>)
    ensures
        (r is Some) == (gui.delete_container is Some),
        r matches Some(m) ==> gui.delete_container matches Some(d)
            && m@ == crate::docker_data::MsgV::DeleteContainer(d@),
{
    match gui.get_delete_container() {
        Some(id) => Some(DockerMessage::DeleteContainer(id)),
        None => None,
    }
}

/// Clear the staged delete, closing the confirm dialog.
pub fn clear_delete(gui: &mut GuiState)
    ensures
        final(gui).delete_container is None,
        final(gui).delete_map@ == Seq::<(DeleteButton, Rect)>::empty(),
        final(gui).status@ == crate::ui::gui_state::spec_remove_status(
            old(gui).status@,
            Status::DeleteConfirm,
        ),
        final(gui).heading_map == old(gui).heading_map,
        final(gui).panel_map == old(gui).panel_map,
        final(gui).is_loading == old(gui).is_loading,
        final(gui).loading_icon == old(gui).loading_icon,
        final(gui).info_box_text == old(gui).info_box_text,
        final(gui).selected_panel == old(gui).selected_panel,
        final(gui).nav == old(gui).nav,
{
    gui.set_delete_container(None);
}

/// A left click while the confirm dialog is up: the yes button sends the
/// delete command, the no button clears the staged delete, anywhere else
/// does nothing.
pub fn button_intersect(app: &AppData, gui: &mut GuiState, mouse_event: MouseEvent) -> (r: Option<
    DockerMessage,
>)
    ensures
        ({
            let hit = if mouse_event.kind == MouseKind::DownLeft {
                crate::ui::gui_state::spec_first_hit(
                    old(gui).delete_map@,
                    Rect {
                        x: mouse_event.column,
                        y: mouse_event.row,
                        width: 1u16,
                        height: 1u16,
                    },
                )
            } else {
                None
            };
            match hit {
                Some(DeleteButton::Yes) => {
                    &&& *final(gui) == *old(gui)
                    &&& (r is Some) == (old(gui).delete_container is Some)
                    &&& (r matches Some(m) ==> old(gui).delete_container matches Some(d) && m@
                        == crate::docker_data::MsgV::DeleteContainer(d@))
                },
                Some(DeleteButton::No) => {
                    &&& r is None
                    &&& final(gui).delete_container is None
                    &&& final(gui).delete_map@ == Seq::<(DeleteButton, Rect)>::empty()
                    &&& final(gui).status@ == crate::ui::gui_state::spec_remove_status(
                        old(gui).status@,
                        Status::DeleteConfirm,
                    )
                    &&& final(gui).nav == old(gui).nav
                    &&& final(gui).heading_map == old(gui).heading_map
                    &&& final(gui).panel_map == old(gui).panel_map
                },
                None => r is None && *final(gui) == *old(gui),
            }
        }),
{
    if matches!(mouse_event.kind, MouseKind::DownLeft) {
        let rect = Rect::new(mouse_event.column, mouse_event.row, 1, 1);
        match gui.button_intersect(rect) {
            Some(DeleteButton::Yes) => confirm_delete(gui),
            Some(DeleteButton::No) => {
                clear_delete(gui);
                None
            },
            None => None,
        }
    } else {
        None
    }
}

/// A mouse gesture outside any modal: wheel scrolls move the active
/// pane's cursor, a left click focuses the panel under it and sorts by a
/// clicked column heading.
pub fn mouse_press(app: &mut AppData, gui: &mut GuiState, mouse_event: MouseEvent)
    requires
        old(app).wf(),
    ensures
        final(app).wf(),
        final(app).error == old(app).error,
        final(app).args == old(app).args,
        mouse_event.kind == MouseKind::ScrollUp ==> final(app).container_data@
            == spec_scroll_previous(old(app).container_data@, spec_nav_top(old(gui).nav@)),
        mouse_event.kind == MouseKind::ScrollDown ==> final(app).container_data@
            == spec_scroll_next(old(app).container_data@, spec_nav_top(old(gui).nav@)),
        mouse_event.kind == MouseKind::DownLeft ==> {
            let click = Rect {
                x: mouse_event.column,
                y: mouse_event.row,
                width: 1u16,
                height: 1u16,
            };
            &&& final(gui).selected_panel == match crate::ui::gui_state::spec_first_hit(
                old(gui).panel_map@,
                click,
            ) {
                Some(p) => p,
                None => old(gui).selected_panel,
            }
            &&& final(app).container_data@ == match crate::ui::gui_state::spec_first_hit(
                old(gui).heading_map@,
                click,
            ) {
                Some(h) => crate::app_data::container_data::spec_set_sorted(
                    old(app).container_data@,
                    crate::app_data::container_data::spec_sort_cycle(
                        old(app).container_data@.sorted,
                        h,
                    ),
                ),
                None => old(app).container_data@,
            }
        },
        mouse_event.kind == MouseKind::Other ==> final(app).container_data@ == old(
            app,
        ).container_data@ && *final(gui) == *old(gui),
{
    match mouse_event.kind {
        MouseKind::ScrollUp => previous(app, gui),
        MouseKind::ScrollDown => next(app, gui),
        MouseKind::DownLeft => {
            let rect = Rect::new(mouse_event.column, mouse_event.row, 1, 1);
            gui.panel_intersect(rect);
            match gui.header_intersect(rect) {
                Some(header) => sort(app, header),
                None => {},
            }
        },
        MouseKind::Other => {},
    }
}

/// The message views a dispatch emits before any action message: a quit
/// command exactly when the quit chord was pressed and the process need
/// not stop at once.
pub open spec fn spec_quit_prefix(emitted: bool) -> Seq<crate::docker_data::MsgV> {
    if emitted {
        seq![crate::docker_data::MsgV::Quit]
    } else {
        Seq::<crate::docker_data::MsgV>::empty()
    }
}

/// Route one key press, honouring the modal flags in strict precedence:
/// the quit chord always acts first; with the error flag up only a
/// dismiss key is honoured; then the help flag takes only dismissal;
/// then the delete-confirm flag takes only yes or no; otherwise list
/// navigation, sort-number keys and the active pane's action table
/// apply, and an unmatched key does nothing. Returns the messages to
/// send to the orchestrator and whether the process must stop at once.
pub fn button_press(app: &mut AppData, gui: &mut GuiState, key: KeyCode, ctrl: bool) -> (r: (
    Vec<DockerMessage>,
    bool,
))
    requires
        old(app).wf(),
    ensures
        final(app).wf(),
        final(app).args == old(app).args,
        ({
            let he = crate::ui::gui_state::spec_has_status(old(gui).status@, Status::Error);
            let hh = crate::ui::gui_state::spec_has_status(old(gui).status@, Status::Help);
            let hd = crate::ui::gui_state::spec_has_status(
                old(gui).status@,
                Status::DeleteConfirm,
            );
            let hi = crate::ui::gui_state::spec_has_status(old(gui).status@, Status::Init);
            let q = spec_is_quit(key, ctrl);
            let qseq = spec_quit_prefix(q && !(he || hi));
            let mv = r.0@.map_values(|m: DockerMessage| m@);
            let base_nav = spec_nav_fix(old(gui).nav@);
            let panel = spec_nav_top(old(gui).nav@);
            let loading = old(gui).is_loading@.len() > 0;
            let sel = crate::ui::nav::spec_sel_state(old(app).container_data@);
            let acts = spec_actions(panel, loading, sel);
            let dismiss_err = key == KeyCode::Char('c') || key == KeyCode::Char('C');
            let dismiss_help = key == KeyCode::Char('h') || key == KeyCode::Char('H') || key
                == KeyCode::Esc || key == KeyCode::Enter;
            let help_key = key == KeyCode::Char('h') || key == KeyCode::Char('H');
            let scroll_key = key == KeyCode::Home || key == KeyCode::End || key == KeyCode::Up
                || key == KeyCode::Down || key == KeyCode::PageUp || key == KeyCode::PageDown;
            &&& r.1 == (q && (he || hi))
            &&& (he ==> {
                &&& final(app).container_data == old(app).container_data
                &&& final(app).error == if dismiss_err {
                    None::<crate::app_error::AppError>
                } else {
                    old(app).error
                }
                &&& *final(gui) == (GuiState { status: final(gui).status, ..*old(gui) })
                &&& final(gui).status@ == if dismiss_err {
                    crate::ui::gui_state::spec_remove_status(old(gui).status@, Status::Error)
                } else {
                    old(gui).status@
                }
                &&& mv == qseq
            })
            &&& (!he && hh ==> {
                &&& final(app).container_data == old(app).container_data
                &&& final(app).error == old(app).error
                &&& *final(gui) == (GuiState { status: final(gui).status, ..*old(gui) })
                &&& final(gui).status@ == if dismiss_help {
                    crate::ui::gui_state::spec_remove_status(old(gui).status@, Status::Help)
                } else {
                    old(gui).status@
                }
                &&& mv == qseq
            })
            &&& (!he && !hh && hd ==> {
                &&& final(app).container_data == old(app).container_data
                &&& final(app).error == old(app).error
                &&& (key == KeyCode::Char('y') || key == KeyCode::Char('Y') ==> {
                    &&& *final(gui) == *old(gui)
                    &&& mv == qseq.add(
                        match old(gui).delete_container {
                            Some(d) => seq![crate::docker_data::MsgV::DeleteContainer(d@)],
                            None => Seq::<crate::docker_data::MsgV>::empty(),
                        },
                    )
                })
                &&& (key == KeyCode::Char('n') || key == KeyCode::Char('N') ==> {
                    &&& final(gui).delete_container is None
                    &&& final(gui).delete_map@ == Seq::<(DeleteButton, Rect)>::empty()
                    &&& final(gui).status@ == crate::ui::gui_state::spec_remove_status(
                        old(gui).status@,
                        Status::DeleteConfirm,
                    )
                    &&& final(gui).nav == old(gui).nav
                    &&& final(gui).heading_map == old(gui).heading_map
                    &&& final(gui).panel_map == old(gui).panel_map
                    &&& final(gui).is_loading == old(gui).is_loading
                    &&& final(gui).selected_panel == old(gui).selected_panel
                    &&& final(gui).info_box_text == old(gui).info_box_text
                    &&& mv == qseq
                })
                &&& (!(key == KeyCode::Char('y') || key == KeyCode::Char('Y') || key
                    == KeyCode::Char('n') || key == KeyCode::Char('N')) ==> *final(gui) == *old(
                    gui,
                ) && mv == qseq)
            })
            &&& (!he && !hh && !hd ==> {
                &&& final(app).error == old(app).error
                &&& *final(gui) == (GuiState {
                    nav: final(gui).nav,
                    status: final(gui).status,
                    ..*old(gui)
                })
                &&& (help_key ==> {
                    &&& final(gui).nav@ == base_nav
                    &&& final(gui).status@ == if crate::ui::gui_state::spec_has_status(
                        old(gui).status@,
                        Status::Help,
                    ) {
                        old(gui).status@
                    } else {
                        old(gui).status@.push(Status::Help)
                    }
                    &&& final(app).container_data == old(app).container_data
                    &&& mv == qseq
                })
                &&& (scroll_key ==> {
                    &&& final(gui).nav@ == base_nav
                    &&& final(gui).status@ == old(gui).status@
                    &&& final(app).container_data@ == (if key == KeyCode::Home {
                        spec_scroll_start(old(app).container_data@, panel)
                    } else if key == KeyCode::End {
                        spec_scroll_end(old(app).container_data@, panel)
                    } else if key == KeyCode::Up {
                        spec_scroll_previous(old(app).container_data@, panel)
                    } else if key == KeyCode::Down {
                        spec_scroll_next(old(app).container_data@, panel)
                    } else if key == KeyCode::PageUp {
                        spec_scroll_previous_n(old(app).container_data@, panel, 7)
                    } else {
                        spec_scroll_next_n(old(app).container_data@, panel, 7)
                    })
                    &&& mv == qseq
                })
                &&& (!help_key && !scroll_key ==> match spec_sort_key_header(key) {
                    Some(h) => {
                        &&& final(gui).nav@ == base_nav
                        &&& final(gui).status@ == old(gui).status@
                        &&& final(app).container_data@
                            == crate::app_data::container_data::spec_set_sorted(
                            old(app).container_data@,
                            crate::app_data::container_data::spec_sort_cycle(
                                old(app).container_data@.sorted,
                                h,
                            ),
                        )
                        &&& mv == qseq
                    },
                    None => {
                        &&& final(gui).status@ == old(gui).status@
                        &&& match spec_find_action(acts, key) {
                            None => {
                                &&& final(app).container_data == old(app).container_data
                                &&& final(gui).nav@ == base_nav
                                &&& mv == qseq
                            },
                            Some(ActionV::NavAction(_, _, p)) => {
                                &&& final(app).container_data == old(app).container_data
                                &&& final(gui).nav@ == base_nav.push(p)
                                &&& mv == qseq
                            },
                            Some(ActionV::BackAction(_, _)) => {
                                &&& final(app).container_data == old(app).container_data
                                &&& final(gui).nav@ == if base_nav.len() > 1 {
                                    base_nav.drop_last()
                                } else {
                                    base_nav
                                }
                                &&& mv == qseq
                            },
                            Some(ActionV::DockerMessageAction(_, _, m)) => {
                                &&& final(app).container_data == old(app).container_data
                                &&& final(gui).nav@ == base_nav
                                &&& mv == qseq.push(m)
                            },
                            Some(ActionV::NavAndDockerMessageAction(_, _, p, m)) => {
                                &&& final(app).container_data == old(app).container_data
                                &&& final(gui).nav@ == base_nav.push(p)
                                &&& mv == qseq.push(m)
                            },
                        }
                    },
                })
            })
        }),
{
    let mut msgs: Vec<DockerMessage> = Vec::new();
    let contains_error = gui.has_status(Status::Error);
    let contains_help = gui.has_status(Status::Help);
    let contains_delete = gui.has_status(Status::DeleteConfirm);
    let contains_init = gui.has_status(Status::Init);
    let is_quit = (ctrl && (key == KeyCode::Char('c') || key == KeyCode::Char('C'))) || key
        == KeyCode::Char('q') || key == KeyCode::Char('Q');
    let mut force_quit = false;
    if is_quit {
        if contains_error || contains_init {
            force_quit = true;
        } else {
            msgs.push(DockerMessage::Quit);
        }
    }
    proof {
        assert(msgs@.map_values(|m: DockerMessage| m@) =~= spec_quit_prefix(
            is_quit && !(contains_error || contains_init),
        ));
    }
    let ghost qv = msgs@.map_values(|m: DockerMessage| m@);
    if contains_error {
        if key == KeyCode::Char('c') || key == KeyCode::Char('C') {
            app.remove_error();
            gui.status_del(Status::Error);
        }
    } else if contains_help {
        if key == KeyCode::Char('h') || key == KeyCode::Char('H') || key == KeyCode::Esc || key
            == KeyCode::Enter {
            gui.status_del(Status::Help);
        }
    } else if contains_delete {
        if key == KeyCode::Char('y') || key == KeyCode::Char('Y') {
            match confirm_delete(gui) {
                Some(m) => {
                    let ghost mv0 = m@;
                    msgs.push(m);
                    proof {
                        assert(msgs@.map_values(|mm: DockerMessage| mm@) =~= qv.push(mv0));
                        assert(qv.push(mv0) =~= qv.add(seq![mv0]));
                    }
                },
                None => {
                    proof {
                        assert(qv.add(Seq::<crate::docker_data::MsgV>::empty()) =~= qv);
                    }
                },
            }
        } else if key == KeyCode::Char('n') || key == KeyCode::Char('N') {
            clear_delete(gui);
        }
    } else {
        let current_panel = gui.get_current_nav();
        if key == KeyCode::Char('h') || key == KeyCode::Char('H') {
            gui.status_push(Status::Help);
        } else if key == KeyCode::Home {
            scroll_start(app, current_panel);
        } else if key == KeyCode::End {
            scroll_end(app, current_panel);
        } else if key == KeyCode::Up {
            scroll_previous(app, current_panel);
        } else if key == KeyCode::Down {
            scroll_next(app, current_panel);
        } else if key == KeyCode::PageUp {
            scroll_previous_n(app, current_panel, 7);
        } else if key == KeyCode::PageDown {
            scroll_next_n(app, current_panel, 7);
        } else {
            match sort_key_header(key) {
                Some(h) => {
                    app.container_data.set_sort_by_header(h);
                },
                None => {
                    let mut actions = current_panel.all_actions(gui, app);
                    let ghost acts0 = actions@.map_values(|a: Action| a@);
                    let mut found: Option<Action> = None;
                    while actions.len() > 0
                        invariant_except_break
                            found is None,
                            spec_find_action(acts0, key) == spec_find_action(
                                actions@.map_values(|a: Action| a@),
                                key,
                            ),
                        ensures
                            match spec_find_action(acts0, key) {
                                Some(av) => found matches Some(a) && a@ == av,
                                None => found is None,
                            },
                        decreases actions@.len(),
                    {
                        let ghost rv = actions@.map_values(|a: Action| a@);
                        let a = actions.remove(0);
                        proof {
                            assert(rv[0] == a@);
                            assert(actions@.map_values(|aa: Action| aa@) =~= rv.drop_first());
                        }
                        if a.key() == key {
                            found = Some(a);
                            break;
                        }
                    }
                    match found {
                        Some(Action::NavAction(_, _, p)) => {
                            gui.append_nav(p);
                        },
                        Some(Action::BackAction(_, _)) => {
                            gui.back_in_nav();
                        },
                        Some(Action::DockerMessageAction(_, _, m)) => {
                            let ghost mv0 = m@;
                            msgs.push(m);
                            proof {
                                assert(msgs@.map_values(|mm: DockerMessage| mm@) =~= qv.push(mv0));
                            }
                        },
                        Some(Action::NavAndDockerMessageAction(_, _, p, m)) => {
                            gui.append_nav(p);
                            let ghost mv0 = m@;
                            msgs.push(m);
                            proof {
                                assert(msgs@.map_values(|mm: DockerMessage| mm@) =~= qv.push(mv0));
                            }
                        },
                        None => {},
                    }
                },
            }
        }
    }
    (msgs, force_quit)
}

/// Sort the containers by the given header through the tri-state cycle.
pub fn sort(app: &mut AppData, selected_header: Header)
    requires
        old(app).wf(),
    ensures
        final(app).container_data@ == crate::app_data::container_data::spec_set_sorted(
            old(app).container_data@,
            crate::app_data::container_data::spec_sort_cycle(
                old(app).container_data@.sorted,
                selected_header,
            ),
        ),
        final(app).error == old(app).error,
        final(app).args == old(app).args,
        final(app).wf(),
    {
    app.container_data.set_sort_by_header(selected_header);
}

} // verus!
