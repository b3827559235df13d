//! Panel navigation targets and the per-panel, state-dependent action
//! tables: which labelled keys are offered for the selected container,
//! and what each one does.

use crate::app_data::container_state::State;
use crate::app_data::AppData;
use crate::docker_data::{DockerMessage, MsgV};
use crate::input_handler::KeyCode;
use crate::ui::gui_state::GuiState;
use vstd::prelude::*;

verus! {

/// The content panes the navigation stack can show.
#[derive(Debug, Clone, Copy, PartialEq, Eq, Structural)]
pub enum NavPanel {
    Containers,
    Logs,
    Metrics,
    Info,
}

impl NavPanel {
    /// The heading of this pane.
    pub fn title(self) -> (r: &'static str)
        ensures
            r@ == match self {
                NavPanel::Containers => "Containers"@,
                NavPanel::Logs => "Logs"@,
                NavPanel::Metrics => "Metrics"@,
                NavPanel::Info => "Infos"@,
            },
    {
        match self {
            NavPanel::Containers => "Containers",
            NavPanel::Logs => "Logs",
            NavPanel::Metrics => "Metrics",
            NavPanel::Info => "Infos",
        }
    }
}

/// One entry of an action table: a label, the key that triggers it, and
/// what it does — navigate, go back, send a runtime command, or both
/// navigate and send.
#[derive(Debug)]
pub enum Action {
    NavAction(String, KeyCode, NavPanel),
    BackAction(String, KeyCode),
    DockerMessageAction(String, KeyCode, DockerMessage),
    NavAndDockerMessageAction(String, KeyCode, NavPanel, DockerMessage),
}

/// The observable content of one action.
pub enum ActionV {
    NavAction(Seq<char>, KeyCode, NavPanel),
    BackAction(Seq<char>, KeyCode),
    DockerMessageAction(Seq<char>, KeyCode, MsgV),
    NavAndDockerMessageAction(Seq<char>, KeyCode, NavPanel, MsgV),
}

impl View for Action {
    type V = ActionV;

    open spec fn view(&self) -> ActionV {
        match self {
            Action::NavAction(l, k, p) => ActionV::NavAction(l@, *k, *p),
            Action::BackAction(l, k) => ActionV::BackAction(l@, *k),
            Action::DockerMessageAction(l, k, m) => ActionV::DockerMessageAction(l@, *k, m@),
            Action::NavAndDockerMessageAction(l, k, p, m) => ActionV::NavAndDockerMessageAction(
                l@,
                *k,
                *p,
                m@,
            ),
        }
    }
}

/// The label of an action.
pub open spec fn spec_action_label(a: ActionV) -> Seq<char> {
    match a {
        ActionV::NavAction(l, _, _) => l,
        ActionV::BackAction(l, _) => l,
        ActionV::DockerMessageAction(l, _, _) => l,
        ActionV::NavAndDockerMessageAction(l, _, _, _) => l,
    }
}

/// The key that triggers an action.
pub open spec fn spec_action_key(a: ActionV) -> KeyCode {
    match a {
        ActionV::NavAction(_, k, _) => k,
        ActionV::BackAction(_, k) => k,
        ActionV::DockerMessageAction(_, k, _) => k,
        ActionV::NavAndDockerMessageAction(_, k, _, _) => k,
    }
}

impl Action {
    /// The label shown for this action.
    pub fn label(&self) -> (r: &str)
        ensures
            r@ == spec_action_label(self@),
    {
        match self {
            Action::NavAction(label, _, _) => label.as_str(),
            Action::BackAction(label, _) => label.as_str(),
            Action::DockerMessageAction(label, _, _) => label.as_str(),
            Action::NavAndDockerMessageAction(label, _, _, _) => label.as_str(),
        }
    }

    /// The key that triggers this action.
    pub fn key(&self) -> (r: KeyCode)
        ensures
            r == spec_action_key(self@),
    {
        match self {
            Action::NavAction(_, k, _) => *k,
            Action::BackAction(_, k) => *k,
            Action::DockerMessageAction(_, k, _) => *k,
            Action::NavAndDockerMessageAction(_, k, _, _) => *k,
        }
    }
}

/// The state and identifier of the selected container, the inputs the
/// action tables depend on.
pub open spec fn spec_sel_state(r: crate::app_data::container_data::RegV) -> Option<
    (State, Seq<char>),
> {
    match r.sel {
        Some(s) => if (s as int) < r.items.len() {
            Some((r.items[s as int].state, r.items[s as int].id))
        } else {
            None
        },
        None => None,
    }
}

/// The first table: navigation actions for the containers pane, a back
/// action everywhere else.
pub open spec fn spec_actions_0(
    panel: NavPanel,
    sel: Option<(State, Seq<char>)>,
) -> Seq<ActionV> {
    match panel {
        NavPanel::Containers => match sel {
            Some((st, id)) => if st == State::Running {
                seq![
                    ActionV::NavAction("(l) Logs"@, KeyCode::Char('l'), NavPanel::Logs),
                    ActionV::NavAndDockerMessageAction(
                        "(i) Info"@,
                        KeyCode::Char('i'),
                        NavPanel::Info,
                        MsgV::InfosContainer(id),
                    ),
                    ActionV::NavAction("(m) Metrics"@, KeyCode::Char('m'), NavPanel::Metrics),
                    ActionV::DockerMessageAction(
                        "(s) Shell"@,
                        KeyCode::Char('s'),
                        MsgV::ShellContainer(id),
                    ),
                ]
            } else {
                seq![
                    ActionV::NavAction("(l) Logs"@, KeyCode::Char('l'), NavPanel::Logs),
                    ActionV::NavAndDockerMessageAction(
                        "(i) Info"@,
                        KeyCode::Char('i'),
                        NavPanel::Info,
                        MsgV::InfosContainer(id),
                    ),
                ]
            },
            None => Seq::<ActionV>::empty(),
        },
        _ => seq![ActionV::BackAction("(Esc) back"@, KeyCode::Esc)],
    }
}

/// The second table: runtime commands for the selected container,
/// withheld while a fetch is in flight; deletion always goes through
/// the confirm dialog.
pub open spec fn spec_actions_1(
    panel: NavPanel,
    loading: bool,
    sel: Option<(State, Seq<char>)>,
) -> Seq<ActionV> {
    match panel {
        NavPanel::Containers => if loading {
            Seq::<ActionV>::empty()
        } else {
            match sel {
                Some((st, id)) => if st == State::Running {
                    seq![
                        ActionV::DockerMessageAction(
                            "(r) Restart"@,
                            KeyCode::Char('r'),
                            MsgV::RestartContainer(id),
                        ),
                        ActionV::DockerMessageAction(
                            "(p) Pause"@,
                            KeyCode::Char('p'),
                            MsgV::PauseContainer(id),
                        ),
                        ActionV::DockerMessageAction(
                            "(x) Stop"@,
                            KeyCode::Char('x'),
                            MsgV::StopContainer(id),
                        ),
                        ActionV::DockerMessageAction(
                            "(X) Delete"@,
                            KeyCode::Char('X'),
                            MsgV::ConfirmDeleteContainer(id),
                        ),
                    ]
                } else if st == State::Dead || st == State::Exited {
                    seq![
                        ActionV::DockerMessageAction(
                            "(r) Run"@,
                            KeyCode::Char('r'),
                            MsgV::StartContainer(id),
                        ),
                        ActionV::DockerMessageAction(
                            "(X) Delete"@,
                            KeyCode::Char('X'),
                            MsgV::ConfirmDeleteContainer(id),
                        ),
                    ]
                } else if st == State::Paused {
                    seq![
                        ActionV::DockerMessageAction(
                            "(u) Unpause"@,
                            KeyCode::Char('u'),
                            MsgV::UnpauseContainer(id),
                        ),
                        ActionV::DockerMessageAction(
                            "(x) Stop"@,
                            KeyCode::Char('x'),
                            MsgV::StopContainer(id),
                        ),
                        ActionV::DockerMessageAction(
                            "(X) Delete"@,
                            KeyCode::Char('X'),
                            MsgV::ConfirmDeleteContainer(id),
                        ),
                    ]
                } else {
                    seq![
                        ActionV::DockerMessageAction(
                            "(X) Delete"@,
                            KeyCode::Char('X'),
                            MsgV::ConfirmDeleteContainer(id),
                        ),
                    ]
                },
                None => Seq::<ActionV>::empty(),
            }
        },
        _ => Seq::<ActionV>::empty(),
    }
}

/// The third table: reserved, currently empty for every pane.
pub open spec fn spec_actions_2(panel: NavPanel) -> Seq<ActionV> {
    Seq::<ActionV>::empty()
}

/// The whole action table of a pane.
pub open spec fn spec_actions(
    panel: NavPanel,
    loading: bool,
    sel: Option<(State, Seq<char>)>,
) -> Seq<ActionV> {
    spec_actions_0(panel, sel).add(spec_actions_1(panel, loading, sel)).add(
        spec_actions_2(panel),
    )
}

/// The first action a key triggers, in table order.
pub open spec fn spec_find_action(acts: Seq<ActionV>, key: KeyCode) -> Option<ActionV>
    decreases acts.len(),
{
    if acts.len() == 0 {
        None
    } else if spec_action_key(acts[0]) == key {
        Some(acts[0])
    } else {
        spec_find_action(acts.drop_first(), key)
    }
}

impl NavPanel {
    /// The navigation actions of this pane.
    pub fn actions_0(&self, gui_state: &GuiState, app_data: &AppData) -> (r: Vec<Action>)
        requires
            app_data.wf(),
        ensures
            r@.map_values(|a: Action| a@) == spec_actions_0(
                *self,
                spec_sel_state(app_data.container_data@),
            ),
    {
        let mut out: Vec<Action> = Vec::new();
        match self {
            NavPanel::Containers => {
                match app_data.container_data.get_selected_container() {
                    Some(selected_container) => {
                        out.push(
                            Action::NavAction(
                                String::from_str("(l) Logs"),
                                KeyCode::Char('l'),
                                NavPanel::Logs,
                            ),
                        );
                        out.push(
                            Action::NavAndDockerMessageAction(
                                String::from_str("(i) Info"),
                                KeyCode::Char('i'),
                                NavPanel::Info,
                                DockerMessage::InfosContainer(selected_container.id.clone()),
                            ),
                        );
                        if matches!(selected_container.state, State::Running) {
                            out.push(
                                Action::NavAction(
                                    String::from_str("(m) Metrics"),
                                    KeyCode::Char('m'),
                                    NavPanel::Metrics,
                                ),
                            );
                            out.push(
                                Action::DockerMessageAction(
                                    String::from_str("(s) Shell"),
                                    KeyCode::Char('s'),
                                    DockerMessage::ShellContainer(selected_container.id.clone()),
                                ),
                            );
                        }
                    },
                    None => {},
                }
            },
            _ => {
                out.push(Action::BackAction(String::from_str("(Esc) back"), KeyCode::Esc));
            },
        }
        proof {
            assert(out@.map_values(|a: Action| a@) =~= spec_actions_0(
                *self,
                spec_sel_state(app_data.container_data@),
            ));
        }
        out
    }

    /// The runtime-command actions of this pane.
    pub fn actions_1(&self, gui_state: &GuiState, app_data: &AppData) -> (r: Vec<Action>)
        requires
            app_data.wf(),
        ensures
            r@.map_values(|a: Action| a@) == spec_actions_1(
                *self,
                gui_state.is_loading@.len() > 0,
                spec_sel_state(app_data.container_data@),
            ),
    {
        let mut out: Vec<Action> = Vec::new();
        match self {
            NavPanel::Containers => {
                let loading = gui_state.is_loading();
                if !loading {
                    match app_data.container_data.get_selected_container() {
                        Some(selected_container) => {
                            match selected_container.state {
                                State::Running => {
                                    out.push(
                                        Action::DockerMessageAction(
                                            String::from_str("(r) Restart"),
                                            KeyCode::Char('r'),
                                            DockerMessage::RestartContainer(
                                                selected_container.id.clone(),
                                            ),
                                        ),
                                    );
                                    out.push(
                                        Action::DockerMessageAction(
                                            String::from_str("(p) Pause"),
                                            KeyCode::Char('p'),
                                            DockerMessage::PauseContainer(
                                                selected_container.id.clone(),
                                            ),
                                        ),
                                    );
                                    out.push(
                                        Action::DockerMessageAction(
                                            String::from_str("(x) Stop"),
                                            KeyCode::Char('x'),
                                            DockerMessage::StopContainer(
                                                selected_container.id.clone(),
                                            ),
                                        ),
                                    );
                                    out.push(
                                        Action::DockerMessageAction(
                                            String::from_str("(X) Delete"),
                                            KeyCode::Char('X'),
                                            DockerMessage::ConfirmDeleteContainer(
                                                selected_container.id.clone(),
                                            ),
                                        ),
                                    );
                                },
                                State::Dead | State::Exited => {
                                    out.push(
                                        Action::DockerMessageAction(
                                            String::from_str("(r) Run"),
                                            KeyCode::Char('r'),
                                            DockerMessage::StartContainer(
                                                selected_container.id.clone(),
                                            ),
                                        ),
                                    );
                                    out.push(
                                        Action::DockerMessageAction(
                                            String::from_str("(X) Delete"),
                                            KeyCode::Char('X'),
                                            DockerMessage::ConfirmDeleteContainer(
                                                selected_container.id.clone(),
                                            ),
                                        ),
                                    );
                                },
                                State::Paused => {
                                    out.push(
                                        Action::DockerMessageAction(
                                            String::from_str("(u) Unpause"),
                                            KeyCode::Char('u'),
                                            DockerMessage::UnpauseContainer(
                                                selected_container.id.clone(),
                                            ),
                                        ),
                                    );
                                    out.push(
                                        Action::DockerMessageAction(
                                            String::from_str("(x) Stop"),
                                            KeyCode::Char('x'),
                                            DockerMessage::StopContainer(
                                                selected_container.id.clone(),
                                            ),
                                        ),
                                    );
                                    out.push(
                                        Action::DockerMessageAction(
                                            String::from_str("(X) Delete"),
                                            KeyCode::Char('X'),
                                            DockerMessage::ConfirmDeleteContainer(
                                                selected_container.id.clone(),
                                            ),
                                        ),
                                    );
                                },
                                _ => {
                                    out.push(
                                        Action::DockerMessageAction(
                                            String::from_str("(X) Delete"),
                                            KeyCode::Char('X'),
                                            DockerMessage::ConfirmDeleteContainer(
                                                selected_container.id.clone(),
                                            ),
                                        ),
                                    );
                                },
                            }
                        },
                        None => {},
                    }
                }
            },
            _ => {},
        }
        proof {
            assert(out@.map_values(|a: Action| a@) =~= spec_actions_1(
                *self,
                gui_state.is_loading@.len() > 0,
                spec_sel_state(app_data.container_data@),
            ));
        }
        out
    }

    /// The reserved third table of this pane, currently empty.
    pub fn actions_2(&self, gui_state: &GuiState, app_data: &AppData) -> (r: Vec<Action>)
        ensures
            r@.map_values(|a: Action| a@) == spec_actions_2(*self),
    {
        let out: Vec<Action> = Vec::new();
        proof {
            assert(out@.map_values(|a: Action| a@) =~= spec_actions_2(*self));
        }
        out
    }

    /// The whole action table of this pane.
    pub fn all_actions(&self, gui_state: &GuiState, app_data: &AppData) -> (r: Vec<Action>)
        requires
            app_data.wf(),
        ensures
            r@.map_values(|a: Action| a@) == spec_actions(
                *self,
                gui_state.is_loading@.len() > 0,
                spec_sel_state(app_data.container_data@),
            ),
    {
        let mut out = self.actions_0(gui_state, app_data);
        let ghost v0 = out@.map_values(|a: Action| a@);
        let mut a1 = self.actions_1(gui_state, app_data);
        let ghost v1 = a1@.map_values(|a: Action| a@);
        out.append(&mut a1);
        proof {
            assert(out@.map_values(|a: Action| a@) =~= v0.add(v1));
        }
        let mut a2 = self.actions_2(gui_state, app_data);
        let ghost v2 = a2@.map_values(|a: Action| a@);
        let ghost v01 = out@.map_values(|a: Action| a@);
        out.append(&mut a2);
        proof {
            assert(out@.map_values(|a: Action| a@) =~= v01.add(v2));
        }
        out
    }
}

} // verus!
