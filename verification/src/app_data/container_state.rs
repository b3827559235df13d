//! Per-container data model: identifiers, lifecycle states, the
//! state-dependent control list, bounded numeric history windows, byte and
//! CPU statistics with their textual rendering, deduplicated log buffers,
//! and the selectable-list machinery shared by every scrollable panel.

use crate::app_data::container_data::Header;
use crate::text::{fmt_u64, fmt_u64_pad2, spec_dec, spec_dec2, str_eq};
use std::collections::VecDeque;
use vstd::prelude::*;

verus! {

/// Opaque, comparable identifier of one container; unique within the
/// registry.
#[derive(Debug)]
pub struct ContainerId(String);

impl View for ContainerId {
    type V = Seq<char>;

    closed spec fn view(&self) -> Seq<char> {
        self.0@
    }
}

impl Clone for ContainerId {
    /// Clones keep the identifier.
    fn clone(&self) -> (r: Self)
        ensures
            r@ == self@,
    {
        ContainerId(self.0.clone())
    }
}

impl ContainerId {
    /// Wrap an identifier string.
    pub fn new(id: String) -> (r: Self)
        ensures
            r@ == id@,
    {
        ContainerId(id)
    }

    /// The identifier as a string slice.
    pub fn get(&self) -> (r: &str)
        ensures
            r@ == self@,
    {
        self.0.as_str()
    }

    /// Character-exact equality of two identifiers.
    pub fn same_as(&self, other: &ContainerId) -> (r: bool)
        ensures
            r == (self@ == other@),
    {
        self.0 == other.0
    }

    /// Equality against a plain identifier string.
    pub fn matches_str(&self, other: &str) -> (r: bool)
        ensures
            r == (self@ == other@),
    {
        str_eq(self.0.as_str(), other)
    }
}

/// Lifecycle state of a container, as reported by the runtime.
#[derive(Debug, Clone, Copy, PartialEq, Eq, Structural)]
pub enum State {
    Dead,
    Exited,
    Paused,
    Removing,
    Restarting,
    Running,
    Unknown,
}

/// The display precedence of each state, ascending from the healthiest;
/// the sort engine orders by this value.
pub open spec fn spec_state_order(s: State) -> int {
    match s {
        State::Running => 0,
        State::Paused => 1,
        State::Restarting => 2,
        State::Removing => 3,
        State::Exited => 4,
        State::Dead => 5,
        State::Unknown => 6,
    }
}

/// The state named by a runtime state string; anything unrecognised maps
/// to `Unknown`.
pub open spec fn spec_state_from(s: Seq<char>) -> State {
    if s == "dead"@ {
        State::Dead
    } else if s == "exited"@ {
        State::Exited
    } else if s == "paused"@ {
        State::Paused
    } else if s == "removing"@ {
        State::Removing
    } else if s == "restarting"@ {
        State::Restarting
    } else if s == "running"@ {
        State::Running
    } else {
        State::Unknown
    }
}

/// The text shown for each state.
pub open spec fn spec_state_display(s: State) -> Seq<char> {
    match s {
        State::Dead => "\u{2716} dead"@,
        State::Exited => "\u{2716} exited"@,
        State::Paused => "\u{0965} paused"@,
        State::Removing => "removing"@,
        State::Restarting => "\u{21bb} restarting"@,
        State::Running => "\u{2713} running"@,
        State::Unknown => "? unknown"@,
    }
}

impl State {
    /// Display precedence, ascending health order.
    pub fn order(self) -> (r: u8)
        ensures
            r as int == spec_state_order(self),
    {
        match self {
            State::Running => 0,
            State::Paused => 1,
            State::Restarting => 2,
            State::Removing => 3,
            State::Exited => 4,
            State::Dead => 5,
            State::Unknown => 6,
        }
    }

    /// Parse a runtime state string.
    pub fn from_str(input: &str) -> (r: Self)
        ensures
            r == spec_state_from(input@),
    {
        if str_eq(input, "dead") {
            State::Dead
        } else if str_eq(input, "exited") {
            State::Exited
        } else if str_eq(input, "paused") {
            State::Paused
        } else if str_eq(input, "removing") {
            State::Removing
        } else if str_eq(input, "restarting") {
            State::Restarting
        } else if str_eq(input, "running") {
            State::Running
        } else {
            State::Unknown
        }
    }

    /// The text shown for this state.
    pub fn display(self) -> (r: String)
        ensures
            r@ == spec_state_display(self),
    {
        let lit: &str = match self {
            State::Dead => "\u{2716} dead",
            State::Exited => "\u{2716} exited",
            State::Paused => "\u{0965} paused",
            State::Removing => "removing",
            State::Restarting => "\u{21bb} restarting",
            State::Running => "\u{2713} running",
            State::Unknown => "? unknown",
        };
        lit.to_owned()
    }
}

/// Commands that can be offered for a container.
#[derive(Debug, Clone, Copy, PartialEq, Eq, Structural)]
pub enum DockerControls {
    Pause,
    Restart,
    Start,
    Stop,
    Unpause,
    Delete,
}

/// The control list derived from a container's state.
pub open spec fn spec_controls_for(state: State) -> Seq<DockerControls> {
    match state {
        State::Dead | State::Exited => seq![
            DockerControls::Start,
            DockerControls::Restart,
            DockerControls::Delete,
        ],
        State::Paused => seq![DockerControls::Unpause, DockerControls::Stop, DockerControls::Delete],
        State::Restarting => seq![DockerControls::Stop, DockerControls::Delete],
        State::Running => seq![
            DockerControls::Pause,
            DockerControls::Restart,
            DockerControls::Stop,
            DockerControls::Delete,
        ],
        _ => seq![DockerControls::Delete],
    }
}

/// The text shown for each control.
pub open spec fn spec_control_display(c: DockerControls) -> Seq<char> {
    match c {
        DockerControls::Pause => "pause"@,
        DockerControls::Delete => "delete"@,
        DockerControls::Restart => "restart"@,
        DockerControls::Start => "start"@,
        DockerControls::Stop => "stop"@,
        DockerControls::Unpause => "unpause"@,
    }
}

impl DockerControls {
    /// Commands available for a container in the given state.
    pub fn gen_vec(state: State) -> (r: Vec<Self>)
        ensures
            r@ == spec_controls_for(state),
    {
        let mut v: Vec<DockerControls> = Vec::new();
        match state {
            State::Dead | State::Exited => {
                v.push(DockerControls::Start);
                v.push(DockerControls::Restart);
                v.push(DockerControls::Delete);
            },
            State::Paused => {
                v.push(DockerControls::Unpause);
                v.push(DockerControls::Stop);
                v.push(DockerControls::Delete);
            },
            State::Restarting => {
                v.push(DockerControls::Stop);
                v.push(DockerControls::Delete);
            },
            State::Running => {
                v.push(DockerControls::Pause);
                v.push(DockerControls::Restart);
                v.push(DockerControls::Stop);
                v.push(DockerControls::Delete);
            },
            _ => {
                v.push(DockerControls::Delete);
            },
        }
        proof {
            assert(v@ =~= spec_controls_for(state));
        }
        v
    }

    /// The text shown for this control.
    pub fn display(self) -> (r: String)
        ensures
            r@ == spec_control_display(self),
    {
        let lit: &str = match self {
            DockerControls::Pause => "pause",
            DockerControls::Delete => "delete",
            DockerControls::Restart => "restart",
            DockerControls::Start => "start",
            DockerControls::Stop => "stop",
            DockerControls::Unpause => "unpause",
        };
        lit.to_owned()
    }
}

/// A CPU usage sample in hundredths of a percent, so that `12.50%` is
/// stored as `1250`. Two samples count as equal only within one
/// hundredth of a percent, the display precision; at this resolution
/// that tolerance coincides with exact integer equality, so the order
/// on samples is total.
#[derive(Debug, Clone, Copy, PartialEq, Eq, Structural)]
pub struct CpuStats(pub u64);

/// A CPU sample rendered as a percentage with two decimals, the whole
/// part zero-padded to two digits.
pub open spec fn spec_cpu_display(h: int) -> Seq<char> {
    spec_dec2(h / 100).add("."@).add(spec_dec2(h % 100)).add("%"@)
}

impl CpuStats {
    /// Wrap a sample given in hundredths of a percent.
    pub fn new(value: u64) -> (r: Self)
        ensures
            r.0 == value,
    {
        CpuStats(value)
    }

    /// The sample in hundredths of a percent.
    pub fn get_value(&self) -> (r: u64)
        ensures
            r == self.0,
    {
        self.0
    }

    /// Render as a percentage, e.g. `02.50%`.
    pub fn display(&self) -> (r: String)
        ensures
            r@ == spec_cpu_display(self.0 as int),
    {
        let mut out = fmt_u64_pad2(self.0 / 100);
        out.append(".");
        let frac = fmt_u64_pad2(self.0 % 100);
        out.append(frac.as_str());
        out.append("%");
        out
    }
}

/// A byte quantity (memory or network counters) with exact integer
/// ordering, rendered in kB, MB or GB.
#[derive(Debug, Clone, Copy, PartialEq, Eq, Structural)]
pub struct ByteStats(pub u64);

/// A number of hundredths rendered with two decimals, e.g. `250` as
/// `2.50`.
pub open spec fn spec_hundredths_display(h: int) -> Seq<char> {
    spec_dec(h / 100).add("."@).add(spec_dec2(h % 100))
}

/// Bytes rendered with two decimals in the largest fitting unit of kB,
/// MB or GB, the fraction truncated.
pub open spec fn spec_byte_display(v: int) -> Seq<char> {
    if v >= 1_000_000_000 {
        spec_hundredths_display(v / 10_000_000).add(" GB"@)
    } else if v >= 1_000_000 {
        spec_hundredths_display(v / 10_000).add(" MB"@)
    } else {
        spec_hundredths_display(v / 10).add(" kB"@)
    }
}

impl ByteStats {
    /// Wrap a byte count.
    pub fn new(value: u64) -> (r: Self)
        ensures
            r.0 == value,
    {
        ByteStats(value)
    }

    /// Overwrite the byte count.
    pub fn update(&mut self, value: u64)
        ensures
            final(self).0 == value,
    {
        self.0 = value;
    }

    /// The byte count.
    pub fn get_value(&self) -> (r: u64)
        ensures
            r == self.0,
    {
        self.0
    }

    /// Render as kB, MB or GB with two decimals, e.g. `4.00 GB`.
    pub fn display(&self) -> (r: String)
        ensures
            r@ == spec_byte_display(self.0 as int),
    {
        let v = self.0;
        let (hundredths, unit): (u64, &str) = if v >= 1_000_000_000 {
            (v / 10_000_000, " GB")
        } else if v >= 1_000_000 {
            (v / 10_000, " MB")
        } else {
            (v / 10, " kB")
        };
        let mut out = fmt_u64(hundredths / 100);
        out.append(".");
        let frac = fmt_u64_pad2(hundredths % 100);
        out.append(frac.as_str());
        out.append(unit);
        out
    }
}

/// Capacity of every bounded history window.
pub const WINDOW_CAPACITY: usize = 60;

/// One step of the bounded window: append, evicting the oldest entry when
/// the window is full.
pub open spec fn spec_window_push(w: Seq<u64>, v: u64) -> Seq<u64> {
    if w.len() < 60 {
        w.push(v)
    } else {
        w.subrange(1, w.len() as int).push(v)
    }
}

/// The most recent entry, or zero for an empty window.
pub open spec fn spec_last_or_zero(w: Seq<u64>) -> u64 {
    if w.len() == 0 {
        0
    } else {
        w.last()
    }
}

/// The largest entry, or zero for an empty window.
pub open spec fn spec_window_max(w: Seq<u64>) -> u64
    decreases w.len(),
{
    if w.len() == 0 {
        0
    } else if w.last() >= spec_window_max(w.drop_last()) {
        w.last()
    } else {
        spec_window_max(w.drop_last())
    }
}

/// Fixed-capacity FIFO history of numeric samples used for charting.
#[derive(Debug)]
pub struct StatsWindow {
    items: VecDeque<u64>,
}

impl View for StatsWindow {
    type V = Seq<u64>;

    closed spec fn view(&self) -> Seq<u64> {
        self.items@
    }
}

impl StatsWindow {
    /// The window never holds more than its capacity.
    pub open spec fn wf(&self) -> bool {
        self@.len() <= 60
    }

    /// An empty window.
    pub fn new() -> (r: Self)
        ensures
            r@ == Seq::<u64>::empty(),
            r.wf(),
    {
        StatsWindow { items: VecDeque::with_capacity(WINDOW_CAPACITY) }
    }

    /// Append a sample, evicting the oldest when full.
    pub fn push(&mut self, v: u64)
        requires
            old(self).wf(),
        ensures
            final(self)@ == spec_window_push(old(self)@, v),
            final(self).wf(),
    {
        if self.items.len() >= WINDOW_CAPACITY {
            self.items.pop_front();
        }
        self.items.push_back(v);
    }

    /// Drop the oldest sample when the window is at capacity, as the
    /// stats update does before deciding whether a new sample arrived.
    pub fn evict_if_full(&mut self)
        ensures
            final(self)@ == if old(self)@.len() >= 60 {
                old(self)@.drop_first()
            } else {
                old(self)@
            },
            final(self)@.len() < 60 || final(self)@.len() == old(self)@.len() - 1,
    {
        if self.items.len() >= WINDOW_CAPACITY {
            self.items.pop_front();
            proof {
                assert(self@ =~= old(self)@.drop_first());
            }
        }
    }

    /// Number of stored samples.
    pub fn len(&self) -> (r: usize)
        ensures
            r == self@.len(),
    {
        self.items.len()
    }

    /// Whether no sample is stored.
    pub fn is_empty(&self) -> (r: bool)
        ensures
            r == (self@.len() == 0),
    {
        self.items.len() == 0
    }

    /// The most recent sample, or zero when empty.
    pub fn last_or_zero(&self) -> (r: u64)
        ensures
            r == spec_last_or_zero(self@),
    {
        let n = self.items.len();
        if n == 0 {
            0
        } else {
            self.items[n - 1]
        }
    }

    /// The largest sample, or zero when empty.
    pub fn max_or_zero(&self) -> (r: u64)
        ensures
            r == spec_window_max(self@),
    {
        let mut best: u64 = 0;
        let n = self.items.len();
        let mut i: usize = 0;
        while i < n
            invariant
                n == self@.len(),
                i <= n,
                best == spec_window_max(self@.subrange(0, i as int)),
            decreases n - i,
        {
            proof {
                assert(self@.subrange(0, i + 1).drop_last() =~= self@.subrange(0, i as int));
                assert(self@.subrange(0, i + 1).last() == self@[i as int]);
            }
            let v = self.items[i];
            if v >= best {
                best = v;
            }
            i += 1;
        }
        proof {
            assert(self@.subrange(0, n as int) =~= self@);
        }
        best
    }

    /// The samples paired with their chart x-coordinate: entry `i` becomes
    /// `(i, value)`.
    pub fn dataset(&self) -> (r: Vec<(u64, u64)>)
        ensures
            r@.len() == self@.len(),
            forall|i: int|
                0 <= i < self@.len() ==> r@[i] == (i as u64, self@[i]),
    {
        let mut out: Vec<(u64, u64)> = Vec::new();
        let n = self.items.len();
        let mut i: usize = 0;
        while i < n
            invariant
                n == self@.len(),
                n <= usize::MAX,
                i <= n,
                out@.len() == i,
                forall|j: int| 0 <= j < i ==> out@[j] == (j as u64, self@[j]),
            decreases n - i,
        {
            out.push((i as u64, self.items[i]));
            i += 1;
        }
        out
    }
}

/// Repeated bounded-window pushes, oldest first.
pub open spec fn spec_window_fold(w: Seq<u64>, ps: Seq<u64>) -> Seq<u64>
    decreases ps.len(),
{
    if ps.len() == 0 {
        w
    } else {
        spec_window_fold(spec_window_push(w, ps[0]), ps.drop_first())
    }
}

/// Selection cursor of a scrollable list.
#[derive(Debug, Clone, Copy, PartialEq, Eq, Structural)]
pub struct ListState {
    pub selected: Option<usize>,
}

impl ListState {
    /// A cursor with nothing selected.
    pub fn new() -> (r: Self)
        ensures
            r.selected is None,
    {
        ListState { selected: None }
    }

    /// Move the cursor.
    pub fn select(&mut self, idx: Option<usize>)
        ensures
            final(self).selected == idx,
    {
        self.selected = idx;
    }

    /// The current cursor position.
    pub fn selected(&self) -> (r: Option<usize>)
        ensures
            r == self.selected,
    {
        self.selected
    }
}

/// A list of items together with a selection cursor; every scrollable
/// panel (containers, logs, controls, info) is one of these.
#[derive(Debug)]
pub struct StatefulList<T> {
    pub state: ListState,
    pub items: Vec<T>,
}

impl<T> StatefulList<T> {
    /// The cursor, when set, points inside the list.
    pub open spec fn wf(&self) -> bool {
        self.state.selected matches Some(i) ==> (i as int) < self.items@.len()
    }

    /// A list over the given items with nothing selected.
    pub fn new(items: Vec<T>) -> (r: Self)
        ensures
            r.items@ == items@,
            r.state.selected is None,
            r.wf(),
    {
        StatefulList { state: ListState::new(), items }
    }

    /// Select the last item; nothing changes on an empty list.
    pub fn end(&mut self)
        ensures
            final(self).items@ == old(self).items@,
            final(self).state.selected == if old(self).items@.len() > 0 {
                Some((old(self).items@.len() - 1) as usize)
            } else {
                old(self).state.selected
            },
            old(self).wf() ==> final(self).wf(),
    {
        let len = self.items.len();
        if len > 0 {
            self.state.select(Some(len - 1));
        }
    }

    /// Select the first item; nothing changes on an empty list.
    pub fn start(&mut self)
        ensures
            final(self).items@ == old(self).items@,
            final(self).state.selected == if old(self).items@.len() > 0 {
                Some(0usize)
            } else {
                old(self).state.selected
            },
            old(self).wf() ==> final(self).wf(),
    {
        if self.items.len() > 0 {
            self.state.select(Some(0));
        }
    }

    /// Move the cursor one item down, clamping at the end; an unset
    /// cursor moves to the first item.
    pub fn next(&mut self)
        requires
            old(self).wf(),
        ensures
            final(self).items@ == old(self).items@,
            final(self).wf(),
            final(self).state.selected == if old(self).items@.len() == 0 {
                old(self).state.selected
            } else {
                match old(self).state.selected {
                    Some(i) => if (i as int) < old(self).items@.len() - 1 {
                        Some((i + 1) as usize)
                    } else {
                        Some(i)
                    },
                    None => Some(0usize),
                }
            },
    {
        if self.items.len() > 0 {
            let i = match self.state.selected() {
                Some(i) => if i < self.items.len() - 1 {
                    i + 1
                } else {
                    i
                },
                None => 0,
            };
            self.state.select(Some(i));
        }
    }

    /// Move the cursor one item up, clamping at the start; an unset
    /// cursor moves to the first item.
    pub fn previous(&mut self)
        requires
            old(self).wf(),
        ensures
            final(self).items@ == old(self).items@,
            final(self).wf(),
            final(self).state.selected == if old(self).items@.len() == 0 {
                old(self).state.selected
            } else {
                match old(self).state.selected {
                    Some(i) => if i == 0 {
                        Some(0usize)
                    } else {
                        Some((i - 1) as usize)
                    },
                    None => Some(0usize),
                }
            },
    {
        if self.items.len() > 0 {
            let i = match self.state.selected() {
                Some(i) => if i == 0 {
                    0
                } else {
                    i - 1
                },
                None => 0,
            };
            self.state.select(Some(i));
        }
    }

    /// The current position of the cursor, e.g. `2/5`; empty for an
    /// empty list.
    pub fn get_state_title(&self) -> (r: String)
        requires
            self.wf(),
        ensures
            r@ == spec_state_title(self.items@.len() as int, self.state.selected),
    {
        if self.items.len() == 0 {
            String::new()
        } else {
            let c: u64 = match self.state.selected() {
                Some(v) => (v as u64) + 1,
                None => 0,
            };
            let mut out = fmt_u64(c);
            out.append("/");
            let len_str = fmt_u64(self.items.len() as u64);
            out.append(len_str.as_str());
            out
        }
    }
}

/// The `cursor/length` caption of a list: empty when the list is empty,
/// else the one-based cursor (zero when unset) over the length.
pub open spec fn spec_state_title(len: int, selected: Option<usize>) -> Seq<char> {
    if len == 0 {
        Seq::<char>::empty()
    } else {
        let c: int = match selected {
            Some(v) => v + 1,
            None => 0,
        };
        spec_dec(c).add("/"@).add(spec_dec(len))
    }
}

/// The leading timestamp token of a raw log line: everything up to and
/// including the first space, or the whole line if it has no space.
pub open spec fn spec_tz_prefix(s: Seq<char>) -> Seq<char>
    decreases s.len(),
{
    if s.len() == 0 {
        s
    } else if s[0] == ' ' {
        seq![' ']
    } else {
        seq![s[0]].add(spec_tz_prefix(s.drop_first()))
    }
}

proof fn lemma_tz_prefix_at(s: Seq<char>, i: int)
    requires
        0 <= i < s.len(),
        s[i] == ' ',
        forall|j: int| 0 <= j < i ==> s[j] != ' ',
    ensures
        spec_tz_prefix(s) == s.subrange(0, i + 1),
    decreases i,
{
    if i == 0 {
        assert(spec_tz_prefix(s) =~= s.subrange(0, 1));
    } else {
        let t = s.drop_first();
        assert(t =~= s.subrange(1, s.len() as int));
        lemma_tz_prefix_at(t, i - 1);
        assert(seq![s[0]].add(t.subrange(0, i)) =~= s.subrange(0, i + 1));
    }
}

proof fn lemma_tz_prefix_whole(s: Seq<char>)
    requires
        forall|j: int| 0 <= j < s.len() ==> s[j] != ' ',
    ensures
        spec_tz_prefix(s) == s,
    decreases s.len(),
{
    if s.len() > 0 {
        let t = s.drop_first();
        lemma_tz_prefix_whole(t);
        assert(seq![s[0]].add(t) =~= s);
    }
}

/// The timestamp token is never longer than its line.
pub proof fn lemma_tz_prefix_len(s: Seq<char>)
    ensures
        spec_tz_prefix(s).len() <= s.len(),
    decreases s.len(),
{
    if s.len() > 0 && s[0] != ' ' {
        lemma_tz_prefix_len(s.drop_first());
    }
}

/// The timestamp token that makes a log line unique within one
/// container's log store.
#[derive(Debug)]
pub struct LogsTz(String);

impl View for LogsTz {
    type V = Seq<char>;

    closed spec fn view(&self) -> Seq<char> {
        self.0@
    }
}

impl Clone for LogsTz {
    /// Clones keep the token.
    fn clone(&self) -> (r: Self)
        ensures
            r@ == self@,
    {
        LogsTz(self.0.clone())
    }
}

impl LogsTz {
    /// Extract the leading timestamp token of a raw log line.
    pub fn from_line(line: &String) -> (r: Self)
        ensures
            r@ == spec_tz_prefix(line@),
    {
        let s = line.as_str();
        let n = s.unicode_len();
        match crate::text::find_space(s) {
            Some(i) => {
                proof {
                    lemma_tz_prefix_at(line@, i as int);
                }
                let cut = s.substring_char(0, i + 1);
                LogsTz(cut.to_owned())
            },
            None => {
                proof {
                    lemma_tz_prefix_whole(line@);
                }
                LogsTz(line.clone())
            },
        }
    }

    /// The number of characters in the token.
    pub fn char_len(&self) -> (r: usize)
        ensures
            r == self@.len(),
    {
        self.0.as_str().unicode_len()
    }
}

/// The observable state of one log store: the displayed lines, the set
/// of timestamp tokens already seen (as the sequence they arrived in),
/// and the cursor.
pub struct LogsV {
    pub lines: Seq<Seq<char>>,
    pub seen: Seq<Seq<char>>,
    pub sel: Option<usize>,
}

/// Whether `t` already occurs among the seen tokens.
pub open spec fn spec_seen_contains(seen: Seq<Seq<char>>, t: Seq<char>) -> bool {
    exists|i: int| 0 <= i < seen.len() && seen[i] == t
}

/// One log insertion: a no-op when the token was already seen, else the
/// line and token are appended and the cursor is untouched.
pub open spec fn spec_logs_insert(l: LogsV, line: Seq<char>, tz: Seq<char>) -> LogsV {
    if spec_seen_contains(l.seen, tz) {
        l
    } else {
        LogsV { lines: l.lines.push(line), seen: l.seen.push(tz), sel: l.sel }
    }
}

/// Ordered, deduplicated buffer of rendered log lines for one container:
/// a line is stored only if its leading timestamp token was never seen
/// before.
#[derive(Debug)]
pub struct Logs {
    logs: StatefulList<String>,
    tz: Vec<String>,
}

impl View for Logs {
    type V = LogsV;

    closed spec fn view(&self) -> LogsV {
        LogsV {
            lines: self.logs.items@.map_values(|s: String| s@),
            seen: self.tz@.map_values(|s: String| s@),
            sel: self.logs.state.selected,
        }
    }
}

/// Stored lines and seen tokens correspond one to one, no token repeats,
/// and the cursor points inside the lines.
pub open spec fn logs_wf(l: LogsV) -> bool {
    &&& l.lines.len() == l.seen.len()
    &&& (forall|i: int, j: int| 0 <= i < j < l.seen.len() ==> l.seen[i] != l.seen[j])
    &&& (l.sel matches Some(k) ==> (k as int) < l.lines.len())
}

impl Logs {
    /// Stored lines and seen tokens correspond one to one, no token
    /// repeats, and the cursor points inside the lines.
    pub open spec fn wf(&self) -> bool {
        logs_wf(self@)
    }

    /// An empty log store.
    pub fn new() -> (r: Self)
        ensures
            r@.lines == Seq::<Seq<char>>::empty(),
            r@.seen == Seq::<Seq<char>>::empty(),
            r@.sel is None,
            r.wf(),
    {
        let r = Logs { logs: StatefulList::new(Vec::new()), tz: Vec::new() };
        proof {
            assert(r@.lines =~= Seq::<Seq<char>>::empty());
            assert(r@.seen =~= Seq::<Seq<char>>::empty());
        }
        r
    }

    /// Log dedup law: insert a line only if its timestamp token was
    /// never seen; a second line with the same token leaves the store
    /// unchanged, so the first line stored for a token is the one kept.
    pub fn insert(&mut self, line: String, tz: LogsTz)
        requires
            old(self).wf(),
        ensures
            final(self)@ == spec_logs_insert(old(self)@, line@, tz@),
            final(self).wf(),
    {
        let mut found = false;
        let n = self.tz.len();
        let mut i: usize = 0;
        while i < n
            invariant
                n == self.tz@.len(),
                i <= n,
                found == exists|j: int| 0 <= j < i && self.tz@[j]@ == tz@,
            decreases n - i,
        {
            if str_eq(self.tz[i].as_str(), tz.0.as_str()) {
                found = true;
            }
            i += 1;
        }
        proof {
            let seen = self@.seen;
            assert(seen.len() == n);
            if found {
                let j = choose|j: int| 0 <= j < n && self.tz@[j]@ == tz@;
                assert(seen[j] == tz@);
            }
            if spec_seen_contains(seen, tz@) {
                let j = choose|j: int| 0 <= j < seen.len() && seen[j] == tz@;
                assert(self.tz@[j]@ == tz@);
            }
            assert(found == spec_seen_contains(self@.seen, tz@));
        }
        if !found {
            self.tz.push(tz.0);
            self.logs.items.push(line);
            proof {
                assert(self@.lines =~= old(self)@.lines.push(line@));
                assert(self@.seen =~= old(self)@.seen.push(tz@));
            }
        }
    }

    /// A copy of the stored lines.
    pub fn to_vec(&self) -> (r: Vec<String>)
        ensures
            r@.map_values(|s: String| s@) == self@.lines,
    {
        let mut out: Vec<String> = Vec::new();
        let n = self.logs.items.len();
        let mut i: usize = 0;
        while i < n
            invariant
                n == self.logs.items@.len(),
                i <= n,
                out@.len() == i,
                forall|j: int| 0 <= j < i ==> out@[j]@ == self.logs.items@[j]@,
            decreases n - i,
        {
            out.push(self.logs.items[i].clone());
            i += 1;
        }
        proof {
            assert(out@.map_values(|s: String| s@) =~= self@.lines);
        }
        out
    }

    /// The `cursor/length` caption of the log list.
    pub fn get_state_title(&self) -> (r: String)
        requires
            self.wf(),
        ensures
            r@ == spec_state_title(self@.lines.len() as int, self@.sel),
    {
        self.logs.get_state_title()
    }

    /// Move the cursor one line down, clamping at the end.
    pub fn next(&mut self)
        requires
            old(self).wf(),
        ensures
            final(self)@.lines == old(self)@.lines,
            final(self)@.seen == old(self)@.seen,
            final(self).wf(),
            final(self)@.sel == if old(self)@.lines.len() == 0 {
                old(self)@.sel
            } else {
                match old(self)@.sel {
                    Some(i) => if (i as int) < old(self)@.lines.len() - 1 {
                        Some((i + 1) as usize)
                    } else {
                        Some(i)
                    },
                    None => Some(0usize),
                }
            },
    {
        self.logs.next();
    }

    /// Move the cursor one line up, clamping at the start.
    pub fn previous(&mut self)
        requires
            old(self).wf(),
        ensures
            final(self)@.lines == old(self)@.lines,
            final(self)@.seen == old(self)@.seen,
            final(self).wf(),
            final(self)@.sel == if old(self)@.lines.len() == 0 {
                old(self)@.sel
            } else {
                match old(self)@.sel {
                    Some(i) => if i == 0 {
                        Some(0usize)
                    } else {
                        Some((i - 1) as usize)
                    },
                    None => Some(0usize),
                }
            },
    {
        self.logs.previous();
    }

    /// Select the last line; nothing changes on an empty store.
    pub fn end(&mut self)
        ensures
            final(self)@.lines == old(self)@.lines,
            final(self)@.seen == old(self)@.seen,
            final(self)@.sel == if old(self)@.lines.len() > 0 {
                Some((old(self)@.lines.len() - 1) as usize)
            } else {
                old(self)@.sel
            },
            old(self).wf() ==> final(self).wf(),
    {
        self.logs.end();
    }

    /// Select the first line; nothing changes on an empty store.
    pub fn start(&mut self)
        ensures
            final(self)@.lines == old(self)@.lines,
            final(self)@.seen == old(self)@.seen,
            final(self)@.sel == if old(self)@.lines.len() > 0 {
                Some(0usize)
            } else {
                old(self)@.sel
            },
            old(self).wf() ==> final(self).wf(),
    {
        self.logs.start();
    }

    /// Number of stored lines.
    pub fn len(&self) -> (r: usize)
        ensures
            r == self@.lines.len(),
    {
        self.logs.items.len()
    }

    /// The cursor position.
    pub fn state(&self) -> (r: Option<usize>)
        ensures
            r == self@.sel,
    {
        self.logs.state.selected()
    }
}

/// Window bound law: pushing any sequence of samples into a window leaves
/// at most the capacity of entries, and what remains is exactly the tail
/// of everything ever pushed, in order. In particular, pushing 100
/// samples into an empty window leaves the last 60, in order.
pub proof fn lemma_window_fold(w: Seq<u64>, ps: Seq<u64>)
    requires
        w.len() <= 60,
    ensures
        ({
            let total = w + ps;
            let keep: int = if total.len() <= 60 {
                total.len() as int
            } else {
                60
            };
            spec_window_fold(w, ps) == total.subrange(total.len() - keep, total.len() as int)
        }),
    decreases ps.len(),
{
    let total = w + ps;
    let keep: int = if total.len() <= 60 {
        total.len() as int
    } else {
        60
    };
    if ps.len() == 0 {
        assert(total =~= w);
        assert(total.subrange(total.len() - keep, total.len() as int) =~= w);
    } else {
        let w1 = spec_window_push(w, ps[0]);
        lemma_window_fold(w1, ps.drop_first());
        let total1 = w1 + ps.drop_first();
        let keep1: int = if total1.len() <= 60 {
            total1.len() as int
        } else {
            60
        };
        if w.len() < 60 {
            assert(total1 =~= total);
        } else {
            assert(total1 =~= total.subrange(1, total.len() as int));
        }
        assert(total1.subrange(total1.len() - keep1, total1.len() as int) =~= total.subrange(
            total.len() - keep,
            total.len() as int,
        ));
    }
}

/// Chart payload for one numeric series: the dataset points, the series
/// maximum and the container state.
pub type CpuTuple = (Vec<(u64, u64)>, CpuStats, State);

/// Chart payload for the memory series.
pub type MemTuple = (Vec<(u64, u64)>, ByteStats, State);

/// The observable state of one container item.
pub struct ItemV {
    pub created: u64,
    pub id: Seq<char>,
    pub image: Seq<char>,
    pub name: Seq<char>,
    pub status: Seq<char>,
    pub state: State,
    pub cpu: Seq<u64>,
    pub mem: Seq<u64>,
    pub mem_limit: u64,
    pub rx: u64,
    pub tx: u64,
    pub last_updated: u64,
    pub logs: LogsV,
    pub info: Seq<Seq<char>>,
    pub info_sel: Option<usize>,
    pub controls: Seq<DockerControls>,
    pub controls_sel: Option<usize>,
    pub is_oxker: bool,
}

/// The item a reconciliation constructs for a container first seen in a
/// snapshot: empty histories and logs, a control list derived from the
/// state with its first entry selected.
pub open spec fn spec_new_item(
    created: u64,
    id: Seq<char>,
    image: Seq<char>,
    is_oxker: bool,
    name: Seq<char>,
    state: State,
    status: Seq<char>,
) -> ItemV {
    ItemV {
        created,
        id,
        image,
        name,
        status,
        state,
        cpu: Seq::<u64>::empty(),
        mem: Seq::<u64>::empty(),
        mem_limit: 0,
        rx: 0,
        tx: 0,
        last_updated: 0,
        logs: LogsV {
            lines: Seq::<Seq<char>>::empty(),
            seen: Seq::<Seq<char>>::empty(),
            sel: None,
        },
        info: Seq::<Seq<char>>::empty(),
        info_sel: None,
        controls: spec_controls_for(state),
        controls_sel: Some(0usize),
        is_oxker,
    }
}

/// All data held for one container. Owned exclusively by the registry
/// and mutated in place, never replaced, so history survives runtime
/// refreshes.
#[derive(Debug)]
pub struct ContainerItem {
    pub created: u64,
    pub cpu_stats: StatsWindow,
    pub docker_controls: StatefulList<DockerControls>,
    pub id: ContainerId,
    pub image: String,
    pub info: StatefulList<String>,
    pub is_oxker: bool,
    pub last_updated: u64,
    pub logs: Logs,
    pub mem_limit: ByteStats,
    pub mem_stats: StatsWindow,
    pub name: String,
    pub rx: ByteStats,
    pub state: State,
    pub status: String,
    pub tx: ByteStats,
}

impl View for ContainerItem {
    type V = ItemV;

    open spec fn view(&self) -> ItemV {
        ItemV {
            created: self.created,
            id: self.id@,
            image: self.image@,
            name: self.name@,
            status: self.status@,
            state: self.state,
            cpu: self.cpu_stats@,
            mem: self.mem_stats@,
            mem_limit: self.mem_limit.0,
            rx: self.rx.0,
            tx: self.tx.0,
            last_updated: self.last_updated,
            logs: self.logs@,
            info: self.info.items@.map_values(|s: String| s@),
            info_sel: self.info.state.selected,
            controls: self.docker_controls.items@,
            controls_sel: self.docker_controls.state.selected,
            is_oxker: self.is_oxker,
        }
    }
}

/// Histories stay within the window bound, cursors stay inside their
/// lists, and the log store is consistent.
pub open spec fn item_wf(v: ItemV) -> bool {
    &&& v.cpu.len() <= 60
    &&& v.mem.len() <= 60
    &&& (v.controls_sel matches Some(k) ==> (k as int) < v.controls.len())
    &&& (v.info_sel matches Some(k) ==> (k as int) < v.info.len())
    &&& logs_wf(v.logs)
}

impl ContainerItem {
    /// Histories stay within the window bound, cursors stay inside their
    /// lists, and the log store is consistent.
    pub open spec fn wf(&self) -> bool {
        item_wf(self@)
    }

    /// Construct the item for a container first seen in a snapshot.
    pub fn new(
        created: u64,
        id: ContainerId,
        image: String,
        is_oxker: bool,
        name: String,
        state: State,
        status: String,
    ) -> (r: Self)
        ensures
            r@ == spec_new_item(created, id@, image@, is_oxker, name@, state, status@),
            r.wf(),
    {
        let mut docker_controls = StatefulList::new(DockerControls::gen_vec(state));
        docker_controls.start();
        let r = ContainerItem {
            created,
            cpu_stats: StatsWindow::new(),
            docker_controls,
            id,
            image,
            info: StatefulList::new(Vec::new()),
            is_oxker,
            last_updated: 0,
            logs: Logs::new(),
            mem_limit: ByteStats::new(0),
            mem_stats: StatsWindow::new(),
            name,
            rx: ByteStats::new(0),
            state,
            status,
            tx: ByteStats::new(0),
        };
        proof {
            assert(spec_controls_for(state).len() > 0);
            assert(r.info.items@.map_values(|s: String| s@) =~= Seq::<Seq<char>>::empty());
            assert(r@ =~= spec_new_item(created, r.id@, r.image@, is_oxker, r.name@, state, r.status@));
        }
        r
    }

    /// The chart payload of the CPU series: points, maximum, state.
    pub fn get_cpu_chart_data(&self) -> (r: CpuTuple)
        ensures
            r.0@.len() == self@.cpu.len(),
            forall|i: int| 0 <= i < self@.cpu.len() ==> r.0@[i] == (i as u64, self@.cpu[i]),
            r.1.0 == spec_window_max(self@.cpu),
            r.2 == self@.state,
    {
        (self.cpu_stats.dataset(), CpuStats::new(self.cpu_stats.max_or_zero()), self.state)
    }

    /// The chart payload of the memory series: points, maximum, state.
    pub fn get_mem_chart_data(&self) -> (r: MemTuple)
        ensures
            r.0@.len() == self@.mem.len(),
            forall|i: int| 0 <= i < self@.mem.len() ==> r.0@[i] == (i as u64, self@.mem[i]),
            r.1.0 == spec_window_max(self@.mem),
            r.2 == self@.state,
    {
        (self.mem_stats.dataset(), ByteStats::new(self.mem_stats.max_or_zero()), self.state)
    }

    /// Both chart payloads in one call, so a caller holding the shared
    /// state lock reads everything at once.
    pub fn get_chart_data(&self) -> (r: (CpuTuple, MemTuple))
        ensures
            r.0.0@.len() == self@.cpu.len(),
            forall|i: int| 0 <= i < self@.cpu.len() ==> r.0.0@[i] == (i as u64, self@.cpu[i]),
            r.0.1.0 == spec_window_max(self@.cpu),
            r.0.2 == self@.state,
            r.1.0@.len() == self@.mem.len(),
            forall|i: int| 0 <= i < self@.mem.len() ==> r.1.0@[i] == (i as u64, self@.mem[i]),
            r.1.1.0 == spec_window_max(self@.mem),
            r.1.2 == self@.state,
    {
        (self.get_cpu_chart_data(), self.get_mem_chart_data())
    }
}

/// Column headings of the containers panel paired with their minimum
/// widths; `get_width` widens them to fit the data.
#[derive(Debug, Clone, Copy)]
pub struct Columns {
    pub state: (Header, u8),
    pub status: (Header, u8),
    pub cpu: (Header, u8),
    pub mem: (Header, u8, u8),
    pub id: (Header, u8),
    pub name: (Header, u8),
    pub image: (Header, u8),
    pub net_rx: (Header, u8),
    pub net_tx: (Header, u8),
}

impl Columns {
    /// Column titles with their minimum header string lengths.
    pub fn new() -> (r: Self)
        ensures
            r.state == (Header::State, 11u8),
            r.status == (Header::Status, 16u8),
            r.cpu == (Header::Cpu, 7u8),
            r.mem == (Header::Memory, 7u8, 7u8),
            r.id == (Header::Id, 8u8),
            r.name == (Header::Name, 4u8),
            r.image == (Header::Image, 5u8),
            r.net_rx == (Header::Rx, 7u8),
            r.net_tx == (Header::Tx, 7u8),
    {
        Columns {
            state: (Header::State, 11),
            status: (Header::Status, 16),
            cpu: (Header::Cpu, 7),
            mem: (Header::Memory, 7, 7),
            id: (Header::Id, 8),
            name: (Header::Name, 4),
            image: (Header::Image, 5),
            net_rx: (Header::Rx, 7),
            net_tx: (Header::Tx, 7),
        }
    }
}

} // verus!
