//! Cross-cutting interface state: which panel is focused, which modal
//! flags are raised, where clickable regions sit on screen, which
//! fetches are in flight, and the stack of visible panels.

use crate::app_data::container_data::Header;
use crate::app_data::container_state::ContainerId;
use crate::ui::nav::NavPanel;
use vstd::prelude::*;

verus! {

/// A rectangular screen region in terminal cells.
#[derive(Debug, Clone, Copy, PartialEq, Eq, Structural)]
pub struct Rect {
    pub x: u16,
    pub y: u16,
    pub width: u16,
    pub height: u16,
}

/// Whether two regions overlap in both axes.
pub open spec fn spec_intersects(a: Rect, b: Rect) -> bool {
    &&& (a.x as int) < b.x as int + b.width as int
    &&& a.x as int + a.width as int > b.x as int
    &&& (a.y as int) < b.y as int + b.height as int
    &&& a.y as int + a.height as int > b.y as int
}

impl Rect {
    /// Build a region.
    pub fn new(x: u16, y: u16, width: u16, height: u16) -> (r: Self)
        ensures
            r == (Rect { x, y, width, height }),
    {
        Rect { x, y, width, height }
    }

    /// Whether this region overlaps another.
    pub fn intersects(&self, other: &Rect) -> (r: bool)
        ensures
            r == spec_intersects(*self, *other),
    {
        let ax = self.x as u32;
        let ay = self.y as u32;
        let bx = other.x as u32;
        let by = other.y as u32;
        ax < bx + other.width as u32 && ax + self.width as u32 > bx && ay < by
            + other.height as u32 && ay + self.height as u32 > by
    }
}

/// The panels the focus can cycle through.
#[derive(Debug, Clone, Copy, PartialEq, Eq, Structural)]
pub enum SelectablePanel {
    Containers,
    Commands,
    Logs,
}

impl SelectablePanel {
    /// The heading of this panel.
    pub fn title(self) -> (r: &'static str)
        ensures
            r@ == match self {
                SelectablePanel::Containers => "Containers"@,
                SelectablePanel::Logs => "Logs"@,
                SelectablePanel::Commands => Seq::<char>::empty(),
            },
    {
        match self {
            SelectablePanel::Containers => "Containers",
            SelectablePanel::Logs => "Logs",
            SelectablePanel::Commands => {
                let r = "";
                proof {
                    reveal_strlit("");
                    assert(r@ =~= Seq::<char>::empty());
                }
                r
            },
        }
    }

    /// The panel after this one in focus order.
    pub fn next(self) -> (r: Self)
        ensures
            r == match self {
                SelectablePanel::Containers => SelectablePanel::Commands,
                SelectablePanel::Commands => SelectablePanel::Logs,
                SelectablePanel::Logs => SelectablePanel::Containers,
            },
    {
        match self {
            SelectablePanel::Containers => SelectablePanel::Commands,
            SelectablePanel::Commands => SelectablePanel::Logs,
            SelectablePanel::Logs => SelectablePanel::Containers,
        }
    }

    /// The panel before this one in focus order.
    pub fn prev(self) -> (r: Self)
        ensures
            r == match self {
                SelectablePanel::Containers => SelectablePanel::Logs,
                SelectablePanel::Commands => SelectablePanel::Containers,
                SelectablePanel::Logs => SelectablePanel::Commands,
            },
    {
        match self {
            SelectablePanel::Containers => SelectablePanel::Logs,
            SelectablePanel::Commands => SelectablePanel::Containers,
            SelectablePanel::Logs => SelectablePanel::Commands,
        }
    }
}

/// A clickable region: a focusable panel, a sortable column heading, or
/// a delete-dialog button.
#[derive(Debug, Clone, Copy)]
pub enum Region {
    Panel(SelectablePanel),
    Header(Header),
    Delete(DeleteButton),
}

/// The two buttons of the delete-confirm dialog.
#[derive(Debug, Clone, Copy, PartialEq, Eq, Structural)]
pub enum DeleteButton {
    Yes,
    No,
}

/// Where a popup sits in the screen's three-by-three grid.
#[derive(Debug, Clone, Copy, PartialEq, Eq, Structural)]
pub enum BoxLocation {
    TopLeft,
    TopCentre,
    TopRight,
    MiddleLeft,
    MiddleCentre,
    MiddleRight,
    BottomLeft,
    BottomCentre,
    BottomRight,
}

impl BoxLocation {
    /// The row and column of this location in the three-by-three grid.
    pub fn get_indexes(self) -> (r: (usize, usize))
        ensures
            r == match self {
                BoxLocation::TopLeft => (0usize, 0usize),
                BoxLocation::TopCentre => (0usize, 1usize),
                BoxLocation::TopRight => (0usize, 2usize),
                BoxLocation::MiddleLeft => (1usize, 0usize),
                BoxLocation::MiddleCentre => (1usize, 1usize),
                BoxLocation::MiddleRight => (1usize, 2usize),
                BoxLocation::BottomLeft => (2usize, 0usize),
                BoxLocation::BottomCentre => (2usize, 1usize),
                BoxLocation::BottomRight => (2usize, 2usize),
            },
    {
        match self {
            BoxLocation::TopLeft => (0, 0),
            BoxLocation::TopCentre => (0, 1),
            BoxLocation::TopRight => (0, 2),
            BoxLocation::MiddleLeft => (1, 0),
            BoxLocation::MiddleCentre => (1, 1),
            BoxLocation::MiddleRight => (1, 2),
            BoxLocation::BottomLeft => (2, 0),
            BoxLocation::BottomCentre => (2, 1),
            BoxLocation::BottomRight => (2, 2),
        }
    }
}

/// Frames of the loading spinner.
#[derive(Debug, Clone, Copy, PartialEq, Eq, Structural)]
pub enum Loading {
    One,
    Two,
    Three,
    Four,
    Five,
    Six,
    Seven,
    Eight,
    Nine,
    Ten,
}

/// The next spinner frame, cycling.
pub open spec fn spec_loading_next(l: Loading) -> Loading {
    match l {
        Loading::One => Loading::Two,
        Loading::Two => Loading::Three,
        Loading::Three => Loading::Four,
        Loading::Four => Loading::Five,
        Loading::Five => Loading::Six,
        Loading::Six => Loading::Seven,
        Loading::Seven => Loading::Eight,
        Loading::Eight => Loading::Nine,
        Loading::Nine => Loading::Ten,
        Loading::Ten => Loading::One,
    }
}

/// The glyph of each spinner frame.
pub open spec fn spec_loading_display(l: Loading) -> Seq<char> {
    match l {
        Loading::One => "\u{280b}"@,
        Loading::Two => "\u{2819}"@,
        Loading::Three => "\u{2839}"@,
        Loading::Four => "\u{2838}"@,
        Loading::Five => "\u{283c}"@,
        Loading::Six => "\u{2834}"@,
        Loading::Seven => "\u{2826}"@,
        Loading::Eight => "\u{2827}"@,
        Loading::Nine => "\u{2807}"@,
        Loading::Ten => "\u{280f}"@,
    }
}

impl Loading {
    /// Advance the spinner one frame.
    pub fn next(self) -> (r: Self)
        ensures
            r == spec_loading_next(self),
    {
        match self {
            Loading::One => Loading::Two,
            Loading::Two => Loading::Three,
            Loading::Three => Loading::Four,
            Loading::Four => Loading::Five,
            Loading::Five => Loading::Six,
            Loading::Six => Loading::Seven,
            Loading::Seven => Loading::Eight,
            Loading::Eight => Loading::Nine,
            Loading::Nine => Loading::Ten,
            Loading::Ten => Loading::One,
        }
    }

    /// The glyph of this frame.
    pub fn display(self) -> (r: String)
        ensures
            r@ == spec_loading_display(self),
    {
        let lit: &str = match self {
            Loading::One => "\u{280b}",
            Loading::Two => "\u{2819}",
            Loading::Three => "\u{2839}",
            Loading::Four => "\u{2838}",
            Loading::Five => "\u{283c}",
            Loading::Six => "\u{2834}",
            Loading::Seven => "\u{2826}",
            Loading::Eight => "\u{2827}",
            Loading::Nine => "\u{2807}",
            Loading::Ten => "\u{280f}",
        };
        lit.to_owned()
    }
}

/// Independent modal flags the interface can raise; several can be up at
/// once, and the input dispatcher honours them in strict precedence.
#[derive(Debug, Clone, Copy, PartialEq, Eq, Structural)]
pub enum Status {
    Init,
    Help,
    DockerConnect,
    DeleteConfirm,
    Error,
}

/// Whether a flag is raised in a flag sequence.
pub open spec fn spec_has_status(s: Seq<Status>, st: Status) -> bool {
    exists|i: int| 0 <= i < s.len() && s[i] == st
}

/// The flag sequence with every occurrence of a flag removed.
pub open spec fn spec_remove_status(s: Seq<Status>, st: Status) -> Seq<Status>
    decreases s.len(),
{
    if s.len() == 0 {
        s
    } else if s[0] == st {
        spec_remove_status(s.drop_first(), st)
    } else {
        seq![s[0]].add(spec_remove_status(s.drop_first(), st))
    }
}

/// A rectangle map with the key bound to the region, replacing an
/// earlier binding of the same key.
pub open spec fn spec_upsert_rect<K>(m: Seq<(K, Rect)>, k: K, r: Rect) -> Seq<(K, Rect)>
    decreases m.len(),
{
    if m.len() == 0 {
        seq![(k, r)]
    } else if m[0].0 == k {
        seq![(k, r)].add(m.drop_first())
    } else {
        seq![m[0]].add(spec_upsert_rect(m.drop_first(), k, r))
    }
}

/// The key of the first map entry whose region the given one overlaps.
pub open spec fn spec_first_hit<K>(m: Seq<(K, Rect)>, r: Rect) -> Option<K>
    decreases m.len(),
{
    if m.len() == 0 {
        None
    } else if spec_intersects(m[0].1, r) {
        Some(m[0].0)
    } else {
        spec_first_hit(m.drop_first(), r)
    }
}

/// Interface state shared across the activities: clickable region maps,
/// in-flight fetch markers, modal flags, the pending delete, the focused
/// panel and the navigation stack.
#[derive(Debug)]
pub struct GuiState {
    pub heading_map: Vec<(Header, Rect)>,
    pub panel_map: Vec<(SelectablePanel, Rect)>,
    pub delete_map: Vec<(DeleteButton, Rect)>,
    pub is_loading: Vec<u128>,
    pub loading_icon: Loading,
    pub status: Vec<Status>,
    pub delete_container: Option<ContainerId>,
    pub info_box_text: Option<String>,
    pub selected_panel: SelectablePanel,
    pub nav: Vec<NavPanel>,
}

impl GuiState {
    /// The navigation stack never loses its root.
    pub open spec fn nav_wf(&self) -> bool {
        self.nav@.len() >= 1 && self.nav@[0] == NavPanel::Containers
    }

    /// A fresh interface state: nothing loading, no flags, the
    /// containers panel focused and the navigation stack at its root.
    pub fn new() -> (r: Self)
        ensures
            r.heading_map@ == Seq::<(Header, Rect)>::empty(),
            r.panel_map@ == Seq::<(SelectablePanel, Rect)>::empty(),
            r.delete_map@ == Seq::<(DeleteButton, Rect)>::empty(),
            r.is_loading@ == Seq::<u128>::empty(),
            r.loading_icon == Loading::One,
            r.status@ == Seq::<Status>::empty(),
            r.delete_container is None,
            r.info_box_text is None,
            r.selected_panel == SelectablePanel::Containers,
            r.nav@ == seq![NavPanel::Containers],
            r.nav_wf(),
    {
        let mut nav: Vec<NavPanel> = Vec::new();
        nav.push(NavPanel::Containers);
        proof {
            assert(nav@ =~= seq![NavPanel::Containers]);
        }
        GuiState {
            heading_map: Vec::new(),
            panel_map: Vec::new(),
            delete_map: Vec::new(),
            is_loading: Vec::new(),
            loading_icon: Loading::One,
            status: Vec::new(),
            delete_container: None,
            info_box_text: None,
            selected_panel: SelectablePanel::Containers,
            nav,
        }
    }

    /// Forget the panel regions, so a resize can lay them out afresh.
    pub fn clear_area_map(&mut self)
        ensures
            *final(self) == (GuiState { panel_map: final(self).panel_map, ..*old(self) }),
            final(self).panel_map@ == Seq::<(SelectablePanel, Rect)>::empty(),
    {
        self.panel_map = Vec::new();
    }

    /// Focus the first panel a clicked region overlaps, if any.
    pub fn panel_intersect(&mut self, rect: Rect)
        ensures
            *final(self) == (GuiState { selected_panel: final(self).selected_panel, ..*old(self) }),
            final(self).selected_panel == match spec_first_hit(old(self).panel_map@, rect) {
                Some(p) => p,
                None => old(self).selected_panel,
            },
    {
        let n = self.panel_map.len();
        let mut i: usize = 0;
        proof {
            assert(old(self).panel_map@.skip(0) =~= old(self).panel_map@);
        }
        while i < n
            invariant
                n == self.panel_map@.len(),
                i <= n,
                *self == *old(self),
                spec_first_hit(old(self).panel_map@, rect) == spec_first_hit(
                    old(self).panel_map@.skip(i as int),
                    rect,
                ),
            decreases n - i,
        {
            proof {
                assert(self.panel_map@.skip(i as int)[0] == self.panel_map@[i as int]);
                assert(self.panel_map@.skip(i as int).drop_first() =~= self.panel_map@.skip(
                    i + 1,
                ));
            }
            let entry = self.panel_map[i];
            if entry.1.intersects(&rect) {
                self.selected_panel = entry.0;
                return;
            }
            i += 1;
        }
        proof {
            assert(self.panel_map@.skip(n as int).len() == 0);
        }
    }

    /// The delete-dialog button a clicked region overlaps, if any.
    pub fn button_intersect(&mut self, rect: Rect) -> (r: Option<DeleteButton>)
        ensures
            *final(self) == *old(self),
            r == spec_first_hit(old(self).delete_map@, rect),
    {
        let n = self.delete_map.len();
        let mut i: usize = 0;
        proof {
            assert(old(self).delete_map@.skip(0) =~= old(self).delete_map@);
        }
        while i < n
            invariant
                n == self.delete_map@.len(),
                i <= n,
                *self == *old(self),
                spec_first_hit(old(self).delete_map@, rect) == spec_first_hit(
                    old(self).delete_map@.skip(i as int),
                    rect,
                ),
            decreases n - i,
        {
            proof {
                assert(self.delete_map@.skip(i as int)[0] == self.delete_map@[i as int]);
                assert(self.delete_map@.skip(i as int).drop_first() =~= self.delete_map@.skip(
                    i + 1,
                ));
            }
            let entry = self.delete_map[i];
            if entry.1.intersects(&rect) {
                return Some(entry.0);
            }
            i += 1;
        }
        proof {
            assert(self.delete_map@.skip(n as int).len() == 0);
        }
        None
    }

    /// The column heading a clicked region overlaps, if any.
    pub fn header_intersect(&mut self, rect: Rect) -> (r: Option<Header>)
        ensures
            *final(self) == *old(self),
            r == spec_first_hit(old(self).heading_map@, rect),
    {
        let n = self.heading_map.len();
        let mut i: usize = 0;
        proof {
            assert(old(self).heading_map@.skip(0) =~= old(self).heading_map@);
        }
        while i < n
            invariant
                n == self.heading_map@.len(),
                i <= n,
                *self == *old(self),
                spec_first_hit(old(self).heading_map@, rect) == spec_first_hit(
                    old(self).heading_map@.skip(i as int),
                    rect,
                ),
            decreases n - i,
        {
            proof {
                assert(self.heading_map@.skip(i as int)[0] == self.heading_map@[i as int]);
                assert(self.heading_map@.skip(i as int).drop_first() =~= self.heading_map@.skip(
                    i + 1,
                ));
            }
            let entry = self.heading_map[i];
            if entry.1.intersects(&rect) {
                return Some(entry.0);
            }
            i += 1;
        }
        proof {
            assert(self.heading_map@.skip(n as int).len() == 0);
        }
        None
    }

    /// Record or update where a clickable region sits on screen.
    pub fn update_region_map(&mut self, region: Region, area: Rect)
        ensures
            match region {
                Region::Header(h) => *final(self) == (GuiState {
                    heading_map: final(self).heading_map,
                    ..*old(self)
                }) && final(self).heading_map@ == spec_upsert_rect(
                    old(self).heading_map@,
                    h,
                    area,
                ),
                Region::Panel(p) => *final(self) == (GuiState {
                    panel_map: final(self).panel_map,
                    ..*old(self)
                }) && final(self).panel_map@ == spec_upsert_rect(old(self).panel_map@, p, area),
                Region::Delete(b) => *final(self) == (GuiState {
                    delete_map: final(self).delete_map,
                    ..*old(self)
                }) && final(self).delete_map@ == spec_upsert_rect(old(self).delete_map@, b, area),
            },
    {
        match region {
            Region::Header(h) => upsert_header(&mut self.heading_map, h, area),
            Region::Panel(p) => upsert_panel(&mut self.panel_map, p, area),
            Region::Delete(b) => upsert_delete(&mut self.delete_map, b, area),
        }
    }

    /// The pending-delete container, if a delete awaits confirmation.
    pub fn get_delete_container(&self) -> (r: Option<ContainerId>)
        ensures
            (r is Some) == (self.delete_container is Some),
            r matches Some(c) ==> self.delete_container matches Some(d) && c@ == d@,
    {
        match &self.delete_container {
            Some(id) => Some(id.clone()),
            None => None,
        }
    }

    /// Stage or clear a pending delete: staging raises the confirm
    /// dialog flag, clearing drops the flag and its button regions.
    pub fn set_delete_container(&mut self, id: Option<ContainerId>)
        ensures
            final(self).delete_container == id,
            final(self).heading_map == old(self).heading_map,
            final(self).panel_map == old(self).panel_map,
            final(self).is_loading == old(self).is_loading,
            final(self).loading_icon == old(self).loading_icon,
            final(self).info_box_text == old(self).info_box_text,
            final(self).selected_panel == old(self).selected_panel,
            final(self).nav == old(self).nav,
            id is Some ==> {
                &&& final(self).delete_map == old(self).delete_map
                &&& final(self).status@ == if spec_has_status(
                    old(self).status@,
                    Status::DeleteConfirm,
                ) {
                    old(self).status@
                } else {
                    old(self).status@.push(Status::DeleteConfirm)
                }
            },
            id is None ==> {
                &&& final(self).delete_map@ == Seq::<(DeleteButton, Rect)>::empty()
                &&& final(self).status@ == spec_remove_status(
                    old(self).status@,
                    Status::DeleteConfirm,
                )
            },
    {
        if id.is_some() {
            self.status_push(Status::DeleteConfirm);
        } else {
            self.delete_map = Vec::new();
            self.status_del_only(Status::DeleteConfirm);
        }
        self.delete_container = id;
    }

    /// Whether any of the given flags is raised.
    pub fn status_contains(&self, status: &[Status]) -> (r: bool)
        ensures
            r == exists|i: int|
                0 <= i < status@.len() && spec_has_status(self.status@, #[trigger] status@[i]),
    {
        let n = status.len();
        let mut i: usize = 0;
        while i < n
            invariant
                n == status@.len(),
                i <= n,
                forall|k: int| 0 <= k < i ==> !spec_has_status(self.status@, #[trigger] status@[k]),
            decreases n - i,
        {
            if self.has_status(status[i]) {
                return true;
            }
            i += 1;
        }
        false
    }

    /// Whether one flag is raised.
    pub fn has_status(&self, st: Status) -> (r: bool)
        ensures
            r == spec_has_status(self.status@, st),
    {
        let n = self.status.len();
        let mut i: usize = 0;
        while i < n
            invariant
                n == self.status@.len(),
                i <= n,
                forall|k: int| 0 <= k < i ==> self.status@[k] != st,
            decreases n - i,
        {
            if self.status[i] == st {
                return true;
            }
            i += 1;
        }
        false
    }

    fn status_del_only(&mut self, status: Status)
        ensures
            *final(self) == (GuiState { status: final(self).status, ..*old(self) }),
            final(self).status@ == spec_remove_status(old(self).status@, status),
    {
        let ghost orig = self.status@;
        let mut out: Vec<Status> = Vec::new();
        let n = self.status.len();
        let mut i: usize = 0;
        proof {
            assert(out@ =~= spec_remove_status(orig.subrange(0, 0), status)) by {
                assert(orig.subrange(0, 0) =~= Seq::<Status>::empty());
            }
        }
        while i < n
            invariant
                n == self.status@.len(),
                self.status@ == orig,
                i <= n,
                out@ =~= spec_remove_status(orig.subrange(0, i as int), status),
                *self == *old(self),
            decreases n - i,
        {
            let st = self.status[i];
            if !(st == status) {
                out.push(st);
            }
            proof {
                lemma_remove_status_push(orig.subrange(0, i as int), status, orig[i as int]);
                assert(orig.subrange(0, i + 1) =~= orig.subrange(0, i as int).push(
                    orig[i as int],
                ));
            }
            i += 1;
        }
        proof {
            assert(orig.subrange(0, n as int) =~= orig);
        }
        self.status = out;
    }

    /// Lower a flag; every occurrence is removed.
    pub fn status_del(&mut self, status: Status)
        ensures
            *final(self) == (GuiState { status: final(self).status, ..*old(self) }),
            final(self).status@ == spec_remove_status(old(self).status@, status),
    {
        self.status_del_only(status);
    }

    /// Raise a flag; raising an already-raised flag changes nothing.
    pub fn status_push(&mut self, status: Status)
        ensures
            *final(self) == (GuiState { status: final(self).status, ..*old(self) }),
            final(self).status@ == if spec_has_status(old(self).status@, status) {
                old(self).status@
            } else {
                old(self).status@.push(status)
            },
    {
        if !self.has_status(status) {
            self.status.push(status);
        }
    }

    /// Focus the next panel.
    pub fn next_panel(&mut self)
        ensures
            *final(self) == (GuiState { selected_panel: final(self).selected_panel, ..*old(self) }),
            final(self).selected_panel == match old(self).selected_panel {
                SelectablePanel::Containers => SelectablePanel::Commands,
                SelectablePanel::Commands => SelectablePanel::Logs,
                SelectablePanel::Logs => SelectablePanel::Containers,
            },
    {
        self.selected_panel = self.selected_panel.next();
    }

    /// Focus the previous panel.
    pub fn previous_panel(&mut self)
        ensures
            *final(self) == (GuiState { selected_panel: final(self).selected_panel, ..*old(self) }),
            final(self).selected_panel == match old(self).selected_panel {
                SelectablePanel::Containers => SelectablePanel::Logs,
                SelectablePanel::Commands => SelectablePanel::Containers,
                SelectablePanel::Logs => SelectablePanel::Commands,
            },
    {
        self.selected_panel = self.selected_panel.prev();
    }

    /// Mark a fetch as in flight and advance the spinner one frame.
    pub fn next_loading(&mut self, id: u128)
        ensures
            final(self).loading_icon == spec_loading_next(old(self).loading_icon),
            final(self).is_loading@ == if old(self).is_loading@.contains(id) {
                old(self).is_loading@
            } else {
                old(self).is_loading@.push(id)
            },
            final(self).heading_map == old(self).heading_map,
            final(self).panel_map == old(self).panel_map,
            final(self).delete_map == old(self).delete_map,
            final(self).status == old(self).status,
            final(self).delete_container == old(self).delete_container,
            final(self).info_box_text == old(self).info_box_text,
            final(self).selected_panel == old(self).selected_panel,
            final(self).nav == old(self).nav,
    {
        let n = self.is_loading.len();
        let mut i: usize = 0;
        let mut found = false;
        while i < n
            invariant
                n == self.is_loading@.len(),
                i <= n,
                *self == *old(self),
                found == exists|k: int| 0 <= k < i && self.is_loading@[k] == id,
            decreases n - i,
        {
            if self.is_loading[i] == id {
                found = true;
            }
            i += 1;
        }
        proof {
            assert(found == self.is_loading@.contains(id));
        }
        self.loading_icon = self.loading_icon.next();
        if !found {
            self.is_loading.push(id);
        }
    }

    /// Whether any fetch is in flight.
    pub fn is_loading(&self) -> (r: bool)
        ensures
            r == (self.is_loading@.len() > 0),
    {
        self.is_loading.len() > 0
    }

    /// The spinner glyph while anything loads, else a space of the same
    /// width.
    pub fn get_loading(&self) -> (r: String)
        ensures
            r@ == if self.is_loading@.len() == 0 {
                " "@
            } else {
                spec_loading_display(self.loading_icon)
            },
    {
        if self.is_loading.len() == 0 {
            String::from_str(" ")
        } else {
            self.loading_icon.display()
        }
    }

    /// Mark a fetch as finished.
    pub fn remove_loading(&mut self, id: u128)
        ensures
            *final(self) == (GuiState { is_loading: final(self).is_loading, ..*old(self) }),
            final(self).is_loading@ == rm_loading(old(self).is_loading@, id),
    {
        let ghost orig = self.is_loading@;
        let mut out: Vec<u128> = Vec::new();
        let n = self.is_loading.len();
        let mut i: usize = 0;
        proof {
            assert(out@ =~= rm_loading(orig.subrange(0, 0), id)) by {
                assert(orig.subrange(0, 0) =~= Seq::<u128>::empty());
            }
        }
        while i < n
            invariant
                n == self.is_loading@.len(),
                self.is_loading@ == orig,
                i <= n,
                out@ =~= rm_loading(orig.subrange(0, i as int), id),
                *self == *old(self),
            decreases n - i,
        {
            let v = self.is_loading[i];
            if v != id {
                out.push(v);
            }
            proof {
                lemma_rm_loading_push(orig.subrange(0, i as int), id, orig[i as int]);
                assert(orig.subrange(0, i + 1) =~= orig.subrange(0, i as int).push(
                    orig[i as int],
                ));
            }
            i += 1;
        }
        proof {
            assert(orig.subrange(0, n as int) =~= orig);
        }
        self.is_loading = out;
    }

    /// Show the info popup with the given text.
    pub fn set_info_box(&mut self, text: String)
        ensures
            *final(self) == (GuiState { info_box_text: final(self).info_box_text, ..*old(self) }),
            final(self).info_box_text matches Some(t) && t@ == text@,
    {
        self.info_box_text = Some(text);
    }

    /// Hide the info popup.
    pub fn reset_info_box(&mut self)
        ensures
            *final(self) == (GuiState { info_box_text: final(self).info_box_text, ..*old(self) }),
            final(self).info_box_text is None,
    {
        self.info_box_text = None;
    }

    /// The panel on top of the navigation stack, lazily restoring the
    /// root if the stack was ever left empty.
    pub fn get_current_nav(&mut self) -> (r: NavPanel)
        ensures
            *final(self) == (GuiState { nav: final(self).nav, ..*old(self) }),
            final(self).nav@ == if old(self).nav@.len() == 0 {
                seq![NavPanel::Containers]
            } else {
                old(self).nav@
            },
            r == final(self).nav@.last(),
    {
        if self.nav.len() == 0 {
            self.nav.push(NavPanel::Containers);
        }
        self.nav[self.nav.len() - 1]
    }

    /// Push a panel onto the navigation stack.
    pub fn append_nav(&mut self, panel: NavPanel)
        ensures
            *final(self) == (GuiState { nav: final(self).nav, ..*old(self) }),
            final(self).nav@ == old(self).nav@.push(panel),
    {
        self.nav.push(panel);
    }

    /// Leave the top panel of the navigation stack; the root is never
    /// removed.
    pub fn back_in_nav(&mut self)
        ensures
            *final(self) == (GuiState { nav: final(self).nav, ..*old(self) }),
            final(self).nav@ == if old(self).nav@.len() > 1 {
                old(self).nav@.drop_last()
            } else {
                old(self).nav@
            },
    {
        if self.nav.len() > 1 {
            self.nav.pop();
        }
    }
}

proof fn lemma_remove_status_push(s: Seq<Status>, st: Status, x: Status)
    ensures
        spec_remove_status(s.push(x), st) == spec_remove_status(s, st).add(
            if x == st {
                Seq::<Status>::empty()
            } else {
                seq![x]
            },
        ),
    decreases s.len(),
{
    let tail: Seq<Status> = if x == st {
        Seq::<Status>::empty()
    } else {
        seq![x]
    };
    if s.len() == 0 {
        assert(s.push(x) =~= seq![x]);
        assert(seq![x].drop_first() =~= Seq::<Status>::empty());
        assert(spec_remove_status(Seq::<Status>::empty(), st) =~= Seq::<Status>::empty());
        if x == st {
            assert(spec_remove_status(s.push(x), st) =~= spec_remove_status(s, st).add(tail));
        } else {
            assert(spec_remove_status(seq![x], st) =~= seq![x].add(Seq::<Status>::empty()));
            assert(spec_remove_status(s.push(x), st) =~= spec_remove_status(s, st).add(tail));
        }
    } else {
        assert(s.push(x)[0] == s[0]);
        assert(s.push(x).drop_first() =~= s.drop_first().push(x));
        lemma_remove_status_push(s.drop_first(), st, x);
        if s[0] != st {
            assert(seq![s[0]].add(spec_remove_status(s.drop_first(), st).add(tail))
                =~= seq![s[0]].add(spec_remove_status(s.drop_first(), st)).add(tail));
        }
    }
}

/// The loading markers without a given identifier.
pub open spec fn rm_loading(s: Seq<u128>, id: u128) -> Seq<u128>
    decreases s.len(),
{
    if s.len() == 0 {
        s
    } else if s[0] == id {
        rm_loading(s.drop_first(), id)
    } else {
        seq![s[0]].add(rm_loading(s.drop_first(), id))
    }
}

proof fn lemma_rm_loading_push(s: Seq<u128>, id: u128, x: u128)
    ensures
        rm_loading(s.push(x), id) == rm_loading(s, id).add(
            if x == id {
                Seq::<u128>::empty()
            } else {
                seq![x]
            },
        ),
    decreases s.len(),
{
    let tail: Seq<u128> = if x == id {
        Seq::<u128>::empty()
    } else {
        seq![x]
    };
    if s.len() == 0 {
        assert(s.push(x) =~= seq![x]);
        assert(seq![x].drop_first() =~= Seq::<u128>::empty());
        assert(rm_loading(Seq::<u128>::empty(), id) =~= Seq::<u128>::empty());
        if x == id {
            assert(rm_loading(s.push(x), id) =~= rm_loading(s, id).add(tail));
        } else {
            assert(rm_loading(seq![x], id) =~= seq![x].add(Seq::<u128>::empty()));
            assert(rm_loading(s.push(x), id) =~= rm_loading(s, id).add(tail));
        }
    } else {
        assert(s.push(x)[0] == s[0]);
        assert(s.push(x).drop_first() =~= s.drop_first().push(x));
        lemma_rm_loading_push(s.drop_first(), id, x);
        if s[0] != id {
            assert(seq![s[0]].add(rm_loading(s.drop_first(), id).add(tail)) =~= seq![s[0]].add(
                rm_loading(s.drop_first(), id),
            ).add(tail));
        }
    }
}

fn upsert_header(m: &mut Vec<(Header, Rect)>, k: Header, r: Rect)
    ensures
        final(m)@ == spec_upsert_rect(old(m)@, k, r),
{
    let ghost orig = m@;
    let n = m.len();
    let mut i: usize = 0;
    while i < n
        invariant
            old(m)@ == orig,
            n == m@.len(),
            m@ == orig,
            i <= n,
            forall|j: int| 0 <= j < i ==> orig[j].0 != k,
        decreases n - i,
    {
        if m[i].0 == k {
            m.set(i, (k, r));
            proof {
                lemma_upsert_at(orig, k, r, i as int);
            }
            return ;
        }
        i += 1;
    }
    m.push((k, r));
    proof {
        lemma_upsert_missing(orig, k, r);
    }
}

fn upsert_panel(m: &mut Vec<(SelectablePanel, Rect)>, k: SelectablePanel, r: Rect)
    ensures
        final(m)@ == spec_upsert_rect(old(m)@, k, r),
{
    let ghost orig = m@;
    let n = m.len();
    let mut i: usize = 0;
    while i < n
        invariant
            old(m)@ == orig,
            n == m@.len(),
            m@ == orig,
            i <= n,
            forall|j: int| 0 <= j < i ==> orig[j].0 != k,
        decreases n - i,
    {
        if m[i].0 == k {
            m.set(i, (k, r));
            proof {
                lemma_upsert_at(orig, k, r, i as int);
            }
            return ;
        }
        i += 1;
    }
    m.push((k, r));
    proof {
        lemma_upsert_missing(orig, k, r);
    }
}

fn upsert_delete(m: &mut Vec<(DeleteButton, Rect)>, k: DeleteButton, r: Rect)
    ensures
        final(m)@ == spec_upsert_rect(old(m)@, k, r),
{
    let ghost orig = m@;
    let n = m.len();
    let mut i: usize = 0;
    while i < n
        invariant
            old(m)@ == orig,
            n == m@.len(),
            m@ == orig,
            i <= n,
            forall|j: int| 0 <= j < i ==> orig[j].0 != k,
        decreases n - i,
    {
        if m[i].0 == k {
            m.set(i, (k, r));
            proof {
                lemma_upsert_at(orig, k, r, i as int);
            }
            return ;
        }
        i += 1;
    }
    m.push((k, r));
    proof {
        lemma_upsert_missing(orig, k, r);
    }
}

proof fn lemma_upsert_at<K>(m: Seq<(K, Rect)>, k: K, r: Rect, i: int)
    requires
        0 <= i < m.len(),
        m[i].0 == k,
        forall|j: int| 0 <= j < i ==> m[j].0 != k,
    ensures
        spec_upsert_rect(m, k, r) == m.update(i, (k, r)),
    decreases i,
{
    if i == 0 {
        assert(seq![(k, r)].add(m.drop_first()) =~= m.update(0, (k, r)));
    } else {
        let rest = m.drop_first();
        assert(rest[i - 1].0 == k);
        assert forall|j: int| 0 <= j < i - 1 implies rest[j].0 != k by {
            assert(rest[j] == m[j + 1]);
        }
        lemma_upsert_at(rest, k, r, i - 1);
        assert(seq![m[0]].add(rest.update(i - 1, (k, r))) =~= m.update(i, (k, r)));
    }
}

proof fn lemma_upsert_missing<K>(m: Seq<(K, Rect)>, k: K, r: Rect)
    requires
        forall|j: int| 0 <= j < m.len() ==> m[j].0 != k,
    ensures
        spec_upsert_rect(m, k, r) == m.push((k, r)),
    decreases m.len(),
{
    if m.len() == 0 {
        assert(seq![(k, r)] =~= m.push((k, r)));
    } else {
        let rest = m.drop_first();
        assert forall|j: int| 0 <= j < rest.len() implies rest[j].0 != k by {
            assert(rest[j] == m[j + 1]);
        }
        lemma_upsert_missing(rest, k, r);
        assert(seq![m[0]].add(rest.push((k, r))) =~= m.push((k, r)));
    }
}

} // verus!
