//! Dock layout: the panels of one edge of the window and which one shows.
//!
//! A dock holds its panels ordered by activation priority (priorities are
//! unique), whether it is open, and the index of its active panel. The active
//! panel is told when it becomes active or inactive, and when its dock opens
//! or closes; the transitions here return those notices, in order, for the
//! application to deliver.

use vstd::prelude::*;

use crate::panel::{PanelEvent, PanelPosition};

verus! {

/// A registered panel: its identity and its activation priority.
#[derive(Clone, Copy, Debug, PartialEq, Eq, Structural)]
pub struct DockPanel {
    pub id: u64,
    pub priority: u32,
}

/// Tell panel `index` that it became active (`true`) or inactive (`false`).
#[derive(Clone, Copy, Debug, PartialEq, Eq, Structural)]
pub struct ActiveNotice {
    pub index: usize,
    pub active: bool,
}

/// Events the dock emits to the shell.
#[derive(Clone, Copy, Debug, PartialEq, Eq, Structural)]
pub enum DockEvent {
    /// The dock's open state or active panel changed.
    Changed,
}

/// The abstract state of a dock.
pub struct DockView {
    pub position: PanelPosition,
    pub panels: Seq<DockPanel>,
    pub is_open: bool,
    pub active: Option<usize>,
}

/// Panel priorities strictly increase along the dock.
pub open spec fn priorities_increasing(panels: Seq<DockPanel>) -> bool {
    forall|a: int, b: int|
        0 <= a < b < panels.len() ==> (#[trigger] panels[a]).priority < (#[trigger] panels[b]).priority
}

/// No two panels have one identity.
pub open spec fn ids_distinct(panels: Seq<DockPanel>) -> bool {
    forall|a: int, b: int|
        0 <= a < b < panels.len() ==> (#[trigger] panels[a]).id != (#[trigger] panels[b]).id
}

/// The active panel's index when it names a registered panel.
pub open spec fn active_entry(d: DockView) -> Option<usize> {
    match d.active {
        Some(i) => if i < d.panels.len() {
            Some(i)
        } else {
            None
        },
        None => None,
    }
}

/// The panel shown: the active one, when the dock is open.
pub open spec fn visible_entry(d: DockView) -> Option<usize> {
    if d.is_open {
        active_entry(d)
    } else {
        None
    }
}

/// Dock and notices after making panel `index` active. Nothing happens when
/// it is already the active one; otherwise the previous active panel is told
/// it is inactive and the new one that it is active (each when registered).
pub open spec fn activated(d: DockView, index: usize) -> (DockView, Seq<ActiveNotice>) {
    if d.active == Some(index) {
        (d, seq![])
    } else {
        let before = match active_entry(d) {
            Some(p) => seq![ActiveNotice { index: p, active: false }],
            None => seq![],
        };
        let after = if index < d.panels.len() {
            seq![ActiveNotice { index, active: true }]
        } else {
            seq![]
        };
        (DockView { active: Some(index), ..d }, before + after)
    }
}

/// Dock and notices after opening or closing it. Nothing happens when the
/// state does not change; otherwise the active panel is told its new state.
pub open spec fn opened(d: DockView, open: bool) -> (DockView, Seq<ActiveNotice>) {
    if open == d.is_open {
        (d, seq![])
    } else {
        (DockView { is_open: open, ..d }, match active_entry(d) {
            Some(p) => seq![ActiveNotice { index: p, active: open }],
            None => seq![],
        })
    }
}

/// Where a panel of `priority` goes: after every panel of lower priority.
pub open spec fn insertion_index(panels: Seq<DockPanel>, priority: u32) -> nat
    decreases panels.len(),
{
    if panels.len() == 0 || panels[0].priority >= priority {
        0
    } else {
        1 + insertion_index(panels.drop_first(), priority)
    }
}

/// Dock after registering `panel` at `index`; the active index moves with
/// the panel it names.
pub open spec fn with_panel(d: DockView, panel: DockPanel, index: int) -> DockView {
    DockView {
        panels: d.panels.insert(index, panel),
        active: match d.active {
            Some(a) => if a >= index {
                Some((a + 1) as usize)
            } else {
                Some(a)
            },
            None => None,
        },
        ..d
    }
}

/// The first registered panel with identity `id`.
pub open spec fn index_of_id(panels: Seq<DockPanel>, id: u64) -> Option<usize>
    decreases panels.len(),
{
    if panels.len() == 0 {
        None
    } else if panels[0].id == id {
        Some(0)
    } else {
        match index_of_id(panels.drop_first(), id) {
            Some(i) => Some((i + 1) as usize),
            None => None,
        }
    }
}

/// Dock and notices after a panel event from the panel `id`: Activate opens
/// the dock and makes that panel active; Close closes the dock when that
/// panel is the one shown; zoom requests change nothing.
pub open spec fn after_event(d: DockView, id: u64, event: PanelEvent) -> (DockView, Seq<ActiveNotice>) {
    match event {
        PanelEvent::Activate => match index_of_id(d.panels, id) {
            Some(ix) => {
                let (d1, n1) = opened(d, true);
                let (d2, n2) = activated(d1, ix);
                (d2, n1 + n2)
            },
            None => (d, seq![]),
        },
        PanelEvent::Close => match visible_entry(d) {
            Some(v) => if d.panels[v as int].id == id {
                opened(d, false)
            } else {
                (d, seq![])
            },
            None => (d, seq![]),
        },
        _ => (d, seq![]),
    }
}

/// The first registered panel with activation priority `priority`.
pub open spec fn index_of_priority(panels: Seq<DockPanel>, priority: u32) -> Option<usize>
    decreases panels.len(),
{
    if panels.len() == 0 {
        None
    } else if panels[0].priority == priority {
        Some(0)
    } else {
        match index_of_priority(panels.drop_first(), priority) {
            Some(i) => Some((i + 1) as usize),
            None => None,
        }
    }
}

/// Dock and notices after a click on the tab of panel `index`: when it is
/// shown, the dock closes; otherwise it becomes active and the dock opens.
pub open spec fn toggled(d: DockView, index: usize) -> (DockView, Seq<ActiveNotice>) {
    if d.is_open && d.active == Some(index) {
        opened(d, false)
    } else {
        let (d1, n1) = activated(d, index);
        let (d2, n2) = opened(d1, true);
        (d2, n1 + n2)
    }
}

proof fn lemma_index_of_id(panels: Seq<DockPanel>, id: u64, i: int)
    requires
        0 <= i <= panels.len() <= usize::MAX,
        forall|k: int| 0 <= k < i ==> (#[trigger] panels[k]).id != id,
    ensures
        i < panels.len() && panels[i].id == id ==> index_of_id(panels, id) == Some(i as usize),
        i == panels.len() ==> index_of_id(panels, id) is None,
    decreases i,
{
    if i > 0 {
        assert forall|k: int| 0 <= k < i - 1 implies (#[trigger] panels.drop_first()[k]).id != id by {
            assert(panels.drop_first()[k] == panels[k + 1]);
        }
        lemma_index_of_id(panels.drop_first(), id, i - 1);
    }
}

proof fn lemma_index_of_priority(panels: Seq<DockPanel>, priority: u32, i: int)
    requires
        0 <= i <= panels.len() <= usize::MAX,
        forall|k: int| 0 <= k < i ==> (#[trigger] panels[k]).priority != priority,
    ensures
        i < panels.len() && panels[i].priority == priority ==> index_of_priority(panels, priority)
            == Some(i as usize),
        i == panels.len() ==> index_of_priority(panels, priority) is None,
    decreases i,
{
    if i > 0 {
        assert forall|k: int| 0 <= k < i - 1 implies (#[trigger] panels.drop_first()[k]).priority
            != priority by {
            assert(panels.drop_first()[k] == panels[k + 1]);
        }
        lemma_index_of_priority(panels.drop_first(), priority, i - 1);
    }
}

proof fn lemma_insertion_index(panels: Seq<DockPanel>, priority: u32, i: int)
    requires
        0 <= i <= panels.len(),
        forall|k: int| 0 <= k < i ==> (#[trigger] panels[k]).priority < priority,
        i < panels.len() ==> panels[i].priority >= priority,
    ensures
        insertion_index(panels, priority) == i,
    decreases i,
{
    if i > 0 {
        assert forall|k: int| 0 <= k < i - 1 implies (#[trigger] panels.drop_first()[k]).priority
            < priority by {
            assert(panels.drop_first()[k] == panels[k + 1]);
        }
        lemma_insertion_index(panels.drop_first(), priority, i - 1);
    }
}

// ---------------------------------------------------------------------------
// Laws
// ---------------------------------------------------------------------------

/// When a registered panel asks to be activated, its dock shows it.
pub proof fn lemma_activate_event_shows_panel(d: DockView, id: u64, ix: usize)
    requires
        index_of_id(d.panels, id) == Some(ix),
        ix < d.panels.len(),
    ensures
        visible_entry(after_event(d, id, PanelEvent::Activate).0) == Some(ix),
{
}

/// Clicking the tab of a registered panel twice, starting with its panel
/// not shown, opens the dock on it and then closes the dock again, leaving
/// it as the active panel.
pub proof fn lemma_toggle_twice(d: DockView, ix: usize)
    requires
        ix < d.panels.len(),
        visible_entry(d) != Some(ix),
    ensures
        visible_entry(toggled(d, ix).0) == Some(ix),
        !toggled(toggled(d, ix).0, ix).0.is_open,
        toggled(toggled(d, ix).0, ix).0.active == Some(ix),
        toggled(toggled(d, ix).0, ix).0.panels == d.panels,
{
}

/// Registering a panel keeps the active index on the panel it named.
pub proof fn lemma_add_panel_keeps_active(d: DockView, panel: DockPanel, index: int, a: usize)
    requires
        0 <= index <= d.panels.len(),
        active_entry(d) == Some(a),
        a < usize::MAX,
    ensures
        with_panel(d, panel, index).active matches Some(b) && with_panel(d, panel, index).panels[b as int]
            == d.panels[a as int],
{
}

/// Registering a panel at its insertion index keeps priorities strictly
/// increasing, when no registered panel has its priority.
pub proof fn lemma_insertion_keeps_order(panels: Seq<DockPanel>, panel: DockPanel)
    requires
        priorities_increasing(panels),
        forall|k: int| 0 <= k < panels.len() ==> (#[trigger] panels[k]).priority != panel.priority,
    ensures
        priorities_increasing(panels.insert(insertion_index(panels, panel.priority) as int, panel)),
{
    let p = insertion_index(panels, panel.priority) as int;
    lemma_insertion_index_bounds(panels, panel.priority);
    let np = panels.insert(p, panel);
    assert forall|a: int, b: int| 0 <= a < b < np.len() implies (#[trigger] np[a]).priority < (
    #[trigger] np[b]).priority by {
        if b < p {
        } else if a < p && b == p {
        } else if a < p && b > p {
            assert(np[b] == panels[b - 1]);
        } else if a == p {
            assert(np[b] == panels[b - 1]);
            if b - 1 > p {
                assert(panels[p].priority < panels[b - 1].priority);
            }
        } else {
            assert(np[a] == panels[a - 1] && np[b] == panels[b - 1]);
        }
    }
}

/// Below the insertion index priorities are lower, from it on not lower.
proof fn lemma_insertion_index_bounds(panels: Seq<DockPanel>, priority: u32)
    requires
        priorities_increasing(panels),
    ensures
        insertion_index(panels, priority) <= panels.len(),
        forall|k: int|
            0 <= k < insertion_index(panels, priority) ==> (#[trigger] panels[k]).priority
                < priority,
        forall|k: int|
            insertion_index(panels, priority) <= k < panels.len() ==> (
            #[trigger] panels[k]).priority >= priority,
    decreases panels.len(),
{
    if panels.len() > 0 && panels[0].priority < priority {
        let t = panels.drop_first();
        assert forall|a: int, b: int| 0 <= a < b < t.len() implies (#[trigger] t[a]).priority < (
        #[trigger] t[b]).priority by {
            assert(t[a] == panels[a + 1] && t[b] == panels[b + 1]);
        }
        lemma_insertion_index_bounds(t, priority);
        assert forall|k: int| 0 <= k < insertion_index(panels, priority) implies (
        #[trigger] panels[k]).priority < priority by {
            if k > 0 {
                assert(panels[k] == t[k - 1]);
            }
        }
        assert forall|k: int|
            insertion_index(panels, priority) <= k < panels.len() implies (
            #[trigger] panels[k]).priority >= priority by {
            assert(panels[k] == t[k - 1]);
        }
    } else if panels.len() > 0 {
        assert forall|k: int| 0 <= k < panels.len() implies (#[trigger] panels[k]).priority
            >= priority by {
            if k > 0 {
                assert(panels[0].priority < panels[k].priority);
            }
        }
    }
}

/// A container fixed to one edge of the window.
pub struct PodiumDock {
    position: PanelPosition,
    panels: Vec<DockPanel>,
    is_open: bool,
    active_panel_index: Option<usize>,
}

impl View for PodiumDock {
    type V = DockView;

    closed spec fn view(&self) -> DockView {
        DockView {
            position: self.position,
            panels: self.panels@,
            is_open: self.is_open,
            active: self.active_panel_index,
        }
    }
}

impl PodiumDock {
    /// Panels stay ordered by strictly increasing priority, and no two have
    /// one identity.
    #[verifier::type_invariant]
    closed spec fn ordered(&self) -> bool {
        priorities_increasing(self.panels@) && ids_distinct(self.panels@)
    }

    /// An empty, closed dock at `position`.
    pub fn new(position: PanelPosition) -> (d: Self)
        ensures
            d@.position == position,
            d@.panels == Seq::<DockPanel>::empty(),
            !d@.is_open,
            d@.active is None,
    {
        PodiumDock { position, panels: Vec::new(), is_open: false, active_panel_index: None }
    }

    pub fn position(&self) -> (p: PanelPosition)
        ensures
            p == self@.position,
    {
        self.position
    }

    pub fn is_open(&self) -> (b: bool)
        ensures
            b == self@.is_open,
    {
        self.is_open
    }

    pub fn active_panel_index(&self) -> (i: Option<usize>)
        ensures
            i == self@.active,
    {
        self.active_panel_index
    }

    pub fn panels_len(&self) -> (n: usize)
        ensures
            n == self@.panels.len(),
    {
        self.panels.len()
    }

    /// The registered panels, in strictly increasing priority order, each
    /// identity once.
    pub fn panels(&self) -> (p: &Vec<DockPanel>)
        ensures
            p@ == self@.panels,
            priorities_increasing(p@),
            ids_distinct(p@),
    {
        proof {
            use_type_invariant(self);
        }
        &self.panels
    }

    /// The active panel, regardless of whether the dock is open.
    pub fn active_panel(&self) -> (i: Option<usize>)
        ensures
            i == active_entry(self@),
    {
        match self.active_panel_index {
            Some(i) => if i < self.panels.len() {
                Some(i)
            } else {
                None
            },
            None => None,
        }
    }

    /// The active panel, only when the dock is open.
    pub fn visible_panel(&self) -> (i: Option<usize>)
        ensures
            i == visible_entry(self@),
    {
        if self.is_open {
            self.active_panel()
        } else {
            None
        }
    }

    /// Make the panel at `index` the active panel.
    pub fn activate_panel(&mut self, index: usize) -> (notices: Vec<ActiveNotice>)
        ensures
            (final(self)@, notices@) == activated(old(self)@, index),
    {
        proof {
            use_type_invariant(&*self);
        }
        if self.active_panel_index == Some(index) {
            return Vec::new();
        }
        let mut notices: Vec<ActiveNotice> = Vec::new();
        match self.active_panel() {
            Some(p) => notices.push(ActiveNotice { index: p, active: false }),
            None => {},
        }
        self.active_panel_index = Some(index);
        if index < self.panels.len() {
            notices.push(ActiveNotice { index, active: true });
        }
        assert(notices@ =~= activated(old(self)@, index).1);
        notices
    }

    /// Open or close this dock.
    pub fn set_open(&mut self, open: bool) -> (notices: Vec<ActiveNotice>)
        ensures
            (final(self)@, notices@) == opened(old(self)@, open),
    {
        proof {
            use_type_invariant(&*self);
        }
        if open == self.is_open {
            return Vec::new();
        }
        self.is_open = open;
        let mut notices: Vec<ActiveNotice> = Vec::new();
        match self.active_panel() {
            Some(p) => notices.push(ActiveNotice { index: p, active: open }),
            None => {},
        }
        assert(notices@ =~= opened(old(self)@, open).1);
        notices
    }

    /// Register a panel. It goes after every panel of lower priority; the
    /// active index keeps naming the same panel. Returns the index of the
    /// new panel. Priorities are unique, and so are identities (each panel is
    /// its own entity): a panel with a priority or an identity already
    /// registered is refused by the precondition.
    pub fn add_panel(&mut self, id: u64, priority: u32) -> (index: usize)
        requires
            forall|k: int|
                0 <= k < old(self)@.panels.len() ==> (#[trigger] old(self)@.panels[k]).priority
                    != priority,
            forall|k: int| 0 <= k < old(self)@.panels.len() ==> (#[trigger] old(self)@.panels[k]).id != id,
            old(self)@.active != Some(usize::MAX),
        ensures
            index == insertion_index(old(self)@.panels, priority),
            final(self)@ == with_panel(old(self)@, DockPanel { id, priority }, index as int),
    {
        proof {
            use_type_invariant(&*self);
        }
        let mut p: usize = 0;
        while p < self.panels.len() && self.panels[p].priority < priority
            invariant
                p <= self.panels.len(),
                forall|k: int| 0 <= k < p ==> (#[trigger] self.panels@[k]).priority < priority,
            decreases self.panels.len() - p,
        {
            p += 1;
        }
        proof {
            lemma_insertion_index(self.panels@, priority, p as int);
        }
        let ghost old_panels = self.panels@;
        let new_active = match self.active_panel_index {
            Some(a) => if a >= p {
                Some(a + 1)
            } else {
                Some(a)
            },
            None => None,
        };
        let ghost new_panels = old_panels.insert(p as int, DockPanel { id, priority });
        proof {
            assert forall|a: int, b: int| 0 <= a < b < new_panels.len() implies (
            #[trigger] new_panels[a]).priority < (#[trigger] new_panels[b]).priority by {
                if b < p {
                } else if a < p && b == p {
                } else if a < p && b > p {
                    assert(new_panels[b] == old_panels[b - 1]);
                } else if a == p {
                    assert(new_panels[b] == old_panels[b - 1]);
                    assert(old_panels[b - 1].priority != priority);
                    if b - 1 > p {
                        assert(old_panels[p as int].priority < old_panels[b - 1].priority);
                    }
                } else {
                    assert(new_panels[a] == old_panels[a - 1] && new_panels[b] == old_panels[b - 1]);
                }
            }
            assert forall|a: int, b: int| 0 <= a < b < new_panels.len() implies (
            #[trigger] new_panels[a]).id != (#[trigger] new_panels[b]).id by {
                if b < p {
                } else if a < p && b == p {
                } else if a < p && b > p {
                    assert(new_panels[b] == old_panels[b - 1]);
                } else if a == p {
                    assert(new_panels[b] == old_panels[b - 1]);
                } else {
                    assert(new_panels[a] == old_panels[a - 1] && new_panels[b] == old_panels[b - 1]);
                }
            }
        }
        let mut panels = Vec::new();
        std::mem::swap(&mut panels, &mut self.panels);
        panels.insert(p, DockPanel { id, priority });
        assert(panels@ == new_panels);
        *self = PodiumDock {
            position: self.position,
            panels,
            is_open: self.is_open,
            active_panel_index: new_active,
        };
        p
    }

    /// Index of the first panel with identity `id`.
    pub fn index_for_id(&self, id: u64) -> (i: Option<usize>)
        ensures
            i == index_of_id(self@.panels, id),
    {
        let mut k: usize = 0;
        while k < self.panels.len()
            invariant
                k <= self.panels.len(),
                forall|j: int| 0 <= j < k ==> (#[trigger] self.panels@[j]).id != id,
            decreases self.panels.len() - k,
        {
            if self.panels[k].id == id {
                proof {
                    lemma_index_of_id(self.panels@, id, k as int);
                }
                return Some(k);
            }
            k += 1;
        }
        proof {
            lemma_index_of_id(self.panels@, id, k as int);
        }
        None
    }

    /// React to an event of the panel `id`: Activate opens the dock and
    /// makes that panel active; Close closes the dock when that panel is
    /// shown; zoom requests change nothing yet.
    pub fn handle_panel_event(&mut self, id: u64, event: PanelEvent) -> (notices: Vec<ActiveNotice>)
        ensures
            (final(self)@, notices@) == after_event(old(self)@, id, event),
    {
        match event {
            PanelEvent::Activate => match self.index_for_id(id) {
                Some(ix) => {
                    let mut n1 = self.set_open(true);
                    let n2 = self.activate_panel(ix);
                    append_notices(&mut n1, &n2);
                    n1
                },
                None => Vec::new(),
            },
            PanelEvent::Close => match self.visible_panel() {
                Some(v) => if self.panels[v].id == id {
                    self.set_open(false)
                } else {
                    Vec::new()
                },
                None => Vec::new(),
            },
            _ => Vec::new(),
        }
    }

    /// A click on the tab of the panel with `priority`: close the dock when
    /// that panel is shown, otherwise activate it and open the dock. `None`
    /// when no panel of this dock has that priority.
    pub fn toggle_by_priority(&mut self, priority: u32) -> (notices: Option<Vec<ActiveNotice>>)
        ensures
            match index_of_priority(old(self)@.panels, priority) {
                None => notices is None && final(self)@ == old(self)@,
                Some(ix) => notices matches Some(n) && (final(self)@, n@) == toggled(
                    old(self)@,
                    ix,
                ),
            },
    {
        let mut k: usize = 0;
        while k < self.panels.len() && self.panels[k].priority != priority
            invariant
                k <= self.panels.len(),
                forall|j: int| 0 <= j < k ==> (#[trigger] self.panels@[j]).priority != priority,
            decreases self.panels.len() - k,
        {
            k += 1;
        }
        proof {
            lemma_index_of_priority(self.panels@, priority, k as int);
        }
        if k == self.panels.len() {
            return None;
        }
        if self.is_open && self.active_panel_index == Some(k) {
            Some(self.set_open(false))
        } else {
            let mut n1 = self.activate_panel(k);
            let n2 = self.set_open(true);
            append_notices(&mut n1, &n2);
            Some(n1)
        }
    }
}

/// Append the notices `more` to `notices`.
fn append_notices(notices: &mut Vec<ActiveNotice>, more: &Vec<ActiveNotice>)
    ensures
        final(notices)@ == old(notices)@ + more@,
{
    let mut k: usize = 0;
    while k < more.len()
        invariant
            k <= more.len(),
            notices@ == old(notices)@ + more@.take(k as int),
        decreases more.len() - k,
    {
        notices.push(more[k]);
        assert(more@.take(k + 1) =~= more@.take(k as int).push(more@[k as int]));
        k += 1;
    }
    assert(more@.take(more.len() as int) =~= more@);
}

/// The insertion index lies within the dock.
pub proof fn lemma_insertion_index_le(panels: Seq<DockPanel>, priority: u32)
    ensures
        insertion_index(panels, priority) <= panels.len(),
    decreases panels.len(),
{
    if panels.len() > 0 && panels[0].priority < priority {
        lemma_insertion_index_le(panels.drop_first(), priority);
    }
}

/// A panel registered by `add_panel` (whose precondition gives it an
/// identity no other panel of the dock has) is answered for its events: Activate opens the dock on it, Close closes the
/// dock when it is the panel shown and changes nothing otherwise, and zoom
/// requests change nothing.
pub proof fn lemma_panel_events_after_add(d: DockView, id: u64, priority: u32, event: PanelEvent)
    requires
        forall|k: int| 0 <= k < d.panels.len() ==> (#[trigger] d.panels[k]).id != id,
        d.panels.len() < usize::MAX,
    ensures
        ({
            let ix = insertion_index(d.panels, priority);
            let d2 = with_panel(d, DockPanel { id, priority }, ix as int);
            let d3 = after_event(d2, id, event).0;
            &&& event == PanelEvent::Activate ==> d3.is_open && d3.active == Some(ix as usize)
                && visible_entry(d3) == Some(ix as usize)
            &&& event == PanelEvent::Close ==> (if visible_entry(d2) == Some(ix as usize) {
                !d3.is_open && d3.panels == d2.panels
            } else {
                d3 == d2
            })
            &&& (event == PanelEvent::ZoomIn || event == PanelEvent::ZoomOut) ==> d3 == d2
        }),
{
    let ix = insertion_index(d.panels, priority);
    lemma_insertion_index_le(d.panels, priority);
    let panel = DockPanel { id, priority };
    let d2 = with_panel(d, panel, ix as int);
    let ps = d2.panels;
    assert(ps == d.panels.insert(ix as int, panel));
    assert(ps[ix as int] == panel);
    assert forall|k: int| 0 <= k < ix implies (#[trigger] ps[k]).id != id by {
        assert(ps[k] == d.panels[k]);
    }
    lemma_index_of_id(ps, id, ix as int);
    assert(index_of_id(ps, id) == Some(ix as usize));
    if event == PanelEvent::Close {
        match visible_entry(d2) {
            Some(v) => {
                if v != ix as usize {
                    if (v as int) < ix {
                        assert(ps[v as int] == d.panels[v as int]);
                    } else {
                        assert(ps[v as int] == d.panels[v - 1]);
                    }
                }
            },
            None => {},
        }
    }
}

// ---------------------------------------------------------------------------
// Tab bar
// ---------------------------------------------------------------------------

/// One tab of the window's tab bar: the activation priority of its panel,
/// and whether that panel is the one its dock shows.
#[derive(Clone, Copy, Debug, PartialEq, Eq, Structural)]
pub struct TabEntry {
    pub priority: u32,
    pub active: bool,
}

/// The tabs of one dock, in panel order.
pub open spec fn dock_tabs(d: DockView) -> Seq<TabEntry> {
    Seq::new(
        d.panels.len(),
        |i: int| TabEntry { priority: d.panels[i].priority, active: visible_entry(d) == Some(i as usize) },
    )
}

/// In the tab bar, tab `i` of `tabs` comes before tab `j`: lower priority,
/// or equal priority and given first.
pub open spec fn tab_before(tabs: Seq<TabEntry>, i: int, j: int) -> bool {
    tabs[i].priority < tabs[j].priority || (tabs[i].priority == tabs[j].priority && i < j)
}

/// `idx` lists every index of `tabs` once, in tab-bar order.
pub open spec fn is_tab_order(tabs: Seq<TabEntry>, idx: Seq<int>) -> bool {
    &&& idx.len() == tabs.len()
    &&& forall|k: int| 0 <= k < idx.len() ==> 0 <= #[trigger] idx[k] < tabs.len()
    &&& forall|a: int, b: int|
        0 <= a < b < idx.len() ==> tab_before(tabs, #[trigger] idx[a], #[trigger] idx[b])
}

/// Append the tabs of `dock` to `tabs`.
fn push_dock_tabs(tabs: &mut Vec<TabEntry>, dock: &PodiumDock)
    ensures
        final(tabs)@ == old(tabs)@ + dock_tabs(dock@),
{
    let shown = dock.visible_panel();
    let mut k: usize = 0;
    while k < dock.panels.len()
        invariant
            k <= dock.panels.len(),
            shown == visible_entry(dock@),
            tabs@ == old(tabs)@ + dock_tabs(dock@).take(k as int),
        decreases dock.panels.len() - k,
    {
        tabs.push(TabEntry { priority: dock.panels[k].priority, active: shown == Some(k) });
        assert(tabs@ =~= old(tabs)@ + dock_tabs(dock@).take(k + 1));
        k += 1;
    }
    assert(dock_tabs(dock@).take(k as int) =~= dock_tabs(dock@));
}

/// The tab bar of the window: one tab per panel of the left, bottom and
/// right docks, ordered by activation priority (tabs of equal priority in
/// dock order, then panel order), each active when its panel is shown.
pub fn tab_bar(left: &PodiumDock, bottom: &PodiumDock, right: &PodiumDock) -> (tabs: Vec<TabEntry>)
    ensures
        ({
            let all = dock_tabs(left@) + dock_tabs(bottom@) + dock_tabs(right@);
            &&& tabs.len() == all.len()
            &&& exists|idx: Seq<int>|
                is_tab_order(all, idx) && forall|k: int|
                    0 <= k < tabs.len() ==> #[trigger] tabs@[k] == all[idx[k]]
        }),
{
    let mut all: Vec<TabEntry> = Vec::new();
    push_dock_tabs(&mut all, left);
    push_dock_tabs(&mut all, bottom);
    push_dock_tabs(&mut all, right);
    assert(all@ =~= dock_tabs(left@) + dock_tabs(bottom@) + dock_tabs(right@));
    let ghost ts = all@;
    let n = all.len();
    // Stable insertion of each tab after every tab that does not come later.
    let mut order: Vec<usize> = Vec::new();
    let mut i: usize = 0;
    while i < n
        invariant
            i <= n == all.len(),
            ts == all@,
            order.len() == i,
            forall|k: int| 0 <= k < i ==> #[trigger] order@[k] < i,
            forall|a: int, b: int|
                0 <= a < b < i ==> tab_before(ts, #[trigger] order@[a] as int, #[trigger] order@[b] as int),
        decreases n - i,
    {
        let mut p: usize = 0;
        while p < order.len() && all[order[p]].priority <= all[i].priority
            invariant
                p <= order.len() == i,
                i < n == all.len(),
                ts == all@,
                forall|k: int| 0 <= k < i ==> #[trigger] order@[k] < i,
                forall|k: int| 0 <= k < p ==> tab_before(ts, #[trigger] order@[k] as int, i as int),
            decreases i - p,
        {
            p += 1;
        }
        let ghost old_order = order@;
        proof {
            if p < i {
                assert forall|k: int| p <= k < i implies tab_before(
                    ts,
                    i as int,
                    #[trigger] old_order[k] as int,
                ) by {
                    if k > p {
                        assert(tab_before(ts, old_order[p as int] as int, old_order[k] as int));
                    }
                }
            }
        }
        order.insert(p, i);
        proof {
            assert(order@ =~= old_order.insert(p as int, i));
            assert forall|a: int, b: int| 0 <= a < b < i + 1 implies tab_before(
                ts,
                #[trigger] order@[a] as int,
                #[trigger] order@[b] as int,
            ) by {
                if b < p {
                    assert(order@[a] == old_order[a] && order@[b] == old_order[b]);
                } else if a < p && b == p {
                    assert(order@[a] == old_order[a]);
                } else if a < p && b > p {
                    assert(order@[a] == old_order[a] && order@[b] == old_order[b - 1]);
                } else if a == p {
                    assert(order@[b] == old_order[b - 1]);
                } else {
                    assert(order@[a] == old_order[a - 1] && order@[b] == old_order[b - 1]);
                }
            }
            assert forall|k: int| 0 <= k < i + 1 implies #[trigger] order@[k] < i + 1 by {
                if k < p {
                    assert(order@[k] == old_order[k]);
                } else if k > p {
                    assert(order@[k] == old_order[k - 1]);
                }
            }
        }
        i += 1;
    }
    let mut tabs: Vec<TabEntry> = Vec::new();
    let mut k: usize = 0;
    while k < n
        invariant
            k <= n == all.len() == order.len(),
            ts == all@,
            tabs.len() == k,
            forall|j: int| 0 <= j < n ==> #[trigger] order@[j] < n,
            forall|j: int| 0 <= j < k ==> tabs@[j] == ts[#[trigger] order@[j] as int],
        decreases n - k,
    {
        tabs.push(all[order[k]]);
        k += 1;
    }
    let ghost idx = order@.map_values(|x: usize| x as int);
    assert(is_tab_order(ts, idx)) by {
        assert forall|a: int, b: int| 0 <= a < b < idx.len() implies tab_before(
            ts,
            #[trigger] idx[a],
            #[trigger] idx[b],
        ) by {
            assert(tab_before(ts, order@[a] as int, order@[b] as int));
        }
    }
    assert forall|j: int| 0 <= j < tabs.len() implies #[trigger] tabs@[j] == ts[idx[j]] by {
        assert(tabs@[j] == ts[order@[j] as int]);
    }
    tabs
}

/// In the tab bar, priorities never decrease along the bar, and tabs of
/// equal priority keep the order of the docks and panels they come from.
pub proof fn lemma_tab_bar_order(all: Seq<TabEntry>, idx: Seq<int>, a: int, b: int)
    requires
        is_tab_order(all, idx),
        0 <= a < b < idx.len(),
    ensures
        all[idx[a]].priority <= all[idx[b]].priority,
        all[idx[a]].priority == all[idx[b]].priority ==> idx[a] < idx[b],
{
    assert(tab_before(all, idx[a], idx[b]));
}

} // verus!
