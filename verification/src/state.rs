//! Podium UI state — `podium_state.toml`.
//!
//! Persists UI state across launches: the last active project and, per
//! project, which docks are open and which panel each shows. It is kept apart
//! from the project config because it changes every session.
//!
//! Dock state is keyed by project id so each project remembers its own layout.
//! Panel identity in `*_active_panel` is the panel's name; the empty string
//! means no panel is active.

use vstd::prelude::*;

use crate::config::{is_verbatim_path, join_path, joined_with};
use crate::text::{
    lemma_position_of, lemma_position_of_before, lemma_position_of_hit, lemma_position_of_le,
    position_of, str_eq,
};

verus! {

/// The path of `podium_state.toml` in the config directory `config_dir`.
pub fn podium_state_toml_path(config_dir: &str) -> (path: String)
    ensures
        !is_verbatim_path(config_dir@) ==> joined_with(path@, config_dir@, "podium_state.toml"@),
{
    proof {
        reveal_strlit("podium_state.toml");
    }
    join_path(config_dir, "podium_state.toml")
}

/// Open/close state and active panel of the three docks of one project.
#[derive(Debug, PartialEq, Eq)]
pub struct DockState {
    pub left_visible: bool,
    pub left_active_panel: String,
    pub bottom_visible: bool,
    pub bottom_active_panel: String,
    pub right_visible: bool,
    pub right_active_panel: String,
}

impl Clone for DockState {
    fn clone(&self) -> (c: Self)
        ensures
            c == *self,
    {
        DockState {
            left_visible: self.left_visible,
            left_active_panel: self.left_active_panel.clone(),
            bottom_visible: self.bottom_visible,
            bottom_active_panel: self.bottom_active_panel.clone(),
            right_visible: self.right_visible,
            right_active_panel: self.right_active_panel.clone(),
        }
    }
}

/// The dock state of a project with no stored layout: all docks closed, no
/// active panels.
pub open spec fn is_default_dock_state(d: DockState) -> bool {
    &&& !d.left_visible
    &&& d.left_active_panel@ == Seq::<char>::empty()
    &&& !d.bottom_visible
    &&& d.bottom_active_panel@ == Seq::<char>::empty()
    &&& !d.right_visible
    &&& d.right_active_panel@ == Seq::<char>::empty()
}

impl Default for DockState {
    /// All docks closed, no active panels: the layout of a project on its
    /// first load.
    fn default() -> (d: Self)
        ensures
            is_default_dock_state(d),
    {
        DockState {
            left_visible: false,
            left_active_panel: String::new(),
            bottom_visible: false,
            bottom_active_panel: String::new(),
            right_visible: false,
            right_active_panel: String::new(),
        }
    }
}

/// The stored dock state of one project.
#[derive(Debug, PartialEq, Eq)]
pub struct ProjectDockState {
    pub project_id: String,
    pub state: DockState,
}

/// Root of `podium_state.toml`.
#[derive(Debug, PartialEq, Eq)]
pub struct PodiumState {
    /// Id of the last active project, restored on the next launch.
    pub last_project: Option<String>,
    /// Per-project dock state; each project id occurs at most once.
    pub dock_state: Vec<ProjectDockState>,
}

/// The project ids that have a stored dock state, in stored order.
pub open spec fn dock_state_ids(entries: Seq<ProjectDockState>) -> Seq<Seq<char>> {
    entries.map_values(|e: ProjectDockState| e.project_id@)
}

/// The stored dock states as a map from project id; of two entries for one
/// id, the first counts.
pub open spec fn dock_state_map(entries: Seq<ProjectDockState>) -> Map<Seq<char>, DockState> {
    Map::new(
        |k: Seq<char>| dock_state_ids(entries).contains(k),
        |k: Seq<char>| entries[position_of(dock_state_ids(entries), k) as int].state,
    )
}

impl PodiumState {
    /// Well formed: no project id occurs twice.
    pub open spec fn wf(&self) -> bool {
        dock_state_ids(self.dock_state@).no_duplicates()
    }

    /// The per-project dock states as a map from project id.
    pub open spec fn dock_states(&self) -> Map<Seq<char>, DockState> {
        dock_state_map(self.dock_state@)
    }
}

impl Default for PodiumState {
    /// First launch: no last project, no stored layouts.
    fn default() -> (s: Self)
        ensures
            s.wf(),
            s.last_project is None,
            s.dock_states() == Map::<Seq<char>, DockState>::empty(),
    {
        let s = PodiumState { last_project: None, dock_state: Vec::new() };
        assert(s.dock_states() =~= Map::<Seq<char>, DockState>::empty());
        s
    }
}

impl PodiumState {
    /// Index of the stored state for `project_id`, or the number of entries.
    fn entry_index(&self, project_id: &str) -> (i: usize)
        ensures
            i == position_of(dock_state_ids(self.dock_state@), project_id@),
            i <= self.dock_state.len(),
    {
        let ghost ids = dock_state_ids(self.dock_state@);
        let mut i: usize = 0;
        while i < self.dock_state.len()
            invariant
                i <= self.dock_state.len(),
                ids == dock_state_ids(self.dock_state@),
                forall|j: int| 0 <= j < i ==> ids[j] != project_id@,
            decreases self.dock_state.len() - i,
        {
            if str_eq(self.dock_state[i].project_id.as_str(), project_id) {
                proof {
                    lemma_position_of(ids, project_id@, i as int);
                }
                return i;
            }
            i += 1;
        }
        proof {
            lemma_position_of(ids, project_id@, i as int);
            assert(!ids.contains(project_id@));
        }
        i
    }

    /// The dock state for a project: its stored state, or the default layout
    /// when none is stored.
    pub fn dock_state_for(&self, project_id: &str) -> (d: DockState)
        ensures
            self.dock_states().contains_key(project_id@) ==> d == self.dock_states()[project_id@],
            !self.dock_states().contains_key(project_id@) ==> is_default_dock_state(d),
    {
        let i = self.entry_index(project_id);
        let ghost ids = dock_state_ids(self.dock_state@);
        proof {
            lemma_position_of_hit(ids, project_id@);
        }
        if i < self.dock_state.len() {
            assert(ids[i as int] == project_id@);
            self.dock_state[i].state.clone()
        } else {
            proof {
                if ids.contains(project_id@) {
                    let j = choose|j: int| 0 <= j < ids.len() && #[trigger] ids[j] == project_id@;
                    lemma_position_of_le(ids, project_id@, j);
                }
            }
            DockState::default()
        }
    }

    /// Store the dock state for a project, replacing any earlier one. The file
    /// is not written here.
    pub fn set_dock_state(&mut self, project_id: &str, state: DockState)
        ensures
            old(self).wf() ==> final(self).wf(),
            final(self).dock_states() == old(self).dock_states().insert(project_id@, state),
            final(self).last_project == old(self).last_project,
    {
        let ghost old_entries = self.dock_state@;
        let ghost ids = dock_state_ids(old_entries);
        let i = self.entry_index(project_id);
        if i < self.dock_state.len() {
            let mut entry = self.dock_state.remove(i);
            entry.state = state;
            self.dock_state.insert(i, entry);
            proof {
                lemma_position_of_hit(ids, project_id@);
                let ne = self.dock_state@;
                let updated = ProjectDockState { project_id: old_entries[i as int].project_id, state };
                assert(ne =~= old_entries.update(i as int, updated));
                assert(dock_state_ids(ne) =~= ids);
                assert forall|k: Seq<char>| #[trigger] dock_state_ids(ne).contains(k)
                    implies dock_state_map(ne)[k] == dock_state_map(old_entries).insert(
                    project_id@,
                    state,
                )[k] by {
                    lemma_position_of_hit(ids, k);
                    let j = choose|j: int| 0 <= j < ids.len() && #[trigger] ids[j] == k;
                    lemma_position_of_le(ids, k, j);
                    let p = position_of(ids, k);
                    if k != project_id@ {
                        assert(p != i);
                        assert(ne[p as int] == old_entries[p as int]);
                    }
                }
                assert(dock_state_map(ne) =~= dock_state_map(old_entries).insert(project_id@, state));
            }
        } else {
            let id_string = project_id.to_owned();
            self.dock_state.push(ProjectDockState { project_id: id_string, state });
            proof {
                let ne = self.dock_state@;
                assert(dock_state_ids(ne) =~= ids.push(project_id@));
                assert(!ids.contains(project_id@)) by {
                    if ids.contains(project_id@) {
                        let j = choose|j: int| 0 <= j < ids.len() && #[trigger] ids[j] == project_id@;
                        lemma_position_of_le(ids, project_id@, j);
                    }
                }
                assert forall|k: Seq<char>| #[trigger] dock_state_ids(ne).contains(k)
                    implies dock_state_map(ne)[k] == dock_state_map(old_entries).insert(
                    project_id@,
                    state,
                )[k] by {
                    let nids = dock_state_ids(ne);
                    if k == project_id@ {
                        lemma_position_of(nids, k, ids.len() as int);
                    } else {
                        let j = choose|j: int| 0 <= j < nids.len() && #[trigger] nids[j] == k;
                        assert(j < ids.len());
                        assert(ids[j] == k);
                        lemma_position_of_hit(ids, k);
                        let p = position_of(ids, k);
                        assert forall|m: int| 0 <= m < p implies nids[m] != k by {
                            lemma_position_of_before(ids, k, m);
                        }
                        lemma_position_of(nids, k, p as int);
                    }
                }
                assert forall|k: Seq<char>| dock_state_ids(ne).contains(k) <==> dock_state_map(
                    old_entries,
                ).insert(project_id@, state).dom().contains(k) by {
                    let nids = dock_state_ids(ne);
                    if nids.contains(k) && k != project_id@ {
                        let j = choose|j: int| 0 <= j < nids.len() && #[trigger] nids[j] == k;
                        assert(ids[j] == k);
                    }
                    if ids.contains(k) {
                        let j = choose|j: int| 0 <= j < ids.len() && #[trigger] ids[j] == k;
                        assert(nids[j] == k);
                    }
                    if k == project_id@ {
                        assert(nids[ids.len() as int] == k);
                    }
                }
                assert(dock_state_map(ne) =~= dock_state_map(old_entries).insert(project_id@, state));
                assert forall|a: int, b: int| old(self).wf() && 0 <= a < b < dock_state_ids(ne).len() implies dock_state_ids(
                    ne,
                )[a] != dock_state_ids(ne)[b] by {
                    if b == ids.len() {
                        assert(ids[a] == dock_state_ids(ne)[a]);
                    } else {
                        assert(ids[a] == dock_state_ids(ne)[a] && ids[b] == dock_state_ids(ne)[b]);
                    }
                }
            }
        }
    }

    /// Set `last_project` to `project_id`. The file is not written here.
    pub fn set_last_project(&mut self, project_id: &str)
        ensures
            final(self).last_project matches Some(p) && p@ == project_id@,
            final(self).dock_state@ == old(self).dock_state@,
    {
        self.last_project = Some(project_id.to_owned());
    }

    /// Clear `last_project`: no project is loaded. The file is not written here.
    pub fn clear_last_project(&mut self)
        ensures
            final(self).last_project is None,
            final(self).dock_state@ == old(self).dock_state@,
    {
        self.last_project = None;
    }
}

/// Read after write: after storing `state` for `project_id`, the dock state
/// for that project is `state`, and every other project's is unchanged.
pub proof fn lemma_dock_state_read_after_write(
    before: Map<Seq<char>, DockState>,
    project_id: Seq<char>,
    state: DockState,
    other: Seq<char>,
)
    ensures
        before.insert(project_id, state).contains_key(project_id),
        before.insert(project_id, state)[project_id] == state,
        other != project_id ==> (before.insert(project_id, state).contains_key(other)
            <==> before.contains_key(other)),
        other != project_id && before.contains_key(other) ==> before.insert(
            project_id,
            state,
        )[other] == before[other],
{
}

/// The dock states after the writes `writes`, in order, starting from `m`:
/// each write `(p, d)` stores `d` for `p`, as `set_dock_state` does.
pub open spec fn after_writes(
    m: Map<Seq<char>, DockState>,
    writes: Seq<(Seq<char>, DockState)>,
) -> Map<Seq<char>, DockState>
    decreases writes.len(),
{
    if writes.len() == 0 {
        m
    } else {
        after_writes(m, writes.drop_last()).insert(writes.last().0, writes.last().1)
    }
}

/// Position of the last write for `project_id` in `writes`, or -1.
pub open spec fn last_write(writes: Seq<(Seq<char>, DockState)>, project_id: Seq<char>) -> int
    decreases writes.len(),
{
    if writes.len() == 0 {
        -1
    } else if writes.last().0 == project_id {
        writes.len() - 1
    } else {
        last_write(writes.drop_last(), project_id)
    }
}

/// Read after any history of writes: after the writes `writes`, the dock
/// state of `project_id` is the one its last write stored; with no write
/// for it, it is what it was before (the default layout, by
/// `dock_state_for`, when nothing was stored).
pub proof fn lemma_dock_state_history(
    before: Map<Seq<char>, DockState>,
    writes: Seq<(Seq<char>, DockState)>,
    project_id: Seq<char>,
)
    ensures
        -1 <= last_write(writes, project_id) < writes.len(),
        last_write(writes, project_id) >= 0 ==> after_writes(before, writes).contains_key(
            project_id,
        ) && after_writes(before, writes)[project_id] == writes[last_write(
            writes,
            project_id,
        )].1,
        last_write(writes, project_id) < 0 ==> (after_writes(before, writes).contains_key(
            project_id,
        ) <==> before.contains_key(project_id)),
        last_write(writes, project_id) < 0 && before.contains_key(project_id) ==> after_writes(
            before,
            writes,
        )[project_id] == before[project_id],
    decreases writes.len(),
{
    if writes.len() > 0 {
        lemma_dock_state_history(before, writes.drop_last(), project_id);
        if writes.last().0 != project_id {
            let k = last_write(writes.drop_last(), project_id);
            if k >= 0 {
                assert(writes[k] == writes.drop_last()[k]);
            }
        }
    }
}

} // verus!
