//! Onboarding flow state: the seven step cards that register a new project,
//! and the decisions the onboarding sheet takes on user input.
//!
//! | Step | Required | Content |
//! |------|----------|---------|
//! | 1 — Folder     | Yes | Folder picker, `.git` / `.podium` detection |
//! | 2 — Identity   | Yes | Project name, validation |
//! | 3 — Git        | No  | SSH/HTTPS toggle, account, remote URL |
//! | 4 — Agents     | No  | Agent roster |
//! | 5 — KB Sources | No  | Knowledge sources, with a MemPalace wing each |
//! | 6 — Services   | No  | External service connections |
//! | 7 — Confirm    | —   | Summary and Create Project |
//!
//! The sheet's widgets live in the application; each user action calls one of
//! the state transitions here and acts on what it returns.

use vstd::prelude::*;

use crate::config::{
    AgentEntry, GitConfig, KbConnection, KbSourceEntry, KbSourcesConfig, ProjectEntry,
    ServiceEntry, is_verbatim_path, source_ids,
};
use crate::text::{
    chars_of, decimal, extend_chars, lemma_position_of, lemma_position_of_hit,
    lemma_seq_lt_total, lemma_seq_lt_transitive, chars_lt, eq_range, position_of, push_decimal,
    seq_lt, str_eq, string_from_chars, trim, trim_end_char, trim_end_matches, trim_range,
    line_at, lines, string_of_range,
};

verus! {

// ---------------------------------------------------------------------------
// Steps
// ---------------------------------------------------------------------------

/// The onboarding steps, in order.
#[derive(Clone, Copy, Debug, PartialEq, Eq, Structural)]
pub enum OnboardingStep {
    Folder,
    Identity,
    Git,
    Agents,
    KbSources,
    Services,
    Confirm,
}

/// Position of a step in the flow, from 0.
pub open spec fn step_index(s: OnboardingStep) -> nat {
    match s {
        OnboardingStep::Folder => 0,
        OnboardingStep::Identity => 1,
        OnboardingStep::Git => 2,
        OnboardingStep::Agents => 3,
        OnboardingStep::KbSources => 4,
        OnboardingStep::Services => 5,
        OnboardingStep::Confirm => 6,
    }
}

/// The step at position `i` of the flow.
pub open spec fn step_at(i: nat) -> OnboardingStep {
    if i == 0 {
        OnboardingStep::Folder
    } else if i == 1 {
        OnboardingStep::Identity
    } else if i == 2 {
        OnboardingStep::Git
    } else if i == 3 {
        OnboardingStep::Agents
    } else if i == 4 {
        OnboardingStep::KbSources
    } else if i == 5 {
        OnboardingStep::Services
    } else {
        OnboardingStep::Confirm
    }
}

/// The title of a step card.
pub open spec fn step_label(s: OnboardingStep) -> Seq<char> {
    match s {
        OnboardingStep::Folder => "Choose Folder"@,
        OnboardingStep::Identity => "Project Name"@,
        OnboardingStep::Git => "Git Configuration"@,
        OnboardingStep::Agents => "Agents"@,
        OnboardingStep::KbSources => "Knowledge Sources"@,
        OnboardingStep::Services => "Services"@,
        OnboardingStep::Confirm => "Confirm & Create"@,
    }
}

/// The step after `s` in the flow; none after Confirm.
pub open spec fn next_step(s: OnboardingStep) -> Option<OnboardingStep> {
    if step_index(s) < 6 {
        Some(step_at(step_index(s) + 1))
    } else {
        None
    }
}

/// The step before `s` in the flow; none before Folder.
pub open spec fn prev_step(s: OnboardingStep) -> Option<OnboardingStep> {
    if step_index(s) > 0 {
        Some(step_at((step_index(s) - 1) as nat))
    } else {
        None
    }
}

/// `s` moved one step on, or left at Confirm.
pub open spec fn advanced_step(s: OnboardingStep) -> OnboardingStep {
    match next_step(s) {
        Some(n) => n,
        None => s,
    }
}

/// `s` moved one step back, or left at Folder.
pub open spec fn went_back_step(s: OnboardingStep) -> OnboardingStep {
    match prev_step(s) {
        Some(p) => p,
        None => s,
    }
}

impl OnboardingStep {
    /// Number of steps in the flow.
    pub const TOTAL: usize = 7;

    /// Position of this step in the flow, from 0.
    pub fn index(self) -> (i: usize)
        ensures
            i == step_index(self),
    {
        match self {
            OnboardingStep::Folder => 0,
            OnboardingStep::Identity => 1,
            OnboardingStep::Git => 2,
            OnboardingStep::Agents => 3,
            OnboardingStep::KbSources => 4,
            OnboardingStep::Services => 5,
            OnboardingStep::Confirm => 6,
        }
    }

    /// Step number as shown to the user, from 1.
    pub fn display_number(self) -> (n: usize)
        ensures
            n == step_index(self) + 1,
    {
        self.index() + 1
    }

    /// The title of this step's card.
    pub fn label(self) -> (l: &'static str)
        ensures
            l@ == step_label(self),
    {
        match self {
            OnboardingStep::Folder => "Choose Folder",
            OnboardingStep::Identity => "Project Name",
            OnboardingStep::Git => "Git Configuration",
            OnboardingStep::Agents => "Agents",
            OnboardingStep::KbSources => "Knowledge Sources",
            OnboardingStep::Services => "Services",
            OnboardingStep::Confirm => "Confirm & Create",
        }
    }

    /// Whether the step cannot be skipped: folder, name and confirm.
    pub fn required(self) -> (r: bool)
        ensures
            r == (self == OnboardingStep::Folder || self == OnboardingStep::Identity || self
                == OnboardingStep::Confirm),
    {
        match self {
            OnboardingStep::Folder | OnboardingStep::Identity | OnboardingStep::Confirm => true,
            _ => false,
        }
    }

    /// The following step; none after Confirm.
    pub fn next(self) -> (n: Option<OnboardingStep>)
        ensures
            n == next_step(self),
    {
        match self {
            OnboardingStep::Folder => Some(OnboardingStep::Identity),
            OnboardingStep::Identity => Some(OnboardingStep::Git),
            OnboardingStep::Git => Some(OnboardingStep::Agents),
            OnboardingStep::Agents => Some(OnboardingStep::KbSources),
            OnboardingStep::KbSources => Some(OnboardingStep::Services),
            OnboardingStep::Services => Some(OnboardingStep::Confirm),
            OnboardingStep::Confirm => None,
        }
    }

    /// The preceding step; none before Folder.
    pub fn prev(self) -> (p: Option<OnboardingStep>)
        ensures
            p == prev_step(self),
    {
        match self {
            OnboardingStep::Folder => None,
            OnboardingStep::Identity => Some(OnboardingStep::Folder),
            OnboardingStep::Git => Some(OnboardingStep::Identity),
            OnboardingStep::Agents => Some(OnboardingStep::Git),
            OnboardingStep::KbSources => Some(OnboardingStep::Agents),
            OnboardingStep::Services => Some(OnboardingStep::KbSources),
            OnboardingStep::Confirm => Some(OnboardingStep::Services),
        }
    }
}


// ---------------------------------------------------------------------------
// Drafts
// ---------------------------------------------------------------------------

/// An agent being configured in step 4.
#[derive(Debug, PartialEq, Eq)]
pub struct AgentDraft {
    pub name: String,
    pub purpose: String,
    pub provider: String,
    pub model: String,
}

impl Default for AgentDraft {
    /// A new, empty agent card.
    fn default() -> (d: Self)
        ensures
            d.name@ == Seq::<char>::empty(),
            d.purpose@ == Seq::<char>::empty(),
            d.provider@ == Seq::<char>::empty(),
            d.model@ == Seq::<char>::empty(),
    {
        AgentDraft {
            name: String::new(),
            purpose: String::new(),
            provider: String::new(),
            model: String::new(),
        }
    }
}

/// A knowledge source selected in step 5, with its optional MemPalace wing.
/// Becomes a `KbConnection` on confirm.
#[derive(Debug, PartialEq, Eq)]
pub struct KbConnectionDraft {
    pub source_id: String,
    pub wing: Option<String>,
}

// ---------------------------------------------------------------------------
// State
// ---------------------------------------------------------------------------

/// Everything the user has entered so far.
#[derive(Debug, PartialEq, Eq)]
pub struct OnboardingState {
    pub step: OnboardingStep,
    // Step 1
    pub folder_path: Option<String>,
    pub git_detected: bool,
    pub podium_detected: bool,
    pub detected_remote: Option<String>,
    // Step 2
    pub project_name: String,
    pub project_name_error: Option<String>,
    // Step 3
    pub git_auth: String,
    pub git_account: String,
    pub git_remote: String,
    pub ssh_aliases: Vec<String>,
    // Step 4
    pub agents: Vec<AgentDraft>,
    // Step 5
    pub kb_connections: Vec<KbConnectionDraft>,
}

/// The source ids of `drafts`, in order.
pub open spec fn draft_source_ids(drafts: Seq<KbConnectionDraft>) -> Seq<Seq<char>> {
    drafts.map_values(|d: KbConnectionDraft| d.source_id@)
}

/// A fresh flow: step 1, HTTPS selected, nothing entered or detected.
pub open spec fn is_fresh(s: OnboardingState) -> bool {
    &&& s.step == OnboardingStep::Folder
    &&& s.folder_path is None
    &&& !s.git_detected
    &&& !s.podium_detected
    &&& s.detected_remote is None
    &&& s.project_name@ == Seq::<char>::empty()
    &&& s.project_name_error is None
    &&& s.git_auth@ == "https"@
    &&& s.git_account@ == Seq::<char>::empty()
    &&& s.git_remote@ == Seq::<char>::empty()
    &&& s.ssh_aliases@ == Seq::<String>::empty()
    &&& s.agents@ == Seq::<AgentDraft>::empty()
    &&& s.kb_connections@ == Seq::<KbConnectionDraft>::empty()
}

impl Default for OnboardingState {
    /// A fresh flow, as `new` makes it.
    fn default() -> (s: Self)
        ensures
            is_fresh(s),
    {
        Self::new()
    }
}

impl OnboardingState {
    /// A fresh flow at step 1, HTTPS selected, nothing entered.
    pub fn new() -> (s: Self)
        ensures
            is_fresh(s),
    {
        OnboardingState {
            step: OnboardingStep::Folder,
            folder_path: None,
            git_detected: false,
            podium_detected: false,
            detected_remote: None,
            project_name: String::new(),
            project_name_error: None,
            git_auth: "https".to_owned(),
            git_account: String::new(),
            git_remote: String::new(),
            ssh_aliases: Vec::new(),
            agents: Vec::new(),
            kb_connections: Vec::new(),
        }
    }

    /// Move to the next step; at Confirm nothing changes.
    pub fn advance(&mut self)
        ensures
            *final(self) == (OnboardingState { step: advanced_step(old(self).step), ..*old(self) }),
    {
        if let Some(next) = self.step.next() {
            self.step = next;
        }
    }

    /// Move to the previous step; at Folder nothing changes.
    pub fn go_back(&mut self)
        ensures
            *final(self) == (OnboardingState { step: went_back_step(old(self).step), ..*old(self) }),
    {
        if let Some(prev) = self.step.prev() {
            self.step = prev;
        }
    }
}

/// Whether the flow stops at step 1 because no folder is picked.
pub open spec fn folder_missing(s: OnboardingState) -> bool {
    s.step == OnboardingStep::Folder && s.folder_path is None
}

/// Whether the flow stops at step 2 because the project name is blank.
pub open spec fn name_missing(s: OnboardingState) -> bool {
    s.step == OnboardingStep::Identity && trim(s.project_name@).len() == 0
}

/// The git remote after entering `step`: on entering Git with no remote
/// typed, the remote detected in the folder's `.git/config`.
pub open spec fn prefilled_remote(s: OnboardingState, step: OnboardingStep) -> String {
    if step == OnboardingStep::Git && s.git_remote@.len() == 0 && s.detected_remote is Some {
        s.detected_remote->0
    } else {
        s.git_remote
    }
}

impl OnboardingState {
    /// Whether the knowledge source `source_id` is selected.
    pub fn is_kb_source_selected(&self, source_id: &str) -> (b: bool)
        ensures
            b == draft_source_ids(self.kb_connections@).contains(source_id@),
    {
        let i = self.kb_index(source_id);
        proof {
            let ids = draft_source_ids(self.kb_connections@);
            lemma_position_of_hit(ids, source_id@);
            if ids.contains(source_id@) {
                let j = choose|j: int| 0 <= j < ids.len() && #[trigger] ids[j] == source_id@;
                crate::text::lemma_position_of_le(ids, source_id@, j);
            }
        }
        i < self.kb_connections.len()
    }

    /// Index of the first selection of `source_id`, or the number of selections.
    fn kb_index(&self, source_id: &str) -> (i: usize)
        ensures
            i == position_of(draft_source_ids(self.kb_connections@), source_id@),
            i <= self.kb_connections.len(),
    {
        let ghost ids = draft_source_ids(self.kb_connections@);
        let mut i: usize = 0;
        while i < self.kb_connections.len()
            invariant
                i <= self.kb_connections.len(),
                ids == draft_source_ids(self.kb_connections@),
                forall|j: int| 0 <= j < i ==> ids[j] != source_id@,
            decreases self.kb_connections.len() - i,
        {
            if str_eq(self.kb_connections[i].source_id.as_str(), source_id) {
                proof {
                    lemma_position_of(ids, source_id@, i as int);
                }
                return i;
            }
            i += 1;
        }
        proof {
            lemma_position_of(ids, source_id@, i as int);
        }
        i
    }

    /// The selection of `source_id`, for update in place: the first one.
    pub fn kb_connection_mut(&mut self, source_id: &str) -> (r: Option<&mut KbConnectionDraft>)
        ensures
            ({
                let k = position_of(draft_source_ids(old(self).kb_connections@), source_id@);
                match r {
                    Some(d) => k < old(self).kb_connections.len() && *d
                        == old(self).kb_connections@[k as int] && final(self).kb_connections@
                        == old(self).kb_connections@.update(k as int, *final(d)) && *final(self)
                        == (OnboardingState {
                        kb_connections: final(self).kb_connections,
                        ..*old(self)
                    }),
                    None => k == old(self).kb_connections.len() && *final(self) == *old(self),
                }
            }),
    {
        let i = self.kb_index(source_id);
        if i < self.kb_connections.len() {
            Some(&mut self.kb_connections[i])
        } else {
            None
        }
    }

    /// "Next": refuse to leave step 1 while no folder is picked, and step 2
    /// while the project name is blank (with an error message); otherwise
    /// move on, and on entering Git prefill the remote detected in the folder
    /// when none was typed. Returns whether the flow moved on.
    pub fn try_advance(&mut self) -> (moved: bool)
        ensures
            moved == !(folder_missing(*old(self)) || name_missing(*old(self))),
            folder_missing(*old(self)) ==> *final(self) == *old(self),
            name_missing(*old(self)) ==> (final(self).project_name_error matches Some(e) && e@
                == "Project name is required."@),
            name_missing(*old(self)) ==> *final(self) == (OnboardingState {
                project_name_error: final(self).project_name_error,
                ..*old(self)
            }),
            moved ==> *final(self) == (OnboardingState {
                step: advanced_step(old(self).step),
                git_remote: prefilled_remote(*old(self), advanced_step(old(self).step)),
                ..*old(self)
            }),
    {
        if self.step == OnboardingStep::Folder && self.folder_path.is_none() {
            return false;
        }
        if self.step == OnboardingStep::Identity {
            let name = chars_of(self.project_name.as_str());
            let (a, b) = trim_range(&name, 0, name.len());
            assert(name@.subrange(0, name@.len() as int) =~= name@);
            if a == b {
                self.project_name_error = Some("Project name is required.".to_owned());
                return false;
            }
        }
        self.advance();
        if self.step == OnboardingStep::Git && self.git_remote.as_str().is_empty() {
            match &self.detected_remote {
                Some(detected) => {
                    self.git_remote = detected.clone();
                },
                None => {},
            }
        }
        true
    }

    /// The project name field changed: store it and clear the error.
    pub fn set_project_name(&mut self, value: &str)
        ensures
            final(self).project_name@ == value@,
            final(self).project_name_error is None,
            *final(self) == (OnboardingState {
                project_name: final(self).project_name,
                project_name_error: None,
                ..*old(self)
            }),
    {
        self.project_name = value.to_owned();
        self.project_name_error = None;
    }

    /// The SSH/HTTPS switch changed: store the method and clear the account.
    pub fn set_git_auth_ssh(&mut self, ssh: bool)
        ensures
            final(self).git_auth@ == (if ssh {
                "ssh"@
            } else {
                "https"@
            }),
            final(self).git_account@ == Seq::<char>::empty(),
            *final(self) == (OnboardingState {
                git_auth: final(self).git_auth,
                git_account: final(self).git_account,
                ..*old(self)
            }),
    {
        self.git_auth = if ssh {
            "ssh".to_owned()
        } else {
            "https".to_owned()
        };
        self.git_account = String::new();
    }

    /// The git account (HTTPS user name or SSH alias) changed.
    pub fn set_git_account(&mut self, value: &str)
        ensures
            final(self).git_account@ == value@,
            *final(self) == (OnboardingState { git_account: final(self).git_account, ..*old(self) }),
    {
        self.git_account = value.to_owned();
    }

    /// The remote URL field changed.
    pub fn set_git_remote(&mut self, value: &str)
        ensures
            final(self).git_remote@ == value@,
            *final(self) == (OnboardingState { git_remote: final(self).git_remote, ..*old(self) }),
    {
        self.git_remote = value.to_owned();
    }

    /// A folder was picked: store it and what was detected in it, and name
    /// the project after the folder unless a name was typed.
    pub fn select_folder(
        &mut self,
        path: String,
        git_detected: bool,
        podium_detected: bool,
        detected_remote: Option<String>,
        folder_name: String,
    )
        ensures
            *final(self) == (OnboardingState {
                folder_path: Some(path),
                git_detected,
                podium_detected,
                detected_remote,
                project_name: if old(self).project_name@.len() == 0 {
                    folder_name
                } else {
                    old(self).project_name
                },
                ..*old(self)
            }),
    {
        self.folder_path = Some(path);
        self.git_detected = git_detected;
        self.podium_detected = podium_detected;
        self.detected_remote = detected_remote;
        if self.project_name.as_str().is_empty() {
            self.project_name = folder_name;
        }
    }

    /// "+ Add Agent": append an empty agent card; returns its index.
    pub fn add_agent(&mut self) -> (index: usize)
        ensures
            index == old(self).agents.len(),
            final(self).agents.len() == old(self).agents.len() + 1,
            final(self).agents@.take(index as int) == old(self).agents@,
            final(self).agents@[index as int].name@ == Seq::<char>::empty(),
            final(self).agents@[index as int].purpose@ == Seq::<char>::empty(),
            final(self).agents@[index as int].provider@ == Seq::<char>::empty(),
            final(self).agents@[index as int].model@ == Seq::<char>::empty(),
            *final(self) == (OnboardingState { agents: final(self).agents, ..*old(self) }),
    {
        let index = self.agents.len();
        self.agents.push(AgentDraft::default());
        assert(self.agents@.take(index as int) =~= old(self).agents@);
        index
    }

    /// "Remove" on agent card `index`; nothing happens for an index past the
    /// end. Returns whether a card was removed.
    pub fn remove_agent(&mut self, index: usize) -> (removed: bool)
        ensures
            removed == (index < old(self).agents.len()),
            removed ==> final(self).agents@ == old(self).agents@.remove(index as int),
            *final(self) == (OnboardingState {
                agents: if removed {
                    final(self).agents
                } else {
                    old(self).agents
                },
                ..*old(self)
            }),
    {
        if index < self.agents.len() {
            self.agents.remove(index);
            true
        } else {
            false
        }
    }
}

/// `a` with its text fields replaced where given.
pub open spec fn agent_with(
    a: AgentDraft,
    name: Option<String>,
    purpose: Option<String>,
    provider: Option<String>,
    model: Option<String>,
) -> AgentDraft {
    AgentDraft {
        name: match name {
            Some(v) => v,
            None => a.name,
        },
        purpose: match purpose {
            Some(v) => v,
            None => a.purpose,
        },
        provider: match provider {
            Some(v) => v,
            None => a.provider,
        },
        model: match model {
            Some(v) => v,
            None => a.model,
        },
    }
}

/// Which field of an agent card changed.
#[derive(Clone, Copy, Debug, PartialEq, Eq, Structural)]
pub enum AgentField {
    Name,
    Purpose,
    /// Choosing a provider also clears the model.
    Provider,
    Model,
}

/// What the sheet does after a knowledge source tile is clicked.
#[derive(Debug, PartialEq, Eq)]
pub enum KbToggle {
    /// The source was selected and is now deselected.
    Deselected,
    /// The source is now selected; nothing else to do.
    Selected,
    /// The source is a MemPalace with an endpoint whose wings were never
    /// requested: fetch them from that endpoint.
    FetchWings(String),
    /// The source is a MemPalace without an endpoint: offer a text field for
    /// the wing name.
    ManualWing,
}

/// `drafts` without the selections of `source_id`.
pub open spec fn without_source(drafts: Seq<KbConnectionDraft>, source_id: Seq<char>) -> Seq<
    KbConnectionDraft,
> {
    drafts.filter(other_source(source_id))
}

/// A selection of some source other than `source_id`.
pub open spec fn other_source(source_id: Seq<char>) -> spec_fn(KbConnectionDraft) -> bool {
    |d: KbConnectionDraft| d.source_id@ != source_id
}

/// What selecting `source_id` leads to, given the library `sources` and
/// whether its wings were requested before.
pub open spec fn toggle_on_action(
    sources: Seq<KbSourceEntry>,
    source_id: Seq<char>,
    wings_requested: bool,
    r: KbToggle,
) -> bool {
    let k = position_of(source_ids(sources), source_id);
    let found = k < sources.len();
    let mempalace = found && sources[k as int].provider@ == "mempalace"@;
    let endpoint = if found {
        sources[k as int].endpoint
    } else {
        None
    };
    if mempalace && endpoint is Some {
        if wings_requested {
            r == KbToggle::Selected
        } else {
            r matches KbToggle::FetchWings(e) && e@ == endpoint->0@
        }
    } else if mempalace {
        r == KbToggle::ManualWing
    } else {
        r == KbToggle::Selected
    }
}

/// A wing value as typed: none when blank.
pub open spec fn typed_wing(value: Seq<char>) -> Option<Seq<char>> {
    if value.len() == 0 {
        None
    } else {
        Some(value)
    }
}

pub open spec fn opt_string_view(o: Option<String>) -> Option<Seq<char>> {
    match o {
        Some(s) => Some(s@),
        None => None,
    }
}

impl OnboardingState {
    /// A field of agent card `index` changed to `value`; nothing happens for
    /// an index past the end. Choosing a provider clears the model.
    pub fn set_agent_field(&mut self, index: usize, field: AgentField, value: &str)
        ensures
            index >= old(self).agents.len() ==> *final(self) == *old(self),
            index < old(self).agents.len() ==> {
                let a = old(self).agents@[index as int];
                let b = final(self).agents@[index as int];
                &&& final(self).agents@ == old(self).agents@.update(index as int, b)
                &&& *final(self) == (OnboardingState { agents: final(self).agents, ..*old(self) })
                &&& match field {
                    AgentField::Name => b == agent_with(a, Some(b.name), None, None, None)
                        && b.name@ == value@,
                    AgentField::Purpose => b == agent_with(a, None, Some(b.purpose), None, None)
                        && b.purpose@ == value@,
                    AgentField::Provider => b == agent_with(
                        a,
                        None,
                        None,
                        Some(b.provider),
                        Some(b.model),
                    ) && b.provider@ == value@ && b.model@ == Seq::<char>::empty(),
                    AgentField::Model => b == agent_with(a, None, None, None, Some(b.model))
                        && b.model@ == value@,
                }
            },
    {
        if index < self.agents.len() {
            let mut a = self.agents.remove(index);
            match field {
                AgentField::Name => {
                    a.name = value.to_owned();
                },
                AgentField::Purpose => {
                    a.purpose = value.to_owned();
                },
                AgentField::Provider => {
                    a.provider = value.to_owned();
                    a.model = String::new();
                },
                AgentField::Model => {
                    a.model = value.to_owned();
                },
            }
            self.agents.insert(index, a);
            assert(self.agents@ =~= old(self).agents@.update(index as int, self.agents@[index as int]));
        }
    }

    /// A knowledge source tile was clicked. A selected source is deselected
    /// (every selection of it removed). Otherwise it is appended, without a
    /// wing, and the result says whether wings must be fetched or typed.
    /// `wings_requested` tells whether a wing fetch for it was started before;
    /// a fetch is made once per sheet.
    pub fn toggle_kb_source(
        &mut self,
        source_id: &str,
        sources: &KbSourcesConfig,
        wings_requested: bool,
    ) -> (r: KbToggle)
        ensures
            *final(self) == (OnboardingState {
                kb_connections: final(self).kb_connections,
                ..*old(self)
            }),
            draft_source_ids(old(self).kb_connections@).contains(source_id@) ==> {
                &&& r == KbToggle::Deselected
                &&& final(self).kb_connections@ == without_source(
                    old(self).kb_connections@,
                    source_id@,
                )
            },
            !draft_source_ids(old(self).kb_connections@).contains(source_id@) ==> {
                &&& final(self).kb_connections.len() == old(self).kb_connections.len() + 1
                &&& final(self).kb_connections@.drop_last() == old(self).kb_connections@
                &&& final(self).kb_connections@.last().source_id@ == source_id@
                &&& final(self).kb_connections@.last().wing is None
                &&& toggle_on_action(sources.sources@, source_id@, wings_requested, r)
            },
    {
        if self.is_kb_source_selected(source_id) {
            self.remove_source(source_id);
            return KbToggle::Deselected;
        }
        self.kb_connections.push(KbConnectionDraft { source_id: source_id.to_owned(), wing: None });
        assert(self.kb_connections@.drop_last() =~= old(self).kb_connections@);
        match sources.find_source(source_id) {
            None => KbToggle::Selected,
            Some(source) => {
                let mempalace = str_eq(source.provider.as_str(), "mempalace");
                match &source.endpoint {
                    Some(endpoint) => {
                        if !mempalace || wings_requested {
                            KbToggle::Selected
                        } else {
                            KbToggle::FetchWings(endpoint.clone())
                        }
                    },
                    None => {
                        if mempalace {
                            KbToggle::ManualWing
                        } else {
                            KbToggle::Selected
                        }
                    },
                }
            },
        }
    }

    /// Remove every selection of `source_id`, keeping the others in order.
    fn remove_source(&mut self, source_id: &str)
        ensures
            final(self).kb_connections@ == without_source(old(self).kb_connections@, source_id@),
            *final(self) == (OnboardingState {
                kb_connections: final(self).kb_connections,
                ..*old(self)
            }),
    {
        let ghost all = self.kb_connections@;
        let mut rest: Vec<KbConnectionDraft> = Vec::new();
        std::mem::swap(&mut rest, &mut self.kb_connections);
        let mut consumed: usize = 0;
        let n = rest.len();
        assert(all.take(0).filter(other_source(source_id@)) =~= Seq::<KbConnectionDraft>::empty());
        while rest.len() > 0
            invariant
                consumed + rest.len() == n == all.len(),
                rest@ == all.skip(consumed as int),
                self.kb_connections@ == all.take(consumed as int).filter(other_source(source_id@)),
                *self == (OnboardingState { kb_connections: self.kb_connections, ..*old(self) }),
            decreases rest.len(),
        {
            let d = rest.remove(0);
            proof {
                assert(d == all[consumed as int]);
                assert(all.take(consumed + 1) =~= all.take(consumed as int).push(d));
                assert(rest@ =~= all.skip(consumed + 1));
            }
            let keep = !str_eq(d.source_id.as_str(), source_id);
            if keep {
                self.kb_connections.push(d);
            }
            proof {
                all.take(consumed as int).lemma_filter_push(
                    all[consumed as int],
                    other_source(source_id@),
                );
            }
            consumed += 1;
        }
        assert(all.take(n as int) =~= all);
    }

    /// The wing text field of `source_id` changed: a blank value clears the
    /// wing.
    pub fn set_kb_wing(&mut self, source_id: &str, value: &str)
        ensures
            ({
                let k = position_of(draft_source_ids(old(self).kb_connections@), source_id@);
                &&& *final(self) == (OnboardingState {
                    kb_connections: final(self).kb_connections,
                    ..*old(self)
                })
                &&& k == old(self).kb_connections.len() ==> final(self).kb_connections@
                    == old(self).kb_connections@
                &&& k < old(self).kb_connections.len() ==> {
                    let d = final(self).kb_connections@[k as int];
                    &&& final(self).kb_connections@ == old(self).kb_connections@.update(k as int, d)
                    &&& d.source_id == old(self).kb_connections@[k as int].source_id
                    &&& opt_string_view(d.wing) == typed_wing(value@)
                }
            }),
    {
        let wing = if value.is_empty() {
            None
        } else {
            Some(value.to_owned())
        };
        match self.kb_connection_mut(source_id) {
            Some(d) => {
                d.wing = wing;
            },
            None => {},
        }
    }
}

// ---------------------------------------------------------------------------
// MemPalace wings
// ---------------------------------------------------------------------------

/// Whether `c` is an ASCII digit.
pub open spec fn is_digit(c: char) -> bool {
    '0' <= c && c <= '9'
}

/// The number of ASCII digits at the end of `s`.
pub open spec fn trailing_digits(s: Seq<char>) -> nat
    decreases s.len(),
{
    if s.len() > 0 && is_digit(s.last()) {
        1 + trailing_digits(s.drop_last())
    } else {
        0
    }
}

/// Where the `" (N drawers)"` suffix of `s` starts, `N` one or more digits;
/// none when `s` does not end in such a suffix.
pub open spec fn drawer_suffix_start(s: Seq<char>) -> Option<nat> {
    if s.len() >= 9 && s.skip(s.len() - 9) == " drawers)"@ {
        let d = s.take(s.len() - 9);
        let k = trailing_digits(d);
        if k > 0 && d.len() >= k + 2 && d[d.len() - k - 2] == ' ' && d[d.len() - k - 1] == '(' {
            Some((d.len() - k - 2) as nat)
        } else {
            None
        }
    } else {
        None
    }
}

/// The wing name in a wing display string: the text before its
/// `" (N drawers)"` suffix, or all of it when it has none.
pub open spec fn wing_name(display: Seq<char>) -> Seq<char> {
    match drawer_suffix_start(display) {
        Some(p) => display.take(p as int),
        None => display,
    }
}

/// Strip the `" (N drawers)"` suffix from a wing display string.
pub fn wing_name_from_display(display: &str) -> (name: String)
    ensures
        name@ == wing_name(display@),
{
    proof {
        reveal_strlit(" drawers)");
    }
    let v = chars_of(display);
    let n = v.len();
    let suffix = chars_of(" drawers)");
    let mut cut = n;
    if n >= 9 && eq_range(&v, n - 9, n, &suffix) {
        assert(v@.skip(n - 9) =~= v@.subrange(n - 9, n as int));
        let d = n - 9;
        let ghost dv = v@.take(d as int);
        let mut i = d;
        assert(v@.take(d as int) =~= dv);
        while i > 0 && '0' <= v[i - 1] && v[i - 1] <= '9'
            invariant
                i <= d < n == v.len(),
                dv == v@.take(d as int),
                trailing_digits(dv) == (d - i) + trailing_digits(v@.take(i as int)),
            decreases i,
        {
            assert(v@.take(i as int).drop_last() =~= v@.take(i - 1));
            assert(v@.take(i as int).last() == v@[i - 1]);
            i -= 1;
        }
        proof {
            if i > 0 {
                assert(v@.take(i as int).last() == v@[i - 1]);
            }
        }
        let k = d - i;
        if k > 0 && i >= 2 && v[i - 2] == ' ' && v[i - 1] == '(' {
            assert(dv[dv.len() - k - 2] == v@[i - 2]);
            assert(dv[dv.len() - k - 1] == v@[i - 1]);
            cut = i - 2;
        } else {
            proof {
                if k > 0 && i >= 2 {
                    assert(dv[dv.len() - k - 2] == v@[i - 2]);
                    assert(dv[dv.len() - k - 1] == v@[i - 1]);
                }
            }
        }
    } else {
        proof {
            if n >= 9 {
                assert(v@.skip(n - 9) =~= v@.subrange(n - 9, n as int));
            }
        }
    }
    assert(v@.take(n as int) =~= v@);
    let mut w: Vec<char> = Vec::new();
    let mut k: usize = 0;
    while k < cut
        invariant
            k <= cut <= n == v.len(),
            w@ == v@.take(k as int),
        decreases cut - k,
    {
        w.push(v[k]);
        assert(v@.take(k + 1) =~= v@.take(k as int).push(v@[k as int]));
        k += 1;
    }
    string_from_chars(&w)
}

/// The display string of a wing: `"name (N drawers)"`.
pub open spec fn wing_display(name: Seq<char>, drawers: nat) -> Seq<char> {
    name + " ("@ + decimal(drawers) + " drawers)"@
}

/// Wing `i` of `names` is listed before wing `j`: its name comes first, or
/// the names are equal and it was given first.
pub open spec fn name_before(names: Seq<Seq<char>>, i: int, j: int) -> bool {
    seq_lt(names[i], names[j]) || (names[i] == names[j] && i < j)
}

/// `idx` lists every index of `names` once, sorted by name, equal names in
/// given order.
pub open spec fn is_name_order(names: Seq<Seq<char>>, idx: Seq<int>) -> bool {
    &&& idx.len() == names.len()
    &&& forall|k: int| 0 <= k < idx.len() ==> 0 <= #[trigger] idx[k] < names.len()
    &&& forall|a: int, b: int|
        0 <= a < b < idx.len() ==> name_before(names, #[trigger] idx[a], #[trigger] idx[b])
}

/// The wing names of `(name, drawers)` pairs.
pub open spec fn wing_names(wings: Seq<(String, u64)>) -> Seq<Seq<char>> {
    wings.map_values(|w: (String, u64)| w.0@)
}

/// Display strings for the wings of a MemPalace, `"name (N drawers)"`,
/// sorted by wing name.
pub fn wing_display_list(wings: &Vec<(String, u64)>) -> (list: Vec<String>)
    ensures
        list.len() == wings.len(),
        exists|idx: Seq<int>|
            is_name_order(wing_names(wings@), idx) && forall|k: int|
                0 <= k < list.len() ==> (#[trigger] list@[k])@ == wing_display(
                    wings@[idx[k]].0@,
                    wings@[idx[k]].1 as nat,
                ),
{
    let ghost names = wing_names(wings@);
    let n = wings.len();
    let mut name_chars: Vec<Vec<char>> = Vec::new();
    let mut j: usize = 0;
    while j < n
        invariant
            j <= n == wings.len(),
            names == wing_names(wings@),
            name_chars.len() == j,
            forall|k: int| 0 <= k < j ==> (#[trigger] name_chars@[k])@ == names[k],
        decreases n - j,
    {
        name_chars.push(chars_of(wings[j].0.as_str()));
        j += 1;
    }
    let mut order: Vec<usize> = Vec::new();
    let mut i: usize = 0;
    while i < n
        invariant
            i <= n == wings.len() == name_chars.len(),
            names == wing_names(wings@),
            forall|k: int| 0 <= k < n ==> (#[trigger] name_chars@[k])@ == names[k],
            order.len() == i,
            forall|k: int| 0 <= k < i ==> #[trigger] order@[k] < i,
            forall|a: int, b: int|
                0 <= a < b < i ==> name_before(
                    names,
                    #[trigger] order@[a] as int,
                    #[trigger] order@[b] as int,
                ),
        decreases n - i,
    {
        let mut p: usize = 0;
        while p < order.len() && !chars_lt(&name_chars[i], &name_chars[order[p]])
            invariant
                p <= order.len() == i,
                i < n == name_chars.len(),
                forall|k: int| 0 <= k < n ==> (#[trigger] name_chars@[k])@ == names[k],
                forall|k: int| 0 <= k < i ==> #[trigger] order@[k] < i,
                forall|k: int| 0 <= k < p ==> name_before(names, #[trigger] order@[k] as int, i as int),
            decreases i - p,
        {
            proof {
                lemma_seq_lt_total(names[i as int], names[order@[p as int] as int]);
            }
            p += 1;
        }
        let ghost old_order = order@;
        proof {
            if p < i {
                assert forall|k: int| p <= k < i implies name_before(
                    names,
                    i as int,
                    #[trigger] old_order[k] as int,
                ) by {
                    if k > p {
                        let x = old_order[p as int] as int;
                        let y = old_order[k] as int;
                        assert(name_before(names, x, y));
                        if seq_lt(names[x], names[y]) {
                            lemma_seq_lt_transitive(names[i as int], names[x], names[y]);
                        }
                    }
                }
            }
        }
        order.insert(p, i);
        proof {
            assert(order@ =~= old_order.insert(p as int, i));
            assert forall|a: int, b: int| 0 <= a < b < i + 1 implies name_before(
                names,
                #[trigger] order@[a] as int,
                #[trigger] order@[b] as int,
            ) by {
                if b < p {
                    assert(order@[a] == old_order[a] && order@[b] == old_order[b]);
                } else if a < p && b == p {
                    assert(order@[a] == old_order[a]);
                } else if a < p && b > p {
                    let x = old_order[a] as int;
                    let y = old_order[b - 1] as int;
                    assert(order@[a] == x && order@[b] == y);
                    assert(name_before(names, x, i as int));
                    assert(name_before(names, i as int, y));
                    if seq_lt(names[x], names[i as int]) && seq_lt(names[i as int], names[y]) {
                        lemma_seq_lt_transitive(names[x], names[i as int], names[y]);
                    }
                } else if a == p {
                    assert(order@[b] == old_order[b - 1]);
                } else {
                    assert(order@[a] == old_order[a - 1] && order@[b] == old_order[b - 1]);
                }
            }
            assert forall|k: int| 0 <= k < i + 1 implies #[trigger] order@[k] < i + 1 by {
                if k < p {
                    assert(order@[k] == old_order[k]);
                } else if k > p {
                    assert(order@[k] == old_order[k - 1]);
                }
            }
        }
        i += 1;
    }
    let open_paren = chars_of(" (");
    let drawers = chars_of(" drawers)");
    let mut list: Vec<String> = Vec::new();
    let mut k: usize = 0;
    while k < n
        invariant
            k <= n == wings.len() == order.len() == name_chars.len(),
            names == wing_names(wings@),
            forall|m: int| 0 <= m < n ==> (#[trigger] name_chars@[m])@ == names[m],
            open_paren@ == " ("@,
            drawers@ == " drawers)"@,
            list.len() == k,
            forall|m: int| 0 <= m < n ==> #[trigger] order@[m] < n,
            forall|m: int|
                0 <= m < k ==> (#[trigger] list@[m])@ == wing_display(
                    wings@[order@[m] as int].0@,
                    wings@[order@[m] as int].1 as nat,
                ),
        decreases n - k,
    {
        let w = order[k];
        let mut cs: Vec<char> = Vec::new();
        extend_chars(&mut cs, &name_chars[w]);
        extend_chars(&mut cs, &open_paren);
        push_decimal(&mut cs, wings[w].1);
        extend_chars(&mut cs, &drawers);
        assert(names[w as int] == wings@[w as int].0@);
        list.push(string_from_chars(&cs));
        k += 1;
    }
    let ghost idx = order@.map_values(|x: usize| x as int);
    assert(is_name_order(names, idx)) by {
        assert forall|a: int, b: int| 0 <= a < b < idx.len() implies name_before(
            names,
            #[trigger] idx[a],
            #[trigger] idx[b],
        ) by {
            assert(name_before(names, order@[a] as int, order@[b] as int));
        }
    }
    list
}

/// The URL of the MCP endpoint of a MemPalace at `endpoint`.
pub open spec fn mcp_url(endpoint: Seq<char>) -> Seq<char> {
    trim_end_matches(endpoint, '/') + "/mcp"@
}

/// The MCP URL of a MemPalace: `{endpoint}/mcp`, without doubling a slash.
pub fn mempalace_mcp_url(endpoint: &str) -> (url: String)
    ensures
        url@ == mcp_url(endpoint@),
{
    let v = chars_of(endpoint);
    let e = trim_end_char(&v, 0, v.len(), '/');
    assert(v@.subrange(0, v@.len() as int) =~= v@);
    let mut cs: Vec<char> = Vec::new();
    let mut k: usize = 0;
    while k < e
        invariant
            k <= e <= v.len(),
            cs@ == v@.subrange(0, k as int),
        decreases e - k,
    {
        cs.push(v[k]);
        assert(cs@ =~= v@.subrange(0, k + 1));
        k += 1;
    }
    extend_chars(&mut cs, &chars_of("/mcp"));
    string_from_chars(&cs)
}

/// The `Authorization` header value for a bearer token.
pub fn bearer_authorization(token: &str) -> (value: String)
    ensures
        value@ == "Bearer "@ + token@,
{
    let mut cs = chars_of("Bearer ");
    extend_chars(&mut cs, &chars_of(token));
    string_from_chars(&cs)
}

/// What serde_json reads in the JSON text `body` at the JSON pointer
/// `pointer` (RFC 6901): none when `body` is not JSON; otherwise the string
/// found there, none when nothing or no string is there.
pub uninterp spec fn json_string_at(body: Seq<char>, pointer: Seq<char>) -> Option<Option<Seq<char>>>;

#[verifier::external_type_specification]
#[verifier::external_body]
pub struct ExJsonError(serde_json::Error);

/// `serde_json::from_str::<serde_json::Value>(body)`, then, on success,
/// `Value::pointer(pointer)` and `Value::as_str`. A parse error is handed
/// back; otherwise the string at the pointer, if there is one. What serde_json
/// reads in a given text is a function of the text alone; it is named, not
/// stated, here.
#[verifier::external_body]
fn json_str_at(body: &str, pointer: &str) -> (r: Result<Option<String>, serde_json::Error>)
    ensures
        match r {
            Ok(s) => json_string_at(body@, pointer@) == Some(opt_string_view(s)),
            Err(_) => json_string_at(body@, pointer@) is None,
        },
{
    match serde_json::from_str::<serde_json::Value>(body) {
        Ok(v) => Ok(v.pointer(pointer).and_then(serde_json::Value::as_str).map(str::to_owned)),
        Err(e) => Err(e),
    }
}

/// Why a MemPalace reply holds no wings listing.
#[derive(Debug)]
pub enum WingsReplyError {
    /// The reply is not JSON; the parser's error.
    Parse(serde_json::Error),
    /// The reply holds no text where an MCP tool result puts it.
    Shape,
}

/// Where an MCP `tools/call` reply holds the text of its result.
pub open spec fn mcp_text_pointer() -> Seq<char> {
    "/result/content/0/text"@
}

/// The text of a wings listing reply, given what the JSON parser found at
/// the result text: its parse error, nothing, or the text.
pub fn wings_reply_outcome(parsed: Result<Option<String>, serde_json::Error>) -> (r: Result<
    String,
    WingsReplyError,
>)
    ensures
        match parsed {
            Err(_) => r matches Err(WingsReplyError::Parse(_)),
            Ok(None) => r matches Err(WingsReplyError::Shape),
            Ok(Some(t)) => r matches Ok(s) && s == t,
        },
{
    match parsed {
        Err(e) => Err(WingsReplyError::Parse(e)),
        Ok(None) => Err(WingsReplyError::Shape),
        Ok(Some(t)) => Ok(t),
    }
}

/// The text of the reply of a MemPalace to the `mempalace_list_wings` tool
/// call: the string at `/result/content/0/text` of the JSON reply `body`.
pub fn wings_reply_text(body: &str) -> (r: Result<String, WingsReplyError>)
    ensures
        match json_string_at(body@, mcp_text_pointer()) {
            None => r matches Err(WingsReplyError::Parse(_)),
            Some(None) => r matches Err(WingsReplyError::Shape),
            Some(Some(t)) => r matches Ok(s) && s@ == t,
        },
{
    proof {
        reveal_strlit("/result/content/0/text");
    }
    wings_reply_outcome(json_str_at(body, "/result/content/0/text"))
}

// ---------------------------------------------------------------------------
// Confirm
// ---------------------------------------------------------------------------

/// The event the sheet emits when the user creates the project.
#[derive(Debug, PartialEq, Eq)]
pub enum OnboardingEvent {
    ProjectCreated(ProjectEntry),
}

/// Whether `s` is a random UUID in hyphenated lower-case form, as
/// uuid writes a version 4 UUID:
/// `xxxxxxxx-xxxx-4xxx-yxxx-xxxxxxxxxxxx` with `y` one of `8 9 a b`.
pub open spec fn is_hyphenated_v4_uuid(s: Seq<char>) -> bool {
    &&& s.len() == 36
    &&& s[8] == '-' && s[13] == '-' && s[18] == '-' && s[23] == '-'
    &&& s[14] == '4'
    &&& (s[19] == '8' || s[19] == '9' || s[19] == 'a' || s[19] == 'b')
    &&& forall|i: int|
        0 <= i < 36 && i != 8 && i != 13 && i != 18 && i != 23 ==> (('0' <= #[trigger] s[i]
            && s[i] <= '9') || ('a' <= s[i] && s[i] <= 'f'))
}

/// `getrandom::fill` on 16 bytes: random bytes from the operating system's
/// source, none when that source fails. Which bytes come back is chance and
/// is not stated.
#[verifier::external_body]
fn os_random_bytes() -> (r: Option<[u8; 16]>) {
    let mut bytes = [0u8; 16];
    match getrandom::fill(&mut bytes) {
        Ok(()) => Some(bytes),
        Err(_) => None,
    }
}

/// The text of the version 4 UUID that `uuid` builds from the random bytes
/// `bytes`.
pub uninterp spec fn v4_uuid_text(bytes: Seq<u8>) -> Seq<char>;

/// `uuid::Builder::from_random_bytes(bytes).into_uuid().to_string()`. The
/// uuid crate documents that the builder sets the version (4) and variant
/// (RFC 4122) bits of the bytes, and writes a UUID in hyphenated lower-case
/// form; the other bits are the bytes', named, not stated, here.
#[verifier::external_body]
fn v4_uuid_from_bytes(bytes: [u8; 16]) -> (id: String)
    ensures
        id@ == v4_uuid_text(bytes@),
        is_hyphenated_v4_uuid(id@),
{
    uuid::Builder::from_random_bytes(bytes).into_uuid().to_string()
}

/// The connection that a selection becomes.
pub open spec fn draft_connection(d: KbConnectionDraft) -> KbConnection {
    KbConnection { source_id: d.source_id, wing: d.wing }
}

/// A text field's value as an optional setting: none when blank.
pub open spec fn nonblank(s: String) -> Option<String> {
    if s@.len() == 0 {
        None
    } else {
        Some(s)
    }
}

/// The git configuration that confirming `s` records: none when step 3 was
/// left empty (no account and no remote), otherwise the chosen method with
/// the account and remote that were entered.
pub open spec fn created_git(s: OnboardingState) -> Option<GitConfig> {
    if s.git_account@.len() == 0 && s.git_remote@.len() == 0 {
        None
    } else {
        Some(
            GitConfig {
                auth: s.git_auth,
                account: nonblank(s.git_account),
                remote: nonblank(s.git_remote),
            },
        )
    }
}

/// The id of the agent at position `k` of the roster: `agent-{k + 1}`.
pub open spec fn agent_id(k: nat) -> Seq<char> {
    "agent-"@ + decimal(k + 1)
}

/// `e` is the entry that agent card `a`, at position `k`, becomes: its name,
/// purpose, provider and model (purpose and model none when blank), no
/// endpoint and no knowledge sources yet.
pub open spec fn is_created_agent(k: nat, a: AgentDraft, e: AgentEntry) -> bool {
    &&& e.id@ == agent_id(k)
    &&& e.name == a.name
    &&& e.purpose == nonblank(a.purpose)
    &&& e.provider == a.provider
    &&& e.model == nonblank(a.model)
    &&& e.endpoint is None
    &&& e.kb_sources@ == Seq::<String>::empty()
}

/// `e` is the project entry that confirming `s` creates: the typed name and
/// folder (empty when none was picked), never opened, the git configuration
/// of step 3, the agents of step 4, the selected knowledge sources, no
/// services.
pub open spec fn is_created_entry(s: OnboardingState, e: ProjectEntry) -> bool {
    &&& e.name == s.project_name
    &&& e.path@ == (match s.folder_path {
        Some(p) => p@,
        None => Seq::<char>::empty(),
    })
    &&& e.last_opened is None
    &&& e.git == created_git(s)
    &&& e.kb_connections@ == s.kb_connections@.map_values(
        |d: KbConnectionDraft| draft_connection(d),
    )
    &&& e.agents.len() == s.agents.len()
    &&& forall|k: int|
        0 <= k < s.agents.len() ==> is_created_agent(k as nat, s.agents@[k], #[trigger] e.agents@[k])
    &&& e.services@ == Seq::<ServiceEntry>::empty()
}

/// A text field's value as an optional setting.
fn nonblank_exec(s: &String) -> (r: Option<String>)
    ensures
        r == nonblank(*s),
{
    if s.as_str().is_empty() {
        None
    } else {
        Some(s.clone())
    }
}

impl OnboardingState {
    /// The agent entries that the roster of step 4 becomes, in order.
    fn created_agents(&self) -> (agents: Vec<AgentEntry>)
        ensures
            agents.len() == self.agents.len(),
            forall|k: int|
                0 <= k < self.agents.len() ==> is_created_agent(
                    k as nat,
                    self.agents@[k],
                    #[trigger] agents@[k],
                ),
    {
        let mut agents: Vec<AgentEntry> = Vec::new();
        let mut k: usize = 0;
        while k < self.agents.len()
            invariant
                k <= self.agents.len(),
                agents.len() == k,
                forall|j: int|
                    0 <= j < k ==> is_created_agent(j as nat, self.agents@[j], #[trigger] agents@[j]),
            decreases self.agents.len() - k,
        {
            let a = &self.agents[k];
            let mut id = chars_of("agent-");
            push_decimal(&mut id, (k + 1) as u64);
            agents.push(
                AgentEntry {
                    id: string_from_chars(&id),
                    name: a.name.clone(),
                    purpose: nonblank_exec(&a.purpose),
                    provider: a.provider.clone(),
                    model: nonblank_exec(&a.model),
                    endpoint: None,
                    kb_sources: Vec::new(),
                },
            );
            k += 1;
        }
        agents
    }

    /// The project entry that confirming creates under `id`.
    pub fn project_entry(&self, id: String) -> (e: ProjectEntry)
        ensures
            e.id == id,
            is_created_entry(*self, e),
    {
        let mut kb_connections: Vec<KbConnection> = Vec::new();
        let mut k: usize = 0;
        while k < self.kb_connections.len()
            invariant
                k <= self.kb_connections.len(),
                kb_connections@ == self.kb_connections@.take(k as int).map_values(
                    |d: KbConnectionDraft| draft_connection(d),
                ),
            decreases self.kb_connections.len() - k,
        {
            let d = &self.kb_connections[k];
            let wing = match &d.wing {
                Some(w) => Some(w.clone()),
                None => None,
            };
            kb_connections.push(KbConnection { source_id: d.source_id.clone(), wing });
            assert(kb_connections@ =~= self.kb_connections@.take(k + 1).map_values(
                |d: KbConnectionDraft| draft_connection(d),
            ));
            k += 1;
        }
        assert(self.kb_connections@.take(self.kb_connections.len() as int) =~= self.kb_connections@);
        let path = match &self.folder_path {
            Some(p) => p.clone(),
            None => String::new(),
        };
        let git = if self.git_account.as_str().is_empty() && self.git_remote.as_str().is_empty() {
            None
        } else {
            Some(
                GitConfig {
                    auth: self.git_auth.clone(),
                    account: nonblank_exec(&self.git_account),
                    remote: nonblank_exec(&self.git_remote),
                },
            )
        };
        ProjectEntry {
            id,
            name: self.project_name.clone(),
            path,
            last_opened: None,
            git,
            kb_connections,
            agents: self.created_agents(),
            services: Vec::new(),
        }
    }

    /// "Create Project": the event carrying the new project entry, under a
    /// fresh random id (a version 4 UUID drawn from the operating system's
    /// random source); none when that source fails.
    pub fn confirm(&self) -> (ev: Option<OnboardingEvent>)
        ensures
            ev matches Some(OnboardingEvent::ProjectCreated(e)) ==> {
                &&& is_hyphenated_v4_uuid(e.id@)
                &&& exists|bytes: Seq<u8>| e.id@ == #[trigger] v4_uuid_text(bytes)
                &&& is_created_entry(*self, e)
            },
    {
        match os_random_bytes() {
            Some(bytes) => {
                let id = v4_uuid_from_bytes(bytes);
                Some(OnboardingEvent::ProjectCreated(self.project_entry(id)))
            },
            None => None,
        }
    }
}

impl OnboardingState {
    /// A wing was chosen from the fetched list for `source_id`: the wing is
    /// the name part of the display string, none for an empty choice.
    pub fn set_kb_wing_from_display(&mut self, source_id: &str, display: &str)
        ensures
            ({
                let k = position_of(draft_source_ids(old(self).kb_connections@), source_id@);
                &&& *final(self) == (OnboardingState {
                    kb_connections: final(self).kb_connections,
                    ..*old(self)
                })
                &&& k == old(self).kb_connections.len() ==> final(self).kb_connections@
                    == old(self).kb_connections@
                &&& k < old(self).kb_connections.len() ==> {
                    let d = final(self).kb_connections@[k as int];
                    &&& final(self).kb_connections@ == old(self).kb_connections@.update(k as int, d)
                    &&& d.source_id == old(self).kb_connections@[k as int].source_id
                    &&& opt_string_view(d.wing) == (if display@.len() == 0 {
                        None
                    } else {
                        Some(wing_name(display@))
                    })
                }
            }),
    {
        let wing = if display.is_empty() {
            None
        } else {
            Some(wing_name_from_display(display))
        };
        match self.kb_connection_mut(source_id) {
            Some(d) => {
                d.wing = wing;
            },
            None => {},
        }
    }
}

// ---------------------------------------------------------------------------
// Agent providers
// ---------------------------------------------------------------------------

/// The curated model list of each agent provider; none for `custom`, for
/// unknown providers, and for `anthropic`, whose model ids are not listed
/// here.
pub open spec fn provider_models(provider: Seq<char>) -> Seq<Seq<char>> {
    if provider == "openai"@ {
        seq!["gpt-4o"@, "gpt-4o-mini"@, "o3"@, "o4-mini"@]
    } else if provider == "google"@ {
        seq!["gemini-2.5-pro"@, "gemini-2.5-flash"@]
    } else if provider == "xai"@ {
        seq!["grok-3"@, "grok-3-mini"@]
    } else if provider == "ollama"@ {
        seq!["llama3.3"@, "mistral"@, "deepseek-r1"@]
    } else {
        seq![]
    }
}

/// The agent providers offered, in menu order.
pub open spec fn provider_names() -> Seq<Seq<char>> {
    seq!["anthropic"@, "openai"@, "google"@, "xai"@, "ollama"@, "custom"@]
}

/// Owned copies of `items`, in order.
fn owned_strings(items: &[&str]) -> (v: Vec<String>)
    ensures
        v.len() == items.len(),
        forall|k: int| 0 <= k < v.len() ==> (#[trigger] v@[k])@ == items@[k]@,
{
    let mut v: Vec<String> = Vec::new();
    let mut k: usize = 0;
    while k < items.len()
        invariant
            k <= items.len(),
            v.len() == k,
            forall|m: int| 0 <= m < k ==> (#[trigger] v@[m])@ == items@[m]@,
        decreases items.len() - k,
    {
        v.push(items[k].to_owned());
        k += 1;
    }
    v
}

/// The models offered for `provider` in an agent card.
pub fn models_for_provider(provider: &str) -> (models: Vec<String>)
    ensures
        models@.map_values(|m: String| m@) == provider_models(provider@),
{
    let items: Vec<&str> = if str_eq(provider, "openai") {
        vec!["gpt-4o", "gpt-4o-mini", "o3", "o4-mini"]
    } else if str_eq(provider, "google") {
        vec!["gemini-2.5-pro", "gemini-2.5-flash"]
    } else if str_eq(provider, "xai") {
        vec!["grok-3", "grok-3-mini"]
    } else if str_eq(provider, "ollama") {
        vec!["llama3.3", "mistral", "deepseek-r1"]
    } else {
        vec![]
    };
    let models = owned_strings(items.as_slice());
    assert(models@.map_values(|m: String| m@) =~= provider_models(provider@));
    models
}

/// The providers offered in an agent card, in menu order.
pub fn provider_items() -> (items: Vec<String>)
    ensures
        items@.map_values(|m: String| m@) == provider_names(),
{
    let items = owned_strings(
        vec!["anthropic", "openai", "google", "xai", "ollama", "custom"].as_slice(),
    );
    assert(items@.map_values(|m: String| m@) =~= provider_names());
    items
}

/// The theme color of a knowledge source tile's accent block.
#[derive(Clone, Copy, Debug, PartialEq, Eq, Structural)]
pub enum ProviderAccent {
    Primary,
    Magenta,
    Blue,
    MutedForeground,
}

/// The accent of a knowledge source tile, by provider.
pub open spec fn accent_of(provider: Seq<char>) -> ProviderAccent {
    if provider == "mempalace"@ {
        ProviderAccent::Primary
    } else if provider == "obsidian"@ {
        ProviderAccent::Magenta
    } else if provider == "notion"@ {
        ProviderAccent::Blue
    } else {
        ProviderAccent::MutedForeground
    }
}

/// The abbreviation on a knowledge source tile, by provider.
pub open spec fn abbrev_of(provider: Seq<char>) -> Seq<char> {
    if provider == "mempalace"@ {
        "MP"@
    } else if provider == "obsidian"@ {
        "Ob"@
    } else if provider == "notion"@ {
        "N"@
    } else {
        "?"@
    }
}

/// The accent of a knowledge source tile, by provider.
pub fn provider_accent(provider: &str) -> (a: ProviderAccent)
    ensures
        a == accent_of(provider@),
{
    if str_eq(provider, "mempalace") {
        ProviderAccent::Primary
    } else if str_eq(provider, "obsidian") {
        ProviderAccent::Magenta
    } else if str_eq(provider, "notion") {
        ProviderAccent::Blue
    } else {
        ProviderAccent::MutedForeground
    }
}

/// The abbreviation shown on a knowledge source tile, by provider.
pub fn provider_abbrev(provider: &str) -> (a: &'static str)
    ensures
        a@ == abbrev_of(provider@),
{
    if str_eq(provider, "mempalace") {
        "MP"
    } else if str_eq(provider, "obsidian") {
        "Ob"
    } else if str_eq(provider, "notion") {
        "N"
    } else {
        "?"
    }
}

/// A tile of the knowledge sources step.
#[derive(Clone, Copy, Debug, PartialEq, Eq)]
pub struct KbTile {
    /// The source is selected for the project ("✓ Connected").
    pub selected: bool,
    pub abbrev: &'static str,
    pub accent: ProviderAccent,
    /// A selected MemPalace: the wing area shows under the tile.
    pub wing_area: bool,
}

impl OnboardingState {
    /// The tiles of the knowledge sources step, one per source of the
    /// library, in library order.
    pub fn kb_tiles(&self, sources: &KbSourcesConfig) -> (tiles: Vec<KbTile>)
        ensures
            tiles.len() == sources.sources.len(),
            forall|k: int|
                0 <= k < tiles.len() ==> {
                    let src = #[trigger] sources.sources@[k];
                    let selected = draft_source_ids(self.kb_connections@).contains(src.id@);
                    &&& tiles@[k].selected == selected
                    &&& tiles@[k].abbrev@ == abbrev_of(src.provider@)
                    &&& tiles@[k].accent == accent_of(src.provider@)
                    &&& tiles@[k].wing_area == (selected && src.provider@ == "mempalace"@)
                },
    {
        let mut tiles: Vec<KbTile> = Vec::new();
        let mut k: usize = 0;
        while k < sources.sources.len()
            invariant
                k <= sources.sources.len(),
                tiles.len() == k,
                forall|j: int|
                    0 <= j < k ==> {
                        let src = #[trigger] sources.sources@[j];
                        let selected = draft_source_ids(self.kb_connections@).contains(src.id@);
                        &&& tiles@[j].selected == selected
                        &&& tiles@[j].abbrev@ == abbrev_of(src.provider@)
                        &&& tiles@[j].accent == accent_of(src.provider@)
                        &&& tiles@[j].wing_area == (selected && src.provider@ == "mempalace"@)
                    },
            decreases sources.sources.len() - k,
        {
            let src = &sources.sources[k];
            let selected = self.is_kb_source_selected(src.id.as_str());
            let mempalace = str_eq(src.provider.as_str(), "mempalace");
            tiles.push(
                KbTile {
                    selected,
                    abbrev: provider_abbrev(src.provider.as_str()),
                    accent: provider_accent(src.provider.as_str()),
                    wing_area: selected && mempalace,
                },
            );
            k += 1;
        }
        tiles
    }
}

/// How the wing list of a MemPalace source came along: requested, arrived
/// (display strings), or failed (the message).
#[derive(Clone, Debug, PartialEq, Eq)]
pub enum WingFetchState {
    Loading,
    Loaded(Vec<String>),
    Failed(String),
}

/// What the wing area under a selected MemPalace tile shows.
#[derive(Debug, PartialEq, Eq)]
pub enum WingArea {
    /// "Fetching wings from MemPalace…", under a "Wing" label when
    /// `labelled`.
    Fetching { labelled: bool },
    /// The wing select.
    Select,
    /// The wing text field, with the hint that the fetch failed.
    ManualAfterError(String),
    /// The wing text field of a MemPalace without an endpoint.
    ManualLocal,
    /// Nothing.
    Empty,
}

/// The hint under the wing field after a failed fetch.
pub open spec fn fetch_error_hint(error: Seq<char>) -> Seq<char> {
    "Could not fetch wings: "@ + error + ". Enter name manually."@
}

/// The wing area of a source, from its fetch state (none when no fetch was
/// started) and whether its wing select and wing text field exist.
pub fn wing_area(fetch: Option<&WingFetchState>, has_select: bool, has_input: bool) -> (a: WingArea)
    ensures
        match fetch {
            Some(WingFetchState::Loading) => a == WingArea::Fetching { labelled: true },
            Some(WingFetchState::Loaded(_)) => a == (if has_select {
                WingArea::Select
            } else {
                WingArea::Fetching { labelled: false }
            }),
            Some(WingFetchState::Failed(e)) => if has_input {
                a matches WingArea::ManualAfterError(h) && h@ == fetch_error_hint(e@)
            } else {
                a == WingArea::Empty
            },
            None => a == (if has_input {
                WingArea::ManualLocal
            } else {
                WingArea::Empty
            }),
        },
{
    match fetch {
        Some(WingFetchState::Loading) => WingArea::Fetching { labelled: true },
        Some(WingFetchState::Loaded(_)) => if has_select {
            WingArea::Select
        } else {
            WingArea::Fetching { labelled: false }
        },
        Some(WingFetchState::Failed(e)) => if has_input {
            let mut cs = chars_of("Could not fetch wings: ");
            extend_chars(&mut cs, &chars_of(e.as_str()));
            extend_chars(&mut cs, &chars_of(". Enter name manually."));
            WingArea::ManualAfterError(string_from_chars(&cs))
        } else {
            WingArea::Empty
        },
        None => if has_input {
            WingArea::ManualLocal
        } else {
            WingArea::Empty
        },
    }
}

// ---------------------------------------------------------------------------
// Folder detection: the folder's name
// ---------------------------------------------------------------------------

/// `s` occurs in `path` as a contiguous piece.
pub open spec fn is_piece_of(s: Seq<char>, path: Seq<char>) -> bool {
    exists|i: int| 0 <= i && i + s.len() <= path.len() && #[trigger] path.subrange(i, i + s.len()) == s
}

/// `path` reads the same on every platform: no backslash, no `:` (no
/// Windows drive), and no leading `//` (no Windows network share).
pub open spec fn is_portable_path(path: Seq<char>) -> bool {
    &&& !path.contains('\\')
    &&& !path.contains(':')
    &&& !(path.len() >= 2 && path[0] == '/' && path[1] == '/')
}

/// Position of the last `/` in `path`, or -1.
pub open spec fn last_slash(path: Seq<char>) -> int
    decreases path.len(),
{
    if path.len() == 0 {
        -1
    } else if path.last() == '/' {
        path.len() - 1
    } else {
        last_slash(path.drop_last())
    }
}

/// The last `/`-separated piece of `path` that is neither empty nor `.`;
/// empty when there is none.
pub open spec fn last_named_piece(path: Seq<char>) -> Seq<char>
    decreases path.len(),
{
    let j = last_slash(path);
    let tail = path.skip(j + 1);
    if tail.len() > 0 && tail != "."@ {
        tail
    } else if j < 0 {
        Seq::<char>::empty()
    } else {
        proof {
            lemma_last_slash_bounds(path);
        }
        last_named_piece(path.take(j))
    }
}

/// The last `/` lies inside the path, or there is none.
pub proof fn lemma_last_slash_bounds(path: Seq<char>)
    ensures
        -1 <= last_slash(path) < path.len(),
    decreases path.len(),
{
    if path.len() > 0 && path.last() != '/' {
        lemma_last_slash_bounds(path.drop_last());
    }
}

/// The final component of a portable path, as `Path::file_name` reads it:
/// the last piece that is not empty or `.` (repeated and trailing `/` and `.`
/// components are no components); none when there is no such piece or it
/// is `..`.
pub open spec fn portable_file_name(path: Seq<char>) -> Option<Seq<char>> {
    let t = last_named_piece(path);
    if t.len() == 0 || t == ".."@ {
        None
    } else {
        Some(t)
    }
}

/// `std::path::Path::file_name` of `path`, as text. The standard library
/// documents it as the final component of the path, none when the path ends
/// in `..`, and documents how `Path::components` reads a path: repeated
/// separators and `.` components other than a leading one are no
/// components, and a trailing separator is ignored. For a path that reads
/// the same on every platform this gives `portable_file_name`. For other
/// paths the separators depend on the platform (`\` is one on Windows), so
/// only this is stated: a component is a nonempty piece of the path, without
/// `/` unless the path is a Windows verbatim path (`\\?\...`), where only
/// `\` separates.
#[verifier::external_body]
fn path_file_name(path: &str) -> (r: Option<String>)
    ensures
        r matches Some(n) ==> n@.len() > 0 && is_piece_of(n@, path@) && (!is_verbatim_path(path@)
            ==> !n@.contains('/')),
        is_portable_path(path@) ==> opt_string_view(r) == portable_file_name(path@),
{
    match std::path::Path::new(path).file_name() {
        Some(n) => Some(n.to_string_lossy().into_owned()),
        None => None,
    }
}

/// The name a picked folder suggests for the project: the last component
/// of its path, empty when the path has none (a root, or a path ending in
/// `..`).
pub fn folder_name(path: &str) -> (name: String)
    ensures
        is_portable_path(path@) ==> name@ == (match portable_file_name(path@) {
            Some(t) => t,
            None => Seq::<char>::empty(),
        }),
        name@.len() == 0 || (is_piece_of(name@, path@) && (!is_verbatim_path(path@)
            ==> !name@.contains('/'))),
{
    match path_file_name(path) {
        Some(n) => n,
        None => String::new(),
    }
}

// ---------------------------------------------------------------------------
// Folder detection: the origin remote in `.git/config`
// ---------------------------------------------------------------------------

/// The origin URL found in the lines `ls` of a git config, `in_origin` telling
/// whether the scan is inside the `[remote "origin"]` section: the first
/// non-blank value of a `url =` line there.
pub open spec fn origin_url_in(ls: Seq<Seq<char>>, in_origin: bool) -> Option<Seq<char>>
    decreases ls.len(),
{
    if ls.len() == 0 {
        None
    } else {
        let t = trim(ls[0]);
        let rest = ls.drop_first();
        if t == "[remote \"origin\"]"@ {
            origin_url_in(rest, true)
        } else if t.len() > 0 && t[0] == '[' {
            origin_url_in(rest, false)
        } else if in_origin && t.len() >= 5 && t.take(5) == "url ="@ && trim(t.skip(5)).len()
            > 0 {
            Some(trim(t.skip(5)))
        } else {
            origin_url_in(rest, in_origin)
        }
    }
}

/// The URL of the `origin` remote in the text of a `.git/config` file, if
/// it names one.
pub fn parse_git_remote_url(content: &str) -> (url: Option<String>)
    ensures
        opt_string_view(url) == origin_url_in(lines(content@), false),
{
    let v = chars_of(content);
    let n = v.len();
    let header = chars_of("[remote \"origin\"]");
    let url_key = chars_of("url =");
    let mut in_origin = false;
    let mut pos: usize = 0;
    assert(v@.subrange(0, n as int) =~= v@);
    while pos < n
        invariant
            pos <= n == v.len(),
            v@ == content@,
            header@ == "[remote \"origin\"]"@,
            url_key@ == "url ="@,
            origin_url_in(lines(content@), false) == origin_url_in(
                lines(v@.subrange(pos as int, n as int)),
                in_origin,
            ),
        decreases n - pos,
    {
        let (line_hi, next) = line_at(&v, pos);
        let ghost line = v@.subrange(pos as int, line_hi as int);
        let ghost rest = lines(v@.subrange(next as int, n as int));
        assert((seq![line] + rest).drop_first() =~= rest);
        assert((seq![line] + rest)[0] == line);
        let (a, b) = trim_range(&v, pos, line_hi);
        let ghost t = v@.subrange(a as int, b as int);
        if eq_range(&v, a, b, &header) {
            in_origin = true;
        } else if a < b && v[a] == '[' {
            assert(t[0] == v@[a as int]);
            in_origin = false;
        } else if in_origin && b - a >= 5 && eq_range(&v, a, a + 5, &url_key) {
            assert(t.take(5) =~= v@.subrange(a as int, a + 5));
            assert(t.skip(5) =~= v@.subrange(a + 5, b as int));
            let (c, d) = trim_range(&v, a + 5, b);
            if c < d {
                return Some(string_of_range(&v, c, d));
            }
        } else {
            proof {
                if a < b {
                    assert(t[0] == v@[a as int]);
                }
                if b - a >= 5 {
                    assert(t.take(5) =~= v@.subrange(a as int, a + 5));
                }
            }
        }
        pos = next;
    }
    assert(v@.subrange(n as int, n as int) =~= Seq::<char>::empty());
    None
}

// ---------------------------------------------------------------------------
// Project name rule
// ---------------------------------------------------------------------------

/// Whether `c` is alphabetic or numeric in Unicode (`char::is_alphanumeric`,
/// the `Alphabetic` or `Numeric` property).
pub uninterp spec fn unicode_alphanumeric(c: char) -> bool;

/// `char::is_alphanumeric`: whether `c` has the Unicode `Alphabetic` or
/// `Numeric` property. The tables are long; the result is named
/// `unicode_alphanumeric`, a function of `c` alone.
#[verifier::external_body]
fn is_alphanumeric(c: char) -> (b: bool)
    ensures
        b == unicode_alphanumeric(c),
{
    c.is_alphanumeric()
}

/// A character a project name may hold.
pub open spec fn name_char_allowed(c: char) -> bool {
    unicode_alphanumeric(c) || c == ' ' || c == '-' || c == '_'
}

/// The project name input accepts `text`: empty, or letters, numbers,
/// spaces, hyphens and underscores only.
pub fn valid_project_name(text: &str) -> (ok: bool)
    ensures
        ok == (text@.len() == 0 || forall|i: int|
            0 <= i < text@.len() ==> name_char_allowed(#[trigger] text@[i])),
{
    let v = chars_of(text);
    let mut k: usize = 0;
    while k < v.len()
        invariant
            k <= v.len(),
            v@ == text@,
            forall|i: int| 0 <= i < k ==> name_char_allowed(#[trigger] v@[i]),
        decreases v.len() - k,
    {
        let c = v[k];
        if !(is_alphanumeric(c) || c == ' ' || c == '-' || c == '_') {
            return v.len() == 0;
        }
        k += 1;
    }
    true
}

// ---------------------------------------------------------------------------
// Sheet text and buttons
// ---------------------------------------------------------------------------

/// The progress line above the step card: `"Step N of 7 — Label"`.
pub open spec fn step_header_text(s: OnboardingStep) -> Seq<char> {
    "Step "@ + decimal(step_index(s) + 1) + " of "@ + decimal(7) + " — "@ + step_label(s)
}

/// The progress line above the step card.
pub fn step_header(step: OnboardingStep) -> (h: String)
    ensures
        h@ == step_header_text(step),
{
    let mut cs = chars_of("Step ");
    push_decimal(&mut cs, step.display_number() as u64);
    extend_chars(&mut cs, &chars_of(" of "));
    push_decimal(&mut cs, OnboardingStep::TOTAL as u64);
    extend_chars(&mut cs, &chars_of(" — "));
    extend_chars(&mut cs, &chars_of(step.label()));
    string_from_chars(&cs)
}

/// A progress dot beside the step header.
#[derive(Clone, Copy, Debug, PartialEq, Eq, Structural)]
pub enum StepDot {
    Done,
    Current,
    Pending,
}

/// The progress dots of the flow at `step`: one per step, the steps before
/// it done, its own current, the later ones pending.
pub fn step_dots(step: OnboardingStep) -> (dots: Vec<StepDot>)
    ensures
        dots.len() == 7,
        forall|i: int|
            0 <= i < 7 ==> #[trigger] dots@[i] == (if i < step_index(step) {
                StepDot::Done
            } else if i == step_index(step) {
                StepDot::Current
            } else {
                StepDot::Pending
            }),
{
    let current = step.index();
    let mut dots: Vec<StepDot> = Vec::new();
    let mut i: usize = 0;
    while i < OnboardingStep::TOTAL
        invariant
            i <= 7,
            current == step_index(step),
            dots.len() == i,
            forall|j: int|
                0 <= j < i ==> #[trigger] dots@[j] == (if j < step_index(step) {
                    StepDot::Done
                } else if j == step_index(step) {
                    StepDot::Current
                } else {
                    StepDot::Pending
                }),
        decreases 7 - i,
    {
        let dot = if i < current {
            StepDot::Done
        } else if i == current {
            StepDot::Current
        } else {
            StepDot::Pending
        };
        dots.push(dot);
        i += 1;
    }
    dots
}

/// Which navigation buttons the sheet shows besides Cancel.
#[derive(Clone, Copy, Debug, PartialEq, Eq, Structural)]
pub struct NavButtons {
    pub back: bool,
    pub skip: bool,
    pub next: bool,
    pub create: bool,
}

/// The navigation buttons of a step: Back except on the first step, Skip on
/// optional steps, Next except on the last, Create Project on the last.
pub fn nav_buttons(step: OnboardingStep) -> (b: NavButtons)
    ensures
        b.back == (step != OnboardingStep::Folder),
        b.skip == !(step == OnboardingStep::Folder || step == OnboardingStep::Identity || step
            == OnboardingStep::Confirm),
        b.next == (step != OnboardingStep::Confirm),
        b.create == (step == OnboardingStep::Confirm),
{
    NavButtons {
        back: step != OnboardingStep::Folder,
        skip: !step.required(),
        next: step != OnboardingStep::Confirm,
        create: step == OnboardingStep::Confirm,
    }
}

/// `"N word"` with an `s` unless N is 1.
pub open spec fn counted(n: nat, word: Seq<char>) -> Seq<char> {
    decimal(n) + " "@ + word + (if n == 1 {
        ""@
    } else {
        "s"@
    })
}

/// An agent on the confirm card: `"name (provider)"`, with placeholders for
/// a blank name or provider.
pub open spec fn agent_item(a: AgentDraft) -> Seq<char> {
    (if a.name@.len() == 0 {
        "Unnamed agent"@
    } else {
        a.name@
    }) + " ("@ + (if a.provider@.len() == 0 {
        "no provider"@
    } else {
        a.provider@
    }) + ")"@
}

/// The agents of the roster on the confirm card, separated by `", "`.
pub open spec fn agent_list(agents: Seq<AgentDraft>) -> Seq<char>
    decreases agents.len(),
{
    if agents.len() == 0 {
        Seq::<char>::empty()
    } else if agents.len() == 1 {
        agent_item(agents[0])
    } else {
        agent_list(agents.drop_last()) + ", "@ + agent_item(agents.last())
    }
}

/// The rows of the confirm card, as (label, value): the project name when
/// typed, the folder when picked, the git method and account when a remote
/// or account is set, the remote when set, the agents with their providers,
/// and the knowledge source count when nonzero.
pub open spec fn summary_rows(s: OnboardingState) -> Seq<(Seq<char>, Seq<char>)> {
    (if s.project_name@.len() > 0 {
        seq![("Project name"@, s.project_name@)]
    } else {
        seq![]
    }) + (match s.folder_path {
        Some(p) => seq![("Folder"@, p@)],
        None => seq![],
    }) + (if s.git_remote@.len() > 0 || s.git_account@.len() > 0 {
        seq![
            ("Git"@, s.git_auth@ + " — "@ + (if s.git_account@.len() == 0 {
                "no account set"@
            } else {
                s.git_account@
            })),
        ]
    } else {
        seq![]
    }) + (if s.git_remote@.len() > 0 {
        seq![("Remote"@, s.git_remote@)]
    } else {
        seq![]
    }) + (if s.agents.len() > 0 {
        seq![("Agents"@, agent_list(s.agents@))]
    } else {
        seq![]
    }) + (if s.kb_connections.len() > 0 {
        seq![
            (
                "Knowledge sources"@,
                counted(s.kb_connections.len() as nat, "source"@) + " connected"@,
            ),
        ]
    } else {
        seq![]
    })
}

/// `"N word"` / `"N words"`.
fn counted_text(n: usize, word: &str) -> (t: Vec<char>)
    ensures
        t@ == counted(n as nat, word@),
{
    let mut cs: Vec<char> = Vec::new();
    push_decimal(&mut cs, n as u64);
    extend_chars(&mut cs, &chars_of(" "));
    extend_chars(&mut cs, &chars_of(word));
    if n == 1 {
        extend_chars(&mut cs, &chars_of(""));
    } else {
        extend_chars(&mut cs, &chars_of("s"));
    }
    cs
}

/// Append the row `(label, value)` to `rows`.
fn push_row(rows: &mut Vec<(String, String)>, label: &str, value: &Vec<char>)
    ensures
        final(rows)@.map_values(|r: (String, String)| (r.0@, r.1@)) == old(rows)@.map_values(
            |r: (String, String)| (r.0@, r.1@),
        ).push((label@, value@)),
{
    rows.push((label.to_owned(), string_from_chars(value)));
    assert(final(rows)@.map_values(|r: (String, String)| (r.0@, r.1@)) =~= old(rows)@.map_values(
        |r: (String, String)| (r.0@, r.1@),
    ).push((label@, value@)));
}

impl OnboardingState {
    /// The agents of the roster, as the confirm card lists them.
    fn agent_list_text(&self) -> (t: Vec<char>)
        ensures
            t@ == agent_list(self.agents@),
    {
        let mut cs: Vec<char> = Vec::new();
        let mut k: usize = 0;
        while k < self.agents.len()
            invariant
                k <= self.agents.len(),
                cs@ == agent_list(self.agents@.take(k as int)),
            decreases self.agents.len() - k,
        {
            let ghost before = self.agents@.take(k as int);
            let ghost after = self.agents@.take(k + 1);
            assert(after.drop_last() =~= before);
            assert(after.last() == self.agents@[k as int]);
            if k > 0 {
                extend_chars(&mut cs, &chars_of(", "));
            } else {
                assert(before =~= Seq::<AgentDraft>::empty());
            }
            let a = &self.agents[k];
            if a.name.as_str().is_empty() {
                extend_chars(&mut cs, &chars_of("Unnamed agent"));
            } else {
                extend_chars(&mut cs, &chars_of(a.name.as_str()));
            }
            extend_chars(&mut cs, &chars_of(" ("));
            if a.provider.as_str().is_empty() {
                extend_chars(&mut cs, &chars_of("no provider"));
            } else {
                extend_chars(&mut cs, &chars_of(a.provider.as_str()));
            }
            extend_chars(&mut cs, &chars_of(")"));
            k += 1;
        }
        assert(self.agents@.take(self.agents.len() as int) =~= self.agents@);
        cs
    }

    /// The rows of the confirm card, as (label, value).
    pub fn summary(&self) -> (rows: Vec<(String, String)>)
        ensures
            rows@.map_values(|r: (String, String)| (r.0@, r.1@)) == summary_rows(*self),
    {
        let mut rows: Vec<(String, String)> = Vec::new();
        let ghost view = |r: (String, String)| (r.0@, r.1@);
        assert(rows@.map_values(view) =~= Seq::<(Seq<char>, Seq<char>)>::empty());
        if !self.project_name.as_str().is_empty() {
            push_row(&mut rows, "Project name", &chars_of(self.project_name.as_str()));
        }
        match &self.folder_path {
            Some(p) => {
                push_row(&mut rows, "Folder", &chars_of(p.as_str()));
            },
            None => {},
        }
        if !self.git_remote.as_str().is_empty() || !self.git_account.as_str().is_empty() {
            let mut cs = chars_of(self.git_auth.as_str());
            extend_chars(&mut cs, &chars_of(" — "));
            if self.git_account.as_str().is_empty() {
                extend_chars(&mut cs, &chars_of("no account set"));
            } else {
                extend_chars(&mut cs, &chars_of(self.git_account.as_str()));
            }
            push_row(&mut rows, "Git", &cs);
        }
        if !self.git_remote.as_str().is_empty() {
            push_row(&mut rows, "Remote", &chars_of(self.git_remote.as_str()));
        }
        if self.agents.len() > 0 {
            push_row(&mut rows, "Agents", &self.agent_list_text());
        }
        if self.kb_connections.len() > 0 {
            let mut cs = counted_text(self.kb_connections.len(), "source");
            extend_chars(&mut cs, &chars_of(" connected"));
            push_row(&mut rows, "Knowledge sources", &cs);
        }
        assert(rows@.map_values(view) =~= summary_rows(*self));
        rows
    }
}

// ---------------------------------------------------------------------------
// Laws
// ---------------------------------------------------------------------------

/// Selecting a knowledge source starts a wing fetch only for a MemPalace
/// of the library with an endpoint whose wings were not requested before,
/// and from that endpoint; a source that is not a MemPalace, or not in the
/// library, is just selected, whatever its endpoint; only a MemPalace
/// without an endpoint asks for a typed wing.
pub proof fn lemma_toggle_fetches_only_mempalace(
    sources: Seq<KbSourceEntry>,
    source_id: Seq<char>,
    wings_requested: bool,
    r: KbToggle,
)
    requires
        toggle_on_action(sources, source_id, wings_requested, r),
    ensures
        ({
            let k = position_of(source_ids(sources), source_id);
            &&& (k >= sources.len() || sources[k as int].provider@ != "mempalace"@) ==> r
                == KbToggle::Selected
            &&& r matches KbToggle::FetchWings(e) ==> {
                &&& k < sources.len()
                &&& sources[k as int].provider@ == "mempalace"@
                &&& sources[k as int].endpoint matches Some(x) && x@ == e@
                &&& !wings_requested
            }
            &&& r == KbToggle::ManualWing ==> {
                &&& k < sources.len()
                &&& sources[k as int].provider@ == "mempalace"@
                &&& sources[k as int].endpoint is None
            }
        }),
{
}

/// The knowledge source row of the confirm card reads `"1 source
/// connected"` for one source and `"N sources connected"` for more.
pub proof fn lemma_summary_sources_row(s: OnboardingState)
    requires
        s.kb_connections.len() > 0,
    ensures
        summary_rows(s).last() == (
            "Knowledge sources"@,
            decimal(s.kb_connections.len() as nat) + (if s.kb_connections.len() == 1 {
                " source connected"@
            } else {
                " sources connected"@
            }),
        ),
{
    reveal_strlit(" source connected");
    reveal_strlit(" sources connected");
    reveal_strlit(" ");
    reveal_strlit("source");
    reveal_strlit("");
    reveal_strlit("s");
    reveal_strlit(" connected");
    let n = s.kb_connections.len() as nat;
    let row = (
        "Knowledge sources"@,
        counted(n, "source"@) + " connected"@,
    );
    let rows = summary_rows(s);
    assert(rows.last() == row);
    if n == 1 {
        assert(counted(n, "source"@) + " connected"@ =~= decimal(n) + " source connected"@);
    } else {
        assert(counted(n, "source"@) + " connected"@ =~= decimal(n) + " sources connected"@);
    }
}

/// Steps are numbered 1 to 7 in flow order, and Back undoes Next (and Next
/// undoes Back) except at the ends of the flow.
pub proof fn lemma_step_navigation(s: OnboardingStep)
    ensures
        1 <= step_index(s) + 1 <= 7,
        step_at(step_index(s)) == s,
        s != OnboardingStep::Confirm ==> went_back_step(advanced_step(s)) == s,
        s != OnboardingStep::Folder ==> advanced_step(went_back_step(s)) == s,
        s == OnboardingStep::Confirm <==> advanced_step(s) == s,
        s == OnboardingStep::Folder <==> went_back_step(s) == s,
{
}

/// Clicking a knowledge source tile twice leaves the selections as they
/// were: the second click removes exactly what the first added.
pub proof fn lemma_toggle_twice_restores(
    drafts: Seq<KbConnectionDraft>,
    added: KbConnectionDraft,
    source_id: Seq<char>,
)
    requires
        !draft_source_ids(drafts).contains(source_id),
        added.source_id@ == source_id,
    ensures
        without_source(drafts.push(added), source_id) == drafts,
{
    let f = other_source(source_id);
    drafts.lemma_filter_push(added, f);
    assert(drafts.filter(f) == drafts) by {
        assert forall|i: int| 0 <= i < drafts.len() implies f(#[trigger] drafts[i]) by {
            assert(draft_source_ids(drafts)[i] == drafts[i].source_id@);
        }
        lemma_filter_all(drafts, f);
    }
}

/// Filtering by a predicate that every element meets changes nothing.
proof fn lemma_filter_all(s: Seq<KbConnectionDraft>, f: spec_fn(KbConnectionDraft) -> bool)
    requires
        forall|i: int| 0 <= i < s.len() ==> f(#[trigger] s[i]),
    ensures
        s.filter(f) == s,
    decreases s.len(),
{
    reveal_with_fuel(Seq::filter, 2);
    if s.len() > 0 {
        lemma_filter_all(s.drop_last(), f);
        assert(s.drop_last().push(s.last()) =~= s);
    }
}

/// The wing name of a wing display string is the wing's name, whatever the
/// name holds.
pub proof fn lemma_wing_name_of_display(name: Seq<char>, drawers: nat)
    ensures
        wing_name(wing_display(name, drawers)) == name,
{
    reveal_strlit(" (");
    reveal_strlit(" drawers)");
    let dec = decimal(drawers);
    let s = wing_display(name, drawers);
    let d = name + " ("@ + dec;
    assert(s =~= d + " drawers)"@);
    assert(s.skip(s.len() - 9) =~= " drawers)"@);
    assert(s.take(s.len() - 9) =~= d);
    lemma_decimal_digits(drawers);
    lemma_trailing_digits_concat(name + " ("@, dec);
    assert((name + " ("@).last() == '(');
    assert(trailing_digits(name + " ("@) == 0);
    assert(d[d.len() - dec.len() - 2] == ' ');
    assert(d[d.len() - dec.len() - 1] == '(');
    assert(s.take(name.len() as int) =~= name);
}

/// A decimal numeral is a nonempty run of digits.
pub proof fn lemma_decimal_digits(n: nat)
    ensures
        decimal(n).len() > 0,
        forall|i: int| 0 <= i < decimal(n).len() ==> is_digit(#[trigger] decimal(n)[i]),
    decreases n,
{
    if n >= 10 {
        lemma_decimal_digits(n / 10);
        let a = decimal(n / 10);
        let b = seq![crate::text::digit_char(n % 10)];
        assert forall|i: int| 0 <= i < decimal(n).len() implies is_digit(#[trigger] decimal(n)[i]) by {
            if i < a.len() {
                assert(decimal(n)[i] == a[i]);
            } else {
                assert(decimal(n)[i] == b[0]);
            }
        }
    }
}

/// Digits appended to `a` all count among the trailing digits.
pub proof fn lemma_trailing_digits_concat(a: Seq<char>, b: Seq<char>)
    requires
        forall|i: int| 0 <= i < b.len() ==> is_digit(#[trigger] b[i]),
    ensures
        trailing_digits(a + b) == trailing_digits(a) + b.len(),
    decreases b.len(),
{
    if b.len() == 0 {
        assert(a + b =~= a);
    } else {
        assert((a + b).drop_last() =~= a + b.drop_last());
        assert((a + b).last() == b.last());
        assert(is_digit(b[b.len() - 1]));
        lemma_trailing_digits_concat(a, b.drop_last());
    }
}

} // verus!

