//! Panel positions, panel events, and the registry of Podium's panels.
//!
//! Every panel (Files, Agents, Knowledge, Review, Terminal, Health) sits in
//! one of three docks. Its activation priority orders the tab bar: lower
//! values come first, and priorities are unique so the order is deterministic.

use vstd::prelude::*;

verus! {

/// The three positions a panel can occupy in the layout.
#[derive(Clone, Copy, Debug, PartialEq, Eq, Structural)]
pub enum PanelPosition {
    Left,
    Bottom,
    Right,
}

/// Events a panel emits to its dock.
#[derive(Clone, Copy, Debug, PartialEq, Eq, Structural)]
pub enum PanelEvent {
    /// The panel asks to become the active visible panel of its dock.
    Activate,
    /// The panel asks to close (hide) itself.
    Close,
    /// The panel asks to fill the window.
    ZoomIn,
    /// The panel asks to return to its docked size.
    ZoomOut,
}

/// The panels Podium registers at startup.
#[derive(Clone, Copy, Debug, PartialEq, Eq, Structural)]
pub enum PanelKind {
    Files,
    Agents,
    Knowledge,
    Review,
    Terminal,
    Health,
}

/// Tab-bar order key of each panel.
pub open spec fn kind_priority(k: PanelKind) -> u32 {
    match k {
        PanelKind::Files => 100,
        PanelKind::Agents => 200,
        PanelKind::Knowledge => 300,
        PanelKind::Review => 400,
        PanelKind::Terminal => 500,
        PanelKind::Health => 600,
    }
}

impl PanelKind {
    /// Stable identifier of the panel type, used as persistence key.
    pub fn name(self) -> (n: &'static str)
        ensures
            n@ == (match self {
                PanelKind::Files => "FilesPanel"@,
                PanelKind::Agents => "AgentsPanel"@,
                PanelKind::Knowledge => "KnowledgePanel"@,
                PanelKind::Review => "ReviewPanel"@,
                PanelKind::Terminal => "TerminalPanel"@,
                PanelKind::Health => "HealthPanel"@,
            }),
    {
        match self {
            PanelKind::Files => "FilesPanel",
            PanelKind::Agents => "AgentsPanel",
            PanelKind::Knowledge => "KnowledgePanel",
            PanelKind::Review => "ReviewPanel",
            PanelKind::Terminal => "TerminalPanel",
            PanelKind::Health => "HealthPanel",
        }
    }

    /// The tab label and tooltip.
    pub fn icon_tooltip(self) -> (t: &'static str)
        ensures
            t@ == (match self {
                PanelKind::Files => "Files"@,
                PanelKind::Agents => "Agents"@,
                PanelKind::Knowledge => "Knowledge"@,
                PanelKind::Review => "Review"@,
                PanelKind::Terminal => "Terminal"@,
                PanelKind::Health => "Health"@,
            }),
    {
        match self {
            PanelKind::Files => "Files",
            PanelKind::Agents => "Agents",
            PanelKind::Knowledge => "Knowledge",
            PanelKind::Review => "Review",
            PanelKind::Terminal => "Terminal",
            PanelKind::Health => "Health",
        }
    }

    /// The dock a panel starts in: Terminal at the bottom, the others left.
    pub fn default_position(self) -> (p: PanelPosition)
        ensures
            p == (if self == PanelKind::Terminal {
                PanelPosition::Bottom
            } else {
                PanelPosition::Left
            }),
    {
        match self {
            PanelKind::Terminal => PanelPosition::Bottom,
            _ => PanelPosition::Left,
        }
    }

    /// Tab-bar order key; unique per panel, gaps of 100.
    pub fn activation_priority(self) -> (p: u32)
        ensures
            p == kind_priority(self),
    {
        match self {
            PanelKind::Files => 100,
            PanelKind::Agents => 200,
            PanelKind::Knowledge => 300,
            PanelKind::Review => 400,
            PanelKind::Terminal => 500,
            PanelKind::Health => 600,
        }
    }

    /// Whether the panel may be placed at `position`: every position is.
    pub fn position_is_valid(self, position: PanelPosition) -> (b: bool)
        ensures
            b,
    {
        true
    }
}

/// Distinct panels have distinct activation priorities.
pub proof fn lemma_panel_priorities_unique(a: PanelKind, b: PanelKind)
    requires
        a != b,
    ensures
        kind_priority(a) != kind_priority(b),
{
}

} // verus!
