use podium::dock::{tab_bar, ActiveNotice, DockPanel, PodiumDock, TabEntry};
use podium::panel::{PanelEvent, PanelKind, PanelPosition};

const KINDS: [PanelKind; 6] = [
    PanelKind::Files,
    PanelKind::Agents,
    PanelKind::Knowledge,
    PanelKind::Review,
    PanelKind::Terminal,
    PanelKind::Health,
];

fn on(index: usize) -> ActiveNotice {
    ActiveNotice { index, active: true }
}

fn off(index: usize) -> ActiveNotice {
    ActiveNotice { index, active: false }
}

/// The left dock as the shell builds it at startup.
fn left_dock() -> PodiumDock {
    let mut dock = PodiumDock::new(PanelPosition::Left);
    for (id, kind) in [(1u64, PanelKind::Files), (2, PanelKind::Agents), (3, PanelKind::Knowledge), (4, PanelKind::Review), (6, PanelKind::Health)] {
        dock.add_panel(id, kind.activation_priority());
    }
    dock
}

#[test]
fn panel_registry() {
    let names: Vec<&str> = KINDS.iter().map(|k| k.name()).collect();
    assert_eq!(names, vec!["FilesPanel", "AgentsPanel", "KnowledgePanel", "ReviewPanel", "TerminalPanel", "HealthPanel"]);
    let tips: Vec<&str> = KINDS.iter().map(|k| k.icon_tooltip()).collect();
    assert_eq!(tips, vec!["Files", "Agents", "Knowledge", "Review", "Terminal", "Health"]);
    let prios: Vec<u32> = KINDS.iter().map(|k| k.activation_priority()).collect();
    assert_eq!(prios, vec![100, 200, 300, 400, 500, 600]);
    assert_eq!(PanelKind::Terminal.default_position(), PanelPosition::Bottom);
    assert_eq!(PanelKind::Files.default_position(), PanelPosition::Left);
    assert!(PanelKind::Health.position_is_valid(PanelPosition::Right));
}

#[test]
fn new_dock_is_empty_and_closed() {
    let dock = PodiumDock::new(PanelPosition::Right);
    assert_eq!(dock.position(), PanelPosition::Right);
    assert!(!dock.is_open());
    assert_eq!(dock.panels_len(), 0);
    assert_eq!(dock.active_panel_index(), None);
    assert_eq!(dock.active_panel(), None);
    assert_eq!(dock.visible_panel(), None);
}

#[test]
fn add_panel_keeps_priority_order() {
    let mut dock = PodiumDock::new(PanelPosition::Left);
    assert_eq!(dock.add_panel(30, 300), 0);
    assert_eq!(dock.add_panel(10, 100), 0);
    assert_eq!(dock.add_panel(50, 500), 2);
    assert_eq!(dock.add_panel(20, 200), 1);
    let prios: Vec<u32> = dock.panels().iter().map(|p| p.priority).collect();
    assert_eq!(prios, vec![100, 200, 300, 500]);
    assert_eq!(dock.panels()[1], DockPanel { id: 20, priority: 200 });
}

#[test]
fn add_panel_moves_active_index_with_its_panel() {
    let mut dock = PodiumDock::new(PanelPosition::Left);
    dock.add_panel(1, 100);
    dock.add_panel(3, 300);
    dock.activate_panel(1);
    assert_eq!(dock.panels()[1].id, 3);
    dock.add_panel(2, 200);
    assert_eq!(dock.active_panel_index(), Some(2));
    assert_eq!(dock.panels()[2].id, 3);
    dock.add_panel(4, 400);
    assert_eq!(dock.active_panel_index(), Some(2));
}

#[test]
fn activate_and_open_notices() {
    let mut dock = left_dock();
    assert_eq!(dock.activate_panel(2), vec![on(2)]);
    assert_eq!(dock.activate_panel(2), vec![]);
    assert_eq!(dock.activate_panel(0), vec![off(2), on(0)]);
    assert_eq!(dock.activate_panel(99), vec![off(0)]);
    assert_eq!(dock.active_panel(), None);
    assert_eq!(dock.activate_panel(1), vec![on(1)]);
    assert_eq!(dock.visible_panel(), None);
    assert_eq!(dock.set_open(true), vec![on(1)]);
    assert_eq!(dock.set_open(true), vec![]);
    assert_eq!(dock.visible_panel(), Some(1));
    assert_eq!(dock.set_open(false), vec![off(1)]);
    assert_eq!(dock.active_panel(), Some(1));
}

#[test]
fn panel_events() {
    let mut dock = left_dock();
    assert_eq!(dock.index_for_id(3), Some(2));
    assert_eq!(dock.index_for_id(5), None);
    assert_eq!(dock.handle_panel_event(3, PanelEvent::Activate), vec![on(2)]);
    assert!(dock.is_open());
    assert_eq!(dock.visible_panel(), Some(2));
    assert_eq!(dock.handle_panel_event(1, PanelEvent::Close), vec![]);
    assert!(dock.is_open());
    assert_eq!(dock.handle_panel_event(3, PanelEvent::ZoomIn), vec![]);
    assert_eq!(dock.handle_panel_event(3, PanelEvent::Close), vec![off(2)]);
    assert!(!dock.is_open());
    assert_eq!(dock.handle_panel_event(42, PanelEvent::Activate), vec![]);
    // Opening tells the active panel first, then activation moves it.
    assert_eq!(dock.handle_panel_event(1, PanelEvent::Activate), vec![on(2), off(2), on(0)]);
}

#[test]
fn tab_click_toggles() {
    let mut dock = left_dock();
    // Activation tells the panel, and opening the dock tells it again.
    assert_eq!(dock.toggle_by_priority(300), Some(vec![on(2), on(2)]));
    assert_eq!(dock.visible_panel(), Some(2));
    assert_eq!(dock.toggle_by_priority(300), Some(vec![off(2)]));
    assert!(!dock.is_open());
    assert_eq!(dock.active_panel_index(), Some(2));
    assert_eq!(dock.toggle_by_priority(100), Some(vec![off(2), on(0), on(0)]));
    assert!(dock.is_open());
    assert_eq!(dock.toggle_by_priority(500), None);
}

#[test]
fn tab_bar_across_docks() {
    let mut left = left_dock();
    let mut bottom = PodiumDock::new(PanelPosition::Bottom);
    bottom.add_panel(5, PanelKind::Terminal.activation_priority());
    let right = PodiumDock::new(PanelPosition::Right);
    left.toggle_by_priority(200);
    bottom.activate_panel(0);
    let tabs = tab_bar(&left, &bottom, &right);
    let expect: Vec<TabEntry> = [(100, false), (200, true), (300, false), (400, false), (500, false), (600, false)]
        .iter()
        .map(|&(priority, active)| TabEntry { priority, active })
        .collect();
    assert_eq!(tabs, expect);
}

#[test]
fn tab_bar_equal_priorities_keep_dock_order() {
    let mut left = PodiumDock::new(PanelPosition::Left);
    left.add_panel(1, 50);
    let mut bottom = PodiumDock::new(PanelPosition::Bottom);
    bottom.add_panel(2, 10);
    bottom.add_panel(3, 50);
    bottom.toggle_by_priority(50);
    let mut right = PodiumDock::new(PanelPosition::Right);
    right.add_panel(4, 5);
    let tabs = tab_bar(&left, &bottom, &right);
    let expect = vec![
        TabEntry { priority: 5, active: false },
        TabEntry { priority: 10, active: false },
        TabEntry { priority: 50, active: false },
        TabEntry { priority: 50, active: true },
    ];
    assert_eq!(tabs, expect);
}
