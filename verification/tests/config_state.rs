use podium::config::{
    kb_sources_toml_path, more_recent, podium_config_dir, projects_toml_path, GitConfig,
    KbConnection, KbSourceEntry, KbSourcesConfig, ProjectEntry, ProjectsConfig, Timestamp,
};
use podium::state::{podium_state_toml_path, DockState, PodiumState, ProjectDockState};

fn project(id: &str, last: Option<Timestamp>) -> ProjectEntry {
    ProjectEntry {
        id: id.to_string(),
        name: format!("Project {}", id),
        path: format!("/work/{}", id),
        last_opened: last,
        git: None,
        kb_connections: Vec::new(),
        agents: Vec::new(),
        services: Vec::new(),
    }
}

fn at(secs: i64, nanos: u32) -> Option<Timestamp> {
    Some(Timestamp { secs, nanos })
}

// ---------------------------------------------------------------------------
// Paths
// ---------------------------------------------------------------------------

#[test]
fn config_dir_under_appdata() {
    assert_eq!(podium_config_dir(Some("/home/u/.config")), "/home/u/.config/podium");
}

#[test]
fn config_dir_without_appdata() {
    assert_eq!(podium_config_dir(None), "./podium");
}

#[test]
fn config_file_paths() {
    assert_eq!(projects_toml_path("/cfg/podium"), "/cfg/podium/projects.toml");
    assert_eq!(kb_sources_toml_path("/cfg/podium/"), "/cfg/podium/kb_sources.toml");
    assert_eq!(podium_state_toml_path("/cfg/podium"), "/cfg/podium/podium_state.toml");
}

// ---------------------------------------------------------------------------
// Recency and MRU order
// ---------------------------------------------------------------------------

#[test]
fn more_recent_orders_instants() {
    assert!(more_recent(at(10, 0), at(9, 999_999_999)));
    assert!(more_recent(at(10, 6), at(10, 5)));
    assert!(!more_recent(at(10, 5), at(10, 5)));
    assert!(!more_recent(at(9, 0), at(10, 0)));
    assert!(more_recent(at(-5, 0), None));
    assert!(!more_recent(None, at(-5, 0)));
    assert!(!more_recent(None, None));
}

#[test]
fn projects_mru_most_recent_first_never_opened_last() {
    let config = ProjectsConfig {
        projects: vec![
            project("p1", None),
            project("p2", at(100, 0)),
            project("p3", at(200, 0)),
            project("p4", None),
            project("p5", at(100, 0)),
            project("p6", at(100, 1)),
        ],
    };
    let ids: Vec<&str> = config.projects_mru().iter().map(|p| p.id.as_str()).collect();
    assert_eq!(ids, vec!["p3", "p6", "p2", "p5", "p1", "p4"]);
}

#[test]
fn projects_mru_empty() {
    let config = ProjectsConfig::default();
    assert!(config.projects_mru().is_empty());
}

// ---------------------------------------------------------------------------
// Find, add, touch
// ---------------------------------------------------------------------------

#[test]
fn find_project_first_match() {
    let mut first = project("dup", None);
    first.name = "first".to_string();
    let mut second = project("dup", None);
    second.name = "second".to_string();
    let config = ProjectsConfig { projects: vec![project("a", None), first, second] };
    assert_eq!(config.find_project("dup").map(|p| p.name.as_str()), Some("first"));
    assert!(config.find_project("missing").is_none());
}

#[test]
fn find_project_mut_edits_in_place() {
    let mut config = ProjectsConfig { projects: vec![project("a", None), project("b", None)] };
    if let Some(p) = config.find_project_mut("b") {
        p.name = "renamed".to_string();
    }
    assert_eq!(config.projects[1].name, "renamed");
    assert_eq!(config.projects[0].name, "Project a");
    assert!(config.find_project_mut("zzz").is_none());
}

#[test]
fn add_project_then_find() {
    let mut config = ProjectsConfig::default();
    config.add_project(project("new", None));
    assert_eq!(config.projects.len(), 1);
    assert_eq!(config.find_project("new").map(|p| p.path.as_str()), Some("/work/new"));
}

#[test]
fn touch_project_at_sets_only_that_project() {
    let mut config = ProjectsConfig { projects: vec![project("a", None), project("b", at(5, 0))] };
    config.touch_project_at("a", Timestamp { secs: 1_700_000_000, nanos: 7 });
    assert_eq!(config.projects[0].last_opened, at(1_700_000_000, 7));
    assert_eq!(config.projects[1].last_opened, at(5, 0));
    let before = config.clone();
    config.touch_project_at("missing", Timestamp { secs: 1, nanos: 0 });
    assert_eq!(config, before);
}

#[test]
fn touch_project_uses_the_clock_and_moves_it_first() {
    let mut config = ProjectsConfig {
        projects: vec![project("old", at(1_000, 0)), project("x", None)],
    };
    assert!(config.touch_project("x"));
    let stamp = config.projects[1].last_opened.expect("touched");
    assert!(stamp.secs > 1_600_000_000);
    assert_eq!(config.projects[0].last_opened, at(1_000, 0));
    let ids: Vec<&str> = config.projects_mru().iter().map(|p| p.id.as_str()).collect();
    assert_eq!(ids, vec!["x", "old"]);
}

// ---------------------------------------------------------------------------
// Git config and KB sources
// ---------------------------------------------------------------------------

#[test]
fn git_auth_kinds() {
    let ssh = GitConfig { auth: "ssh".to_string(), account: Some("github-work".to_string()), remote: None };
    let https = GitConfig { auth: "https".to_string(), account: None, remote: None };
    let other = GitConfig { auth: "SSH".to_string(), account: None, remote: None };
    assert!(ssh.is_ssh() && !ssh.is_https());
    assert!(https.is_https() && !https.is_ssh());
    assert!(!other.is_ssh() && !other.is_https());
}

#[test]
fn find_source_by_id() {
    let sources = KbSourcesConfig {
        sources: vec![
            KbSourceEntry {
                id: "nas-palace".to_string(),
                name: "NAS".to_string(),
                provider: "mempalace".to_string(),
                endpoint: Some("http://nas:8080".to_string()),
            },
            KbSourceEntry {
                id: "vault".to_string(),
                name: "Vault".to_string(),
                provider: "obsidian".to_string(),
                endpoint: None,
            },
        ],
    };
    assert_eq!(sources.find_source("vault").map(|s| s.name.as_str()), Some("Vault"));
    assert!(sources.find_source("none").is_none());
    assert!(KbSourcesConfig::default().sources.is_empty());
}

#[test]
fn kb_connection_holds_wing() {
    let c = KbConnection { source_id: "nas".to_string(), wing: Some("showflyer".to_string()) };
    assert_eq!(c.clone(), c);
}

// ---------------------------------------------------------------------------
// UI state
// ---------------------------------------------------------------------------

fn layout(left: bool, panel: &str) -> DockState {
    DockState {
        left_visible: left,
        left_active_panel: panel.to_string(),
        bottom_visible: false,
        bottom_active_panel: String::new(),
        right_visible: true,
        right_active_panel: "AgentsPanel".to_string(),
    }
}

#[test]
fn dock_state_default_for_unknown_project() {
    let state = PodiumState::default();
    let d = state.dock_state_for("nothing");
    assert_eq!(d, DockState::default());
    assert!(!d.left_visible && !d.bottom_visible && !d.right_visible);
    assert!(d.left_active_panel.is_empty());
}

#[test]
fn dock_state_read_after_write() {
    let mut state = PodiumState::default();
    state.set_dock_state("a", layout(true, "FilesPanel"));
    state.set_dock_state("b", layout(false, ""));
    assert_eq!(state.dock_state_for("a"), layout(true, "FilesPanel"));
    assert_eq!(state.dock_state_for("b"), layout(false, ""));
    state.set_dock_state("a", layout(false, "ReviewPanel"));
    assert_eq!(state.dock_state_for("a"), layout(false, "ReviewPanel"));
    assert_eq!(state.dock_state.len(), 2);
}

#[test]
fn dock_state_existing_entries() {
    let state = PodiumState {
        last_project: None,
        dock_state: vec![ProjectDockState { project_id: "p".to_string(), state: layout(true, "X") }],
    };
    assert_eq!(state.dock_state_for("p").left_active_panel, "X");
}

#[test]
fn last_project_set_and_clear() {
    let mut state = PodiumState::default();
    assert_eq!(state.last_project, None);
    state.set_last_project("showflyer");
    assert_eq!(state.last_project.as_deref(), Some("showflyer"));
    state.clear_last_project();
    assert_eq!(state.last_project, None);
}
