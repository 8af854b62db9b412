use podium::config::{GitConfig, KbConnection, KbSourceEntry, KbSourcesConfig};
use podium::onboarding::{
    bearer_authorization, folder_name, mempalace_mcp_url, models_for_provider, nav_buttons,
    parse_git_remote_url, provider_abbrev, provider_accent, provider_items, step_dots, step_header,
    valid_project_name, wing_area, wing_display_list, wing_name_from_display, wings_reply_outcome,
    wings_reply_text, AgentDraft, AgentField, KbConnectionDraft, KbToggle, OnboardingEvent,
    OnboardingState, OnboardingStep, ProviderAccent, StepDot, WingArea, WingFetchState, WingsReplyError,
};

const ALL_STEPS: [OnboardingStep; 7] = [
    OnboardingStep::Folder,
    OnboardingStep::Identity,
    OnboardingStep::Git,
    OnboardingStep::Agents,
    OnboardingStep::KbSources,
    OnboardingStep::Services,
    OnboardingStep::Confirm,
];

fn library() -> KbSourcesConfig {
    KbSourcesConfig {
        sources: vec![
            KbSourceEntry {
                id: "nas".to_string(),
                name: "NAS Palace".to_string(),
                provider: "mempalace".to_string(),
                endpoint: Some("http://nas:8080/".to_string()),
            },
            KbSourceEntry {
                id: "local".to_string(),
                name: "Local Palace".to_string(),
                provider: "mempalace".to_string(),
                endpoint: None,
            },
            KbSourceEntry {
                id: "vault".to_string(),
                name: "Vault".to_string(),
                provider: "obsidian".to_string(),
                endpoint: None,
            },
        ],
    }
}

// ---------------------------------------------------------------------------
// Steps
// ---------------------------------------------------------------------------

#[test]
fn steps_are_numbered_in_order() {
    assert_eq!(OnboardingStep::TOTAL, 7);
    for (k, step) in ALL_STEPS.iter().enumerate() {
        assert_eq!(step.index(), k);
        assert_eq!(step.display_number(), k + 1);
    }
}

#[test]
fn step_labels() {
    let labels: Vec<&str> = ALL_STEPS.iter().map(|s| s.label()).collect();
    assert_eq!(
        labels,
        vec![
            "Choose Folder",
            "Project Name",
            "Git Configuration",
            "Agents",
            "Knowledge Sources",
            "Services",
            "Confirm & Create"
        ]
    );
}

#[test]
fn required_steps() {
    let required: Vec<bool> = ALL_STEPS.iter().map(|s| s.required()).collect();
    assert_eq!(required, vec![true, true, false, false, false, false, true]);
}

#[test]
fn next_and_prev() {
    for k in 0..7 {
        let step = ALL_STEPS[k];
        assert_eq!(step.next(), if k < 6 { Some(ALL_STEPS[k + 1]) } else { None });
        assert_eq!(step.prev(), if k > 0 { Some(ALL_STEPS[k - 1]) } else { None });
        if let Some(n) = step.next() {
            assert_eq!(n.prev(), Some(step));
        }
    }
}

#[test]
fn header_and_buttons() {
    assert_eq!(step_header(OnboardingStep::Folder), "Step 1 of 7 — Choose Folder");
    assert_eq!(step_header(OnboardingStep::Confirm), "Step 7 of 7 — Confirm & Create");
    assert_eq!(
        step_dots(OnboardingStep::Git),
        vec![StepDot::Done, StepDot::Done, StepDot::Current, StepDot::Pending, StepDot::Pending, StepDot::Pending, StepDot::Pending]
    );
    assert_eq!(step_dots(OnboardingStep::Folder)[0], StepDot::Current);
    let first = nav_buttons(OnboardingStep::Folder);
    assert!(!first.back && !first.skip && first.next && !first.create);
    let git = nav_buttons(OnboardingStep::Git);
    assert!(git.back && git.skip && git.next && !git.create);
    let last = nav_buttons(OnboardingStep::Confirm);
    assert!(last.back && !last.skip && !last.next && last.create);
}

// ---------------------------------------------------------------------------
// Navigation
// ---------------------------------------------------------------------------

#[test]
fn new_state_is_blank() {
    let s = OnboardingState::new();
    assert_eq!(s.step, OnboardingStep::Folder);
    assert_eq!(s.git_auth, "https");
    assert!(s.folder_path.is_none() && s.project_name.is_empty());
    assert!(s.agents.is_empty() && s.kb_connections.is_empty() && s.ssh_aliases.is_empty());
}

#[test]
fn default_state_is_new_state() {
    assert_eq!(OnboardingState::default(), OnboardingState::new());
}

#[test]
fn advance_and_go_back_stop_at_the_ends() {
    let mut s = OnboardingState::new();
    s.go_back();
    assert_eq!(s.step, OnboardingStep::Folder);
    for _ in 0..10 {
        s.advance();
    }
    assert_eq!(s.step, OnboardingStep::Confirm);
    s.go_back();
    assert_eq!(s.step, OnboardingStep::Services);
}

#[test]
fn next_refuses_blank_name() {
    let mut s = OnboardingState::new();
    s.select_folder("/w/p".to_string(), false, false, None, String::new());
    assert!(s.try_advance());
    assert_eq!(s.step, OnboardingStep::Identity);
    s.set_project_name("   ");
    assert!(!s.try_advance());
    assert_eq!(s.step, OnboardingStep::Identity);
    assert_eq!(s.project_name_error.as_deref(), Some("Project name is required."));
    s.set_project_name("ShowFlyer");
    assert!(s.project_name_error.is_none());
    assert!(s.try_advance());
    assert_eq!(s.step, OnboardingStep::Git);
}

#[test]
fn next_refuses_missing_folder() {
    let mut s = OnboardingState::new();
    assert!(!s.try_advance());
    assert_eq!(s.step, OnboardingStep::Folder);
    assert!(s.project_name_error.is_none());
    s.select_folder("/w/p".to_string(), false, false, None, "p".to_string());
    assert!(s.try_advance());
    assert_eq!(s.step, OnboardingStep::Identity);
}

#[test]
fn entering_git_prefills_detected_remote() {
    let mut s = OnboardingState::new();
    s.select_folder(
        "/work/showflyer".to_string(),
        true,
        false,
        Some("git@github.com:me/showflyer.git".to_string()),
        "showflyer".to_string(),
    );
    assert_eq!(s.project_name, "showflyer");
    assert!(s.try_advance());
    assert!(s.try_advance());
    assert_eq!(s.step, OnboardingStep::Git);
    assert_eq!(s.git_remote, "git@github.com:me/showflyer.git");
}

#[test]
fn typed_remote_is_not_replaced() {
    let mut s = OnboardingState::new();
    s.select_folder("/w/p".to_string(), true, true, Some("detected".to_string()), "p".to_string());
    s.set_git_remote("typed");
    s.try_advance();
    s.try_advance();
    assert_eq!(s.git_remote, "typed");
}

#[test]
fn folder_does_not_overwrite_typed_name() {
    let mut s = OnboardingState::new();
    s.set_project_name("Mine");
    s.select_folder("/w/other".to_string(), false, false, None, "other".to_string());
    assert_eq!(s.project_name, "Mine");
    assert_eq!(s.folder_path.as_deref(), Some("/w/other"));
    assert!(!s.git_detected && !s.podium_detected);
}

#[test]
fn git_switch_clears_account() {
    let mut s = OnboardingState::new();
    s.set_git_account("octocat");
    s.set_git_auth_ssh(true);
    assert_eq!(s.git_auth, "ssh");
    assert!(s.git_account.is_empty());
    s.set_git_account("github-work");
    s.set_git_auth_ssh(false);
    assert_eq!(s.git_auth, "https");
    assert!(s.git_account.is_empty());
}

// ---------------------------------------------------------------------------
// Agents
// ---------------------------------------------------------------------------

#[test]
fn agents_add_edit_remove() {
    let mut s = OnboardingState::new();
    assert_eq!(s.add_agent(), 0);
    assert_eq!(s.add_agent(), 1);
    assert_eq!(s.agents[0], AgentDraft::default());
    s.set_agent_field(0, AgentField::Name, "Research Agent");
    s.set_agent_field(0, AgentField::Purpose, "Finds sources");
    s.set_agent_field(0, AgentField::Provider, "openai");
    s.set_agent_field(0, AgentField::Model, "o3");
    assert_eq!(s.agents[0].model, "o3");
    s.set_agent_field(0, AgentField::Provider, "anthropic");
    assert_eq!(s.agents[0].provider, "anthropic");
    assert!(s.agents[0].model.is_empty());
    assert_eq!(s.agents[0].name, "Research Agent");
    s.set_agent_field(5, AgentField::Name, "ignored");
    assert_eq!(s.agents.len(), 2);
    assert!(!s.remove_agent(2));
    assert!(s.remove_agent(0));
    assert_eq!(s.agents.len(), 1);
    assert!(s.agents[0].name.is_empty());
}

#[test]
fn provider_lists() {
    assert_eq!(provider_items(), vec!["anthropic", "openai", "google", "xai", "ollama", "custom"]);
    assert_eq!(models_for_provider("openai"), vec!["gpt-4o", "gpt-4o-mini", "o3", "o4-mini"]);
    assert_eq!(models_for_provider("google"), vec!["gemini-2.5-pro", "gemini-2.5-flash"]);
    assert_eq!(models_for_provider("xai"), vec!["grok-3", "grok-3-mini"]);
    assert_eq!(models_for_provider("ollama"), vec!["llama3.3", "mistral", "deepseek-r1"]);
    assert!(models_for_provider("custom").is_empty());
    assert!(models_for_provider("Anthropic").is_empty());
}

// ---------------------------------------------------------------------------
// Knowledge sources
// ---------------------------------------------------------------------------

#[test]
fn toggle_mempalace_with_endpoint_fetches_once() {
    let lib = library();
    let mut s = OnboardingState::new();
    assert_eq!(s.toggle_kb_source("nas", &lib, false), KbToggle::FetchWings("http://nas:8080/".to_string()));
    assert!(s.is_kb_source_selected("nas"));
    assert_eq!(s.toggle_kb_source("nas", &lib, true), KbToggle::Deselected);
    assert!(!s.is_kb_source_selected("nas"));
    assert_eq!(s.toggle_kb_source("nas", &lib, true), KbToggle::Selected);
}

#[test]
fn toggle_other_sources() {
    let lib = library();
    let mut s = OnboardingState::new();
    assert_eq!(s.toggle_kb_source("local", &lib, false), KbToggle::ManualWing);
    assert_eq!(s.toggle_kb_source("vault", &lib, false), KbToggle::Selected);
    assert_eq!(s.toggle_kb_source("unknown", &lib, false), KbToggle::Selected);
    let ids: Vec<&str> = s.kb_connections.iter().map(|c| c.source_id.as_str()).collect();
    assert_eq!(ids, vec!["local", "vault", "unknown"]);
    assert!(s.kb_connections.iter().all(|c| c.wing.is_none()));
}

#[test]
fn toggle_twice_restores_selection() {
    let lib = library();
    let mut s = OnboardingState::new();
    s.toggle_kb_source("vault", &lib, false);
    let before: Vec<String> = s.kb_connections.iter().map(|c| c.source_id.clone()).collect();
    s.toggle_kb_source("local", &lib, false);
    s.toggle_kb_source("local", &lib, false);
    let after: Vec<String> = s.kb_connections.iter().map(|c| c.source_id.clone()).collect();
    assert_eq!(before, after);
}

#[test]
fn deselect_removes_every_selection() {
    let mut s = OnboardingState::new();
    s.kb_connections = vec![
        KbConnectionDraft { source_id: "a".to_string(), wing: None },
        KbConnectionDraft { source_id: "b".to_string(), wing: None },
        KbConnectionDraft { source_id: "a".to_string(), wing: Some("w".to_string()) },
    ];
    assert_eq!(s.toggle_kb_source("a", &library(), false), KbToggle::Deselected);
    assert_eq!(s.kb_connections, vec![KbConnectionDraft { source_id: "b".to_string(), wing: None }]);
}

#[test]
fn wings_typed_and_chosen() {
    let lib = library();
    let mut s = OnboardingState::new();
    s.toggle_kb_source("local", &lib, false);
    s.set_kb_wing("local", "showflyer");
    assert_eq!(s.kb_connections[0].wing.as_deref(), Some("showflyer"));
    s.set_kb_wing("local", "");
    assert_eq!(s.kb_connections[0].wing, None);
    s.toggle_kb_source("nas", &lib, false);
    s.set_kb_wing_from_display("nas", "showflyer (509 drawers)");
    assert_eq!(s.kb_connections[1].wing.as_deref(), Some("showflyer"));
    s.set_kb_wing_from_display("nas", "");
    assert_eq!(s.kb_connections[1].wing, None);
    s.set_kb_wing("missing", "x");
    assert_eq!(s.kb_connections.len(), 2);
    if let Some(d) = s.kb_connection_mut("nas") {
        d.wing = Some("direct".to_string());
    }
    assert_eq!(s.kb_connections[1].wing.as_deref(), Some("direct"));
    assert!(s.kb_connection_mut("missing").is_none());
}

#[test]
fn kb_tiles_follow_library() {
    let lib = library();
    let mut s = OnboardingState::new();
    s.toggle_kb_source("nas", &lib, false);
    s.toggle_kb_source("vault", &lib, false);
    let tiles = s.kb_tiles(&lib);
    assert_eq!(tiles.len(), 3);
    assert!(tiles[0].selected && tiles[0].wing_area);
    assert_eq!(tiles[0].abbrev, "MP");
    assert_eq!(tiles[0].accent, ProviderAccent::Primary);
    assert!(!tiles[1].selected && !tiles[1].wing_area);
    assert!(tiles[2].selected && !tiles[2].wing_area);
    assert_eq!(tiles[2].abbrev, "Ob");
}

#[test]
fn provider_tiles() {
    assert_eq!(provider_accent("mempalace"), ProviderAccent::Primary);
    assert_eq!(provider_accent("obsidian"), ProviderAccent::Magenta);
    assert_eq!(provider_accent("notion"), ProviderAccent::Blue);
    assert_eq!(provider_accent("other"), ProviderAccent::MutedForeground);
    assert_eq!(provider_abbrev("mempalace"), "MP");
    assert_eq!(provider_abbrev("obsidian"), "Ob");
    assert_eq!(provider_abbrev("notion"), "N");
    assert_eq!(provider_abbrev(""), "?");
}

// ---------------------------------------------------------------------------
// MemPalace wings
// ---------------------------------------------------------------------------

#[test]
fn wing_name_strips_drawer_count() {
    assert_eq!(wing_name_from_display("showflyer (509 drawers)"), "showflyer");
    assert_eq!(wing_name_from_display("plain"), "plain");
    assert_eq!(wing_name_from_display("a (b) (3 drawers)"), "a (b)");
    assert_eq!(wing_name_from_display(" (12 drawers)"), "");
    assert_eq!(wing_name_from_display("a (1) (2)"), "a (1) (2)");
    assert_eq!(wing_name_from_display("x ( drawers)"), "x ( drawers)");
    assert_eq!(wing_name_from_display("x("), "x(");
}

#[test]
fn wing_display_sorted_by_name() {
    let wings = vec![("zeta".to_string(), 3u64), ("alpha".to_string(), 1u64), ("mid".to_string(), 0u64)];
    assert_eq!(
        wing_display_list(&wings),
        vec!["alpha (1 drawers)", "mid (0 drawers)", "zeta (3 drawers)"]
    );
    assert!(wing_display_list(&Vec::new()).is_empty());
}

#[test]
fn wing_display_round_trip() {
    let wings = vec![("showflyer".to_string(), 509u64), ("odd (name".to_string(), 0u64)];
    let list = wing_display_list(&wings);
    assert_eq!(list, vec!["odd (name (0 drawers)", "showflyer (509 drawers)"]);
    assert_eq!(wing_name_from_display(&list[0]), "odd (name");
    assert_eq!(wing_name_from_display(&list[1]), "showflyer");
}

#[test]
fn mcp_url_and_authorization() {
    assert_eq!(mempalace_mcp_url("http://nas:8080"), "http://nas:8080/mcp");
    assert_eq!(mempalace_mcp_url("http://nas:8080//"), "http://nas:8080/mcp");
    assert_eq!(mempalace_mcp_url(""), "/mcp");
    assert_eq!(bearer_authorization("s3cret"), "Bearer s3cret");
}

#[test]
fn wings_reply_text_found() {
    let body = r#"{"jsonrpc":"2.0","id":1,"result":{"content":[{"type":"text","text":"{\"wings\":{\"a\":2}}"}]}}"#;
    assert_eq!(wings_reply_text(body).unwrap(), r#"{"wings":{"a":2}}"#);
}

#[test]
fn wings_reply_text_errors() {
    assert!(matches!(wings_reply_text("not json"), Err(WingsReplyError::Parse(_))));
    assert!(matches!(wings_reply_text(r#"{"result":{"content":[]}}"#), Err(WingsReplyError::Shape)));
    assert!(matches!(
        wings_reply_text(r#"{"result":{"content":[{"text":5}]}}"#),
        Err(WingsReplyError::Shape)
    ));
}

#[test]
fn wings_reply_outcome_cases() {
    assert!(matches!(wings_reply_outcome(Ok(None)), Err(WingsReplyError::Shape)));
    assert_eq!(wings_reply_outcome(Ok(Some("t".to_string()))).unwrap(), "t");
    let err = serde_json::from_str::<serde_json::Value>("{").unwrap_err();
    assert!(matches!(wings_reply_outcome(Err(err)), Err(WingsReplyError::Parse(_))));
}

#[test]
fn wing_area_by_fetch_state() {
    assert_eq!(wing_area(Some(&WingFetchState::Loading), false, false), WingArea::Fetching { labelled: true });
    let loaded = WingFetchState::Loaded(vec!["a (1 drawers)".to_string()]);
    assert_eq!(wing_area(Some(&loaded), true, false), WingArea::Select);
    assert_eq!(wing_area(Some(&loaded), false, true), WingArea::Fetching { labelled: false });
    let failed = WingFetchState::Failed("HTTP 500".to_string());
    assert_eq!(
        wing_area(Some(&failed), false, true),
        WingArea::ManualAfterError("Could not fetch wings: HTTP 500. Enter name manually.".to_string())
    );
    assert_eq!(wing_area(Some(&failed), true, false), WingArea::Empty);
    assert_eq!(wing_area(None, false, true), WingArea::ManualLocal);
    assert_eq!(wing_area(None, true, false), WingArea::Empty);
}

// ---------------------------------------------------------------------------
// Folder detection
// ---------------------------------------------------------------------------

#[test]
fn git_remote_of_origin() {
    let content = "[core]\n\trepositoryformatversion = 0\n[remote \"upstream\"]\n\turl = https://example.com/up.git\n[remote \"origin\"]\n\turl = git@github.com:me/repo.git\n\tfetch = +refs/heads/*:refs/remotes/origin/*\n";
    assert_eq!(parse_git_remote_url(content).as_deref(), Some("git@github.com:me/repo.git"));
}

#[test]
fn git_remote_missing_or_blank() {
    assert_eq!(parse_git_remote_url(""), None);
    assert_eq!(parse_git_remote_url("[remote \"origin\"]\n\turl =   \n[branch \"main\"]\n\turl = nope\n"), None);
    assert_eq!(parse_git_remote_url("[remote \"origin\"]\n\turl=x\n"), None);
    assert_eq!(
        parse_git_remote_url("[remote \"origin\"]\r\n  url =   https://h/r.git  \r\n"),
        Some("https://h/r.git".to_string())
    );
}

#[test]
fn folder_name_is_last_component() {
    assert_eq!(folder_name("/work/showflyer"), "showflyer");
    assert_eq!(folder_name("/work/showflyer/"), "showflyer");
    assert_eq!(folder_name("/"), "");
    assert_eq!(folder_name("/work/.."), "");
    assert_eq!(folder_name("showflyer"), "showflyer");
    assert_eq!(folder_name(".."), "");
    assert_eq!(folder_name("/work/a/./"), "a");
    assert_eq!(folder_name("./x"), "x");
    assert_eq!(folder_name("a//b"), "b");
    assert_eq!(folder_name("."), "");
}

#[test]
fn project_name_validation() {
    assert!(valid_project_name(""));
    assert!(valid_project_name("Show Flyer-2_x"));
    assert!(valid_project_name("Café Ünïcode"));
    assert!(!valid_project_name("bad/name"));
    assert!(!valid_project_name("dot."));
}

// ---------------------------------------------------------------------------
// Confirm
// ---------------------------------------------------------------------------

#[test]
fn summary_rows() {
    let mut s = OnboardingState::new();
    assert!(s.summary().is_empty());
    s.set_project_name("ShowFlyer");
    s.select_folder("/w/sf".to_string(), true, false, None, "sf".to_string());
    s.set_git_remote("git@github.com:me/sf.git");
    s.add_agent();
    s.toggle_kb_source("vault", &library(), false);
    let rows: Vec<(String, String)> = s.summary();
    let expect = vec![
        ("Project name", "ShowFlyer"),
        ("Folder", "/w/sf"),
        ("Git", "https — no account set"),
        ("Remote", "git@github.com:me/sf.git"),
        ("Agents", "Unnamed agent (no provider)"),
        ("Knowledge sources", "1 source connected"),
    ];
    let got: Vec<(&str, &str)> = rows.iter().map(|(a, b)| (a.as_str(), b.as_str())).collect();
    assert_eq!(got, expect);
    s.add_agent();
    s.set_agent_field(1, AgentField::Name, "Doc Agent");
    s.set_agent_field(1, AgentField::Provider, "ollama");
    s.set_git_auth_ssh(true);
    s.set_git_account("github-work");
    let rows = s.summary();
    assert_eq!(rows[2].1, "ssh — github-work");
    assert_eq!(rows[4].1, "Unnamed agent (no provider), Doc Agent (ollama)");
    s.set_git_remote("");
    let rows = s.summary();
    assert_eq!(rows[2], ("Git".to_string(), "ssh — github-work".to_string()));
    assert_eq!(rows[3].0, "Agents");
}

#[test]
fn confirm_creates_project_entry() {
    let mut s = OnboardingState::new();
    s.set_project_name("ShowFlyer");
    s.select_folder("/w/sf".to_string(), false, false, None, "sf".to_string());
    s.toggle_kb_source("local", &library(), false);
    s.set_kb_wing("local", "sf");
    s.add_agent();
    let Some(OnboardingEvent::ProjectCreated(entry)) = s.confirm() else {
        panic!("the random source failed");
    };
    assert_eq!(entry.name, "ShowFlyer");
    assert_eq!(entry.path, "/w/sf");
    assert_eq!(entry.last_opened, None);
    assert!(entry.git.is_none() && entry.services.is_empty());
    assert_eq!(entry.agents.len(), 1);
    assert_eq!(entry.agents[0].id, "agent-1");
    assert!(entry.agents[0].purpose.is_none() && entry.agents[0].model.is_none());
    assert_eq!(
        entry.kb_connections,
        vec![KbConnection { source_id: "local".to_string(), wing: Some("sf".to_string()) }]
    );
    let id: Vec<char> = entry.id.chars().collect();
    assert_eq!(id.len(), 36);
    assert_eq!(id[14], '4');
    assert!(matches!(id[19], '8' | '9' | 'a' | 'b'));
    let Some(OnboardingEvent::ProjectCreated(other)) = s.confirm() else {
        panic!("the random source failed");
    };
    assert_ne!(other.id, entry.id);
}

#[test]
fn confirm_carries_git_and_agents() {
    let mut s = OnboardingState::new();
    s.set_project_name("P");
    s.set_git_auth_ssh(true);
    s.set_git_account("github-work");
    s.add_agent();
    s.add_agent();
    s.set_agent_field(1, AgentField::Name, "Doc Agent");
    s.set_agent_field(1, AgentField::Purpose, "Keeps docs");
    s.set_agent_field(1, AgentField::Provider, "openai");
    s.set_agent_field(1, AgentField::Model, "o3");
    let entry = s.project_entry("id".to_string());
    assert_eq!(
        entry.git,
        Some(GitConfig { auth: "ssh".to_string(), account: Some("github-work".to_string()), remote: None })
    );
    assert_eq!(entry.agents.len(), 2);
    let doc = &entry.agents[1];
    assert_eq!(doc.id, "agent-2");
    assert_eq!(doc.name, "Doc Agent");
    assert_eq!(doc.purpose.as_deref(), Some("Keeps docs"));
    assert_eq!(doc.provider, "openai");
    assert_eq!(doc.model.as_deref(), Some("o3"));
    assert!(doc.endpoint.is_none() && doc.kb_sources.is_empty());
    s.set_git_account("");
    s.set_git_remote("https://h/r.git");
    let entry = s.project_entry("id".to_string());
    assert_eq!(
        entry.git,
        Some(GitConfig { auth: "ssh".to_string(), account: None, remote: Some("https://h/r.git".to_string()) })
    );
}

#[test]
fn project_entry_without_folder_has_empty_path() {
    let s = OnboardingState::new();
    let entry = s.project_entry("fixed".to_string());
    assert_eq!(entry.id, "fixed");
    assert_eq!(entry.path, "");
}
