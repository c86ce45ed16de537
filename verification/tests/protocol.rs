use hypr_workspace_history::history::HistoryEntry;
use hypr_workspace_history::protocol::{
    event_triggers_refresh, focus_workspace_on_monitor, follow_hyprland_event, parse_request, request_text,
    should_refresh_for_event, workspace_dispatch_arg, Request,
};
use hypr_workspace_history::monitors::MonitorSnapshot;
use hypr_workspace_history::session::{cycle, Direction, State};
use hypr_workspace_history::text::{has_prefix, trim};

#[test]
fn workspace_dispatch_arg_uses_name_prefix_for_named_workspaces() {
    assert_eq!(workspace_dispatch_arg("1"), "1");
    assert_eq!(workspace_dispatch_arg("mail"), "name:mail");
    assert_eq!(workspace_dispatch_arg("name:mail"), "name:mail");
}

#[test]
fn workspace_dispatch_arg_follows_integer_parsing() {
    assert_eq!(workspace_dispatch_arg("-5"), "-5");
    assert_eq!(workspace_dispatch_arg("+7"), "+7");
    assert_eq!(workspace_dispatch_arg("007"), "007");
    assert_eq!(workspace_dispatch_arg("9223372036854775807"), "9223372036854775807");
    assert_eq!(workspace_dispatch_arg("-9223372036854775808"), "-9223372036854775808");
    assert_eq!(workspace_dispatch_arg("9223372036854775808"), "name:9223372036854775808");
    assert_eq!(workspace_dispatch_arg("+"), "name:+");
    assert_eq!(workspace_dispatch_arg("-"), "name:-");
    assert_eq!(workspace_dispatch_arg(""), "name:");
    assert_eq!(workspace_dispatch_arg(" 1"), "name: 1");
    assert_eq!(workspace_dispatch_arg("1a"), "name:1a");
    assert_eq!(workspace_dispatch_arg("name"), "name:name");
}

#[test]
fn workspace_dispatch_arg_is_idempotent() {
    for w in ["1", "mail", "name:mail", "", "-3", "x y"] {
        let once = workspace_dispatch_arg(w);
        assert_eq!(workspace_dispatch_arg(&once), once);
    }
}

#[test]
fn focus_commands_focus_monitor_then_workspace() {
    let commands = focus_workspace_on_monitor("DP-1", "mail");
    assert_eq!(
        commands,
        vec![
            vec!["dispatch".to_string(), "focusmonitor".to_string(), "DP-1".to_string()],
            vec!["dispatch".to_string(), "workspace".to_string(), "name:mail".to_string()],
        ]
    );
    let commands = focus_workspace_on_monitor("HDMI-A-1", "4");
    assert_eq!(commands[1][2], "4");
}

#[test]
fn refresh_events_are_recognised_by_prefix() {
    for line in [
        "workspace>>3",
        "focusedmon>>DP-1,3",
        "moveworkspace>>3,DP-1",
        "renameworkspace>>3,mail",
        "createworkspace>>4",
        "destroyworkspace>>4",
        "monitoradded>>DP-2",
        "monitorremoved>>DP-2",
        "workspace>>",
    ] {
        assert!(should_refresh_for_event(line), "{line}");
    }
    for line in ["workspacev2>>3,3", "activewindow>>kitty,x", "", "workspace>", " workspace>>3", "openwindow>>a"] {
        assert!(!should_refresh_for_event(line), "{line}");
    }
}

#[test]
fn events_do_not_refresh_during_a_session() {
    let state = State::new(vec![HistoryEntry { monitor: "DP-1".to_string(), workspace: "1".to_string() }]);
    assert!(event_triggers_refresh(&state, "workspace>>2"));
    assert!(!event_triggers_refresh(&state, "activewindow>>x"));
}

#[test]
fn requests_round_trip() {
    for request in [
        Request::Cycle(Direction::Next),
        Request::Cycle(Direction::Prev),
        Request::Commit,
        Request::Cancel,
        Request::History,
    ] {
        let text = request_text(request);
        assert_eq!(parse_request(&text), Ok(request));
    }
    assert_eq!(request_text(Request::Cycle(Direction::Next)), "cycle Next");
    assert_eq!(request_text(Request::Cycle(Direction::Prev)), "cycle Prev");
}

#[test]
fn requests_are_trimmed() {
    assert_eq!(parse_request("  commit\n"), Ok(Request::Commit));
    assert_eq!(parse_request("\tcycle Prev \u{3000}"), Ok(Request::Cycle(Direction::Prev)));
    assert_eq!(parse_request(" bogus  "), Err("bogus".to_string()));
    assert_eq!(parse_request("cycle  Next"), Err("cycle  Next".to_string()));
    assert_eq!(parse_request("cycle next"), Err("cycle next".to_string()));
    assert_eq!(parse_request(""), Err(String::new()));
}

#[test]
fn trim_matches_std() {
    for s in ["", " ", "  a b  ", "\u{85}x\u{a0}", "\u{2003}mid dle\u{2029}", "no-space", "\u{200b}z"] {
        assert_eq!(trim(s), s.trim());
    }
}

#[test]
fn prefix_check() {
    assert!(has_prefix("name:mail", "name:"));
    assert!(has_prefix("abc", ""));
    assert!(!has_prefix("na", "name:"));
    assert!(has_prefix("é€x", "é€"));
    assert!(!has_prefix("éx", "ex"));
}

#[test]
fn event_lines_refresh_only_outside_a_session() {
    let history = vec![
        HistoryEntry { monitor: "DP-1".to_string(), workspace: "1".to_string() },
        HistoryEntry { monitor: "DP-1".to_string(), workspace: "2".to_string() },
    ];
    let report = vec![MonitorSnapshot { monitor: "DP-1".to_string(), workspace: "2".to_string(), focused: true }];
    let mut state = State::new(history.clone());
    assert!(!follow_hyprland_event(&mut state, "activewindow>>x", &report));
    assert_eq!(state.history, history);
    assert!(follow_hyprland_event(&mut state, "workspace>>2", &report));
    assert_eq!(state.history[0].workspace, "2");

    let mut state = State::new(history.clone());
    let shown = vec![MonitorSnapshot { monitor: "DP-1".to_string(), workspace: "1".to_string(), focused: true }];
    assert!(cycle(&mut state, Direction::Next, Some(&shown), Some(&shown)).is_ok());
    let frozen = state.history.clone();
    assert!(!follow_hyprland_event(&mut state, "workspace>>2", &report));
    assert_eq!(state.history, frozen);
}
