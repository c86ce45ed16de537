use hypr_workspace_history::history::{history_for_monitor, update_last_for_monitor, HistoryEntry};
use hypr_workspace_history::monitors::{monitor_snapshots, HyprMonitor, HyprWorkspace, MonitorSnapshot};
use hypr_workspace_history::session::{refresh_history, run_daemon, State};

fn entry(monitor: &str, workspace: &str) -> HistoryEntry {
    HistoryEntry {
        monitor: monitor.to_string(),
        workspace: workspace.to_string(),
    }
}

fn snapshot(monitor: &str, workspace: &str, focused: bool) -> MonitorSnapshot {
    MonitorSnapshot {
        monitor: monitor.to_string(),
        workspace: workspace.to_string(),
        focused,
    }
}

#[test]
fn monitor_history_filters_in_recency_order() {
    let history = vec![
        entry("DP-1", "3"),
        entry("HDMI-A-1", "8"),
        entry("DP-1", "2"),
        entry("DP-1", "1"),
    ];

    assert_eq!(history_for_monitor(&history, "DP-1"), vec!["3", "2", "1"]);
}

#[test]
fn non_focused_monitor_update_preserves_existing_head() {
    let mut history = vec![entry("DP-1", "3"), entry("DP-1", "2")];

    update_last_for_monitor(&mut history, "DP-1", "3", false);

    assert_eq!(history, vec![entry("DP-1", "3"), entry("DP-1", "2")]);
}

#[test]
fn focused_monitor_update_promotes_global_head() {
    let mut history = vec![
        entry("HDMI-A-1", "8"),
        entry("DP-1", "3"),
        entry("DP-1", "2"),
    ];

    update_last_for_monitor(&mut history, "DP-1", "3", true);

    assert_eq!(
        history,
        vec![
            entry("DP-1", "3"),
            entry("HDMI-A-1", "8"),
            entry("DP-1", "2"),
        ]
    );
}

#[test]
fn monitor_history_lists_each_workspace_once() {
    let history = vec![
        entry("DP-1", "3"),
        entry("DP-1", "2"),
        entry("DP-1", "3"),
        entry("HDMI-A-1", "3"),
        entry("DP-1", "1"),
    ];
    assert_eq!(history_for_monitor(&history, "DP-1"), vec!["3", "2", "1"]);
    assert_eq!(history_for_monitor(&history, "HDMI-A-1"), vec!["3"]);
    assert!(history_for_monitor(&history, "eDP-1").is_empty());
    assert!(history_for_monitor(&[], "DP-1").is_empty());
}

#[test]
fn update_adds_entry_to_empty_history() {
    let mut history = Vec::new();
    update_last_for_monitor(&mut history, "DP-1", "1", false);
    assert_eq!(history, vec![entry("DP-1", "1")]);
}

#[test]
fn update_moves_entry_that_is_not_the_monitor_head() {
    let mut history = vec![entry("DP-1", "3"), entry("HDMI-A-1", "8"), entry("DP-1", "2")];
    update_last_for_monitor(&mut history, "DP-1", "2", false);
    assert_eq!(
        history,
        vec![entry("DP-1", "2"), entry("DP-1", "3"), entry("HDMI-A-1", "8")]
    );
}

#[test]
fn update_keeps_head_even_behind_other_monitors() {
    let mut history = vec![entry("HDMI-A-1", "8"), entry("DP-1", "3"), entry("DP-1", "2")];
    update_last_for_monitor(&mut history, "DP-1", "3", false);
    assert_eq!(
        history,
        vec![entry("HDMI-A-1", "8"), entry("DP-1", "3"), entry("DP-1", "2")]
    );
}

#[test]
fn update_drops_every_copy_of_the_entry() {
    let mut history = vec![entry("DP-1", "1"), entry("DP-1", "2"), entry("DP-1", "1")];
    update_last_for_monitor(&mut history, "DP-1", "2", true);
    assert_eq!(history, vec![entry("DP-1", "2"), entry("DP-1", "1"), entry("DP-1", "1")]);
    update_last_for_monitor(&mut history, "DP-1", "1", true);
    assert_eq!(history, vec![entry("DP-1", "1"), entry("DP-1", "2")]);
}

#[test]
fn update_twice_is_update_once() {
    for force in [false, true] {
        let mut once = vec![entry("HDMI-A-1", "8"), entry("DP-1", "2"), entry("DP-1", "3")];
        update_last_for_monitor(&mut once, "DP-1", "3", force);
        let mut twice = vec![entry("HDMI-A-1", "8"), entry("DP-1", "2"), entry("DP-1", "3")];
        update_last_for_monitor(&mut twice, "DP-1", "3", force);
        update_last_for_monitor(&mut twice, "DP-1", "3", force);
        assert_eq!(once, twice);
    }
}

#[test]
fn update_leaves_other_monitors_heads() {
    let mut history = vec![entry("HDMI-A-1", "8"), entry("DP-1", "3"), entry("HDMI-A-1", "9")];
    update_last_for_monitor(&mut history, "DP-1", "4", true);
    assert_eq!(history_for_monitor(&history, "HDMI-A-1"), vec!["8", "9"]);
    assert_eq!(history_for_monitor(&history, "DP-1"), vec!["4", "3"]);
}

#[test]
fn monitor_snapshots_skip_special_workspaces() {
    let monitors = vec![
        HyprMonitor {
            name: "DP-1".to_string(),
            focused: false,
            active_workspace: HyprWorkspace { id: 3, name: "3".to_string() },
        },
        HyprMonitor {
            name: "HDMI-A-1".to_string(),
            focused: true,
            active_workspace: HyprWorkspace { id: -98, name: "special:scratch".to_string() },
        },
        HyprMonitor {
            name: "eDP-1".to_string(),
            focused: false,
            active_workspace: HyprWorkspace { id: 0, name: "zero".to_string() },
        },
        HyprMonitor {
            name: "DP-2".to_string(),
            focused: true,
            active_workspace: HyprWorkspace { id: 7, name: "mail".to_string() },
        },
    ];
    let snapshots = monitor_snapshots(monitors);
    assert_eq!(snapshots.len(), 2);
    assert_eq!(snapshots[0].monitor, "DP-1");
    assert_eq!(snapshots[0].workspace, "3");
    assert!(!snapshots[0].focused);
    assert_eq!(snapshots[1].monitor, "DP-2");
    assert_eq!(snapshots[1].workspace, "mail");
    assert!(snapshots[1].focused);
}

#[test]
fn refresh_puts_focused_monitor_first() {
    let mut state = State::new(vec![entry("DP-1", "3"), entry("HDMI-A-1", "8"), entry("DP-1", "2")]);
    let report = vec![snapshot("DP-1", "2", true), snapshot("HDMI-A-1", "9", false)];
    refresh_history(&mut state, &report);
    assert_eq!(
        state.history,
        vec![
            entry("DP-1", "2"),
            entry("HDMI-A-1", "9"),
            entry("DP-1", "3"),
            entry("HDMI-A-1", "8"),
        ]
    );
    assert_eq!(history_for_monitor(&state.history, "DP-1")[0], "2");
    assert_eq!(history_for_monitor(&state.history, "HDMI-A-1")[0], "9");
}

#[test]
fn refresh_without_change_keeps_unfocused_heads_in_place() {
    let mut state = State::new(vec![entry("HDMI-A-1", "8"), entry("DP-1", "3")]);
    let report = vec![snapshot("HDMI-A-1", "8", false), snapshot("DP-1", "3", true)];
    refresh_history(&mut state, &report);
    assert_eq!(state.history, vec![entry("DP-1", "3"), entry("HDMI-A-1", "8")]);
}

#[test]
fn run_daemon_starts_from_refreshed_history() {
    let report = vec![snapshot("DP-1", "5", true)];
    let state = run_daemon(vec![entry("DP-1", "3")], &report);
    assert_eq!(state.history, vec![entry("DP-1", "5"), entry("DP-1", "3")]);
    assert!(!state.session_active());
}

#[test]
fn refresh_twice_is_refresh_once() {
    let report = vec![
        snapshot("HDMI-A-1", "9", false),
        snapshot("DP-1", "2", true),
        snapshot("eDP-1", "5", true),
    ];
    let mut once = State::new(vec![entry("DP-1", "3"), entry("HDMI-A-1", "8"), entry("DP-1", "2")]);
    refresh_history(&mut once, &report);
    let mut twice = State::new(once.history.clone());
    refresh_history(&mut twice, &report);
    assert_eq!(twice.history, once.history);
    assert_eq!(
        once.history,
        vec![
            entry("eDP-1", "5"),
            entry("DP-1", "2"),
            entry("HDMI-A-1", "9"),
            entry("DP-1", "3"),
            entry("HDMI-A-1", "8"),
        ]
    );
}

#[test]
fn update_keeps_other_monitor_lists_whole() {
    let mut history = vec![
        entry("HDMI-A-1", "8"),
        entry("DP-1", "3"),
        entry("HDMI-A-1", "9"),
        entry("DP-1", "2"),
        entry("HDMI-A-1", "7"),
    ];
    let before = history_for_monitor(&history, "HDMI-A-1");
    update_last_for_monitor(&mut history, "DP-1", "2", true);
    assert_eq!(history_for_monitor(&history, "HDMI-A-1"), before);
    assert_eq!(history_for_monitor(&history, "DP-1"), vec!["2", "3"]);
}

#[test]
fn updated_list_is_workspace_then_the_others() {
    let start = vec![entry("DP-1", "3"), entry("DP-1", "2"), entry("DP-1", "4"), entry("DP-1", "2")];
    for force in [false, true] {
        let mut history = start.clone();
        update_last_for_monitor(&mut history, "DP-1", "4", force);
        assert_eq!(history_for_monitor(&history, "DP-1"), vec!["4", "3", "2"]);
    }
}
