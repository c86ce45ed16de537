use hypr_workspace_history::history::HistoryEntry;
use hypr_workspace_history::monitors::MonitorSnapshot;
use hypr_workspace_history::session::{
    advance, cancel, commit, cycle, CancelReply, CommitReply, CycleReply, Direction, QueryError,
    State,
};

fn entry(monitor: &str, workspace: &str) -> HistoryEntry {
    HistoryEntry {
        monitor: monitor.to_string(),
        workspace: workspace.to_string(),
    }
}

fn snapshot(monitor: &str, workspace: &str, focused: bool) -> MonitorSnapshot {
    MonitorSnapshot {
        monitor: monitor.to_string(),
        workspace: workspace.to_string(),
        focused,
    }
}

fn preview(reply: Result<CycleReply, QueryError>) -> (String, String) {
    match reply {
        Ok(CycleReply::Preview { monitor, workspace }) => (monitor, workspace),
        Ok(CycleReply::NoPreviousHistory { .. }) => panic!("no previous history"),
        Err(error) => panic!("{error:?}"),
    }
}

fn start(history: Vec<HistoryEntry>) -> (State, Vec<MonitorSnapshot>) {
    let report = vec![snapshot("DP-1", "3", true), snapshot("HDMI-A-1", "8", false)];
    (State::new(history), report)
}

#[test]
fn increment_is_one_step_either_way() {
    assert_eq!(Direction::Next.increment(), 1);
    assert_eq!(Direction::Prev.increment(), -1);
}

#[test]
fn advance_wraps_around() {
    assert_eq!(advance(0, 3, Direction::Next), 1);
    assert_eq!(advance(2, 3, Direction::Next), 0);
    assert_eq!(advance(0, 3, Direction::Prev), 2);
    assert_eq!(advance(2, 3, Direction::Prev), 1);
}

#[test]
fn first_cycle_previews_previous_workspace() {
    let (mut state, report) = start(vec![entry("DP-1", "3"), entry("DP-1", "2"), entry("DP-1", "1")]);
    let reply = cycle(&mut state, Direction::Next, Some(&report), Some(&report));
    let (monitor, workspace) = preview(reply);
    assert_eq!(monitor, "DP-1");
    assert_eq!(workspace, "2");
    let session = state.session.as_ref().unwrap();
    assert_eq!(session.order(), &vec!["3".to_string(), "2".to_string(), "1".to_string()]);
    assert_eq!(session.index(), 1);
    assert_eq!(session.original_workspace(), "3");
    assert_eq!(session.monitor(), "DP-1");
}

#[test]
fn first_cycle_backwards_also_previews_previous_workspace() {
    let (mut state, report) = start(vec![entry("DP-1", "3"), entry("DP-1", "2"), entry("DP-1", "1")]);
    let (_, workspace) = preview(cycle(&mut state, Direction::Prev, Some(&report), Some(&report)));
    assert_eq!(workspace, "2");
    assert_eq!(state.session.as_ref().unwrap().index(), 1);
    let (_, workspace) = preview(cycle(&mut state, Direction::Prev, None, None));
    assert_eq!(workspace, "3");
    let (_, workspace) = preview(cycle(&mut state, Direction::Prev, None, None));
    assert_eq!(workspace, "1");
}

#[test]
fn cycling_walks_the_frozen_order_and_wraps() {
    let (mut state, report) = start(vec![entry("DP-1", "3"), entry("DP-1", "2"), entry("DP-1", "1")]);
    let mut seen = Vec::new();
    seen.push(preview(cycle(&mut state, Direction::Next, Some(&report), Some(&report))).1);
    for _ in 0..4 {
        seen.push(preview(cycle(&mut state, Direction::Next, None, None)).1);
    }
    assert_eq!(seen, vec!["2", "1", "3", "2", "1"]);
}

#[test]
fn cycle_moves_current_workspace_to_front_of_order() {
    let (mut state, report) = start(vec![entry("DP-1", "2"), entry("DP-1", "3"), entry("DP-1", "1")]);
    let (_, workspace) = preview(cycle(&mut state, Direction::Next, Some(&report), Some(&report)));
    // The report shows workspace 3 focused, so recording it moves it to the front.
    assert_eq!(workspace, "2");
    let session = state.session.as_ref().unwrap();
    assert_eq!(session.order(), &vec!["3".to_string(), "2".to_string(), "1".to_string()]);
}

#[test]
fn cycle_uses_second_report_for_current_monitor() {
    let mut state = State::new(vec![entry("DP-1", "3"), entry("DP-1", "2"), entry("HDMI-A-1", "9")]);
    let first = vec![snapshot("DP-1", "3", true)];
    let second = vec![snapshot("HDMI-A-1", "8", false), snapshot("DP-1", "3", false)];
    let (monitor, workspace) = preview(cycle(&mut state, Direction::Next, Some(&first), Some(&second)));
    // No monitor is focused in the second report: its first monitor is used.
    assert_eq!(monitor, "HDMI-A-1");
    assert_eq!(workspace, "9");
    let session = state.session.as_ref().unwrap();
    assert_eq!(session.order(), &vec!["8".to_string(), "9".to_string()]);
}

#[test]
fn cycle_without_previous_history() {
    let (mut state, report) = start(vec![entry("DP-1", "3")]);
    match cycle(&mut state, Direction::Next, Some(&report), Some(&report)) {
        Ok(CycleReply::NoPreviousHistory { monitor }) => assert_eq!(monitor, "DP-1"),
        _ => panic!("expected no previous history"),
    }
    assert!(!state.session_active());
    assert_eq!(state.history, vec![entry("DP-1", "3"), entry("HDMI-A-1", "8")]);
}

#[test]
fn cycle_with_no_monitors() {
    let mut state = State::new(vec![entry("DP-1", "3"), entry("DP-1", "2")]);
    let empty: Vec<MonitorSnapshot> = Vec::new();
    let reply = cycle(&mut state, Direction::Next, Some(&empty), Some(&empty));
    assert!(matches!(reply, Err(QueryError::NoMonitors)));
    assert!(!state.session_active());
}

#[test]
fn cycle_without_reports() {
    let mut state = State::new(vec![entry("DP-1", "3"), entry("DP-1", "2")]);
    let reply = cycle(&mut state, Direction::Next, None, None);
    assert!(matches!(reply, Err(QueryError::MonitorsUnavailable)));
    assert_eq!(state.history, vec![entry("DP-1", "3"), entry("DP-1", "2")]);

    let report = vec![snapshot("DP-1", "1", true)];
    let reply = cycle(&mut state, Direction::Next, Some(&report), None);
    assert!(matches!(reply, Err(QueryError::MonitorsUnavailable)));
    // The first report was recorded before the second could not be had.
    assert_eq!(state.history, vec![entry("DP-1", "1"), entry("DP-1", "3"), entry("DP-1", "2")]);
    assert!(!state.session_active());
}

#[test]
fn cycle_freezes_history() {
    let (mut state, report) = start(vec![entry("DP-1", "3"), entry("DP-1", "2"), entry("DP-1", "1")]);
    preview(cycle(&mut state, Direction::Next, Some(&report), Some(&report)));
    let frozen = state.history.clone();
    let other = vec![snapshot("DP-1", "7", true)];
    preview(cycle(&mut state, Direction::Next, Some(&other), Some(&other)));
    preview(cycle(&mut state, Direction::Prev, None, None));
    assert_eq!(state.history, frozen);
}

#[test]
fn cancel_restores_history_and_original_workspace() {
    let (mut state, report) = start(vec![entry("DP-1", "3"), entry("DP-1", "2"), entry("DP-1", "1")]);
    preview(cycle(&mut state, Direction::Next, Some(&report), Some(&report)));
    let saved = state.session.as_ref().unwrap().saved_history().clone();
    assert_eq!(
        saved,
        vec![entry("DP-1", "3"), entry("HDMI-A-1", "8"), entry("DP-1", "2"), entry("DP-1", "1")]
    );
    preview(cycle(&mut state, Direction::Next, None, None));
    state.history = vec![entry("DP-1", "changed")];
    match cancel(&mut state) {
        CancelReply::Cancelled { monitor, original_workspace } => {
            assert_eq!(monitor, "DP-1");
            assert_eq!(original_workspace, "3");
        }
        CancelReply::NoSession => panic!("expected a session"),
    }
    assert_eq!(state.history, saved);
    assert!(!state.session_active());
}

#[test]
fn cancel_without_session() {
    let mut state = State::new(vec![entry("DP-1", "3")]);
    let reply = cancel(&mut state);
    assert!(matches!(reply, CancelReply::NoSession));
    assert_eq!(reply.message(), "no active cycle session");
    assert_eq!(state.history, vec![entry("DP-1", "3")]);
}

#[test]
fn commit_records_report_into_saved_history() {
    let (mut state, report) = start(vec![entry("DP-1", "3"), entry("DP-1", "2"), entry("DP-1", "1")]);
    preview(cycle(&mut state, Direction::Next, Some(&report), Some(&report)));
    state.history = vec![entry("DP-1", "changed")];
    let now = vec![snapshot("DP-1", "2", true), snapshot("HDMI-A-1", "8", false)];
    let reply = commit(&mut state, Some(&now));
    assert_eq!(reply, Ok(CommitReply::Committed));
    assert_eq!(
        state.history,
        vec![entry("DP-1", "2"), entry("DP-1", "3"), entry("HDMI-A-1", "8"), entry("DP-1", "1")]
    );
    assert!(!state.session_active());
}

#[test]
fn commit_without_session_refreshes() {
    let mut state = State::new(vec![entry("DP-1", "3")]);
    let now = vec![snapshot("DP-1", "4", true)];
    assert_eq!(commit(&mut state, Some(&now)), Ok(CommitReply::NoSession));
    assert_eq!(state.history, vec![entry("DP-1", "4"), entry("DP-1", "3")]);
}

#[test]
fn commit_without_report_still_ends_session() {
    let (mut state, report) = start(vec![entry("DP-1", "3"), entry("DP-1", "2")]);
    preview(cycle(&mut state, Direction::Next, Some(&report), Some(&report)));
    let saved = state.session.as_ref().unwrap().saved_history().clone();
    assert_eq!(commit(&mut state, None), Err(QueryError::MonitorsUnavailable));
    assert!(!state.session_active());
    assert_eq!(state.history, saved);
}

#[test]
fn reply_messages() {
    let reply = CycleReply::Preview { monitor: "DP-1".to_string(), workspace: "2".to_string() };
    assert_eq!(reply.message(), "preview monitor=DP-1 workspace=2");
    let reply = CycleReply::NoPreviousHistory { monitor: "DP-1".to_string() };
    assert_eq!(reply.message(), "monitor DP-1 has no previous workspace history");
    assert_eq!(CommitReply::Committed.message(), "committed workspace history selection");
    assert_eq!(CommitReply::NoSession.message(), "no active cycle session");
    let reply = CancelReply::Cancelled { monitor: "DP-1".to_string(), original_workspace: "3".to_string() };
    assert_eq!(reply.message(), "cancelled workspace history selection");
}

#[test]
fn next_then_prev_returns_to_same_position() {
    let (mut state, report) = start(vec![entry("DP-1", "3"), entry("DP-1", "2"), entry("DP-1", "1")]);
    let (_, first) = preview(cycle(&mut state, Direction::Next, Some(&report), Some(&report)));
    assert_eq!(first, "2");
    let before = state.session.as_ref().unwrap().index();
    let (_, second) = preview(cycle(&mut state, Direction::Next, None, None));
    assert_eq!(second, "1");
    let (_, back) = preview(cycle(&mut state, Direction::Prev, None, None));
    assert_eq!(back, "2");
    assert_eq!(state.session.as_ref().unwrap().index(), before);
}

#[test]
fn nth_next_preview_returns_to_start() {
    let (mut state, report) = start(vec![entry("DP-1", "3"), entry("DP-1", "2"), entry("DP-1", "1")]);
    preview(cycle(&mut state, Direction::Next, Some(&report), Some(&report)));
    preview(cycle(&mut state, Direction::Next, None, None));
    let (_, third) = preview(cycle(&mut state, Direction::Next, None, None));
    assert_eq!(third, "3");
    assert_eq!(state.session.as_ref().unwrap().index(), 0);
}
