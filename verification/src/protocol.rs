//! What the daemon reads from Hyprland's event stream, what it asks of
//! `hyprctl`, and the requests its command socket understands.

use vstd::prelude::*;
use crate::history::EntryModel;
use crate::monitors::{
    MonitorSnapshot, SnapshotModel, distinct_monitors, lemma_refresh_records_report,
    refreshed_history, snapshots_model,
};
use crate::session::{Direction, State, StateModel, refresh_history};
use crate::text::{has_prefix, i64_value, is_white_space, parse_i64, trim, trimmed};

verus! {

/// The prefixes of the Hyprland events after which the history is refreshed.
pub open spec fn refresh_events() -> Seq<Seq<char>> {
    seq![
        "workspace>>"@,
        "focusedmon>>"@,
        "moveworkspace>>"@,
        "renameworkspace>>"@,
        "createworkspace>>"@,
        "destroyworkspace>>"@,
        "monitoradded>>"@,
        "monitorremoved>>"@,
    ]
}

/// Whether an event line of Hyprland's event stream may have changed what a
/// monitor shows.
pub fn should_refresh_for_event(line: &str) -> (r: bool)
    ensures
        r == exists|i: int|
            0 <= i < refresh_events().len() && (#[trigger] refresh_events()[i]).is_prefix_of(line@),
{
    let r = has_prefix(line, "workspace>>") || has_prefix(line, "focusedmon>>") || has_prefix(
        line,
        "moveworkspace>>",
    ) || has_prefix(line, "renameworkspace>>") || has_prefix(line, "createworkspace>>")
        || has_prefix(line, "destroyworkspace>>") || has_prefix(line, "monitoradded>>")
        || has_prefix(line, "monitorremoved>>");
    proof {
        let e = refresh_events();
        if r {
            if "workspace>>"@.is_prefix_of(line@) {
                assert(e[0] == "workspace>>"@);
            } else if "focusedmon>>"@.is_prefix_of(line@) {
                assert(e[1] == "focusedmon>>"@);
            } else if "moveworkspace>>"@.is_prefix_of(line@) {
                assert(e[2] == "moveworkspace>>"@);
            } else if "renameworkspace>>"@.is_prefix_of(line@) {
                assert(e[3] == "renameworkspace>>"@);
            } else if "createworkspace>>"@.is_prefix_of(line@) {
                assert(e[4] == "createworkspace>>"@);
            } else if "destroyworkspace>>"@.is_prefix_of(line@) {
                assert(e[5] == "destroyworkspace>>"@);
            } else if "monitoradded>>"@.is_prefix_of(line@) {
                assert(e[6] == "monitoradded>>"@);
            } else {
                assert(e[7] == "monitorremoved>>"@);
            }
        }
    }
    r
}

/// Whether an event line is to refresh the history now: it may have changed
/// what a monitor shows, and no cycling session holds the history frozen.
pub fn event_triggers_refresh(state: &State, line: &str) -> (r: bool)
    ensures
        r == ((exists|i: int|
            0 <= i < refresh_events().len() && (#[trigger] refresh_events()[i]).is_prefix_of(
                line@,
            ))
            && state@.session is None),
{
    should_refresh_for_event(line) && !state.session_active()
}

/// Whether an event line of Hyprland's event stream may have changed what a
/// monitor shows.
pub open spec fn is_refresh_event(line: Seq<char>) -> bool {
    exists|i: int| 0 <= i < refresh_events().len() && (#[trigger] refresh_events()[i]).is_prefix_of(line)
}

/// The state after an event line, `report` being Hyprland's monitor report
/// at that moment: a line that may have changed what a monitor shows records
/// the report, unless a session holds the history frozen; any other line
/// changes nothing.
pub open spec fn after_event(st: StateModel, line: Seq<char>, report: Seq<SnapshotModel>) -> StateModel {
    if is_refresh_event(line) && st.session is None {
        StateModel { history: refreshed_history(st.history, report), session: None }
    } else {
        st
    }
}

/// Handles one line of Hyprland's event stream; `report` is the monitor
/// report taken for it, and is read only when the line calls for a refresh.
/// Returns whether the history was refreshed (and so is to be saved).
pub fn follow_hyprland_event(state: &mut State, line: &str, report: &[MonitorSnapshot]) -> (r: bool)
    ensures
        r == (is_refresh_event(line@) && old(state)@.session is None),
        final(state)@ == after_event(old(state)@, line@, snapshots_model(report@)),
{
    if event_triggers_refresh(state, line) {
        refresh_history(state, report);
        true
    } else {
        false
    }
}

/// The state after a run of event lines, each with the report taken for it.
pub open spec fn after_events(
    st: StateModel,
    lines: Seq<Seq<char>>,
    reports: Seq<Seq<SnapshotModel>>,
) -> StateModel
    decreases lines.len(),
{
    if lines.len() == 0 || reports.len() < lines.len() {
        st
    } else {
        after_event(
            after_events(st, lines.drop_last(), reports.take(lines.len() - 1)),
            lines.last(),
            reports[lines.len() - 1],
        )
    }
}

/// While a session is under way, no event line changes the state.
pub proof fn lemma_events_frozen_during_session(
    st: StateModel,
    lines: Seq<Seq<char>>,
    reports: Seq<Seq<SnapshotModel>>,
)
    requires
        st.session is Some,
    ensures
        after_events(st, lines, reports) == st,
    decreases lines.len(),
{
    if lines.len() > 0 && reports.len() >= lines.len() {
        lemma_events_frozen_during_session(st, lines.drop_last(), reports.take(lines.len() - 1));
    }
}

/// Every line that starts with one of the eight event names (workspace,
/// focusedmon, moveworkspace, renameworkspace, createworkspace,
/// destroyworkspace, monitoradded, monitorremoved, each followed by `>>`),
/// outside a session, is a refresh event and records the report: the state
/// becomes the one a refresh gives, in which each reported monitor's first
/// entry is the workspace it shows.
pub proof fn lemma_refresh_event_records_report(
    st: StateModel,
    line: Seq<char>,
    report: Seq<SnapshotModel>,
)
    requires
        st.session is None,
        distinct_monitors(report),
        "workspace>>"@.is_prefix_of(line)
            || "focusedmon>>"@.is_prefix_of(line)
            || "moveworkspace>>"@.is_prefix_of(line)
            || "renameworkspace>>"@.is_prefix_of(line)
            || "createworkspace>>"@.is_prefix_of(line)
            || "destroyworkspace>>"@.is_prefix_of(line)
            || "monitoradded>>"@.is_prefix_of(line)
            || "monitorremoved>>"@.is_prefix_of(line),
    ensures
        is_refresh_event(line),
        after_event(st, line, report) == (StateModel {
            history: refreshed_history(st.history, report),
            session: None,
        }),
        forall|i: int|
            #![trigger report[i]]
            0 <= i < report.len() ==> exists|a: int|
                0 <= a < after_event(st, line, report).history.len() && after_event(
                    st,
                    line,
                    report,
                ).history[a] == (EntryModel {
                    monitor: report[i].monitor,
                    workspace: report[i].workspace,
                }) && forall|b: int|
                    0 <= b < a ==> #[trigger] after_event(st, line, report).history[b].monitor
                        != report[i].monitor,
{
    let e = refresh_events();
    if "workspace>>"@.is_prefix_of(line) {
        assert(e[0] == "workspace>>"@);
    }
    if "focusedmon>>"@.is_prefix_of(line) {
        assert(e[1] == "focusedmon>>"@);
    }
    if "moveworkspace>>"@.is_prefix_of(line) {
        assert(e[2] == "moveworkspace>>"@);
    }
    if "renameworkspace>>"@.is_prefix_of(line) {
        assert(e[3] == "renameworkspace>>"@);
    }
    if "createworkspace>>"@.is_prefix_of(line) {
        assert(e[4] == "createworkspace>>"@);
    }
    if "destroyworkspace>>"@.is_prefix_of(line) {
        assert(e[5] == "destroyworkspace>>"@);
    }
    if "monitoradded>>"@.is_prefix_of(line) {
        assert(e[6] == "monitoradded>>"@);
    }
    if "monitorremoved>>"@.is_prefix_of(line) {
        assert(e[7] == "monitorremoved>>"@);
    }
    let after = after_event(st, line, report);
    let h = refreshed_history(st.history, report);
    lemma_refresh_records_report(st.history, report);
    assert(after.history == h);
    assert forall|i: int| #![trigger report[i]] 0 <= i < report.len() implies exists|a: int|
        0 <= a < after.history.len() && after.history[a] == (EntryModel {
            monitor: report[i].monitor,
            workspace: report[i].workspace,
        }) && forall|b: int| 0 <= b < a ==> #[trigger] after.history[b].monitor != report[i].monitor by {
        let r = report[i];
        let a = choose|a: int|
            0 <= a < h.len() && h[a] == (EntryModel { monitor: r.monitor, workspace: r.workspace })
                && forall|b: int| 0 <= b < a ==> #[trigger] h[b].monitor != r.monitor;
        assert forall|b: int| 0 <= b < a implies #[trigger] after.history[b].monitor != r.monitor by {
            assert(h[b].monitor != r.monitor);
        }
    }
}

/// A line that starts with none of the eight event names, or any line
/// during a session, changes nothing and is not to be saved.
pub proof fn lemma_other_lines_change_nothing(
    st: StateModel,
    line: Seq<char>,
    report: Seq<SnapshotModel>,
)
    requires
        st.session is Some || !("workspace>>"@.is_prefix_of(line)
            || "focusedmon>>"@.is_prefix_of(line)
            || "moveworkspace>>"@.is_prefix_of(line)
            || "renameworkspace>>"@.is_prefix_of(line)
            || "createworkspace>>"@.is_prefix_of(line)
            || "destroyworkspace>>"@.is_prefix_of(line)
            || "monitoradded>>"@.is_prefix_of(line)
            || "monitorremoved>>"@.is_prefix_of(line)),
    ensures
        !(is_refresh_event(line) && st.session is None),
        after_event(st, line, report) == st,
{
    let e = refresh_events();
    if st.session is None {
        assert(e[0] == "workspace>>"@);
        assert(e[1] == "focusedmon>>"@);
        assert(e[2] == "moveworkspace>>"@);
        assert(e[3] == "renameworkspace>>"@);
        assert(e[4] == "createworkspace>>"@);
        assert(e[5] == "destroyworkspace>>"@);
        assert(e[6] == "monitoradded>>"@);
        assert(e[7] == "monitorremoved>>"@);
        assert forall|i: int| 0 <= i < e.len() implies !(#[trigger] e[i]).is_prefix_of(line) by {}
    }
}

/// The argument of `hyprctl dispatch workspace` that selects a workspace:
/// numeric names and names already marked with `name:` as they are, any
/// other name marked with `name:`.
pub open spec fn dispatch_arg(workspace: Seq<char>) -> Seq<char> {
    if i64_value(workspace) is Some || "name:"@.is_prefix_of(workspace) {
        workspace
    } else {
        "name:"@ + workspace
    }
}

/// The argument of `hyprctl dispatch workspace` that selects `workspace`.
pub fn workspace_dispatch_arg(workspace: &str) -> (r: String)
    ensures
        r@ == dispatch_arg(workspace@),
{
    if parse_i64(workspace).is_some() || has_prefix(workspace, "name:") {
        String::from_str(workspace)
    } else {
        let mut arg = String::from_str("name:");
        arg.append(workspace);
        arg
    }
}

/// The `hyprctl` invocations, in order, that focus `monitor` and show
/// `workspace` on it.
pub open spec fn focus_commands(monitor: Seq<char>, workspace: Seq<char>) -> Seq<Seq<Seq<char>>> {
    seq![
        seq!["dispatch"@, "focusmonitor"@, monitor],
        seq!["dispatch"@, "workspace"@, dispatch_arg(workspace)],
    ]
}

/// The model of a list of argument lists.
pub open spec fn commands_model(v: Seq<Vec<String>>) -> Seq<Seq<Seq<char>>> {
    v.map_values(|args: Vec<String>| args@.map_values(|a: String| a@))
}

/// The arguments of the `hyprctl` calls that focus `monitor` and show
/// `workspace` on it; they are run in order, and a failure stops them.
pub fn focus_workspace_on_monitor(monitor: &str, workspace: &str) -> (r: Vec<Vec<String>>)
    ensures
        commands_model(r@) == focus_commands(monitor@, workspace@),
{
    let mut focus: Vec<String> = Vec::new();
    focus.push(String::from_str("dispatch"));
    focus.push(String::from_str("focusmonitor"));
    focus.push(String::from_str(monitor));
    let mut show: Vec<String> = Vec::new();
    show.push(String::from_str("dispatch"));
    show.push(String::from_str("workspace"));
    show.push(workspace_dispatch_arg(workspace));
    let mut commands: Vec<Vec<String>> = Vec::new();
    commands.push(focus);
    commands.push(show);
    let ghost c = focus_commands(monitor@, workspace@);
    assert(commands@[0]@.map_values(|a: String| a@) =~= c[0]);
    assert(commands@[1]@.map_values(|a: String| a@) =~= c[1]);
    assert(commands_model(commands@) =~= c);
    commands
}

/// A request to the daemon's command socket.
#[derive(Clone, Copy, Debug, PartialEq, Eq, Structural)]
pub enum Request {
    Cycle(Direction),
    Commit,
    Cancel,
    History,
}

/// The text that carries a request.
pub open spec fn request_spelling(request: Request) -> Seq<char> {
    match request {
        Request::Cycle(Direction::Next) => "cycle Next"@,
        Request::Cycle(Direction::Prev) => "cycle Prev"@,
        Request::Commit => "commit"@,
        Request::Cancel => "cancel"@,
        Request::History => "history"@,
    }
}

/// The request that a text names once trimmed, or the trimmed text when it
/// names none.
pub open spec fn parsed_request(text: Seq<char>) -> Result<Request, Seq<char>> {
    let t = trimmed(text);
    if t == "cycle Next"@ {
        Ok(Request::Cycle(Direction::Next))
    } else if t == "cycle Prev"@ {
        Ok(Request::Cycle(Direction::Prev))
    } else if t == "commit"@ {
        Ok(Request::Commit)
    } else if t == "cancel"@ {
        Ok(Request::Cancel)
    } else if t == "history"@ {
        Ok(Request::History)
    } else {
        Err(t)
    }
}

/// The text a client sends for a request.
pub fn request_text(request: Request) -> (r: String)
    ensures
        r@ == request_spelling(request),
{
    match request {
        Request::Cycle(Direction::Next) => String::from_str("cycle Next"),
        Request::Cycle(Direction::Prev) => String::from_str("cycle Prev"),
        Request::Commit => String::from_str("commit"),
        Request::Cancel => String::from_str("cancel"),
        Request::History => String::from_str("history"),
    }
}

/// Reads a request from the text a client sent; an unknown request comes
/// back as its trimmed text.
pub fn parse_request(text: &str) -> (r: Result<Request, String>)
    ensures
        match parsed_request(text@) {
            Ok(request) => r == Ok::<Request, String>(request),
            Err(t) => r is Err && r->Err_0@ == t,
        },
{
    let t = trim(text);
    if t == String::from_str("cycle Next") {
        Ok(Request::Cycle(Direction::Next))
    } else if t == String::from_str("cycle Prev") {
        Ok(Request::Cycle(Direction::Prev))
    } else if t == String::from_str("commit") {
        Ok(Request::Commit)
    } else if t == String::from_str("cancel") {
        Ok(Request::Cancel)
    } else if t == String::from_str("history") {
        Ok(Request::History)
    } else {
        Err(t)
    }
}


proof fn lemma_trimmed_plain(s: Seq<char>)
    requires
        s.len() > 0,
        !is_white_space(s[0]),
        !is_white_space(s.last()),
    ensures
        trimmed(s) == s,
{
}

/// The daemon reads back every request a client sends.
pub proof fn lemma_request_round_trip(request: Request)
    ensures
        parsed_request(request_spelling(request)) == Ok::<Request, Seq<char>>(request),
{
    reveal_strlit("cycle Next");
    reveal_strlit("cycle Prev");
    reveal_strlit("commit");
    reveal_strlit("cancel");
    reveal_strlit("history");
    let t = request_spelling(request);
    lemma_trimmed_plain(t);
    assert("cycle Next"@[6] != "cycle Prev"@[6]);
    assert("commit"@[1] != "cancel"@[1]);
    assert("cycle Next"@.len() != "commit"@.len());
    assert("cycle Next"@.len() != "history"@.len());
    assert("cycle Prev"@.len() != "commit"@.len());
    assert("cycle Prev"@.len() != "history"@.len());
    assert("commit"@[0] != "history"@[0]);
    assert("cancel"@[0] != "history"@[0]);
}

/// The dispatch argument of a dispatch argument is itself: selecting a
/// workspace by an argument already made for it changes nothing.
pub proof fn lemma_dispatch_arg_idempotent(workspace: Seq<char>)
    ensures
        dispatch_arg(dispatch_arg(workspace)) == dispatch_arg(workspace),
{
    let arg = "name:"@ + workspace;
    assert("name:"@ =~= arg.subrange(0, "name:"@.len() as int));
}

} // verus!
