//! The daemon's state: the history, and the cycling session that freezes it
//! while older workspaces are previewed.

use vstd::prelude::*;
use vstd::arithmetic::div_mod::{lemma_add_mod_noop_right, lemma_mod_multiples_vanish, lemma_small_mod};
use crate::history::{
    EntryModel, HistoryEntry, history_for_monitor, history_model, lemma_filter_all_kept,
    lemma_workspaces_for_monitor, other_workspace, workspaces_for_monitor,
};
use crate::monitors::{
    MonitorSnapshot, SnapshotModel, distinct_monitors, lemma_refresh_records_report, record_pass,
    refreshed_history, snapshots_model,
};

verus! {

/// The direction in which a cycle moves through the frozen order.
#[derive(Clone, Copy, Debug, PartialEq, Eq, Structural)]
pub enum Direction {
    Next,
    Prev,
}

/// The step that a direction stands for.
pub open spec fn step_of(direction: Direction) -> int {
    match direction {
        Direction::Next => 1,
        Direction::Prev => -1,
    }
}

impl Direction {
    /// The step through the order: one forward or one back.
    pub fn increment(self) -> (r: isize)
        ensures
            r == step_of(self),
    {
        match self {
            Direction::Next => 1,
            Direction::Prev => -1,
        }
    }
}

/// The value of a cycling session.
pub struct SessionModel {
    pub monitor: Seq<char>,
    pub order: Seq<Seq<char>>,
    pub index: int,
    pub original_workspace: Seq<char>,
    pub saved_history: Seq<EntryModel>,
}

impl SessionModel {
    /// What every session satisfies: there is something to cycle through,
    /// the position lies in the order, and the order starts with the
    /// workspace that was shown when the session began.
    pub open spec fn wf(self) -> bool {
        &&& self.order.len() >= 2
        &&& 0 <= self.index < self.order.len()
        &&& self.order[0] == self.original_workspace
    }
}

/// A cycling session: the frozen order of one monitor's workspaces, the
/// position of the workspace previewed last, and the history saved when it
/// began.
pub struct CycleSession {
    monitor: String,
    order: Vec<String>,
    index: usize,
    original_workspace: String,
    saved_history: Vec<HistoryEntry>,
}

/// The model of a list of strings.
pub open spec fn strings_model(v: Seq<String>) -> Seq<Seq<char>> {
    v.map_values(|s: String| s@)
}

impl View for CycleSession {
    type V = SessionModel;

    closed spec fn view(&self) -> SessionModel {
        SessionModel {
            monitor: self.monitor@,
            order: strings_model(self.order@),
            index: self.index as int,
            original_workspace: self.original_workspace@,
            saved_history: history_model(self.saved_history@),
        }
    }
}

impl CycleSession {
    #[verifier::type_invariant]
    spec fn session_invariant(self) -> bool {
        self@.wf()
    }

    /// The monitor whose workspaces are being cycled.
    pub fn monitor(&self) -> (r: &String)
        ensures
            r@ == self@.monitor,
    {
        &self.monitor
    }

    /// The frozen order of workspaces.
    pub fn order(&self) -> (r: &Vec<String>)
        ensures
            strings_model(r@) == self@.order,
    {
        &self.order
    }

    /// The position in the order of the workspace previewed last.
    pub fn index(&self) -> (r: usize)
        ensures
            r == self@.index,
    {
        self.index
    }

    /// The workspace that was shown when the session began.
    pub fn original_workspace(&self) -> (r: &String)
        ensures
            r@ == self@.original_workspace,
    {
        &self.original_workspace
    }

    /// The history as it was when the session began.
    pub fn saved_history(&self) -> (r: &Vec<HistoryEntry>)
        ensures
            history_model(r@) == self@.saved_history,
    {
        &self.saved_history
    }
}

/// The value of the daemon's state.
pub struct StateModel {
    pub history: Seq<EntryModel>,
    pub session: Option<SessionModel>,
}

/// The daemon's state.
pub struct State {
    pub history: Vec<HistoryEntry>,
    pub session: Option<CycleSession>,
}

impl View for State {
    type V = StateModel;

    open spec fn view(&self) -> StateModel {
        StateModel {
            history: history_model(self.history@),
            session: match self.session {
                Some(s) => Some(s@),
                None => None,
            },
        }
    }
}

/// A copy of a history.
pub fn copy_history(history: &Vec<HistoryEntry>) -> (r: Vec<HistoryEntry>)
    ensures
        history_model(r@) == history_model(history@),
{
    let mut copy: Vec<HistoryEntry> = Vec::new();
    let mut i: usize = 0;
    while i < history.len()
        invariant
            i <= history@.len(),
            history_model(copy@) == history_model(history@).take(i as int),
        decreases history@.len() - i,
    {
        let ghost before = copy@;
        copy.push(history[i].duplicate());
        assert(history_model(copy@) =~= history_model(before).push(history@[i as int]@));
        assert(history_model(history@).take(i + 1) =~= history_model(history@).take(i as int).push(
            history@[i as int]@,
        ));
        i = i + 1;
    }
    assert(history_model(history@).take(history@.len() as int) =~= history_model(history@));
    copy
}

impl State {
    /// A state with the given history and no cycling session.
    pub fn new(history: Vec<HistoryEntry>) -> (r: State)
        ensures
            r@ == (StateModel { history: history_model(history@), session: None }),
    {
        State { history, session: None }
    }

    /// Whether a cycling session is under way.
    pub fn session_active(&self) -> (r: bool)
        ensures
            r == (self@.session is Some),
    {
        self.session.is_some()
    }
}

/// Records a monitor report into the history; a session, if any, stays.
pub fn refresh_history(state: &mut State, snapshots: &[MonitorSnapshot])
    ensures
        final(state)@ == (StateModel {
            history: refreshed_history(old(state)@.history, snapshots_model(snapshots@)),
            session: old(state)@.session,
        }),
{
    record_pass(&mut state.history, snapshots, false);
    record_pass(&mut state.history, snapshots, true);
}


/// Why a request could not be served from Hyprland's report.
#[derive(Clone, Copy, Debug, PartialEq, Eq, Structural)]
pub enum QueryError {
    /// Hyprland's monitor report could not be had.
    MonitorsUnavailable,
    /// Hyprland reported no monitor at all.
    NoMonitors,
}

/// What a cycle request answers.
pub enum CycleReply {
    /// The workspace to show now on the monitor.
    Preview { monitor: String, workspace: String },
    /// The monitor has no other workspace to cycle to.
    NoPreviousHistory { monitor: String },
}

/// The value of a [`CycleReply`].
pub enum CycleReplyModel {
    Preview { monitor: Seq<char>, workspace: Seq<char> },
    NoPreviousHistory { monitor: Seq<char> },
}

impl View for CycleReply {
    type V = CycleReplyModel;

    open spec fn view(&self) -> CycleReplyModel {
        match self {
            CycleReply::Preview { monitor, workspace } => CycleReplyModel::Preview {
                monitor: monitor@,
                workspace: workspace@,
            },
            CycleReply::NoPreviousHistory { monitor } => CycleReplyModel::NoPreviousHistory {
                monitor: monitor@,
            },
        }
    }
}

/// The value of a cycle's result.
pub open spec fn cycle_result_model(r: Result<CycleReply, QueryError>) -> Result<
    CycleReplyModel,
    QueryError,
> {
    match r {
        Ok(reply) => Ok(reply@),
        Err(e) => Err(e),
    }
}

/// The value of a report that may be missing.
pub open spec fn report_model(r: Option<&[MonitorSnapshot]>) -> Option<Seq<SnapshotModel>> {
    match r {
        Some(s) => Some(snapshots_model(s@)),
        None => None,
    }
}

/// The first snapshot of a focused monitor.
pub open spec fn first_focused(s: Seq<SnapshotModel>) -> Option<SnapshotModel>
    decreases s.len(),
{
    if s.len() == 0 {
        None
    } else if s[0].focused {
        Some(s[0])
    } else {
        first_focused(s.drop_first())
    }
}

/// The monitor a cycle starts on: the focused one, or else the first one
/// reported.
pub open spec fn current_snapshot(s: Seq<SnapshotModel>) -> Option<SnapshotModel> {
    match first_focused(s) {
        Some(x) => Some(x),
        None => if s.len() > 0 {
            Some(s[0])
        } else {
            None
        },
    }
}

/// The order a session cycles through: the shown workspace first, then the
/// monitor's other workspaces, most recent first.
pub open spec fn cycle_order(h: Seq<EntryModel>, monitor: Seq<char>, workspace: Seq<char>) -> Seq<
    Seq<char>,
> {
    seq![workspace] + workspaces_for_monitor(h, monitor).filter(other_workspace(workspace))
}

/// The session that a cycle starts from the history `h` on the monitor shown
/// by `current`: it previews the second workspace of its order, the
/// monitor's most recent one other than the shown one.
pub open spec fn started_session(h: Seq<EntryModel>, current: SnapshotModel) -> SessionModel {
    SessionModel {
        monitor: current.monitor,
        order: cycle_order(h, current.monitor, current.workspace),
        index: 1,
        original_workspace: current.workspace,
        saved_history: h,
    }
}

/// A position moved one step in a direction, wrapping around an order of
/// length `len`.
pub open spec fn advanced_index(index: int, len: int, direction: Direction) -> int {
    (index + step_of(direction)) % len
}

/// A session after its position moved one step.
pub open spec fn stepped(s: SessionModel, direction: Direction) -> SessionModel {
    SessionModel { index: advanced_index(s.index, s.order.len() as int, direction), ..s }
}

/// The preview a session shows at its current position.
pub open spec fn preview_of(s: SessionModel) -> CycleReplyModel {
    CycleReplyModel::Preview { monitor: s.monitor, workspace: s.order[s.index] }
}

/// A cycle request: with a session under way, move its position one step
/// and preview the workspace there; otherwise record `refreshed` into the
/// history, pick the current monitor from `current` and, if it has another
/// workspace to go to, start a session on it that previews the monitor's
/// most recent other workspace, whichever the direction.
pub open spec fn cycled(
    st: StateModel,
    direction: Direction,
    refreshed: Option<Seq<SnapshotModel>>,
    current: Option<Seq<SnapshotModel>>,
) -> (StateModel, Result<CycleReplyModel, QueryError>) {
    match st.session {
        Some(s) => (
            StateModel { history: st.history, session: Some(stepped(s, direction)) },
            Ok(preview_of(stepped(s, direction))),
        ),
        None => match refreshed {
            None => (st, Err(QueryError::MonitorsUnavailable)),
            Some(a) => {
                let h = refreshed_history(st.history, a);
                let plain = StateModel { history: h, session: None };
                match current {
                    None => (plain, Err(QueryError::MonitorsUnavailable)),
                    Some(b) => match current_snapshot(b) {
                        None => (plain, Err(QueryError::NoMonitors)),
                        Some(c) => {
                            let s = started_session(h, c);
                            if s.order.len() < 2 {
                                (plain, Ok(CycleReplyModel::NoPreviousHistory { monitor: c.monitor }))
                            } else {
                                (StateModel { history: h, session: Some(s) }, Ok(preview_of(s)))
                            }
                        },
                    },
                }
            },
        },
    }
}

/// Moves a position one step, wrapping around.
pub fn advance(index: usize, len: usize, direction: Direction) -> (r: usize)
    requires
        index < len,
    ensures
        r == advanced_index(index as int, len as int, direction),
        r < len,
{
    match direction {
        Direction::Next => {
            if index + 1 == len {
                assert((index + 1) % (len as int) == 0) by (nonlinear_arith)
                    requires
                        index + 1 == len,
                        len > 0,
                ;
                0
            } else {
                assert((index + 1) % (len as int) == index + 1) by (nonlinear_arith)
                    requires
                        index + 1 < len,
                ;
                index + 1
            }
        },
        Direction::Prev => {
            if index == 0 {
                assert((index - 1) % (len as int) == len - 1) by (nonlinear_arith)
                    requires
                        index == 0,
                        len > 0,
                ;
                len - 1
            } else {
                assert((index - 1) % (len as int) == index - 1) by (nonlinear_arith)
                    requires
                        0 <= index - 1 < len,
                ;
                index - 1
            }
        },
    }
}

proof fn lemma_first_focused_skip(s: Seq<SnapshotModel>, i: int)
    requires
        0 <= i <= s.len(),
        forall|j: int| 0 <= j < i ==> !s[j].focused,
    ensures
        first_focused(s) == first_focused(s.skip(i)),
    decreases i,
{
    if i == 0 {
        assert(s.skip(0) =~= s);
    } else {
        assert(s.drop_first().skip(i - 1) =~= s.skip(i));
        assert forall|j: int| 0 <= j < i - 1 implies !s.drop_first()[j].focused by {
            assert(s.drop_first()[j] == s[j + 1]);
        }
        lemma_first_focused_skip(s.drop_first(), i - 1);
    }
}

/// The position in a report of the monitor a cycle starts on.
pub fn find_current_snapshot(snapshots: &[MonitorSnapshot]) -> (r: Option<usize>)
    ensures
        match r {
            Some(i) => i < snapshots@.len() && current_snapshot(snapshots_model(snapshots@)) == Some(
                snapshots@[i as int]@,
            ),
            None => current_snapshot(snapshots_model(snapshots@)) is None,
        },
{
    let ghost s = snapshots_model(snapshots@);
    let mut i: usize = 0;
    while i < snapshots.len() && !snapshots[i].focused
        invariant
            i <= snapshots@.len(),
            s == snapshots_model(snapshots@),
            forall|j: int| 0 <= j < i ==> !s[j].focused,
        decreases snapshots@.len() - i,
    {
        i = i + 1;
    }
    proof {
        lemma_first_focused_skip(s, i as int);
    }
    if i < snapshots.len() {
        Some(i)
    } else if snapshots.len() > 0 {
        Some(0)
    } else {
        None
    }
}

/// The order of a session that starts on `monitor` showing `workspace`.
pub fn build_cycle_order(history: &Vec<HistoryEntry>, monitor: &String, workspace: &String) -> (r:
    Vec<String>)
    ensures
        strings_model(r@) == cycle_order(history_model(history@), monitor@, workspace@),
{
    let ghost h = history_model(history@);
    let ghost listed = workspaces_for_monitor(h, monitor@);
    let ghost keep = other_workspace(workspace@);
    let order = history_for_monitor(history.as_slice(), monitor.as_str());
    proof {
        lemma_workspaces_for_monitor(h, monitor@);
    }
    if order.len() > 0 && order[0] == *workspace {
        proof {
            assert(listed[0] == workspace@);
            assert(listed =~= seq![workspace@] + listed.drop_first());
            listed.drop_first().lemma_filter_prepend(workspace@, keep);
            assert forall|i: int| 0 <= i < listed.drop_first().len() implies #[trigger] keep(
                listed.drop_first()[i],
            ) by {
                assert(listed.drop_first()[i] == listed[i + 1]);
            }
            lemma_filter_all_kept(listed.drop_first(), keep);
            assert(listed.filter(keep) =~= listed.drop_first());
        }
        return order;
    }
    let mut kept: Vec<String> = Vec::new();
    kept.push(workspace.clone());
    let mut i: usize = 0;
    while i < order.len()
        invariant
            i <= order@.len(),
            strings_model(order@) == listed,
            keep == other_workspace(workspace@),
            strings_model(kept@) == seq![workspace@] + listed.take(i as int).filter(keep),
        decreases order@.len() - i,
    {
        proof {
            listed.take(i as int).lemma_filter_push(listed[i as int], keep);
            assert(listed.take(i + 1) =~= listed.take(i as int).push(listed[i as int]));
        }
        if order[i] != *workspace {
            let ghost before = kept@;
            kept.push(order[i].clone());
            assert(strings_model(kept@) =~= strings_model(before).push(listed[i as int]));
        }
        i = i + 1;
    }
    assert(listed.take(order@.len() as int) =~= listed);
    kept
}

/// Handles a cycle request. `refreshed` and `current` are two successive
/// reports of Hyprland's monitors (`None` where it could not be had); they
/// are read only when no session is under way.
pub fn cycle(
    state: &mut State,
    direction: Direction,
    refreshed: Option<&[MonitorSnapshot]>,
    current: Option<&[MonitorSnapshot]>,
) -> (r: Result<CycleReply, QueryError>)
    ensures
        (final(state)@, cycle_result_model(r)) == cycled(
            old(state)@,
            direction,
            report_model(refreshed),
            report_model(current),
        ),
{
    if state.session.is_none() {
        let refreshed = match refreshed {
            Some(s) => s,
            None => return Err(QueryError::MonitorsUnavailable),
        };
        refresh_history(state, refreshed);
        let snapshots = match current {
            Some(s) => s,
            None => return Err(QueryError::MonitorsUnavailable),
        };
        let position = match find_current_snapshot(snapshots) {
            Some(i) => i,
            None => return Err(QueryError::NoMonitors),
        };
        let shown = &snapshots[position];
        let order = build_cycle_order(&state.history, &shown.monitor, &shown.workspace);
        if order.len() < 2 {
            return Ok(CycleReply::NoPreviousHistory { monitor: shown.monitor.clone() });
        }
        let saved_history = copy_history(&state.history);
        let workspace = order[1].clone();
        let monitor = shown.monitor.clone();
        state.session = Some(
            CycleSession {
                monitor: shown.monitor.clone(),
                order,
                index: 1,
                original_workspace: shown.workspace.clone(),
                saved_history,
            },
        );
        return Ok(CycleReply::Preview { monitor, workspace });
    }
    let mut session = state.session.take().unwrap();
    proof {
        use_type_invariant(&session);
    }
    let next = advance(session.index, session.order.len(), direction);
    session.index = next;
    let workspace = session.order[next].clone();
    let monitor = session.monitor.clone();
    state.session = Some(session);
    Ok(CycleReply::Preview { monitor, workspace })
}


/// The text of a cycle reply.
pub open spec fn cycle_message(reply: CycleReplyModel) -> Seq<char> {
    match reply {
        CycleReplyModel::Preview { monitor, workspace } => "preview monitor="@ + monitor
            + " workspace="@ + workspace,
        CycleReplyModel::NoPreviousHistory { monitor } => "monitor "@ + monitor
            + " has no previous workspace history"@,
    }
}

impl CycleReply {
    /// The text sent back to the client.
    pub fn message(&self) -> (r: String)
        ensures
            r@ == cycle_message(self@),
    {
        match self {
            CycleReply::Preview { monitor, workspace } => {
                let mut text = String::from_str("preview monitor=");
                text.append(monitor.as_str());
                text.append(" workspace=");
                text.append(workspace.as_str());
                text
            },
            CycleReply::NoPreviousHistory { monitor } => {
                let mut text = String::from_str("monitor ");
                text.append(monitor.as_str());
                text.append(" has no previous workspace history");
                text
            },
        }
    }
}

/// What a commit request answers.
#[derive(Clone, Copy, Debug, PartialEq, Eq, Structural)]
pub enum CommitReply {
    /// The session ended; the history went back to its saved state and then
    /// recorded the current report.
    Committed,
    /// No session was under way; the current report was recorded.
    NoSession,
}

impl CommitReply {
    /// The text sent back to the client.
    pub fn message(&self) -> (r: String)
        ensures
            r@ == (match self {
                CommitReply::Committed => "committed workspace history selection"@,
                CommitReply::NoSession => "no active cycle session"@,
            }),
    {
        match self {
            CommitReply::Committed => String::from_str("committed workspace history selection"),
            CommitReply::NoSession => String::from_str("no active cycle session"),
        }
    }
}

/// A commit request: a session under way ends and the history saved when it
/// began comes back; then Hyprland's current report is recorded.
pub open spec fn committed(st: StateModel, report: Option<Seq<SnapshotModel>>) -> (
    StateModel,
    Result<CommitReply, QueryError>,
) {
    let (base, reply) = match st.session {
        Some(s) => (s.saved_history, CommitReply::Committed),
        None => (st.history, CommitReply::NoSession),
    };
    match report {
        None => (StateModel { history: base, session: None }, Err(QueryError::MonitorsUnavailable)),
        Some(a) => (StateModel { history: refreshed_history(base, a), session: None }, Ok(reply)),
    }
}

/// Handles a commit request; `report` is Hyprland's current monitor report
/// (`None` where it could not be had).
pub fn commit(state: &mut State, report: Option<&[MonitorSnapshot]>) -> (r: Result<
    CommitReply,
    QueryError,
>)
    ensures
        (final(state)@, r) == committed(old(state)@, report_model(report)),
{
    let reply = match state.session.take() {
        Some(session) => {
            state.history = session.saved_history;
            CommitReply::Committed
        },
        None => CommitReply::NoSession,
    };
    match report {
        Some(snapshots) => {
            refresh_history(state, snapshots);
            Ok(reply)
        },
        None => Err(QueryError::MonitorsUnavailable),
    }
}

/// What a cancel request answers.
pub enum CancelReply {
    /// The session ended; `monitor` is to show `original_workspace` again.
    Cancelled { monitor: String, original_workspace: String },
    /// No session was under way.
    NoSession,
}

/// The value of a [`CancelReply`].
pub enum CancelReplyModel {
    Cancelled { monitor: Seq<char>, original_workspace: Seq<char> },
    NoSession,
}

impl View for CancelReply {
    type V = CancelReplyModel;

    open spec fn view(&self) -> CancelReplyModel {
        match self {
            CancelReply::Cancelled { monitor, original_workspace } => CancelReplyModel::Cancelled {
                monitor: monitor@,
                original_workspace: original_workspace@,
            },
            CancelReply::NoSession => CancelReplyModel::NoSession,
        }
    }
}

impl CancelReply {
    /// The text sent back to the client.
    pub fn message(&self) -> (r: String)
        ensures
            r@ == (match self@ {
                CancelReplyModel::Cancelled { .. } => "cancelled workspace history selection"@,
                CancelReplyModel::NoSession => "no active cycle session"@,
            }),
    {
        match self {
            CancelReply::Cancelled { .. } => String::from_str(
                "cancelled workspace history selection",
            ),
            CancelReply::NoSession => String::from_str("no active cycle session"),
        }
    }
}

/// A cancel request: a session under way ends, the history saved when it
/// began comes back, and its monitor is to show the workspace it started on.
pub open spec fn cancelled(st: StateModel) -> (StateModel, CancelReplyModel) {
    match st.session {
        Some(s) => (
            StateModel { history: s.saved_history, session: None },
            CancelReplyModel::Cancelled {
                monitor: s.monitor,
                original_workspace: s.original_workspace,
            },
        ),
        None => (st, CancelReplyModel::NoSession),
    }
}

/// Handles a cancel request.
pub fn cancel(state: &mut State) -> (r: CancelReply)
    ensures
        (final(state)@, r@) == cancelled(old(state)@),
{
    match state.session.take() {
        Some(session) => {
            let CycleSession { monitor, original_workspace, saved_history, .. } = session;
            state.history = saved_history;
            CancelReply::Cancelled { monitor, original_workspace }
        },
        None => CancelReply::NoSession,
    }
}


/// The state the daemon starts in: the loaded history with Hyprland's first
/// report recorded, and no session.
pub fn run_daemon(history: Vec<HistoryEntry>, report: &[MonitorSnapshot]) -> (r: State)
    ensures
        r@ == (StateModel {
            history: refreshed_history(history_model(history@), snapshots_model(report@)),
            session: None,
        }),
{
    let mut state = State::new(history);
    refresh_history(&mut state, report);
    state
}

/// Moving one step back undoes moving one step on, and the other way round;
/// either keeps a session well formed.
pub proof fn lemma_step_undone(s: SessionModel)
    requires
        s.wf(),
    ensures
        stepped(s, Direction::Next).wf(),
        stepped(s, Direction::Prev).wf(),
        stepped(stepped(s, Direction::Next), Direction::Prev) == s,
        stepped(stepped(s, Direction::Prev), Direction::Next) == s,
{
    let n = s.order.len() as int;
    let i = s.index;
    lemma_add_mod_noop_right(-1, i + 1, n);
    lemma_add_mod_noop_right(1, i - 1, n);
    lemma_small_mod(i as nat, n as nat);
    assert(-1 + (i + 1) == i);
    assert(1 + (i - 1) == i);
    assert(0 <= (i + 1) % n < n) by (nonlinear_arith)
        requires
            n > 0,
    ;
    assert(0 <= (i - 1) % n < n) by (nonlinear_arith)
        requires
            n > 0,
    ;
}

/// A session after `k` steps in one direction.
pub open spec fn stepped_times(s: SessionModel, direction: Direction, k: nat) -> SessionModel
    decreases k,
{
    if k == 0 {
        s
    } else {
        stepped(stepped_times(s, direction, (k - 1) as nat), direction)
    }
}

proof fn lemma_stepped_times_index(s: SessionModel, direction: Direction, k: nat)
    requires
        s.wf(),
    ensures
        stepped_times(s, direction, k) == (SessionModel {
            index: (s.index + k * step_of(direction)) % (s.order.len() as int),
            ..s
        }),
    decreases k,
{
    let n = s.order.len() as int;
    if k == 0 {
        lemma_small_mod(s.index as nat, n as nat);
        assert(k * step_of(direction) == 0) by (nonlinear_arith)
            requires
                k == 0,
        ;
    } else {
        lemma_stepped_times_index(s, direction, (k - 1) as nat);
        let before = s.index + (k - 1) * step_of(direction);
        lemma_add_mod_noop_right(step_of(direction), before, n);
        let st = step_of(direction);
        assert(st + before == s.index + k * st) by (nonlinear_arith)
            requires
                before == s.index + (k - 1) * st,
        ;
    }
}

/// Cycling as many steps as the order is long, in either direction, comes
/// back to where it started.
pub proof fn lemma_full_round(s: SessionModel, direction: Direction)
    requires
        s.wf(),
    ensures
        stepped_times(s, direction, s.order.len()) == s,
{
    let n = s.order.len() as int;
    lemma_stepped_times_index(s, direction, s.order.len());
    lemma_mod_multiples_vanish(step_of(direction), s.index, n);
    lemma_small_mod(s.index as nat, n as nat);
    assert(s.index + n * step_of(direction) == n * step_of(direction) + s.index);
    assert(s.order.len() * step_of(direction) == n * step_of(direction));
}

/// The order a session cycles through holds each workspace once: the one
/// shown at the start, and the other workspaces recorded for the monitor.
pub proof fn lemma_cycle_order(h: Seq<EntryModel>, monitor: Seq<char>, workspace: Seq<char>)
    ensures
        cycle_order(h, monitor, workspace).no_duplicates(),
        cycle_order(h, monitor, workspace)[0] == workspace,
        forall|w: Seq<char>|
            #![trigger cycle_order(h, monitor, workspace).contains(w)]
            cycle_order(h, monitor, workspace).contains(w) <==> (w == workspace || exists|i: int|
                0 <= i < h.len() && h[i] == (EntryModel { monitor, workspace: w })),
{
    let listed = workspaces_for_monitor(h, monitor);
    let keep = other_workspace(workspace);
    let rest = listed.filter(keep);
    let order = cycle_order(h, monitor, workspace);
    lemma_workspaces_for_monitor(h, monitor);
    crate::history::lemma_filter_no_duplicates(listed, keep);
    assert forall|i: int, j: int| 0 <= i < order.len() && 0 <= j < order.len() && i != j implies order[i]
        != order[j] by {
        if i == 0 {
            listed.lemma_filter_pred(keep, j - 1);
        } else if j == 0 {
            listed.lemma_filter_pred(keep, i - 1);
        } else {
            assert(order[i] == rest[i - 1] && order[j] == rest[j - 1]);
        }
    }
    assert forall|w: Seq<char>| #[trigger] order.contains(w) <==> (w == workspace || exists|i: int|
        0 <= i < h.len() && h[i] == (EntryModel { monitor, workspace: w })) by {
        if order.contains(w) && w != workspace {
            let k = choose|k: int| 0 <= k < order.len() && order[k] == w;
            assert(k > 0);
            crate::history::lemma_filter_contains_source(listed, keep, k - 1);
            let i = choose|i: int| 0 <= i < listed.len() && listed[i] == rest[k - 1];
            assert(listed.contains(w));
        }
        if w == workspace {
            assert(order[0] == w);
        } else if exists|i: int| 0 <= i < h.len() && h[i] == (EntryModel { monitor, workspace: w }) {
            assert(listed.contains(w));
            let i = choose|i: int| 0 <= i < listed.len() && listed[i] == w;
            listed.lemma_filter_contains(keep, i);
            let k = choose|k: int| 0 <= k < rest.len() && rest[k] == w;
            assert(order[k + 1] == w);
        }
    }
}

/// The first preview of a new session, in either direction, is the
/// monitor's most recent workspace other than the one it shows, never the
/// shown one itself; the session then stands at that preview.
pub proof fn lemma_first_preview(
    st: StateModel,
    direction: Direction,
    refreshed: Seq<SnapshotModel>,
    current: Seq<SnapshotModel>,
)
    requires
        st.session is None,
        cycled(st, direction, Some(refreshed), Some(current)).1 is Ok,
        cycled(st, direction, Some(refreshed), Some(current)).1->Ok_0 is Preview,
    ensures
        ({
            let (after, reply) = cycled(st, direction, Some(refreshed), Some(current));
            let c = current_snapshot(current)->Some_0;
            let h = refreshed_history(st.history, refreshed);
            let others = workspaces_for_monitor(h, c.monitor).filter(other_workspace(c.workspace));
            let shown = reply->Ok_0->Preview_workspace;
            &&& shown != c.workspace
            &&& shown == others[0]
            &&& after.session is Some
            &&& shown == after.session->Some_0.order[after.session->Some_0.index]
        }),
{
    let c = current_snapshot(current)->Some_0;
    let h = refreshed_history(st.history, refreshed);
    let listed = workspaces_for_monitor(h, c.monitor);
    listed.lemma_filter_pred(other_workspace(c.workspace), 0);
}

/// Every cycle request that previews previews the workspace at the position
/// where the session then stands; the next request going on previews the
/// workspace after it, and one going back the workspace before it, wrapping
/// around the order.
pub proof fn lemma_cycle_steps_from_last_preview(st: StateModel, direction: Direction)
    requires
        st.session is Some,
        st.session->Some_0.wf(),
    ensures
        ({
            let s = st.session->Some_0;
            let n = s.order.len() as int;
            let (after, reply) = cycled(st, direction, None, None);
            &&& after.session is Some
            &&& after.session->Some_0.wf()
            &&& reply == Ok::<CycleReplyModel, QueryError>(
                preview_of(after.session->Some_0),
            )
            &&& direction == Direction::Next ==> after.session->Some_0.index == (s.index + 1) % n
            &&& direction == Direction::Prev ==> after.session->Some_0.index == (s.index + n - 1)
                % n
        }),
{
    let s = st.session->Some_0;
    let n = s.order.len() as int;
    lemma_step_undone(s);
    lemma_mod_multiples_vanish(1, s.index - 1, n);
    assert(n * 1 + (s.index - 1) == s.index + n - 1);
}

/// Cycle requests made while a session is under way, in order.
pub open spec fn cycled_on(st: StateModel, directions: Seq<Direction>) -> StateModel
    decreases directions.len(),
{
    if directions.len() == 0 {
        st
    } else {
        cycled(cycled_on(st, directions.drop_last()), directions.last(), None, None).0
    }
}

proof fn lemma_cycled_on_keeps(st: StateModel, directions: Seq<Direction>)
    requires
        st.session is Some,
        st.session->Some_0.wf(),
    ensures
        ({
            let after = cycled_on(st, directions);
            let s0 = st.session->Some_0;
            &&& after.history == st.history
            &&& after.session is Some
            &&& after.session->Some_0.wf()
            &&& after.session->Some_0.monitor == s0.monitor
            &&& after.session->Some_0.order == s0.order
            &&& after.session->Some_0.original_workspace == s0.original_workspace
            &&& after.session->Some_0.saved_history == s0.saved_history
        }),
    decreases directions.len(),
{
    if directions.len() > 0 {
        lemma_cycled_on_keeps(st, directions.drop_last());
        lemma_step_undone(cycled_on(st, directions.drop_last()).session->Some_0);
    }
}

/// Cancelling a session, after any number of previews, brings back the
/// history as it was when the session began, and asks to show again the
/// workspace that was shown then.
pub proof fn lemma_cancel_restores(
    st: StateModel,
    direction: Direction,
    refreshed: Seq<SnapshotModel>,
    current: Seq<SnapshotModel>,
    directions: Seq<Direction>,
)
    requires
        st.session is None,
        cycled(st, direction, Some(refreshed), Some(current)).0.session is Some,
    ensures
        ({
            let started = cycled(st, direction, Some(refreshed), Some(current)).0;
            let (after, reply) = cancelled(cycled_on(started, directions));
            let c = current_snapshot(current)->Some_0;
            &&& after == (StateModel {
                history: refreshed_history(st.history, refreshed),
                session: None,
            })
            &&& reply == (CancelReplyModel::Cancelled {
                monitor: c.monitor,
                original_workspace: c.workspace,
            })
        }),
{
    let started = cycled(st, direction, Some(refreshed), Some(current)).0;
    let c = current_snapshot(current)->Some_0;
    let h = refreshed_history(st.history, refreshed);
    lemma_cycle_order(h, c.monitor, c.workspace);
    let s = started_session(h, c);
    lemma_step_undone(s);
    lemma_cycled_on_keeps(started, directions);
}

/// Committing a session, after any number of previews, records Hyprland's
/// report once into the history as it was when the session began: the
/// previews leave no trace of their own.
pub proof fn lemma_commit_records_once(
    st: StateModel,
    direction: Direction,
    refreshed: Seq<SnapshotModel>,
    current: Seq<SnapshotModel>,
    directions: Seq<Direction>,
    report: Seq<SnapshotModel>,
)
    requires
        st.session is None,
        cycled(st, direction, Some(refreshed), Some(current)).0.session is Some,
    ensures
        ({
            let started = cycled(st, direction, Some(refreshed), Some(current)).0;
            committed(cycled_on(started, directions), Some(report)) == (
                StateModel {
                    history: refreshed_history(refreshed_history(st.history, refreshed), report),
                    session: None,
                },
                Ok::<CommitReply, QueryError>(CommitReply::Committed),
            )
        }),
{
    let started = cycled(st, direction, Some(refreshed), Some(current)).0;
    let c = current_snapshot(current)->Some_0;
    let h = refreshed_history(st.history, refreshed);
    lemma_cycle_order(h, c.monitor, c.workspace);
    lemma_step_undone(started_session(h, c));
    lemma_cycled_on_keeps(started, directions);
}

/// A run of `count` cycle requests going on.
pub open spec fn nexts(count: nat) -> Seq<Direction> {
    Seq::new(count, |i: int| Direction::Next)
}

proof fn lemma_cycled_on_nexts(st: StateModel, count: nat)
    requires
        st.session is Some,
    ensures
        cycled_on(st, nexts(count)) == (StateModel {
            history: st.history,
            session: Some(stepped_times(st.session->Some_0, Direction::Next, count)),
        }),
    decreases count,
{
    if count > 0 {
        assert(nexts(count).drop_last() =~= nexts((count - 1) as nat));
        lemma_cycled_on_nexts(st, (count - 1) as nat);
    }
}

/// Going on through a session, the `k`-th cycle request (the one that
/// started the session being the first) previews the workspace at position
/// `k` modulo the length of the order; so the request after one full round
/// comes back to the workspace the session started from.
pub proof fn lemma_kth_next_preview(
    st: StateModel,
    refreshed: Seq<SnapshotModel>,
    current: Seq<SnapshotModel>,
    k: nat,
)
    requires
        st.session is None,
        cycled(st, Direction::Next, Some(refreshed), Some(current)).0.session is Some,
        k >= 1,
    ensures
        ({
            let (started, first_reply) = cycled(st, Direction::Next, Some(refreshed), Some(current));
            let s = started.session->Some_0;
            let reply = if k == 1 {
                first_reply
            } else {
                cycled(cycled_on(started, nexts((k - 2) as nat)), Direction::Next, None, None).1
            };
            &&& reply == Ok::<CycleReplyModel, QueryError>(
                CycleReplyModel::Preview { monitor: s.monitor, workspace: s.order[(k % s.order.len()) as int] },
            )
            &&& k % s.order.len() == 0 ==> s.order[0] == s.original_workspace
        }),
{
    let started = cycled(st, Direction::Next, Some(refreshed), Some(current)).0;
    let c = current_snapshot(current)->Some_0;
    let h = refreshed_history(st.history, refreshed);
    let s0 = started_session(h, c);
    lemma_cycle_order(h, c.monitor, c.workspace);
    lemma_step_undone(s0);
    let s = started.session->Some_0;
    let n = s.order.len() as int;
    lemma_small_mod(1, n as nat);
    lemma_small_mod(0, n as nat);
    if k >= 2 {
        let j = (k - 2) as nat;
        lemma_cycled_on_nexts(started, j);
        lemma_stepped_times_index(s, Direction::Next, j);
        assert(j * step_of(Direction::Next) == j) by (nonlinear_arith)
            requires
                step_of(Direction::Next) == 1,
        ;
        lemma_add_mod_noop_right(1, 1 + j as int, n);
        assert(1 + (1 + j) == k);
    }
}

/// While a session is under way the history is frozen: cycle requests
/// leave it as it is.
pub proof fn lemma_cycling_freezes_history(st: StateModel, directions: Seq<Direction>)
    requires
        st.session is Some,
        st.session->Some_0.wf(),
    ensures
        cycled_on(st, directions).history == st.history,
{
    lemma_cycled_on_keeps(st, directions);
}

/// A cycle that starts a session starts it on the first focused monitor of
/// the second report: the reply names that monitor, and a session started
/// is on that monitor and starts from the workspace it shows.
pub proof fn lemma_cycle_starts_on_first_focused(
    st: StateModel,
    direction: Direction,
    refreshed: Seq<SnapshotModel>,
    current: Seq<SnapshotModel>,
    i: int,
)
    requires
        st.session is None,
        0 <= i < current.len(),
        current[i].focused,
        forall|j: int| 0 <= j < i ==> !current[j].focused,
    ensures
        ({
            let (after, reply) = cycled(st, direction, Some(refreshed), Some(current));
            &&& reply is Ok
            &&& match reply->Ok_0 {
                CycleReplyModel::Preview { monitor, .. } => {
                    &&& monitor == current[i].monitor
                    &&& after.session is Some
                    &&& after.session->Some_0.monitor == current[i].monitor
                    &&& after.session->Some_0.original_workspace == current[i].workspace
                },
                CycleReplyModel::NoPreviousHistory { monitor } => {
                    &&& monitor == current[i].monitor
                    &&& after.session is None
                },
            }
        }),
{
    lemma_first_focused_skip(current, i);
    assert(current.skip(i)[0] == current[i]);
}

/// A cycle that starts a session on a report without a focused monitor
/// starts it on the report's first monitor.
pub proof fn lemma_cycle_without_focus_starts_on_first(
    st: StateModel,
    direction: Direction,
    refreshed: Seq<SnapshotModel>,
    current: Seq<SnapshotModel>,
)
    requires
        st.session is None,
        current.len() > 0,
        forall|j: int| 0 <= j < current.len() ==> !current[j].focused,
    ensures
        ({
            let (after, reply) = cycled(st, direction, Some(refreshed), Some(current));
            &&& reply is Ok
            &&& match reply->Ok_0 {
                CycleReplyModel::Preview { monitor, .. } => {
                    &&& monitor == current[0].monitor
                    &&& after.session is Some
                    &&& after.session->Some_0.monitor == current[0].monitor
                    &&& after.session->Some_0.original_workspace == current[0].workspace
                },
                CycleReplyModel::NoPreviousHistory { monitor } => {
                    &&& monitor == current[0].monitor
                    &&& after.session is None
                },
            }
        }),
{
    lemma_first_focused_skip(current, current.len() as int);
    assert(current.skip(current.len() as int).len() == 0);
}

/// A cycle that would start a session on an empty report answers that
/// there are no monitors, and starts nothing.
pub proof fn lemma_cycle_without_monitors(
    st: StateModel,
    direction: Direction,
    refreshed: Seq<SnapshotModel>,
    current: Seq<SnapshotModel>,
)
    requires
        st.session is None,
        current.len() == 0,
    ensures
        cycled(st, direction, Some(refreshed), Some(current)).1 == Err::<CycleReplyModel, QueryError>(
            QueryError::NoMonitors,
        ),
        cycled(st, direction, Some(refreshed), Some(current)).0.session is None,
{
}

/// A commit ends any session and records the report into the history it
/// starts from (the saved one if a session was under way, the current one
/// otherwise): the history then holds exactly the entries of that history
/// and those the report stands for, and each reported monitor's first entry
/// is the workspace it shows. Without a session, a commit is a refresh.
pub proof fn lemma_commit_records_report(st: StateModel, report: Seq<SnapshotModel>)
    requires
        distinct_monitors(report),
    ensures
        ({
            let (after, reply) = committed(st, Some(report));
            let base = match st.session {
                Some(s) => s.saved_history,
                None => st.history,
            };
            &&& after.session is None
            &&& reply == Ok::<CommitReply, QueryError>(
                if st.session is Some {
                    CommitReply::Committed
                } else {
                    CommitReply::NoSession
                },
            )
            &&& forall|x: EntryModel|
                #[trigger] after.history.contains(x) <==> (base.contains(x) || exists|i: int|
                    0 <= i < report.len() && x == (EntryModel {
                        monitor: report[i].monitor,
                        workspace: report[i].workspace,
                    }))
            &&& forall|i: int|
                #![trigger report[i]]
                0 <= i < report.len() ==> exists|a: int|
                    0 <= a < after.history.len() && after.history[a] == (EntryModel {
                        monitor: report[i].monitor,
                        workspace: report[i].workspace,
                    }) && forall|b: int|
                        0 <= b < a ==> #[trigger] after.history[b].monitor != report[i].monitor
            &&& st.session is None ==> after == (StateModel {
                history: refreshed_history(st.history, report),
                session: None,
            })
        }),
{
    let base = match st.session {
        Some(s) => s.saved_history,
        None => st.history,
    };
    let after = committed(st, Some(report)).0;
    let h = refreshed_history(base, report);
    lemma_refresh_records_report(base, report);
    assert(after.history == h);
    assert forall|x: EntryModel| #[trigger] after.history.contains(x) <==> (base.contains(x) || exists|i: int|
        0 <= i < report.len() && x == (EntryModel {
            monitor: report[i].monitor,
            workspace: report[i].workspace,
        })) by {
        assert(h.contains(x) == after.history.contains(x));
    }
    assert forall|i: int| #![trigger report[i]] 0 <= i < report.len() implies exists|a: int|
        0 <= a < after.history.len() && after.history[a] == (EntryModel {
            monitor: report[i].monitor,
            workspace: report[i].workspace,
        }) && forall|b: int| 0 <= b < a ==> #[trigger] after.history[b].monitor != report[i].monitor by {
        let e = report[i];
        let a = choose|a: int|
            0 <= a < h.len() && h[a] == (EntryModel { monitor: e.monitor, workspace: e.workspace })
                && forall|b: int| 0 <= b < a ==> #[trigger] h[b].monitor != e.monitor;
        assert forall|b: int| 0 <= b < a implies #[trigger] after.history[b].monitor != e.monitor by {
            assert(h[b].monitor != e.monitor);
        }
    }
}

/// A cancel request with no session under way changes nothing.
pub proof fn lemma_cancel_without_session(st: StateModel)
    requires
        st.session is None,
    ensures
        cancelled(st) == (st, CancelReplyModel::NoSession),
{
}

} // verus!
