//! What Hyprland reports about its monitors, and how a report is recorded
//! into the history.

use vstd::prelude::*;
use crate::history::{
    EntryModel, HistoryEntry, first_workspace, history_model, lemma_filter_all_kept,
    lemma_filter_contains_iff, lemma_filter_filter, lemma_filter_idempotent,
    lemma_filter_none_kept, lemma_first_workspace_explicit, lemma_update_contents, lemma_update_forced_to_front,
    lemma_update_keeps_filtered, lemma_update_keeps_other_monitors, lemma_update_no_duplicates,
    lemma_update_sets_first, other_than, update_last_for_monitor, updated_history,
};

verus! {

/// A workspace as Hyprland describes it.
pub struct HyprWorkspace {
    pub id: i64,
    pub name: String,
}

/// A monitor as Hyprland describes it.
pub struct HyprMonitor {
    pub name: String,
    pub focused: bool,
    pub active_workspace: HyprWorkspace,
}

/// The workspace a monitor currently shows, and whether it has focus.
pub struct MonitorSnapshot {
    pub monitor: String,
    pub workspace: String,
    pub focused: bool,
}

/// The mathematical value of a [`MonitorSnapshot`].
pub struct SnapshotModel {
    pub monitor: Seq<char>,
    pub workspace: Seq<char>,
    pub focused: bool,
}

impl View for MonitorSnapshot {
    type V = SnapshotModel;

    open spec fn view(&self) -> SnapshotModel {
        SnapshotModel { monitor: self.monitor@, workspace: self.workspace@, focused: self.focused }
    }
}

/// The model of a list of snapshots.
pub open spec fn snapshots_model(s: Seq<MonitorSnapshot>) -> Seq<SnapshotModel> {
    s.map_values(|x: MonitorSnapshot| x@)
}

/// Whether Hyprland's monitor shows a regular workspace (special workspaces
/// have ids that are not positive).
pub open spec fn shows_regular_workspace(m: HyprMonitor) -> bool {
    m.active_workspace.id > 0
}

/// The snapshot that a monitor report stands for.
pub open spec fn snapshot_of(m: HyprMonitor) -> SnapshotModel {
    SnapshotModel {
        monitor: m.name@,
        workspace: m.active_workspace.name@,
        focused: m.focused,
    }
}

/// The snapshots of the monitors that show a regular workspace, in order.
pub open spec fn regular_snapshots(monitors: Seq<HyprMonitor>) -> Seq<SnapshotModel> {
    monitors.filter(regular_monitor()).map_values(as_snapshot())
}

/// The predicate of monitors that show a regular workspace.
pub open spec fn regular_monitor() -> spec_fn(HyprMonitor) -> bool {
    |m: HyprMonitor| shows_regular_workspace(m)
}

/// The map from a monitor to its snapshot.
pub open spec fn as_snapshot() -> spec_fn(HyprMonitor) -> SnapshotModel {
    |m: HyprMonitor| snapshot_of(m)
}

/// Turns Hyprland's monitor report into snapshots, leaving out monitors that
/// show a special workspace.
pub fn monitor_snapshots(monitors: Vec<HyprMonitor>) -> (r: Vec<MonitorSnapshot>)
    ensures
        snapshots_model(r@) == regular_snapshots(monitors@),
{
    let ghost keep = regular_monitor();
    let ghost to_snapshot = as_snapshot();
    let mut snapshots: Vec<MonitorSnapshot> = Vec::new();
    let mut i: usize = 0;
    while i < monitors.len()
        invariant
            i <= monitors@.len(),
            keep == regular_monitor(),
            to_snapshot == as_snapshot(),
            snapshots_model(snapshots@) == monitors@.take(i as int).filter(keep).map_values(
                to_snapshot,
            ),
        decreases monitors@.len() - i,
    {
        let monitor = &monitors[i];
        proof {
            monitors@.take(i as int).lemma_filter_push(monitors@[i as int], keep);
            assert(monitors@.take(i + 1) =~= monitors@.take(i as int).push(monitors@[i as int]));
        }
        if monitor.active_workspace.id > 0 {
            let ghost before = snapshots@;
            snapshots.push(
                MonitorSnapshot {
                    monitor: monitor.name.clone(),
                    workspace: monitor.active_workspace.name.clone(),
                    focused: monitor.focused,
                },
            );
            assert(snapshots_model(snapshots@) =~= snapshots_model(before).push(
                snapshot_of(monitors@[i as int]),
            ));
            assert(monitors@.take(i as int).filter(keep).push(monitors@[i as int]).map_values(
                to_snapshot,
            ) =~= monitors@.take(i as int).filter(keep).map_values(to_snapshot).push(
                snapshot_of(monitors@[i as int]),
            ));
        }
        i = i + 1;
    }
    assert(monitors@.take(monitors@.len() as int) =~= monitors@);
    snapshots
}

/// One pass over a report: every snapshot whose focus flag is `focused` is
/// recorded in turn, forced to the front when `focused` holds.
pub open spec fn recorded_pass(
    h: Seq<EntryModel>,
    snapshots: Seq<SnapshotModel>,
    focused: bool,
) -> Seq<EntryModel>
    decreases snapshots.len(),
{
    if snapshots.len() == 0 {
        h
    } else {
        let before = recorded_pass(h, snapshots.drop_last(), focused);
        let s = snapshots.last();
        if s.focused == focused {
            updated_history(before, s.monitor, s.workspace, focused)
        } else {
            before
        }
    }
}

/// The history after recording a report: first the monitors without focus,
/// then the focused ones, which end up at the front.
pub open spec fn refreshed_history(h: Seq<EntryModel>, snapshots: Seq<SnapshotModel>) -> Seq<
    EntryModel,
> {
    recorded_pass(recorded_pass(h, snapshots, false), snapshots, true)
}

/// Records, in order, each snapshot whose focus flag is `focused`.
pub fn record_pass(history: &mut Vec<HistoryEntry>, snapshots: &[MonitorSnapshot], focused: bool)
    ensures
        history_model(final(history)@) == recorded_pass(
            history_model(old(history)@),
            snapshots_model(snapshots@),
            focused,
        ),
{
    let ghost h0 = history_model(history@);
    let ghost s = snapshots_model(snapshots@);
    let mut i: usize = 0;
    while i < snapshots.len()
        invariant
            i <= snapshots@.len(),
            s == snapshots_model(snapshots@),
            history_model(history@) == recorded_pass(h0, s.take(i as int), focused),
        decreases snapshots@.len() - i,
    {
        let snapshot = &snapshots[i];
        assert(s.take(i + 1).drop_last() =~= s.take(i as int));
        if snapshot.focused == focused {
            update_last_for_monitor(
                history,
                snapshot.monitor.as_str(),
                snapshot.workspace.as_str(),
                focused,
            );
        }
        i = i + 1;
    }
    assert(s.take(snapshots@.len() as int) =~= s);
}


/// No two snapshots of a report name the same monitor.
pub open spec fn distinct_monitors(s: Seq<SnapshotModel>) -> bool {
    forall|i: int, j: int| 0 <= i < j < s.len() ==> s[i].monitor != s[j].monitor
}

proof fn lemma_pass_keeps_other(
    h: Seq<EntryModel>,
    s: Seq<SnapshotModel>,
    focused: bool,
    monitor: Seq<char>,
)
    requires
        forall|i: int| 0 <= i < s.len() && s[i].focused == focused ==> s[i].monitor != monitor,
    ensures
        first_workspace(recorded_pass(h, s, focused), monitor) == first_workspace(h, monitor),
    decreases s.len(),
{
    if s.len() > 0 {
        let front = s.drop_last();
        assert forall|i: int| 0 <= i < front.len() && front[i].focused == focused implies front[i].monitor
            != monitor by {
            assert(front[i] == s[i]);
        }
        lemma_pass_keeps_other(h, front, focused, monitor);
        let last = s.last();
        if last.focused == focused {
            assert(s[s.len() - 1] == last);
            lemma_update_keeps_other_monitors(
                recorded_pass(h, front, focused),
                last.monitor,
                last.workspace,
                focused,
                monitor,
            );
        }
    }
}

proof fn lemma_pass_records(h: Seq<EntryModel>, s: Seq<SnapshotModel>, focused: bool, i: int)
    requires
        distinct_monitors(s),
        0 <= i < s.len(),
        s[i].focused == focused,
    ensures
        first_workspace(recorded_pass(h, s, focused), s[i].monitor) == Some(s[i].workspace),
    decreases s.len(),
{
    let front = s.drop_last();
    let last = s.last();
    let before = recorded_pass(h, front, focused);
    if i == s.len() - 1 {
        lemma_update_sets_first(before, last.monitor, last.workspace, focused);
    } else {
        assert(front[i] == s[i]);
        assert forall|a: int, b: int| 0 <= a < b < front.len() implies front[a].monitor
            != front[b].monitor by {
            assert(front[a] == s[a] && front[b] == s[b]);
        }
        lemma_pass_records(h, front, focused, i);
        if last.focused == focused {
            assert(s[s.len() - 1] == last);
            lemma_update_keeps_other_monitors(
                before,
                last.monitor,
                last.workspace,
                focused,
                s[i].monitor,
            );
        }
    }
}

/// After a report is recorded, the workspace that each monitor shows is that
/// monitor's most recent one (monitors are told apart by name).
pub proof fn lemma_refresh_records_every_monitor(h: Seq<EntryModel>, s: Seq<SnapshotModel>, i: int)
    requires
        distinct_monitors(s),
        0 <= i < s.len(),
    ensures
        first_workspace(refreshed_history(h, s), s[i].monitor) == Some(s[i].workspace),
{
    let first_pass = recorded_pass(h, s, false);
    if s[i].focused {
        lemma_pass_records(first_pass, s, true, i);
    } else {
        lemma_pass_records(h, s, false, i);
        assert forall|j: int| 0 <= j < s.len() && s[j].focused == true implies s[j].monitor
            != s[i].monitor by {
            assert(j != i);
        }
        lemma_pass_keeps_other(first_pass, s, true, s[i].monitor);
    }
}

/// After a report is recorded, the most recent entry of the whole history
/// is the workspace of the last focused monitor of the report.
pub proof fn lemma_refresh_focused_first(h: Seq<EntryModel>, s: Seq<SnapshotModel>, i: int)
    requires
        0 <= i < s.len(),
        s[i].focused,
        forall|j: int| i < j < s.len() ==> !s[j].focused,
    ensures
        refreshed_history(h, s)[0] == (EntryModel { monitor: s[i].monitor, workspace: s[i].workspace }),
{
    let first_pass = recorded_pass(h, s, false);
    lemma_focused_pass_front(first_pass, s, i);
}

proof fn lemma_focused_pass_front(h: Seq<EntryModel>, s: Seq<SnapshotModel>, i: int)
    requires
        0 <= i < s.len(),
        s[i].focused,
        forall|j: int| i < j < s.len() ==> !s[j].focused,
    ensures
        recorded_pass(h, s, true)[0] == (EntryModel { monitor: s[i].monitor, workspace: s[i].workspace }),
    decreases s.len(),
{
    let front = s.drop_last();
    if i == s.len() - 1 {
        lemma_update_forced_to_front(recorded_pass(h, front, true), s[i].monitor, s[i].workspace);
    } else {
        assert(front[i] == s[i]);
        assert(!s[s.len() - 1].focused);
        assert forall|j: int| i < j < front.len() implies !front[j].focused by {
            assert(front[j] == s[j]);
        }
        lemma_focused_pass_front(h, front, i);
    }
}

/// The history entry a snapshot stands for.
pub open spec fn entry_of(s: SnapshotModel) -> EntryModel {
    EntryModel { monitor: s.monitor, workspace: s.workspace }
}

/// Whether some snapshot of the report stands for entry `x`.
pub open spec fn reported(s: Seq<SnapshotModel>, x: EntryModel) -> bool {
    exists|i: int| 0 <= i < s.len() && #[trigger] entry_of(s[i]) == x
}

/// The predicate that holds of the entries no snapshot of the report
/// stands for.
pub open spec fn unreported(s: Seq<SnapshotModel>) -> spec_fn(EntryModel) -> bool {
    |x: EntryModel| !reported(s, x)
}

/// Whether a snapshot of the report with the given focus flag stands for
/// entry `x`.
pub open spec fn reported_with(s: Seq<SnapshotModel>, focused: bool, x: EntryModel) -> bool {
    exists|i: int| 0 <= i < s.len() && s[i].focused == focused && #[trigger] entry_of(s[i]) == x
}

proof fn lemma_pass_contents(h: Seq<EntryModel>, s: Seq<SnapshotModel>, focused: bool, x: EntryModel)
    ensures
        recorded_pass(h, s, focused).contains(x) <==> (h.contains(x) || reported_with(s, focused, x)),
    decreases s.len(),
{
    if s.len() > 0 {
        let front = s.drop_last();
        let last = s.last();
        lemma_pass_contents(h, front, focused, x);
        let here = last.focused == focused && entry_of(last) == x;
        assert(reported_with(s, focused, x) == (reported_with(front, focused, x) || here)) by {
            if reported_with(s, focused, x) {
                let i = choose|i: int| 0 <= i < s.len() && s[i].focused == focused && #[trigger] entry_of(s[i]) == x;
                if i < s.len() - 1 {
                    assert(front[i] == s[i]);
                }
            }
            if reported_with(front, focused, x) {
                let i = choose|i: int| 0 <= i < front.len() && front[i].focused == focused && #[trigger] entry_of(front[i]) == x;
                assert(s[i] == front[i]);
            }
            if here {
                assert(s[s.len() - 1] == last);
            }
        }
        if last.focused == focused {
            lemma_update_contents(recorded_pass(h, front, focused), last.monitor, last.workspace, focused, x);
        }
    }
}

proof fn lemma_pass_keeps_filtered(
    h: Seq<EntryModel>,
    s: Seq<SnapshotModel>,
    focused: bool,
    keep: spec_fn(EntryModel) -> bool,
)
    requires
        forall|i: int| 0 <= i < s.len() ==> !keep(#[trigger] entry_of(s[i])),
    ensures
        recorded_pass(h, s, focused).filter(keep) == h.filter(keep),
    decreases s.len(),
{
    if s.len() > 0 {
        let front = s.drop_last();
        assert forall|i: int| 0 <= i < front.len() implies !keep(#[trigger] entry_of(front[i])) by {
            assert(front[i] == s[i]);
        }
        lemma_pass_keeps_filtered(h, front, focused, keep);
        let last = s.last();
        if last.focused == focused {
            assert(entry_of(s[s.len() - 1]) == entry_of(last));
            lemma_update_keeps_filtered(recorded_pass(h, front, focused), last.monitor, last.workspace, focused, keep);
        }
    }
}

proof fn lemma_pass_no_duplicates(h: Seq<EntryModel>, s: Seq<SnapshotModel>, focused: bool)
    requires
        h.no_duplicates(),
    ensures
        recorded_pass(h, s, focused).no_duplicates(),
    decreases s.len(),
{
    if s.len() > 0 {
        lemma_pass_no_duplicates(h, s.drop_last(), focused);
        let last = s.last();
        if last.focused == focused {
            lemma_update_no_duplicates(
                recorded_pass(h, s.drop_last(), focused),
                last.monitor,
                last.workspace,
                focused,
            );
        }
    }
}

/// Recording a report adds exactly the entries the report stands for, keeps
/// every other entry of the history in its order, and keeps a history free
/// of repeated entries free of them.
pub proof fn lemma_refresh_contents(h: Seq<EntryModel>, s: Seq<SnapshotModel>)
    ensures
        forall|x: EntryModel| #[trigger] refreshed_history(h, s).contains(x) <==> (h.contains(x)
            || reported(s, x)),
        refreshed_history(h, s).filter(unreported(s)) == h.filter(unreported(s)),
        h.no_duplicates() ==> refreshed_history(h, s).no_duplicates(),
{
    let first_pass = recorded_pass(h, s, false);
    assert forall|x: EntryModel| #[trigger] refreshed_history(h, s).contains(x) <==> (h.contains(x)
        || reported(s, x)) by {
        lemma_pass_contents(h, s, false, x);
        lemma_pass_contents(first_pass, s, true, x);
        if reported(s, x) {
            let i = choose|i: int| 0 <= i < s.len() && #[trigger] entry_of(s[i]) == x;
            if s[i].focused {
                assert(reported_with(s, true, x));
            } else {
                assert(reported_with(s, false, x));
            }
        }
    }
    assert forall|i: int| 0 <= i < s.len() implies !unreported(s)(#[trigger] entry_of(s[i])) by {}
    lemma_pass_keeps_filtered(h, s, false, unreported(s));
    lemma_pass_keeps_filtered(first_pass, s, true, unreported(s));
    if h.no_duplicates() {
        lemma_pass_no_duplicates(h, s, false);
        lemma_pass_no_duplicates(first_pass, s, true);
    }
}

/// The entries of the focused snapshots of a report, the last one first.
pub open spec fn forced_entries(s: Seq<SnapshotModel>) -> Seq<EntryModel>
    decreases s.len(),
{
    if s.len() == 0 {
        Seq::empty()
    } else {
        let rest = forced_entries(s.drop_last());
        if s.last().focused {
            seq![entry_of(s.last())] + rest
        } else {
            rest
        }
    }
}

/// The predicate that holds of the entries not in `f`.
pub open spec fn not_in(f: Seq<EntryModel>) -> spec_fn(EntryModel) -> bool {
    |x: EntryModel| !f.contains(x)
}

proof fn lemma_forced_entries_from(s: Seq<SnapshotModel>, x: EntryModel)
    requires
        forced_entries(s).contains(x),
    ensures
        exists|i: int| 0 <= i < s.len() && s[i].focused && #[trigger] entry_of(s[i]) == x,
    decreases s.len(),
{
    let front = s.drop_last();
    let rest = forced_entries(front);
    let f = forced_entries(s);
    if s.last().focused && x == entry_of(s.last()) {
        assert(s[s.len() - 1] == s.last());
    } else {
        if s.last().focused {
            let k = choose|k: int| 0 <= k < f.len() && f[k] == x;
            assert(k > 0);
            assert(rest[k - 1] == x);
        }
        lemma_forced_entries_from(front, x);
        let i = choose|i: int| 0 <= i < front.len() && front[i].focused && #[trigger] entry_of(front[i]) == x;
        assert(s[i] == front[i]);
    }
}

proof fn lemma_forced_pass(h: Seq<EntryModel>, s: Seq<SnapshotModel>)
    requires
        distinct_monitors(s),
    ensures
        recorded_pass(h, s, true) == forced_entries(s) + h.filter(not_in(forced_entries(s))),
    decreases s.len(),
{
    if s.len() == 0 {
        assert(h.filter(not_in(Seq::<EntryModel>::empty())) == h) by {
            lemma_filter_all_kept(h, not_in(Seq::<EntryModel>::empty()));
        }
        assert(Seq::<EntryModel>::empty() + h =~= h);
    } else {
        let front = s.drop_last();
        let last = s.last();
        assert forall|a: int, b: int| 0 <= a < b < front.len() implies front[a].monitor
            != front[b].monitor by {
            assert(front[a] == s[a] && front[b] == s[b]);
        }
        lemma_forced_pass(h, front);
        let f0 = forced_entries(front);
        let rest = h.filter(not_in(f0));
        if last.focused {
            let e = entry_of(last);
            let f = forced_entries(s);
            assert(f == seq![e] + f0);
            assert forall|i: int| 0 <= i < f0.len() implies #[trigger] other_than(e)(f0[i]) by {
                assert(f0.contains(f0[i]));
                lemma_forced_entries_from(front, f0[i]);
                let j = choose|j: int| 0 <= j < front.len() && front[j].focused && #[trigger] entry_of(front[j]) == f0[i];
                assert(s[j] == front[j]);
                assert(s[s.len() - 1] == last);
            }
            lemma_filter_all_kept(f0, other_than(e));
            Seq::filter_distributes_over_add(f0, rest, other_than(e));
            assert forall|x: EntryModel| #[trigger] not_in(f)(x) == (not_in(f0)(x) && other_than(e)(x)) by {
                if f.contains(x) && x != e {
                    let k = choose|k: int| 0 <= k < f.len() && f[k] == x;
                    assert(f0[k - 1] == x);
                }
                if f0.contains(x) {
                    let k = choose|k: int| 0 <= k < f0.len() && f0[k] == x;
                    assert(f[k + 1] == x);
                }
                if x == e {
                    assert(f[0] == e);
                }
            }
            lemma_filter_filter(h, not_in(f0), other_than(e), not_in(f));
            assert(seq![e] + (f0 + rest.filter(other_than(e))) =~= f + h.filter(not_in(f)));
        }
    }
}

proof fn lemma_pass_unchanged(h: Seq<EntryModel>, s: Seq<SnapshotModel>)
    requires
        forall|i: int|
            0 <= i < s.len() && !s[i].focused ==> first_workspace(h, #[trigger] s[i].monitor) == Some(
                s[i].workspace,
            ),
    ensures
        recorded_pass(h, s, false) == h,
    decreases s.len(),
{
    if s.len() > 0 {
        let front = s.drop_last();
        assert forall|i: int| 0 <= i < front.len() && !front[i].focused implies first_workspace(
            h,
            #[trigger] front[i].monitor,
        ) == Some(front[i].workspace) by {
            assert(front[i] == s[i]);
        }
        lemma_pass_unchanged(h, front);
        assert(s[s.len() - 1] == s.last());
    }
}

/// Recording the same report again changes nothing (monitors being told
/// apart by name).
pub proof fn lemma_refresh_idempotent(h: Seq<EntryModel>, s: Seq<SnapshotModel>)
    requires
        distinct_monitors(s),
    ensures
        refreshed_history(refreshed_history(h, s), s) == refreshed_history(h, s),
{
    let h1 = refreshed_history(h, s);
    let h0 = recorded_pass(h, s, false);
    let f = forced_entries(s);
    assert forall|i: int| 0 <= i < s.len() && !s[i].focused implies first_workspace(
        h1,
        #[trigger] s[i].monitor,
    ) == Some(s[i].workspace) by {
        lemma_refresh_records_every_monitor(h, s, i);
    }
    lemma_pass_unchanged(h1, s);
    lemma_forced_pass(h0, s);
    lemma_forced_pass(h1, s);
    let rest = h0.filter(not_in(f));
    assert forall|i: int| 0 <= i < f.len() implies !not_in(f)(#[trigger] f[i]) by {
        assert(f.contains(f[i]));
    }
    lemma_filter_none_kept(f, not_in(f));
    assert(f.filter(not_in(f)) =~= Seq::<EntryModel>::empty());
    Seq::filter_distributes_over_add(f, rest, not_in(f));
    lemma_filter_idempotent(h0, not_in(f));
    assert(f + (Seq::<EntryModel>::empty() + rest) =~= f + rest);
}

/// After a report is recorded, the history holds exactly its former entries
/// and those the report stands for, and for each reported monitor (monitors
/// being told apart by name) the first entry of that monitor is the
/// workspace it shows.
pub proof fn lemma_refresh_records_report(h: Seq<EntryModel>, s: Seq<SnapshotModel>)
    requires
        distinct_monitors(s),
    ensures
        forall|x: EntryModel|
            #[trigger] refreshed_history(h, s).contains(x) <==> (h.contains(x) || exists|i: int|
                0 <= i < s.len() && x == (EntryModel { monitor: s[i].monitor, workspace: s[i].workspace })),
        forall|i: int|
            #![trigger s[i]]
            0 <= i < s.len() ==> exists|a: int|
                0 <= a < refreshed_history(h, s).len() && refreshed_history(h, s)[a] == (EntryModel {
                    monitor: s[i].monitor,
                    workspace: s[i].workspace,
                }) && forall|b: int|
                    0 <= b < a ==> #[trigger] refreshed_history(h, s)[b].monitor != s[i].monitor,
{
    let r = refreshed_history(h, s);
    lemma_refresh_contents(h, s);
    assert forall|x: EntryModel| #[trigger] r.contains(x) <==> (h.contains(x) || exists|i: int|
        0 <= i < s.len() && x == (EntryModel { monitor: s[i].monitor, workspace: s[i].workspace })) by {
        if reported(s, x) {
            let i = choose|i: int| 0 <= i < s.len() && #[trigger] entry_of(s[i]) == x;
            assert(x == (EntryModel { monitor: s[i].monitor, workspace: s[i].workspace }));
        }
        if exists|i: int| 0 <= i < s.len() && x == (EntryModel { monitor: s[i].monitor, workspace: s[i].workspace }) {
            let i = choose|i: int| 0 <= i < s.len() && x == (EntryModel { monitor: s[i].monitor, workspace: s[i].workspace });
            assert(entry_of(s[i]) == x);
        }
    }
    assert forall|i: int| #![trigger s[i]] 0 <= i < s.len() implies exists|a: int|
        0 <= a < r.len() && r[a] == (EntryModel { monitor: s[i].monitor, workspace: s[i].workspace })
            && forall|b: int| 0 <= b < a ==> #[trigger] r[b].monitor != s[i].monitor by {
        lemma_refresh_records_every_monitor(h, s, i);
        lemma_first_workspace_explicit(r, s[i].monitor);
    }
}

/// Whether a monitor's workspace has a positive id.
pub open spec fn positive_workspace_id() -> spec_fn(HyprMonitor) -> bool {
    |m: HyprMonitor| m.active_workspace.id > 0
}

/// A monitor is left out of the snapshots exactly when it shows a workspace
/// whose id is not positive; every other monitor gives the snapshot of its
/// name, its workspace's name and its focus, in the report's order.
pub proof fn lemma_snapshots_keep_regular(monitors: Seq<HyprMonitor>)
    ensures
        forall|i: int|
            #![trigger monitors[i]]
            0 <= i < monitors.len() && monitors[i].active_workspace.id > 0 ==> regular_snapshots(
                monitors,
            ).contains(
                SnapshotModel {
                    monitor: monitors[i].name@,
                    workspace: monitors[i].active_workspace.name@,
                    focused: monitors[i].focused,
                },
            ),
        regular_snapshots(monitors) == monitors.filter(positive_workspace_id()).map_values(
            |m: HyprMonitor|
                SnapshotModel {
                    monitor: m.name@,
                    workspace: m.active_workspace.name@,
                    focused: m.focused,
                },
        ),
{
    let keep = regular_monitor();
    let f = monitors.filter(keep);
    let r = regular_snapshots(monitors);
    assert forall|i: int| #![trigger monitors[i]] 0 <= i < monitors.len() && monitors[i].active_workspace.id
        > 0 implies r.contains(
        SnapshotModel {
            monitor: monitors[i].name@,
            workspace: monitors[i].active_workspace.name@,
            focused: monitors[i].focused,
        },
    ) by {
        monitors.lemma_filter_contains(keep, i);
        let k = choose|k: int| 0 <= k < f.len() && f[k] == monitors[i];
        assert(r[k] == snapshot_of(monitors[i]));
    }
    assert(keep =~= positive_workspace_id());
    let fields = |m: HyprMonitor|
        SnapshotModel { monitor: m.name@, workspace: m.active_workspace.name@, focused: m.focused };
    assert(as_snapshot() =~= fields);
    assert(r =~= monitors.filter(positive_workspace_id()).map_values(fields));
}

} // verus!
