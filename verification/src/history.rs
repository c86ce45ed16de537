//! The history itself: a most-recent-first list of (monitor, workspace)
//! entries, and the per-monitor views computed from it.

use vstd::prelude::*;

verus! {

/// One recorded visit of a workspace on a monitor.
#[derive(Clone, Debug, PartialEq, Eq)]
pub struct HistoryEntry {
    pub monitor: String,
    pub workspace: String,
}

/// The mathematical value of a [`HistoryEntry`].
pub struct EntryModel {
    pub monitor: Seq<char>,
    pub workspace: Seq<char>,
}

impl View for HistoryEntry {
    type V = EntryModel;

    open spec fn view(&self) -> EntryModel {
        EntryModel { monitor: self.monitor@, workspace: self.workspace@ }
    }
}

/// The model of a whole history.
pub open spec fn history_model(h: Seq<HistoryEntry>) -> Seq<EntryModel> {
    h.map_values(|e: HistoryEntry| e@)
}

/// The distinct workspaces recorded for `monitor`, in the order of their most
/// recent visit (their first occurrence in the history).
pub open spec fn workspaces_for_monitor(h: Seq<EntryModel>, monitor: Seq<char>) -> Seq<Seq<char>>
    decreases h.len(),
{
    if h.len() == 0 {
        Seq::empty()
    } else {
        let earlier = workspaces_for_monitor(h.drop_last(), monitor);
        let e = h.last();
        if e.monitor == monitor && !earlier.contains(e.workspace) {
            earlier.push(e.workspace)
        } else {
            earlier
        }
    }
}

impl HistoryEntry {
    /// A field-by-field copy.
    pub fn duplicate(&self) -> (r: HistoryEntry)
        ensures
            r@ == self@,
    {
        HistoryEntry { monitor: self.monitor.clone(), workspace: self.workspace.clone() }
    }
}

/// Lists the workspaces visited on `monitor`, most recent first, each once.
pub fn history_for_monitor(history: &[HistoryEntry], monitor: &str) -> (r: Vec<String>)
    ensures
        r@.map_values(|s: String| s@) == workspaces_for_monitor(
            history_model(history@),
            monitor@,
        ),
{
    let monitor = String::from_str(monitor);
    let ghost h = history_model(history@);
    let mut workspaces: Vec<String> = Vec::new();
    let mut i: usize = 0;
    while i < history.len()
        invariant
            i <= history@.len(),
            h == history_model(history@),
            workspaces@.map_values(|s: String| s@) == workspaces_for_monitor(
                h.take(i as int),
                monitor@,
            ),
        decreases history@.len() - i,
    {
        let entry = &history[i];
        assert(h.take(i + 1).drop_last() =~= h.take(i as int));
        if entry.monitor == monitor && !contains_string(&workspaces, &entry.workspace) {
            workspaces.push(entry.workspace.clone());
            assert(workspaces@.map_values(|s: String| s@) =~= workspaces_for_monitor(
                h.take(i as int),
                monitor@,
            ).push(entry.workspace@));
        }
        i = i + 1;
    }
    assert(h.take(history@.len() as int) =~= h);
    workspaces
}

/// Whether `s` occurs in `v`, compared by value.
pub fn contains_string(v: &Vec<String>, s: &String) -> (r: bool)
    ensures
        r == v@.map_values(|x: String| x@).contains(s@),
{
    let ghost m = v@.map_values(|x: String| x@);
    let mut i: usize = 0;
    while i < v.len()
        invariant
            i <= v@.len(),
            m == v@.map_values(|x: String| x@),
            forall|j: int| 0 <= j < i ==> m[j] != s@,
        decreases v@.len() - i,
    {
        if v[i] == *s {
            assert(m[i as int] == s@);
            return true;
        }
        i = i + 1;
    }
    false
}

/// The workspace of the first (most recent) entry recorded for `monitor`.
pub open spec fn first_workspace(h: Seq<EntryModel>, monitor: Seq<char>) -> Option<Seq<char>>
    decreases h.len(),
{
    if h.len() == 0 {
        None
    } else if h[0].monitor == monitor {
        Some(h[0].workspace)
    } else {
        first_workspace(h.drop_first(), monitor)
    }
}

/// The history after recording that `monitor` shows `workspace`: unchanged
/// when that is already the monitor's most recent entry and the entry is not
/// forced to the front; otherwise the entry moves (or is added) to the front
/// and every other copy of it is dropped.
pub open spec fn updated_history(
    h: Seq<EntryModel>,
    monitor: Seq<char>,
    workspace: Seq<char>,
    force_front: bool,
) -> Seq<EntryModel> {
    let entry = EntryModel { monitor, workspace };
    if first_workspace(h, monitor) == Some(workspace) && !force_front {
        h
    } else {
        seq![entry] + h.filter(other_than(entry))
    }
}

/// The predicate that holds of every entry but `entry`.
pub open spec fn other_than(entry: EntryModel) -> spec_fn(EntryModel) -> bool {
    |x: EntryModel| x != entry
}

proof fn lemma_first_workspace_skip(h: Seq<EntryModel>, monitor: Seq<char>, i: int)
    requires
        0 <= i <= h.len(),
        forall|j: int| 0 <= j < i ==> h[j].monitor != monitor,
    ensures
        first_workspace(h, monitor) == first_workspace(h.skip(i), monitor),
    decreases i,
{
    if i == 0 {
        assert(h.skip(0) =~= h);
    } else {
        assert(h.drop_first().skip(i - 1) =~= h.skip(i));
        assert forall|j: int| 0 <= j < i - 1 implies h.drop_first()[j].monitor != monitor by {
            assert(h.drop_first()[j] == h[j + 1]);
        }
        lemma_first_workspace_skip(h.drop_first(), monitor, i - 1);
    }
}

/// Records that `monitor` shows `workspace` at the front of the history.
/// When `force_front` is false and that workspace is already the monitor's
/// most recent entry, the history is left as it is.
pub fn update_last_for_monitor(
    history: &mut Vec<HistoryEntry>,
    monitor: &str,
    workspace: &str,
    force_front: bool,
)
    ensures
        history_model(final(history)@) == updated_history(
            history_model(old(history)@),
            monitor@,
            workspace@,
            force_front,
        ),
{
    let monitor = String::from_str(monitor);
    let workspace = String::from_str(workspace);
    let ghost h = history_model(history@);
    let ghost e = EntryModel { monitor: monitor@, workspace: workspace@ };

    // Find the first entry recorded for this monitor.
    let mut i: usize = 0;
    while i < history.len() && !(history[i].monitor == monitor)
        invariant
            i <= history@.len(),
            h == history_model(history@),
            forall|j: int| 0 <= j < i ==> h[j].monitor != monitor@,
        decreases history@.len() - i,
    {
        i = i + 1;
    }
    proof {
        lemma_first_workspace_skip(h, monitor@, i as int);
    }
    let already_first = i < history.len() && history[i].workspace == workspace;
    assert(already_first == (first_workspace(h, monitor@) == Some(workspace@)));

    if already_first && !force_front {
        return;
    }

    let ghost keep = other_than(e);
    let mut updated: Vec<HistoryEntry> = Vec::new();
    updated.push(HistoryEntry { monitor: monitor.clone(), workspace: workspace.clone() });
    let mut k: usize = 0;
    while k < history.len()
        invariant
            k <= history@.len(),
            h == history_model(history@),
            e == (EntryModel { monitor: monitor@, workspace: workspace@ }),
            keep == other_than(e),
            history_model(updated@) == seq![e] + h.take(k as int).filter(keep),
        decreases history@.len() - k,
    {
        let candidate = &history[k];
        assert(h[k as int] == candidate@);
        proof {
            h.take(k as int).lemma_filter_push(h[k as int], keep);
            assert(h.take(k + 1) =~= h.take(k as int).push(h[k as int]));
        }
        if !(candidate.monitor == monitor && candidate.workspace == workspace) {
            let ghost before = updated@;
            updated.push(candidate.duplicate());
            assert(history_model(updated@) =~= history_model(before).push(candidate@));
        }
        k = k + 1;
    }
    assert(h.take(history@.len() as int) =~= h);
    *history = updated;
}

/// How the most recent workspace of a monitor changes when an entry is
/// added as the oldest one of the history.
pub proof fn lemma_first_workspace_push(h: Seq<EntryModel>, x: EntryModel, monitor: Seq<char>)
    ensures
        first_workspace(h.push(x), monitor) == (if first_workspace(h, monitor) is Some {
            first_workspace(h, monitor)
        } else if x.monitor == monitor {
            Some(x.workspace)
        } else {
            None
        }),
    decreases h.len(),
{
    if h.len() > 0 {
        assert(h.push(x)[0] == h[0]);
        assert(h.push(x).drop_first() =~= h.drop_first().push(x));
        lemma_first_workspace_push(h.drop_first(), x, monitor);
    } else {
        assert(h.push(x)[0] == x);
        assert(h.push(x).drop_first().len() == 0);
        assert(first_workspace(h.push(x).drop_first(), monitor) is None);
        assert(first_workspace(h, monitor) is None);
    }
}

/// Dropping entries that are never recorded for `monitor` leaves the
/// monitor's first entry as it is.
pub proof fn lemma_first_workspace_filter(
    h: Seq<EntryModel>,
    keep: spec_fn(EntryModel) -> bool,
    monitor: Seq<char>,
)
    requires
        forall|x: EntryModel| x.monitor == monitor ==> #[trigger] keep(x),
    ensures
        first_workspace(h.filter(keep), monitor) == first_workspace(h, monitor),
    decreases h.len(),
{
    if h.len() > 0 {
        let front = h.drop_last();
        assert(h =~= front.push(h.last()));
        front.lemma_filter_push(h.last(), keep);
        lemma_first_workspace_filter(front, keep, monitor);
        lemma_first_workspace_push(front, h.last(), monitor);
        lemma_first_workspace_push(front.filter(keep), h.last(), monitor);
    }
}

/// The first of the workspaces listed for a monitor is the workspace of its
/// most recent entry, and the list is empty exactly when the monitor has none.
pub proof fn lemma_workspaces_first(h: Seq<EntryModel>, monitor: Seq<char>)
    ensures
        (workspaces_for_monitor(h, monitor).len() == 0) == (first_workspace(h, monitor) is None),
        workspaces_for_monitor(h, monitor).len() > 0 ==> Some(
            workspaces_for_monitor(h, monitor)[0],
        ) == first_workspace(h, monitor),
    decreases h.len(),
{
    if h.len() > 0 {
        let front = h.drop_last();
        assert(h =~= front.push(h.last()));
        lemma_workspaces_first(front, monitor);
        lemma_first_workspace_push(front, h.last(), monitor);
    }
}

/// Every workspace listed for a monitor is listed once, and exactly the
/// workspaces recorded for the monitor are listed.
pub proof fn lemma_workspaces_for_monitor(h: Seq<EntryModel>, monitor: Seq<char>)
    ensures
        workspaces_for_monitor(h, monitor).no_duplicates(),
        forall|w: Seq<char>|
            #![trigger workspaces_for_monitor(h, monitor).contains(w)]
            workspaces_for_monitor(h, monitor).contains(w) <==> exists|i: int|
                0 <= i < h.len() && h[i] == (EntryModel { monitor, workspace: w }),
    decreases h.len(),
{
    if h.len() > 0 {
        let front = h.drop_last();
        lemma_workspaces_for_monitor(front, monitor);
        let earlier = workspaces_for_monitor(front, monitor);
        let r = workspaces_for_monitor(h, monitor);
        assert forall|w: Seq<char>| #[trigger] r.contains(w) <==> exists|i: int|
            0 <= i < h.len() && h[i] == (EntryModel { monitor, workspace: w }) by {
            if r.contains(w) {
                if earlier.contains(w) {
                    let i = choose|i: int|
                        0 <= i < front.len() && front[i] == (EntryModel { monitor, workspace: w });
                    assert(h[i] == front[i]);
                } else {
                    assert(w == h.last().workspace);
                    assert(h[h.len() - 1] == h.last());
                }
            }
            if exists|i: int| 0 <= i < h.len() && h[i] == (EntryModel { monitor, workspace: w }) {
                let i = choose|i: int|
                    0 <= i < h.len() && h[i] == (EntryModel { monitor, workspace: w });
                if i < h.len() - 1 {
                    assert(front[i] == h[i]);
                    assert(earlier.contains(w));
                    assert(r.contains(w) || r == earlier.push(h.last().workspace));
                    if r != earlier {
                        assert(r[earlier.index_of(w)] == w);
                    }
                } else {
                    if !earlier.contains(w) {
                        assert(r[r.len() - 1] == w);
                    }
                }
            }
        }
    }
}

/// The workspaces listed for a monitor come in the order of their most recent
/// visit: a workspace listed before another was visited on the monitor after
/// every visit of the other one.
pub proof fn lemma_workspaces_recency_order(h: Seq<EntryModel>, monitor: Seq<char>, i: int, j: int)
    requires
        0 <= i < j < workspaces_for_monitor(h, monitor).len(),
    ensures
        ({
            let listed = workspaces_for_monitor(h, monitor);
            exists|a: int|
                0 <= a < h.len() && h[a] == (EntryModel { monitor, workspace: listed[i] }) && forall|
                    b: int,
                | 0 <= b < h.len() && #[trigger] h[b] == (EntryModel { monitor, workspace: listed[j] })
                    ==> a < b
        }),
    decreases h.len(),
{
    let front = h.drop_last();
    let earlier = workspaces_for_monitor(front, monitor);
    let listed = workspaces_for_monitor(h, monitor);
    let ei = EntryModel { monitor, workspace: listed[i] };
    let ej = EntryModel { monitor, workspace: listed[j] };
    lemma_workspaces_for_monitor(front, monitor);
    if j < earlier.len() {
        assert(listed[i] == earlier[i] && listed[j] == earlier[j]);
        lemma_workspaces_recency_order(front, monitor, i, j);
        let a = choose|a: int|
            0 <= a < front.len() && front[a] == ei && forall|b: int|
                0 <= b < front.len() && #[trigger] front[b] == ej ==> a < b;
        assert(h[a] == front[a]);
        assert forall|b: int| 0 <= b < h.len() && #[trigger] h[b] == ej implies a < b by {
            if b < front.len() {
                assert(front[b] == h[b]);
            }
        }
    } else {
        assert(listed == earlier.push(h.last().workspace));
        assert(j == earlier.len());
        assert(listed[i] == earlier[i]);
        assert(earlier.contains(listed[i]));
        let a = choose|a: int| 0 <= a < front.len() && front[a] == ei;
        assert(h[a] == front[a]);
        assert forall|b: int| 0 <= b < h.len() && #[trigger] h[b] == ej implies a < b by {
            if b < front.len() {
                assert(front[b] == h[b]);
                assert(earlier.contains(listed[j]));
            }
        }
    }
}

/// Recording an entry makes its workspace the monitor's most recent one.
pub proof fn lemma_update_sets_first(
    h: Seq<EntryModel>,
    monitor: Seq<char>,
    workspace: Seq<char>,
    force_front: bool,
)
    ensures
        first_workspace(updated_history(h, monitor, workspace, force_front), monitor) == Some(
            workspace,
        ),
{
    let e = EntryModel { monitor, workspace };
    assert((seq![e] + h.filter(other_than(e)))[0] == e);
}

/// After an entry is recorded, its workspace heads the monitor's list of
/// workspaces.
pub proof fn lemma_update_heads_monitor_list(
    h: Seq<EntryModel>,
    monitor: Seq<char>,
    workspace: Seq<char>,
    force_front: bool,
)
    ensures
        ({
            let listed = workspaces_for_monitor(
                updated_history(h, monitor, workspace, force_front),
                monitor,
            );
            listed.len() > 0 && listed[0] == workspace
        }),
{
    let after = updated_history(h, monitor, workspace, force_front);
    lemma_update_sets_first(h, monitor, workspace, force_front);
    lemma_workspaces_first(after, monitor);
}

/// Recording an entry leaves the most recent workspace of every other
/// monitor as it was.
pub proof fn lemma_update_keeps_other_monitors(
    h: Seq<EntryModel>,
    monitor: Seq<char>,
    workspace: Seq<char>,
    force_front: bool,
    other: Seq<char>,
)
    requires
        other != monitor,
    ensures
        first_workspace(updated_history(h, monitor, workspace, force_front), other)
            == first_workspace(h, other),
{
    let e = EntryModel { monitor, workspace };
    let r = seq![e] + h.filter(other_than(e));
    assert(r.drop_first() =~= h.filter(other_than(e)));
    lemma_first_workspace_filter(h, other_than(e), other);
}

/// A forced entry stands at the front of the whole history.
pub proof fn lemma_update_forced_to_front(h: Seq<EntryModel>, monitor: Seq<char>, workspace: Seq<char>)
    ensures
        updated_history(h, monitor, workspace, true)[0] == (EntryModel { monitor, workspace }),
{
}

/// Filtering twice by the same predicate is filtering once.
pub proof fn lemma_filter_idempotent<A>(s: Seq<A>, keep: spec_fn(A) -> bool)
    ensures
        s.filter(keep).filter(keep) == s.filter(keep),
    decreases s.len(),
{
    if s.len() > 0 {
        let front = s.drop_last();
        assert(s =~= front.push(s.last()));
        front.lemma_filter_push(s.last(), keep);
        lemma_filter_idempotent(front, keep);
        front.filter(keep).lemma_filter_push(s.last(), keep);
    }
}

/// Recording an entry changes nothing but the place of that entry: every
/// other entry keeps its relative order.
pub proof fn lemma_update_keeps_other_entries(
    h: Seq<EntryModel>,
    monitor: Seq<char>,
    workspace: Seq<char>,
    force_front: bool,
)
    ensures
        ({
            let keep = other_than(EntryModel { monitor, workspace });
            updated_history(h, monitor, workspace, force_front).filter(keep) == h.filter(keep)
        }),
{
    let e = EntryModel { monitor, workspace };
    let keep = other_than(e);
    h.filter(keep).lemma_filter_prepend(e, keep);
    lemma_filter_idempotent(h, keep);
    assert((seq![e] + h.filter(keep)).filter(keep) =~= h.filter(keep));
}

/// Recording the same entry twice is the same as recording it once.
pub proof fn lemma_update_idempotent(
    h: Seq<EntryModel>,
    monitor: Seq<char>,
    workspace: Seq<char>,
    force_front: bool,
)
    ensures
        ({
            let once = updated_history(h, monitor, workspace, force_front);
            updated_history(once, monitor, workspace, force_front) == once
        }),
{
    let e = EntryModel { monitor, workspace };
    let once = updated_history(h, monitor, workspace, force_front);
    lemma_update_sets_first(h, monitor, workspace, force_front);
    if force_front {
        lemma_update_keeps_other_entries(h, monitor, workspace, force_front);
        assert(seq![e] + once.filter(other_than(e)) =~= once);
    }
}

/// A history in which no entry occurs twice keeps that property when an
/// entry is recorded.
pub proof fn lemma_update_no_duplicates(
    h: Seq<EntryModel>,
    monitor: Seq<char>,
    workspace: Seq<char>,
    force_front: bool,
)
    requires
        h.no_duplicates(),
    ensures
        updated_history(h, monitor, workspace, force_front).no_duplicates(),
{
    let e = EntryModel { monitor, workspace };
    let rest = h.filter(other_than(e));
    lemma_filter_no_duplicates(h, other_than(e));
    let r = seq![e] + rest;
    assert forall|i: int, j: int| 0 <= i < r.len() && 0 <= j < r.len() && i != j implies r[i]
        != r[j] by {
        if i == 0 {
            assert(r[j] == rest[j - 1]);
            h.lemma_filter_pred(other_than(e), j - 1);
        } else if j == 0 {
            assert(r[i] == rest[i - 1]);
            h.lemma_filter_pred(other_than(e), i - 1);
        } else {
            assert(r[i] == rest[i - 1] && r[j] == rest[j - 1]);
        }
    }
}

/// Filtering keeps a sequence free of repetitions.
pub proof fn lemma_filter_no_duplicates<A>(s: Seq<A>, keep: spec_fn(A) -> bool)
    requires
        s.no_duplicates(),
    ensures
        s.filter(keep).no_duplicates(),
    decreases s.len(),
{
    if s.len() > 0 {
        let front = s.drop_last();
        assert(s =~= front.push(s.last()));
        front.lemma_filter_push(s.last(), keep);
        lemma_filter_no_duplicates(front, keep);
        if keep(s.last()) {
            let f = front.filter(keep);
            if f.contains(s.last()) {
                let k = choose|k: int| 0 <= k < f.len() && f[k] == s.last();
                lemma_filter_contains_source(front, keep, k);
                let i = choose|i: int| 0 <= i < front.len() && front[i] == f[k];
                assert(s[i] == s[s.len() - 1]);
            }
            let g = f.push(s.last());
            assert forall|i: int, j: int| 0 <= i < g.len() && 0 <= j < g.len() && i != j implies g[i]
                != g[j] by {
                if i == g.len() - 1 {
                    assert(g[j] == f[j]);
                } else if j == g.len() - 1 {
                    assert(g[i] == f[i]);
                }
            }
        }
    }
}

/// Every element kept by a filter comes from the filtered sequence.
pub proof fn lemma_filter_contains_source<A>(s: Seq<A>, keep: spec_fn(A) -> bool, k: int)
    requires
        0 <= k < s.filter(keep).len(),
    ensures
        exists|i: int| 0 <= i < s.len() && s[i] == s.filter(keep)[k],
    decreases s.len(),
{
    let front = s.drop_last();
    assert(s =~= front.push(s.last()));
    front.lemma_filter_push(s.last(), keep);
    if k < front.filter(keep).len() {
        lemma_filter_contains_source(front, keep, k);
        let i = choose|i: int| 0 <= i < front.len() && front[i] == front.filter(keep)[k];
        assert(s[i] == front[i]);
    } else {
        assert(s[s.len() - 1] == s.filter(keep)[k]);
    }
}

/// The predicate that holds of every workspace but `workspace`.
pub open spec fn other_workspace(workspace: Seq<char>) -> spec_fn(Seq<char>) -> bool {
    |x: Seq<char>| x != workspace
}

/// A filter that keeps every element changes nothing.
pub proof fn lemma_filter_all_kept<A>(t: Seq<A>, keep: spec_fn(A) -> bool)
    requires
        forall|i: int| 0 <= i < t.len() ==> #[trigger] keep(t[i]),
    ensures
        t.filter(keep) == t,
    decreases t.len(),
{
    if t.len() > 0 {
        let front = t.drop_last();
        assert(t =~= front.push(t.last()));
        front.lemma_filter_push(t.last(), keep);
        assert forall|i: int| 0 <= i < front.len() implies #[trigger] keep(front[i]) by {
            assert(front[i] == t[i]);
        }
        lemma_filter_all_kept(front, keep);
        assert(keep(t[t.len() - 1]));
    }
}

/// An element is kept by a filter exactly when it occurs and satisfies the
/// predicate.
pub proof fn lemma_filter_contains_iff<A>(s: Seq<A>, keep: spec_fn(A) -> bool, x: A)
    ensures
        s.filter(keep).contains(x) <==> (s.contains(x) && keep(x)),
{
    if s.filter(keep).contains(x) {
        s.lemma_filter_contains_rev(keep, x);
        let k = choose|k: int| 0 <= k < s.filter(keep).len() && s.filter(keep)[k] == x;
        s.lemma_filter_pred(keep, k);
    }
    if s.contains(x) && keep(x) {
        let i = choose|i: int| 0 <= i < s.len() && s[i] == x;
        s.lemma_filter_contains(keep, i);
    }
}

proof fn lemma_filter_empty<A>(s: Seq<A>, keep: spec_fn(A) -> bool)
    requires
        s.len() == 0,
    ensures
        s.filter(keep) == s,
{
    s.lemma_filter_len(keep);
    assert(s.filter(keep) =~= s);
}

/// Entries of other monitors added before the oldest one do not change a
/// monitor's list.
proof fn lemma_workspaces_prepend_other(e: EntryModel, t: Seq<EntryModel>, monitor: Seq<char>)
    requires
        e.monitor != monitor,
    ensures
        workspaces_for_monitor(seq![e] + t, monitor) == workspaces_for_monitor(t, monitor),
    decreases t.len(),
{
    let u = seq![e] + t;
    if t.len() == 0 {
        assert(u.drop_last() =~= Seq::<EntryModel>::empty());
        assert(u.last() == e);
        assert(workspaces_for_monitor(u.drop_last(), monitor) == Seq::<Seq<char>>::empty());
        assert(workspaces_for_monitor(t, monitor) == Seq::<Seq<char>>::empty());
    } else {
        assert(u.drop_last() =~= seq![e] + t.drop_last());
        assert(u.last() == t.last());
        lemma_workspaces_prepend_other(e, t.drop_last(), monitor);
    }
}

/// Dropping entries of other monitors does not change a monitor's list.
proof fn lemma_workspaces_filter_keeps(
    h: Seq<EntryModel>,
    keep: spec_fn(EntryModel) -> bool,
    monitor: Seq<char>,
)
    requires
        forall|x: EntryModel| x.monitor == monitor ==> #[trigger] keep(x),
    ensures
        workspaces_for_monitor(h.filter(keep), monitor) == workspaces_for_monitor(h, monitor),
    decreases h.len(),
{
    if h.len() == 0 {
        lemma_filter_empty(h, keep);
    } else {
        let front = h.drop_last();
        assert(h =~= front.push(h.last()));
        front.lemma_filter_push(h.last(), keep);
        lemma_workspaces_filter_keeps(front, keep, monitor);
        if keep(h.last()) {
            assert(front.filter(keep).push(h.last()).drop_last() =~= front.filter(keep));
        }
    }
}

/// A monitor's list with the entry of `workspace` added as the most recent
/// one: that workspace first, then the others in their order.
proof fn lemma_workspaces_prepend_same(workspace: Seq<char>, t: Seq<EntryModel>, monitor: Seq<char>)
    ensures
        workspaces_for_monitor(seq![EntryModel { monitor, workspace }] + t, monitor) == seq![workspace]
            + workspaces_for_monitor(t, monitor).filter(other_workspace(workspace)),
    decreases t.len(),
{
    let e = EntryModel { monitor, workspace };
    let q = other_workspace(workspace);
    let u = seq![e] + t;
    if t.len() == 0 {
        assert(u.drop_last() =~= Seq::<EntryModel>::empty());
        assert(u.last() == e);
        assert(workspaces_for_monitor(u.drop_last(), monitor) == Seq::<Seq<char>>::empty());
        assert(workspaces_for_monitor(t, monitor) == Seq::<Seq<char>>::empty());
        lemma_filter_empty(workspaces_for_monitor(t, monitor), q);
        assert(Seq::<Seq<char>>::empty().push(workspace) =~= seq![workspace] + Seq::<Seq<char>>::empty());
    } else {
        let front = t.drop_last();
        let x = t.last();
        assert(u.drop_last() =~= seq![e] + front);
        assert(u.last() == x);
        lemma_workspaces_prepend_same(workspace, front, monitor);
        let w0 = workspaces_for_monitor(front, monitor);
        let l0 = seq![workspace] + w0.filter(q);
        if x.monitor == monitor {
            if x.workspace == workspace {
                assert(l0[0] == workspace);
                w0.lemma_filter_push(workspace, q);
            } else {
                lemma_filter_contains_iff(w0, q, x.workspace);
                assert(l0.contains(x.workspace) <==> w0.filter(q).contains(x.workspace)) by {
                    if l0.contains(x.workspace) {
                        let k = choose|k: int| 0 <= k < l0.len() && l0[k] == x.workspace;
                        assert(k > 0);
                        assert(w0.filter(q)[k - 1] == x.workspace);
                    }
                    if w0.filter(q).contains(x.workspace) {
                        let k = choose|k: int| 0 <= k < w0.filter(q).len() && w0.filter(q)[k] == x.workspace;
                        assert(l0[k + 1] == x.workspace);
                    }
                }
                if !w0.contains(x.workspace) {
                    w0.lemma_filter_push(x.workspace, q);
                    assert(l0.push(x.workspace) =~= seq![workspace] + w0.filter(q).push(x.workspace));
                }
            }
        }
    }
}

/// Dropping every entry of one workspace on a monitor drops that workspace
/// from the monitor's list and keeps the rest in order.
proof fn lemma_workspaces_without(h: Seq<EntryModel>, monitor: Seq<char>, workspace: Seq<char>)
    ensures
        workspaces_for_monitor(h.filter(other_than(EntryModel { monitor, workspace })), monitor)
            == workspaces_for_monitor(h, monitor).filter(other_workspace(workspace)),
    decreases h.len(),
{
    let e = EntryModel { monitor, workspace };
    let p = other_than(e);
    let q = other_workspace(workspace);
    if h.len() == 0 {
        lemma_filter_empty(h, p);
        lemma_filter_empty(workspaces_for_monitor(h, monitor), q);
    } else {
        let front = h.drop_last();
        let x = h.last();
        assert(h =~= front.push(x));
        front.lemma_filter_push(x, p);
        lemma_workspaces_without(front, monitor, workspace);
        let w0 = workspaces_for_monitor(front, monitor);
        if x == e {
            w0.lemma_filter_push(workspace, q);
        } else {
            assert(front.filter(p).push(x).drop_last() =~= front.filter(p));
            if x.monitor == monitor {
                lemma_filter_contains_iff(w0, q, x.workspace);
                if !w0.contains(x.workspace) {
                    w0.lemma_filter_push(x.workspace, q);
                }
            }
        }
    }
}

/// A sequence without repetitions that starts with `w` is `w` followed by
/// its other elements.
proof fn lemma_split_head(s: Seq<Seq<char>>, w: Seq<char>)
    requires
        s.no_duplicates(),
        s.len() > 0,
        s[0] == w,
    ensures
        s == seq![w] + s.filter(other_workspace(w)),
{
    let q = other_workspace(w);
    let rest = s.drop_first();
    assert(s =~= seq![w] + rest);
    rest.lemma_filter_prepend(w, q);
    assert forall|i: int| 0 <= i < rest.len() implies #[trigger] q(rest[i]) by {
        assert(rest[i] == s[i + 1]);
    }
    lemma_filter_all_kept(rest, q);
    assert(s.filter(q) =~= rest);
}

/// Recording an entry leaves the whole list of every other monitor as it
/// was.
pub proof fn lemma_update_keeps_other_lists(
    h: Seq<EntryModel>,
    monitor: Seq<char>,
    workspace: Seq<char>,
    force_front: bool,
    other: Seq<char>,
)
    requires
        other != monitor,
    ensures
        workspaces_for_monitor(updated_history(h, monitor, workspace, force_front), other)
            == workspaces_for_monitor(h, other),
{
    let e = EntryModel { monitor, workspace };
    lemma_workspaces_prepend_other(e, h.filter(other_than(e)), other);
    lemma_workspaces_filter_keeps(h, other_than(e), other);
}

/// After an entry is recorded, the monitor's list is its workspace followed
/// by the monitor's other workspaces in their former order.
pub proof fn lemma_update_monitor_list(
    h: Seq<EntryModel>,
    monitor: Seq<char>,
    workspace: Seq<char>,
    force_front: bool,
)
    ensures
        workspaces_for_monitor(updated_history(h, monitor, workspace, force_front), monitor)
            == seq![workspace] + workspaces_for_monitor(h, monitor).filter(
            other_workspace(workspace),
        ),
{
    let e = EntryModel { monitor, workspace };
    let q = other_workspace(workspace);
    let listed = workspaces_for_monitor(h, monitor);
    if first_workspace(h, monitor) == Some(workspace) && !force_front {
        lemma_workspaces_first(h, monitor);
        lemma_workspaces_for_monitor(h, monitor);
        lemma_split_head(listed, workspace);
    } else {
        lemma_workspaces_prepend_same(workspace, h.filter(other_than(e)), monitor);
        lemma_workspaces_without(h, monitor, workspace);
        lemma_filter_idempotent(listed, q);
    }
}

/// Filtering by one predicate and then another is filtering by both.
pub proof fn lemma_filter_filter<A>(
    s: Seq<A>,
    first: spec_fn(A) -> bool,
    second: spec_fn(A) -> bool,
    both: spec_fn(A) -> bool,
)
    requires
        forall|x: A| #[trigger] both(x) == (first(x) && second(x)),
    ensures
        s.filter(first).filter(second) == s.filter(both),
    decreases s.len(),
{
    if s.len() == 0 {
        lemma_filter_empty(s, first);
        lemma_filter_empty(s, both);
        lemma_filter_empty(s.filter(first), second);
    } else {
        let front = s.drop_last();
        let x = s.last();
        assert(s =~= front.push(x));
        front.lemma_filter_push(x, first);
        front.lemma_filter_push(x, both);
        front.filter(first).lemma_filter_push(x, second);
        lemma_filter_filter(front, first, second, both);
        assert(both(x) == (first(x) && second(x)));
    }
}

/// A filter that keeps no element of a sequence leaves nothing.
pub proof fn lemma_filter_none_kept<A>(s: Seq<A>, keep: spec_fn(A) -> bool)
    requires
        forall|i: int| 0 <= i < s.len() ==> !keep(#[trigger] s[i]),
    ensures
        s.filter(keep).len() == 0,
{
    if s.filter(keep).len() > 0 {
        let x = s.filter(keep)[0];
        assert(s.filter(keep).contains(x));
        lemma_filter_contains_iff(s, keep, x);
        let i = choose|i: int| 0 <= i < s.len() && s[i] == x;
        assert(!keep(s[i]));
    }
}

/// A monitor's most recent workspace is recorded in the history.
pub proof fn lemma_first_workspace_recorded(h: Seq<EntryModel>, monitor: Seq<char>)
    ensures
        first_workspace(h, monitor) is Some ==> h.contains(
            EntryModel { monitor, workspace: first_workspace(h, monitor)->Some_0 },
        ),
    decreases h.len(),
{
    if h.len() > 0 {
        if h[0].monitor != monitor {
            lemma_first_workspace_recorded(h.drop_first(), monitor);
            if first_workspace(h, monitor) is Some {
                let x = EntryModel { monitor, workspace: first_workspace(h, monitor)->Some_0 };
                let i = choose|i: int| 0 <= i < h.drop_first().len() && h.drop_first()[i] == x;
                assert(h[i + 1] == x);
            }
        } else {
            assert(h[0] == EntryModel { monitor, workspace: h[0].workspace });
        }
    }
}

/// Recording an entry adds it to the history, if it is not there yet, and
/// takes nothing else away.
pub proof fn lemma_update_contents(
    h: Seq<EntryModel>,
    monitor: Seq<char>,
    workspace: Seq<char>,
    force_front: bool,
    x: EntryModel,
)
    ensures
        updated_history(h, monitor, workspace, force_front).contains(x) <==> (h.contains(x) || x
            == (EntryModel { monitor, workspace })),
{
    let e = EntryModel { monitor, workspace };
    if first_workspace(h, monitor) == Some(workspace) && !force_front {
        lemma_first_workspace_recorded(h, monitor);
    } else {
        let rest = h.filter(other_than(e));
        let r = seq![e] + rest;
        lemma_filter_contains_iff(h, other_than(e), x);
        if r.contains(x) && x != e {
            let k = choose|k: int| 0 <= k < r.len() && r[k] == x;
            assert(rest[k - 1] == x);
        }
        if x == e {
            assert(r[0] == e);
        } else if rest.contains(x) {
            let k = choose|k: int| 0 <= k < rest.len() && rest[k] == x;
            assert(r[k + 1] == x);
        }
    }
}

/// Recording an entry keeps, in their order, all the entries that a
/// predicate false on that entry keeps.
pub proof fn lemma_update_keeps_filtered(
    h: Seq<EntryModel>,
    monitor: Seq<char>,
    workspace: Seq<char>,
    force_front: bool,
    keep: spec_fn(EntryModel) -> bool,
)
    requires
        !keep(EntryModel { monitor, workspace }),
    ensures
        updated_history(h, monitor, workspace, force_front).filter(keep) == h.filter(keep),
{
    let e = EntryModel { monitor, workspace };
    let u = updated_history(h, monitor, workspace, force_front);
    lemma_update_keeps_other_entries(h, monitor, workspace, force_front);
    assert forall|x: EntryModel| #[trigger] keep(x) == (other_than(e)(x) && keep(x)) by {}
    lemma_filter_filter(u, other_than(e), keep, keep);
    lemma_filter_filter(h, other_than(e), keep, keep);
}

/// A monitor's most recent workspace is that of its first entry: an entry
/// that no other entry of the monitor precedes.
pub proof fn lemma_first_workspace_explicit(h: Seq<EntryModel>, monitor: Seq<char>)
    ensures
        first_workspace(h, monitor) is Some ==> exists|a: int|
            0 <= a < h.len() && h[a] == (EntryModel {
                monitor,
                workspace: first_workspace(h, monitor)->Some_0,
            }) && forall|b: int| 0 <= b < a ==> #[trigger] h[b].monitor != monitor,
        first_workspace(h, monitor) is None ==> forall|b: int|
            0 <= b < h.len() ==> #[trigger] h[b].monitor != monitor,
    decreases h.len(),
{
    if h.len() > 0 {
        let t = h.drop_first();
        lemma_first_workspace_explicit(t, monitor);
        if h[0].monitor == monitor {
            assert(h[0] == (EntryModel { monitor, workspace: h[0].workspace }));
        } else {
            if first_workspace(h, monitor) is Some {
                let w = first_workspace(h, monitor)->Some_0;
                let a = choose|a: int|
                    0 <= a < t.len() && t[a] == (EntryModel { monitor, workspace: w }) && forall|
                        b: int,
                    | 0 <= b < a ==> #[trigger] t[b].monitor != monitor;
                assert(h[a + 1] == t[a]);
                assert forall|b: int| 0 <= b < a + 1 implies #[trigger] h[b].monitor != monitor by {
                    if b > 0 {
                        assert(h[b] == t[b - 1]);
                    }
                }
            } else {
                assert forall|b: int| 0 <= b < h.len() implies #[trigger] h[b].monitor != monitor by {
                    if b > 0 {
                        assert(h[b] == t[b - 1]);
                    }
                }
            }
        }
    }
}

} // verus!
