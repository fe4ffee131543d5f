//! The Todoist integration's rules: classifying API answers, the sync gate,
//! how a fetched snapshot changes local data, which cached tasks are
//! imported into which class, and how their parent links are rebuilt.
use vstd::prelude::*;
use crate::text::{is_blank, message, push_str, str_eq, string_of};

verus! {

/// A Todoist project.
pub struct TodoistProject {
    pub id: String,
    pub name: String,
    pub is_deleted: bool,
}

/// A Todoist due date, with a time when the task has one.
pub struct TodoistDue {
    pub date: String,
    pub datetime: Option<String>,
}

/// A Todoist task as the Sync API returns it.
pub struct TodoistTask {
    pub id: String,
    pub project_id: String,
    pub parent_id: Option<String>,
    pub content: String,
    pub description: Option<String>,
    pub due: Option<TodoistDue>,
    pub priority: Option<i64>,
    pub checked: bool,
    pub is_deleted: bool,
    pub completed_at: Option<String>,
    pub labels: Vec<String>,
}

/// A snapshot or delta from the Sync API.
pub struct RemoteSync {
    pub projects: Vec<TodoistProject>,
    pub items: Vec<TodoistTask>,
    pub sync_token: String,
    pub full_sync: bool,
}

/// Why a Todoist request failed.
#[derive(PartialEq, Eq, Structural)]
pub enum TodoistApiError {
    InvalidToken,
    RateLimited,
    Network,
    InvalidResponse,
}

/// What a sync brought in.
pub struct SyncResult {
    pub projects_synced: usize,
    pub tasks_synced: usize,
}

/// Whether Todoist is connected, and when it last synced.
pub struct TodoistStatus {
    pub connected: bool,
    pub last_synced_at: Option<String>,
}

/// A Todoist project and the class its tasks go to.
pub struct TodoistProjectMapping {
    pub todoist_id: String,
    pub name: String,
    pub class_id: Option<i64>,
    pub synced_at: Option<String>,
}

/// A queued completion on its way to Todoist.
pub struct TodoistOutboxEntry {
    pub id: i64,
    pub external_id: String,
    pub status: String,
    pub attempts: i64,
    pub last_error: Option<String>,
    pub updated_at: String,
}

/// The message shown for an API error.
pub open spec fn api_error_text(e: TodoistApiError) -> Seq<char> {
    match e {
        TodoistApiError::InvalidToken => "Todoist connection expired or is invalid. Reconnect in Settings."@,
        TodoistApiError::RateLimited => "Todoist is rate-limiting requests. Try syncing again shortly."@,
        TodoistApiError::Network => "Todoist couldn't be reached. Your local tasks and timer still work."@,
        TodoistApiError::InvalidResponse => "Todoist returned incomplete data. No local changes were saved. Try syncing again."@,
    }
}

impl TodoistApiError {
    /// The message shown for this error.
    pub fn message(&self) -> (r: String)
        ensures
            r@ == api_error_text(*self),
    {
        match self {
            TodoistApiError::InvalidToken => message("Todoist connection expired or is invalid. Reconnect in Settings."),
            TodoistApiError::RateLimited => message("Todoist is rate-limiting requests. Try syncing again shortly."),
            TodoistApiError::Network => message("Todoist couldn't be reached. Your local tasks and timer still work."),
            TodoistApiError::InvalidResponse => message("Todoist returned incomplete data. No local changes were saved. Try syncing again."),
        }
    }
}

/// What an HTTP status of the Sync API means: 200 is success; 401 and 403
/// an invalid token; 429 rate limiting; anything else a network failure.
pub open spec fn status_outcome(status: u16) -> Result<(), TodoistApiError> {
    if status == 200 {
        Ok(())
    } else if status == 401 || status == 403 {
        Err(TodoistApiError::InvalidToken)
    } else if status == 429 {
        Err(TodoistApiError::RateLimited)
    } else {
        Err(TodoistApiError::Network)
    }
}

/// Classifies an HTTP status of the Sync API.
pub fn classify_status(status: u16) -> (r: Result<(), TodoistApiError>)
    ensures
        r == status_outcome(status),
{
    if status == 200 {
        Ok(())
    } else if status == 401 || status == 403 {
        Err(TodoistApiError::InvalidToken)
    } else if status == 429 {
        Err(TodoistApiError::RateLimited)
    } else {
        Err(TodoistApiError::Network)
    }
}

/// A usable cursor: neither empty nor the full-sync marker "*".
pub open spec fn usable_cursor(token: Seq<char>) -> bool {
    token.len() > 0 && token != "*"@
}

/// Checks what a fetch got: its status, then a body that decoded (`None`
/// where it did not), then the new cursor.
pub fn check_fetch(status: u16, body: Option<RemoteSync>) -> (r: Result<RemoteSync, TodoistApiError>)
    ensures
        status_outcome(status) matches Err(e) ==> r == Err::<RemoteSync, TodoistApiError>(e),
        status_outcome(status) is Ok ==> match body {
            None => r == Err::<RemoteSync, TodoistApiError>(TodoistApiError::InvalidResponse),
            Some(b) => if usable_cursor(b.sync_token@) {
                r == Ok::<RemoteSync, TodoistApiError>(b)
            } else {
                r == Err::<RemoteSync, TodoistApiError>(TodoistApiError::InvalidResponse)
            },
        },
{
    classify_status(status)?;
    match body {
        None => Err(TodoistApiError::InvalidResponse),
        Some(b) => {
            if b.sync_token.as_str().is_empty() || str_eq(b.sync_token.as_str(), "*") {
                Err(TodoistApiError::InvalidResponse)
            } else {
                Ok(b)
            }
        },
    }
}

/// Checks the answer to queued commands: its status, then a body that
/// decoded, then each command's `sync_status`, which must be "ok" (`None`
/// where a command or its status is missing).
pub fn check_commands(status: u16, decoded: bool, statuses: &Vec<Option<String>>) -> (r: Result<(), TodoistApiError>)
    ensures
        status_outcome(status) matches Err(e) ==> r == Err::<(), TodoistApiError>(e),
        status_outcome(status) is Ok && !decoded ==> r == Err::<(), TodoistApiError>(TodoistApiError::InvalidResponse),
        status_outcome(status) is Ok && decoded ==> if forall|i: int| 0 <= i < statuses.len()
            ==> (#[trigger] statuses@[i] matches Some(s) && s@ == "ok"@) {
            r is Ok
        } else {
            r == Err::<(), TodoistApiError>(TodoistApiError::InvalidResponse)
        },
{
    classify_status(status)?;
    if !decoded {
        return Err(TodoistApiError::InvalidResponse);
    }
    let mut i: usize = 0;
    while i < statuses.len()
        invariant
            i <= statuses.len(),
            status_outcome(status) is Ok,
            decoded,
            forall|k: int| 0 <= k < i ==> (#[trigger] statuses@[k] matches Some(s) && s@ == "ok"@),
        decreases statuses.len() - i,
    {
        let fine = match &statuses[i] {
            Some(s) => str_eq(s.as_str(), "ok"),
            None => false,
        };
        if !fine {
            return Err(TodoistApiError::InvalidResponse);
        }
        i += 1;
    }
    Ok(())
}

/// Whether a sync or credential change is running.
pub struct SyncLock {
    running: bool,
}

impl SyncLock {
    /// Whether a sync or credential change holds the lock.
    pub closed spec fn held(&self) -> bool {
        self.running
    }

    /// An open gate.
    pub fn new() -> (r: SyncLock)
        ensures
            !r.held(),
    {
        SyncLock { running: false }
    }

    /// Frees the lock when the work is done.
    pub fn release(&mut self)
        ensures
            !final(self).held(),
    {
        self.running = false;
    }
}

/// The refusal while a sync is running.
pub open spec fn busy_message() -> Seq<char> {
    "Todoist sync is already running. Try again when it finishes."@
}

/// Takes the lock for a sync or credential change; refused while another
/// holds it.
pub fn gate(g: &mut SyncLock) -> (r: Result<(), String>)
    ensures
        old(g).held() ==> (r matches Err(m) && m@ == busy_message()) && final(g).held(),
        !old(g).held() ==> r is Ok && final(g).held(),
{
    if g.running {
        return Err(message("Todoist sync is already running. Try again when it finishes."));
    }
    g.running = true;
    Ok(())
}

/// The message for a failed local apply.
pub fn apply_failed_message() -> (r: String)
    ensures
        r@ == "TaskTimer couldn't save the Todoist sync. No partial changes were saved. Try again."@,
{
    message("TaskTimer couldn't save the Todoist sync. No partial changes were saved. Try again.")
}

/// How a closed Todoist task is recorded.
#[derive(PartialEq, Eq, Structural, Clone, Copy)]
pub enum ClosedState {
    Deleted,
    Completed,
}

/// One change a fetched snapshot makes to local data, in order.
pub enum SyncAction {
    /// A full snapshot: forget cached tasks and mark every active Todoist
    /// task unknown (absence is no proof of completion).
    ResetForFullSync,
    /// A deleted project: its tasks no longer go to a class.
    UnmapProject(String),
    /// A live project: insert it or update its name.
    UpsertProject { id: String, name: String },
    /// A deleted or completed task: record its state (completing it
    /// locally when completed) and drop it from the cache.
    CloseTask { id: String, state: ClosedState, completed_at: Option<String> },
    /// A live task: cache item `item` of snapshot `snapshot`.
    CacheTask { snapshot: usize, item: usize },
    /// The snapshot's cursor.
    SaveCursor(String),
}

/// The change for a project.
pub open spec fn project_action(p: TodoistProject) -> SyncAction {
    if p.is_deleted {
        SyncAction::UnmapProject(p.id)
    } else {
        SyncAction::UpsertProject { id: p.id, name: p.name }
    }
}

/// A live task must have content and a project.
pub open spec fn item_valid(t: TodoistTask) -> bool {
    crate::text::trimmed(t.content@).len() > 0 && t.project_id@.len() > 0
}

/// The change for item `ii` of snapshot `si`; `None` for a live task
/// without content or project, which fails the whole sync.
pub open spec fn item_action(si: int, ii: int, t: TodoistTask) -> Option<SyncAction> {
    if t.is_deleted || t.checked {
        Some(SyncAction::CloseTask {
            id: t.id,
            state: if t.is_deleted { ClosedState::Deleted } else { ClosedState::Completed },
            completed_at: t.completed_at,
        })
    } else if item_valid(t) {
        Some(SyncAction::CacheTask { snapshot: si as usize, item: ii as usize })
    } else {
        None
    }
}

/// The changes of the first `n` projects.
pub open spec fn project_actions(ps: Seq<TodoistProject>, n: int) -> Seq<SyncAction>
    decreases n,
{
    if n <= 0 {
        Seq::empty()
    } else {
        project_actions(ps, n - 1).push(project_action(ps[n - 1]))
    }
}

/// The changes of the first `n` items of snapshot `si`.
pub open spec fn item_actions(si: int, items: Seq<TodoistTask>, n: int) -> Option<Seq<SyncAction>>
    decreases n,
{
    if n <= 0 {
        Some(Seq::empty())
    } else {
        match (item_actions(si, items, n - 1), item_action(si, n - 1, items[n - 1])) {
            (Some(done), Some(a)) => Some(done.push(a)),
            _ => None,
        }
    }
}

/// The changes of snapshot `si`: the full-sync reset, the projects, the
/// items, and the cursor.
pub open spec fn snapshot_actions(si: int, s: RemoteSync) -> Option<Seq<SyncAction>> {
    let head = if s.full_sync { seq![SyncAction::ResetForFullSync] } else { Seq::empty() };
    match item_actions(si, s.items@, s.items@.len() as int) {
        Some(items) => Some(head + project_actions(s.projects@, s.projects@.len() as int) + items
            + seq![SyncAction::SaveCursor(s.sync_token)]),
        None => None,
    }
}

/// The changes of the first `n` snapshots.
pub open spec fn sync_actions(snaps: Seq<RemoteSync>, n: int) -> Option<Seq<SyncAction>>
    decreases n,
{
    if n <= 0 {
        Some(Seq::empty())
    } else {
        match (sync_actions(snaps, n - 1), snapshot_actions(n - 1, snaps[n - 1])) {
            (Some(done), Some(more)) => Some(done + more),
            _ => None,
        }
    }
}

/// The live projects among the first `n`.
pub open spec fn live_projects(ps: Seq<TodoistProject>, n: int) -> nat
    decreases n,
{
    if n <= 0 {
        0
    } else {
        live_projects(ps, n - 1) + if ps[n - 1].is_deleted { 0nat } else { 1nat }
    }
}

/// The live projects of the first `n` snapshots.
pub open spec fn synced_projects(snaps: Seq<RemoteSync>, n: int) -> nat
    decreases n,
{
    if n <= 0 {
        0
    } else {
        synced_projects(snaps, n - 1) + live_projects(snaps[n - 1].projects@, snaps[n - 1].projects@.len() as int)
    }
}

fn copy_opt(s: &Option<String>) -> (r: Option<String>)
    ensures
        r == *s,
{
    match s {
        Some(t) => Some(t.clone()),
        None => None,
    }
}

proof fn lemma_live_bound(ps: Seq<TodoistProject>, n: int)
    requires
        0 <= n <= ps.len(),
    ensures
        live_projects(ps, n) <= n,
    decreases n,
{
    if n > 0 {
        lemma_live_bound(ps, n - 1);
    }
}

proof fn lemma_items_fail_stays(si: int, items: Seq<TodoistTask>, k: int, n: int)
    requires
        0 <= k <= n,
        item_actions(si, items, k) is None,
    ensures
        item_actions(si, items, n) is None,
    decreases n - k,
{
    if n > k {
        lemma_items_fail_stays(si, items, k, n - 1);
    }
}

proof fn lemma_sync_fail_stays(snaps: Seq<RemoteSync>, k: int, n: int)
    requires
        0 <= k <= n,
        sync_actions(snaps, k) is None,
    ensures
        sync_actions(snaps, n) is None,
    decreases n - k,
{
    if n > k {
        lemma_sync_fail_stays(snaps, k, n - 1);
    }
}

fn push_all(out: &mut Vec<SyncAction>, more: Vec<SyncAction>)
    ensures
        final(out)@ == old(out)@ + more@,
{
    let ghost start = out@;
    let ghost all = more@;
    let n = more.len();
    let mut more = more;
    let mut k: usize = 0;
    while k < n
        invariant
            n == all.len(),
            k <= n,
            more@ == all.subrange(k as int, n as int),
            out@ == start + all.take(k as int),
        decreases n - k,
    {
        assert(more@[0] == all[k as int]);
        let a = more.remove(0);
        assert(more@ =~= all.subrange(k + 1, n as int));
        out.push(a);
        assert(out@ =~= start + all.take(k + 1));
        k += 1;
    }
    assert(all.take(n as int) =~= all);
}

/// The changes of one snapshot, or `None` where a live task lacks content
/// or a project; with the number of live projects.
fn plan_snapshot(si: usize, s: &RemoteSync) -> (r: Option<(Vec<SyncAction>, usize)>)
    ensures
        match snapshot_actions(si as int, *s) {
            Some(acts) => r matches Some(p) && p.0@ == acts
                && p.1 as int == live_projects(s.projects@, s.projects@.len() as int),
            None => r is None,
        },
{
    let mut out: Vec<SyncAction> = Vec::new();
    if s.full_sync {
        out.push(SyncAction::ResetForFullSync);
    }
    let ghost head = out@;
    let mut live: usize = 0;
    let mut k: usize = 0;
    while k < s.projects.len()
        invariant
            k <= s.projects.len(),
            out@ == head + project_actions(s.projects@, k as int),
            live as int == live_projects(s.projects@, k as int),
            live <= k,
        decreases s.projects.len() - k,
    {
        let p = &s.projects[k];
        let a = if p.is_deleted {
            SyncAction::UnmapProject(p.id.clone())
        } else {
            live = live + 1;
            SyncAction::UpsertProject { id: p.id.clone(), name: p.name.clone() }
        };
        assert(a == project_action(s.projects@[k as int]));
        out.push(a);
        assert(out@ =~= head + project_actions(s.projects@, k + 1));
        k += 1;
    }
    let ghost with_projects = out@;
    let mut j: usize = 0;
    while j < s.items.len()
        invariant
            j <= s.items.len(),
            item_actions(si as int, s.items@, j as int) matches Some(done) && out@ == with_projects + done,
        decreases s.items.len() - j,
    {
        let t = &s.items[j];
        let ghost done = item_actions(si as int, s.items@, j as int)->Some_0;
        if t.is_deleted || t.checked {
            let state = if t.is_deleted { ClosedState::Deleted } else { ClosedState::Completed };
            let a = SyncAction::CloseTask { id: t.id.clone(), state, completed_at: copy_opt(&t.completed_at) };
            assert(item_action(si as int, j as int, s.items@[j as int]) == Some(a));
            out.push(a);
        } else {
            if is_blank(t.content.as_str()) || t.project_id.as_str().is_empty() {
                proof {
                    assert(item_action(si as int, j as int, s.items@[j as int]) is None);
                    lemma_items_fail_stays(si as int, s.items@, j + 1, s.items@.len() as int);
                }
                return None;
            }
            let a = SyncAction::CacheTask { snapshot: si, item: j };
            assert(item_action(si as int, j as int, s.items@[j as int]) == Some(a));
            out.push(a);
        }
        assert(out@ =~= with_projects + done.push(out@.last()));
        j += 1;
    }
    out.push(SyncAction::SaveCursor(s.sync_token.clone()));
    let ghost items = item_actions(si as int, s.items@, s.items@.len() as int)->Some_0;
    assert(out@ =~= head + project_actions(s.projects@, s.projects@.len() as int) + items
        + seq![SyncAction::SaveCursor(s.sync_token)]);
    Some((out, live))
}

/// The total number of projects in the snapshots.
pub open spec fn project_total(snaps: Seq<RemoteSync>, n: int) -> int
    decreases n,
{
    if n <= 0 {
        0
    } else {
        project_total(snaps, n - 1) + snaps[n - 1].projects@.len()
    }
}

/// Whether `plan_sync` can count the snapshots' projects: their number
/// fits a `usize`.
pub fn projects_fit(snapshots: &Vec<RemoteSync>) -> (r: bool)
    ensures
        r == (project_total(snapshots@, snapshots.len() as int) <= usize::MAX),
{
    let mut acc: usize = 0;
    let mut i: usize = 0;
    while i < snapshots.len()
        invariant
            i <= snapshots.len(),
            acc as int == project_total(snapshots@, i as int),
        decreases snapshots.len() - i,
    {
        match acc.checked_add(snapshots[i].projects.len()) {
            Some(next) => {
                acc = next;
            },
            None => {
                proof {
                    lemma_project_total_grows(snapshots@, i + 1, snapshots.len() as int);
                }
                return false;
            },
        }
        i += 1;
    }
    true
}

/// The local changes that the fetched snapshots make, in order, and the
/// number of live projects they synced; refused (the whole sync rolls
/// back) where a live task lacks content or a project.
pub fn plan_sync(snapshots: &Vec<RemoteSync>) -> (r: Result<(Vec<SyncAction>, usize), String>)
    requires
        project_total(snapshots@, snapshots.len() as int) <= usize::MAX,
    ensures
        match sync_actions(snapshots@, snapshots.len() as int) {
            Some(acts) => r matches Ok(p) && p.0@ == acts
                && p.1 as int == synced_projects(snapshots@, snapshots.len() as int),
            None => r matches Err(m) && m@ == "TaskTimer couldn't save the Todoist sync. No partial changes were saved. Try again."@,
        },
{
    let mut out: Vec<SyncAction> = Vec::new();
    let mut live: usize = 0;
    let mut k: usize = 0;
    while k < snapshots.len()
        invariant
            k <= snapshots.len(),
            project_total(snapshots@, snapshots.len() as int) <= usize::MAX,
            sync_actions(snapshots@, k as int) matches Some(done) && out@ == done,
            live as int == synced_projects(snapshots@, k as int),
            synced_projects(snapshots@, k as int) <= project_total(snapshots@, k as int),
        decreases snapshots.len() - k,
    {
        match plan_snapshot(k, &snapshots[k]) {
            None => {
                proof {
                    lemma_sync_fail_stays(snapshots@, k + 1, snapshots.len() as int);
                }
                return Err(apply_failed_message());
            },
            Some((acts, n)) => {
                proof {
                    lemma_live_bound(snapshots@[k as int].projects@, snapshots@[k as int].projects@.len() as int);
                    lemma_project_total_grows(snapshots@, k + 1, snapshots.len() as int);
                }
                push_all(&mut out, acts);
                live = live + n;
            },
        }
        k += 1;
    }
    Ok((out, live))
}

/// Item `ii` of snapshot `si` reports task `id` deleted or completed.
pub open spec fn reports_closed(snaps: Seq<RemoteSync>, si: int, ii: int, id: String) -> bool {
    &&& 0 <= si < snaps.len()
    &&& 0 <= ii < snaps[si].items@.len()
    &&& snaps[si].items@[ii].id == id
    &&& (snaps[si].items@[ii].is_deleted || snaps[si].items@[ii].checked)
}

proof fn lemma_project_actions_close_nothing(ps: Seq<TodoistProject>, n: int)
    requires
        0 <= n <= ps.len(),
    ensures
        project_actions(ps, n).len() == n,
        forall|k: int| 0 <= k < n ==> !(#[trigger] project_actions(ps, n)[k] is CloseTask),
    decreases n,
{
    if n > 0 {
        lemma_project_actions_close_nothing(ps, n - 1);
        assert forall|k: int| 0 <= k < n implies !(#[trigger] project_actions(ps, n)[k] is CloseTask) by {
            if k < n - 1 {
                assert(project_actions(ps, n)[k] == project_actions(ps, n - 1)[k]);
            }
        }
    }
}

proof fn lemma_item_closes_are_reported(snaps: Seq<RemoteSync>, si: int, n: int)
    requires
        0 <= si < snaps.len(),
        0 <= n <= snaps[si].items@.len(),
        item_actions(si, snaps[si].items@, n) is Some,
    ensures
        forall|k: int| 0 <= k < item_actions(si, snaps[si].items@, n)->Some_0.len()
            && (#[trigger] item_actions(si, snaps[si].items@, n)->Some_0[k]) is CloseTask
            ==> exists|ii: int| reports_closed(snaps, si, ii, item_actions(si, snaps[si].items@, n)->Some_0[k]->CloseTask_id),
    decreases n,
{
    if n > 0 {
        let items = snaps[si].items@;
        lemma_item_closes_are_reported(snaps, si, n - 1);
        let done = item_actions(si, items, n - 1)->Some_0;
        let all = item_actions(si, items, n)->Some_0;
        assert forall|k: int| 0 <= k < all.len() && (#[trigger] all[k]) is CloseTask
            implies exists|ii: int| reports_closed(snaps, si, ii, all[k]->CloseTask_id) by {
            if k < done.len() {
                assert(all[k] == done[k]);
            } else {
                assert(reports_closed(snaps, si, n - 1, all[k]->CloseTask_id));
            }
        }
    }
}

/// Law: a sync closes (as deleted or completed) only tasks that a fetched
/// snapshot reports deleted or completed; a task missing from a full
/// snapshot is never taken to be completed.
pub proof fn sync_closes_only_reported_tasks(snaps: Seq<RemoteSync>, n: int)
    requires
        0 <= n <= snaps.len(),
        sync_actions(snaps, n) is Some,
    ensures
        forall|k: int| 0 <= k < sync_actions(snaps, n)->Some_0.len()
            && (#[trigger] sync_actions(snaps, n)->Some_0[k]) is CloseTask
            ==> exists|si: int, ii: int| reports_closed(snaps, si, ii, sync_actions(snaps, n)->Some_0[k]->CloseTask_id),
    decreases n,
{
    if n > 0 {
        sync_closes_only_reported_tasks(snaps, n - 1);
        let s = snaps[n - 1];
        let done = sync_actions(snaps, n - 1)->Some_0;
        let items = item_actions(n - 1, s.items@, s.items@.len() as int)->Some_0;
        let head = if s.full_sync { seq![SyncAction::ResetForFullSync] } else { Seq::<SyncAction>::empty() };
        let ps = project_actions(s.projects@, s.projects@.len() as int);
        let more = head + ps + items + seq![SyncAction::SaveCursor(s.sync_token)];
        assert(snapshot_actions(n - 1, s) == Some(more));
        let all = sync_actions(snaps, n)->Some_0;
        assert(all == done + more);
        lemma_project_actions_close_nothing(s.projects@, s.projects@.len() as int);
        lemma_item_closes_are_reported(snaps, n - 1, s.items@.len() as int);
        assert forall|k: int| 0 <= k < all.len() && (#[trigger] all[k]) is CloseTask
            implies exists|si: int, ii: int| reports_closed(snaps, si, ii, all[k]->CloseTask_id) by {
            if k < done.len() {
                assert(all[k] == done[k]);
            } else {
                let m = k - done.len();
                assert(all[k] == more[m]);
                let h = head.len() as int;
                let p = ps.len() as int;
                if m < h {
                } else if m < h + p {
                    assert(more[m] == ps[m - h]);
                } else if m < h + p + items.len() {
                    assert(more[m] == items[m - h - p]);
                    let ii = choose|ii: int| #[trigger] reports_closed(snaps, n - 1, ii, items[m - h - p]->CloseTask_id);
                    assert(reports_closed(snaps, n - 1, ii, all[k]->CloseTask_id));
                } else {
                    assert(more[m] == SyncAction::SaveCursor(s.sync_token));
                }
            }
        }
    }
}

proof fn lemma_project_total_grows(snaps: Seq<RemoteSync>, k: int, n: int)
    requires
        0 <= k <= n,
    ensures
        project_total(snaps, k) <= project_total(snaps, n),
    decreases n - k,
{
    if n > k {
        lemma_project_total_grows(snaps, k, n - 1);
    }
}

/// The class a cached task goes to: its project's class, else the first
/// of its labels that names an active class (`label_classes[i]` is the
/// class label `i` names, if any).
pub open spec fn class_for(project_class: Option<i64>, label_classes: Seq<Option<i64>>) -> Option<i64>
    decreases label_classes.len(),
{
    if project_class is Some {
        project_class
    } else if label_classes.len() == 0 {
        None
    } else if label_classes[0] is Some {
        label_classes[0]
    } else {
        class_for(None, label_classes.drop_first())
    }
}

/// The class a cached task goes to.
pub fn resolve_class(project_class: Option<i64>, label_classes: &Vec<Option<i64>>) -> (r: Option<i64>)
    ensures
        r == class_for(project_class, label_classes@),
{
    if project_class.is_some() {
        return project_class;
    }
    let mut k: usize = 0;
    assert(label_classes@.subrange(0, label_classes.len() as int) =~= label_classes@);
    while k < label_classes.len()
        invariant
            k <= label_classes.len(),
            project_class is None,
            class_for(None, label_classes@) == class_for(None, label_classes@.subrange(k as int, label_classes.len() as int)),
        decreases label_classes.len() - k,
    {
        let ghost rest = label_classes@.subrange(k as int, label_classes.len() as int);
        assert(rest[0] == label_classes@[k as int]);
        assert(rest.drop_first() =~= label_classes@.subrange(k + 1, label_classes.len() as int));
        if label_classes[k].is_some() {
            return label_classes[k];
        }
        k += 1;
    }
    None
}

/// A task's due value: its date and time when it has one, else its date.
pub fn due_value(t: &TodoistTask) -> (r: Option<String>)
    ensures
        match t.due {
            Some(d) => r == Some(match d.datetime {
                Some(x) => x,
                None => d.date,
            }),
            None => r is None,
        },
{
    match &t.due {
        Some(d) => match &d.datetime {
            Some(x) => Some(x.clone()),
            None => Some(d.date.clone()),
        },
        None => None,
    }
}

/// The first cached task with id `id`.
pub open spec fn find_task(tasks: Seq<TodoistTask>, id: Seq<char>, from: int) -> Option<int>
    decreases tasks.len() - from,
{
    if from < 0 || from >= tasks.len() {
        None
    } else if tasks[from].id@ == id {
        Some(from)
    } else {
        find_task(tasks, id, from + 1)
    }
}

/// The `k`th ancestor id named above task `i` (the first is its parent):
/// each next one is the parent of the task with the previous id.
pub open spec fn ancestor(tasks: Seq<TodoistTask>, i: int, k: nat) -> Option<Seq<char>>
    decreases k,
{
    if k == 0 {
        Some(tasks[i].id@)
    } else if k == 1 {
        match tasks[i].parent_id {
            Some(p) => Some(p@),
            None => None,
        }
    } else {
        match ancestor(tasks, i, (k - 1) as nat) {
            Some(a) => match find_task(tasks, a, 0) {
                Some(j) => match tasks[j].parent_id {
                    Some(p) => Some(p@),
                    None => None,
                },
                None => None,
            },
            None => None,
        }
    }
}

/// Walking up from task `i` meets an id it has met before: the parent
/// links are malformed.
pub open spec fn loops_above(tasks: Seq<TodoistTask>, i: int) -> bool {
    exists|j: nat, k: nat| j < k && #[trigger] ancestor(tasks, i, j) is Some && ancestor(tasks, i, j) == #[trigger] ancestor(tasks, i, k)
}

proof fn lemma_find_task(tasks: Seq<TodoistTask>, id: Seq<char>, from: int)
    requires
        0 <= from,
    ensures
        find_task(tasks, id, from) matches Some(j) ==> from <= j < tasks.len() && tasks[j].id@ == id,
        find_task(tasks, id, from) is None ==> forall|j: int| from <= j < tasks.len() ==> tasks[j].id@ != id,
    decreases tasks.len() - from,
{
    if 0 <= from < tasks.len() && tasks[from].id@ != id {
        lemma_find_task(tasks, id, from + 1);
    }
}

proof fn lemma_distinct_bounded(s: Seq<int>, n: int)
    requires
        0 <= n,
        s.no_duplicates(),
        forall|i: int| 0 <= i < s.len() ==> 0 <= #[trigger] s[i] < n,
    ensures
        s.len() <= n,
{
    s.unique_seq_to_set();
    vstd::set_lib::lemma_int_range(0, n);
    assert(s.to_set().subset_of(vstd::set_lib::set_int_range(0, n)));
    vstd::set_lib::lemma_len_subset(s.to_set(), vstd::set_lib::set_int_range(0, n));
}

fn find_task_exec(tasks: &Vec<TodoistTask>, id: &String) -> (r: Option<usize>)
    ensures
        match find_task(tasks@, id@, 0) {
            Some(j) => r == Some(j as usize) && j < tasks.len(),
            None => r is None,
        },
{
    proof {
        lemma_find_task(tasks@, id@, 0);
    }
    let mut k: usize = 0;
    while k < tasks.len()
        invariant
            k <= tasks.len(),
            find_task(tasks@, id@, 0) == find_task(tasks@, id@, k as int),
        decreases tasks.len() - k,
    {
        if str_eq(tasks[k].id.as_str(), id.as_str()) {
            return Some(k);
        }
        k += 1;
    }
    None
}

proof fn lemma_ancestor_stops(tasks: Seq<TodoistTask>, i: int, k: nat, m: nat)
    requires
        1 <= k <= m,
        ancestor(tasks, i, k) is None,
    ensures
        ancestor(tasks, i, m) is None,
    decreases m - k,
{
    if m > k {
        lemma_ancestor_stops(tasks, i, k, (m - 1) as nat);
    }
}

/// Whether walking up from task `i` meets an id twice.
fn walk_loops(tasks: &Vec<TodoistTask>, i: usize) -> (r: bool)
    requires
        i < tasks.len(),
    ensures
        r == loops_above(tasks@, i as int),
{
    let n = tasks.len();
    let mut seen: Vec<String> = Vec::new();
    seen.push(tasks[i].id.clone());
    let mut cur: Option<String> = copy_opt(&tasks[i].parent_id);
    let ghost mut k: nat = 1;
    let ghost mut found: Seq<int> = Seq::empty();
    assert(ancestor(tasks@, i as int, 0) == Some(tasks@[i as int].id@));
    while cur.is_some()
        invariant
            i < n == tasks.len(),
            k >= 1,
            seen.len() == k,
            forall|j: int| 0 <= j < k ==> ancestor(tasks@, i as int, j as nat) == Some((#[trigger] seen@[j])@),
            forall|a: int, b: int| 0 <= a < b < k ==> (#[trigger] seen@[a])@ != (#[trigger] seen@[b])@,
            match cur {
                Some(c) => ancestor(tasks@, i as int, k) == Some(c@),
                None => ancestor(tasks@, i as int, k) is None,
            },
            cur is Some ==> found.len() == k - 1,
            found.len() + 2 >= k,
            found.no_duplicates(),
            forall|q: int| 0 <= q < found.len() ==> 0 <= #[trigger] found[q] < n,
            forall|q: int| 0 <= q < found.len() ==> tasks@[#[trigger] found[q]].id@ == seen@[q + 1]@,
            found.len() < k,
            cur is Some ==> k - 1 <= n,
            k <= n + 2,
        decreases n + 2 - k,
    {
        let c = match &cur {
            Some(c) => c.clone(),
            None => {
                return false;
            },
        };
        if crate::tasks::contains_text(&seen, &c) {
            proof {
                let j = choose|j: int| 0 <= j < crate::tasks::texts(seen@).len() && crate::tasks::texts(seen@)[j] == c@;
                assert(seen@[j]@ == c@);
                assert(ancestor(tasks@, i as int, j as nat) is Some);
                assert(ancestor(tasks@, i as int, j as nat) == ancestor(tasks@, i as int, k));
                assert((j as nat) < k);
            }
            return true;
        }
        let ghost old_seen = seen@;
        seen.push(c.clone());
        let next = match find_task_exec(tasks, &c) {
            Some(j) => {
                proof {
                    lemma_find_task(tasks@, c@, 0);
                }
                copy_opt(&tasks[j].parent_id)
            },
            None => None,
        };
        proof {
            assert(ancestor(tasks@, i as int, k + 1) == match find_task(tasks@, c@, 0) {
                Some(j) => match tasks@[j].parent_id {
                    Some(p) => Some(p@),
                    None => None,
                },
                None => None::<Seq<char>>,
            });
            assert forall|a: int, b: int| 0 <= a < b < k + 1 implies (#[trigger] seen@[a])@ != (#[trigger] seen@[b])@ by {
                if b == k {
                    assert(seen@[b] == c);
                    assert(seen@[a] == old_seen[a]);
                    assert(!crate::tasks::texts(old_seen).contains(c@));
                    assert(crate::tasks::texts(old_seen)[a] == old_seen[a]@);
                } else {
                    assert(seen@[a] == old_seen[a] && seen@[b] == old_seen[b]);
                }
            }
            assert forall|j: int| 0 <= j < k + 1 implies ancestor(tasks@, i as int, j as nat) == Some((#[trigger] seen@[j])@) by {
                if j < k {
                    assert(seen@[j] == old_seen[j]);
                }
            }
            if next is Some {
                lemma_find_task(tasks@, c@, 0);
                let fj = find_task(tasks@, c@, 0)->Some_0;
                let nf = found.push(fj);
                assert forall|x: int, y: int| 0 <= x < nf.len() && 0 <= y < nf.len() && x != y implies nf[x] != nf[y] by {
                    if x < found.len() && y < found.len() {
                    } else {
                        let (a, b) = if x < y { (x, y) } else { (y, x) };
                        assert(b == found.len());
                        assert(tasks@[nf[b]].id@ == c@);
                        assert(nf[a] == found[a]);
                        assert(tasks@[found[a]].id@ == old_seen[a + 1]@);
                        assert(old_seen[a + 1] == seen@[a + 1]);
                        assert(seen@[a + 1]@ != seen@[k as int]@);
                    }
                }
                assert forall|q: int| 0 <= q < nf.len() implies tasks@[#[trigger] nf[q]].id@ == seen@[q + 1]@ by {
                    if q < found.len() {
                        assert(nf[q] == found[q]);
                        assert(seen@[q + 1] == old_seen[q + 1]);
                    } else {
                        assert(seen@[q + 1] == c);
                    }
                }
                found = nf;
                lemma_distinct_bounded(found, n as int);
            }
            k = k + 1;
        }
        cur = next;
    }
    proof {
        assert forall|a: nat, b: nat| a < b && #[trigger] ancestor(tasks@, i as int, a) is Some
            implies ancestor(tasks@, i as int, a) != #[trigger] ancestor(tasks@, i as int, b) by {
            if b >= k {
                lemma_ancestor_stops(tasks@, i as int, k, b);
            } else {
                assert(seen@[a as int]@ != seen@[b as int]@);
            }
        }
    }
    false
}

/// What reconciling the cached tasks does: the tasks imported, each with
/// its class, and the parent links rebuilt between them.
pub struct ImportPlan {
    pub imports: Vec<(usize, i64)>,
    pub links: Vec<(usize, usize)>,
}

/// The imported tasks among the first `n`, with their classes.
pub open spec fn imports_of(classes: Seq<Option<i64>>, n: int) -> Seq<(usize, i64)>
    decreases n,
{
    if n <= 0 {
        Seq::empty()
    } else {
        let rest = imports_of(classes, n - 1);
        match classes[n - 1] {
            Some(c) => rest.push(((n - 1) as usize, c)),
            None => rest,
        }
    }
}

/// The parent link of imported task `i`: to its parent when that task is
/// imported too and in the same project.
pub open spec fn link_of(tasks: Seq<TodoistTask>, classes: Seq<Option<i64>>, i: int) -> Option<(usize, usize)> {
    if classes[i] is Some && tasks[i].parent_id is Some {
        match find_task(tasks, tasks[i].parent_id->Some_0@, 0) {
            Some(j) => if classes[j] is Some && tasks[j].project_id@ == tasks[i].project_id@ {
                Some((i as usize, j as usize))
            } else {
                None
            },
            None => None,
        }
    } else {
        None
    }
}

/// The parent links among the first `n` tasks.
pub open spec fn links_of(tasks: Seq<TodoistTask>, classes: Seq<Option<i64>>, n: int) -> Seq<(usize, usize)>
    decreases n,
{
    if n <= 0 {
        Seq::empty()
    } else {
        let rest = links_of(tasks, classes, n - 1);
        match link_of(tasks, classes, n - 1) {
            Some(l) => rest.push(l),
            None => rest,
        }
    }
}

/// Some imported task with a parent sits on malformed parent links.
pub open spec fn malformed(tasks: Seq<TodoistTask>, classes: Seq<Option<i64>>) -> bool {
    exists|i: int| 0 <= i < tasks.len() && classes[i] is Some && tasks[i].parent_id is Some && #[trigger] loops_above(tasks, i)
}

/// Plans the import of the cached tasks, given each one's class (see
/// `resolve_class`); refused (the sync rolls back) where parent links
/// loop.
pub fn reconcile_plan(tasks: &Vec<TodoistTask>, classes: &Vec<Option<i64>>) -> (r: Result<ImportPlan, String>)
    requires
        classes.len() == tasks.len(),
    ensures
        malformed(tasks@, classes@) ==> (r matches Err(m) && m@ == "TaskTimer couldn't save the Todoist sync. No partial changes were saved. Try again."@),
        !malformed(tasks@, classes@) ==> (r matches Ok(p) && p.imports@ == imports_of(classes@, tasks.len() as int)
            && p.links@ == links_of(tasks@, classes@, tasks.len() as int)),
{
    let n = tasks.len();
    let mut imports: Vec<(usize, i64)> = Vec::new();
    let mut k: usize = 0;
    while k < n
        invariant
            n == tasks.len() == classes.len(),
            k <= n,
            imports@ == imports_of(classes@, k as int),
        decreases n - k,
    {
        if let Some(c) = classes[k] {
            imports.push((k, c));
        }
        k += 1;
    }
    let mut links: Vec<(usize, usize)> = Vec::new();
    let mut i: usize = 0;
    while i < n
        invariant
            n == tasks.len() == classes.len(),
            i <= n,
            links@ == links_of(tasks@, classes@, i as int),
            forall|q: int| 0 <= q < i && classes@[q] is Some && tasks@[q].parent_id is Some ==> !#[trigger] loops_above(tasks@, q),
        decreases n - i,
    {
        if classes[i].is_some() {
            match &tasks[i].parent_id {
                Some(p) => {
                    if walk_loops(tasks, i) {
                        return Err(apply_failed_message());
                    }
                    match find_task_exec(tasks, p) {
                        Some(j) => {
                            proof {
                                lemma_find_task(tasks@, p@, 0);
                            }
                            if classes[j].is_some() && str_eq(tasks[j].project_id.as_str(), tasks[i].project_id.as_str()) {
                                links.push((i, j));
                            }
                        },
                        None => {},
                    }
                },
                None => {},
            }
        }
        i += 1;
    }
    proof {
        assert(!malformed(tasks@, classes@));
    }
    Ok(ImportPlan { imports, links })
}

/// Law: reconciling imports each cached task at most once, in cache order,
/// and exactly the tasks that have a class; each gets at most one parent
/// link. Applying the same plan twice therefore creates no duplicates.
pub proof fn imports_are_unique(tasks: Seq<TodoistTask>, classes: Seq<Option<i64>>, n: int)
    requires
        0 <= n <= classes.len(),
        classes.len() == tasks.len(),
        classes.len() <= usize::MAX,
    ensures
        forall|i: int, j: int| 0 <= i < j < imports_of(classes, n).len()
            ==> (#[trigger] imports_of(classes, n)[i]).0 < (#[trigger] imports_of(classes, n)[j]).0,
        forall|i: int| 0 <= i < imports_of(classes, n).len() ==> {
            let (t, c) = #[trigger] imports_of(classes, n)[i];
            t < n && classes[t as int] == Some(c)
        },
        forall|t: int| 0 <= t < n && (#[trigger] classes[t]) is Some
            ==> exists|i: int| 0 <= i < imports_of(classes, n).len() && imports_of(classes, n)[i].0 == t,
        forall|i: int, j: int| 0 <= i < j < links_of(tasks, classes, n).len()
            ==> (#[trigger] links_of(tasks, classes, n)[i]).0 < (#[trigger] links_of(tasks, classes, n)[j]).0,
        forall|i: int| 0 <= i < links_of(tasks, classes, n).len() ==> (#[trigger] links_of(tasks, classes, n)[i]).0 < n,
    decreases n,
{
    if n > 0 {
        imports_are_unique(tasks, classes, n - 1);
        let rest = imports_of(classes, n - 1);
        let all = imports_of(classes, n);
        assert forall|t: int| 0 <= t < n && (#[trigger] classes[t]) is Some
            implies exists|i: int| 0 <= i < all.len() && all[i].0 == t by {
            if t < n - 1 {
                let i = choose|i: int| 0 <= i < rest.len() && rest[i].0 == t;
                assert(all[i] == rest[i]);
            } else {
                assert(all[all.len() - 1].0 == t);
            }
        }
        assert forall|i: int, j: int| 0 <= i < j < all.len() implies (#[trigger] all[i]).0 < (#[trigger] all[j]).0 by {
            if j < rest.len() {
                assert(all[i] == rest[i] && all[j] == rest[j]);
            } else {
                assert(all[i] == rest[i]);
            }
        }
        assert forall|i: int| 0 <= i < all.len() implies {
            let (t, c) = #[trigger] all[i];
            t < n && classes[t as int] == Some(c)
        } by {
            if i < rest.len() {
                assert(all[i] == rest[i]);
            }
        }
        let lrest = links_of(tasks, classes, n - 1);
        let lall = links_of(tasks, classes, n);
        assert forall|i: int, j: int| 0 <= i < j < lall.len() implies (#[trigger] lall[i]).0 < (#[trigger] lall[j]).0 by {
            if j < lrest.len() {
                assert(lall[i] == lrest[i] && lall[j] == lrest[j]);
            } else {
                assert(lall[i] == lrest[i]);
            }
        }
        assert forall|i: int| 0 <= i < lall.len() implies (#[trigger] lall[i]).0 < n by {
            if i < lrest.len() {
                assert(lall[i] == lrest[i]);
            }
        }
    }
}

/// A hexadecimal digit, lower case, for `0 <= n < 16`.
pub open spec fn hex_digit(n: int) -> char {
    if n < 10 {
        (48 + n) as char
    } else {
        (87 + n) as char
    }
}

/// How serde_json writes one character inside a JSON string: the quote and
/// the backslash with a backslash before them; backspace, tab, line feed,
/// form feed and carriage return as `\b`, `\t`, `\n`, `\f`, `\r`; the other
/// control characters below 0x20 as `\u00` and two hex digits; every other
/// character as it is.
pub open spec fn json_char(c: char) -> Seq<char> {
    if c == '"' {
        seq!['\\', '"']
    } else if c == '\\' {
        seq!['\\', '\\']
    } else if c == '\x08' {
        seq!['\\', 'b']
    } else if c == '\t' {
        seq!['\\', 't']
    } else if c == '\n' {
        seq!['\\', 'n']
    } else if c == '\x0c' {
        seq!['\\', 'f']
    } else if c == '\r' {
        seq!['\\', 'r']
    } else if (c as int) < 32 {
        seq!['\\', 'u', '0', '0', hex_digit((c as int) / 16), hex_digit((c as int) % 16)]
    } else {
        seq![c]
    }
}

/// The characters of `s`, each escaped as in a JSON string.
pub open spec fn json_escaped(s: Seq<char>) -> Seq<char>
    decreases s.len(),
{
    if s.len() == 0 {
        Seq::empty()
    } else {
        json_escaped(s.drop_last()) + json_char(s.last())
    }
}

/// The JSON text of a string: escaped, between quotes.
pub open spec fn json_quoted(s: Seq<char>) -> Seq<char> {
    seq!['"'] + json_escaped(s) + seq!['"']
}

/// The compact JSON text of a sync command `{"type": ty, "uuid": uuid,
/// "args": {"id": id}}`. serde_json (built here without its
/// `preserve_order` feature) keeps object keys in a `BTreeMap`, so they come
/// out sorted: `args`, `type`, `uuid`.
pub open spec fn command_text(ty: Seq<char>, uuid: Seq<char>, id: Seq<char>) -> Seq<char> {
    "{\"args\":{\"id\":"@ + json_quoted(id) + "},\"type\":"@ + json_quoted(ty) + ",\"uuid\":"@ + json_quoted(uuid)
        + "}"@
}

/// Builds the command object as a `serde_json::Value` and writes it with
/// `Value::to_string` (compact): the text is `command_text` of the three
/// strings.
#[verifier::external_body]
fn command_json(ty: &str, uuid: &str, id: &str) -> (r: String)
    ensures
        r@ == command_text(ty@, uuid@, id@),
{
    let mut args = serde_json::Map::new();
    args.insert("id".to_string(), serde_json::Value::String(id.to_string()));
    let mut command = serde_json::Map::new();
    command.insert("type".to_string(), serde_json::Value::String(ty.to_string()));
    command.insert("uuid".to_string(), serde_json::Value::String(uuid.to_string()));
    command.insert("args".to_string(), serde_json::Value::Object(args));
    serde_json::Value::Object(command).to_string()
}

/// A fresh command id from `uuid::Uuid::new_v4`. Random: nothing is
/// promised of it but that it is some text.
#[verifier::external_body]
fn new_command_uuid() -> (r: String) {
    uuid::Uuid::new_v4().to_string()
}

/// The queued command that completes a Todoist task.
pub open spec fn completion_payload(external_id: Seq<char>, uuid: Seq<char>) -> Seq<char> {
    command_text("item_complete"@, uuid, external_id)
}

/// The refusal to complete a local task through Todoist.
pub open spec fn not_todoist_text() -> Seq<char> {
    "This "@ + "task is not a Todoist task."@
}

fn not_todoist_message() -> (r: String)
    ensures
        r@ == not_todoist_text(),
{
    let mut v: Vec<char> = Vec::new();
    push_str(&mut v, "This ");
    push_str(&mut v, "task is not a Todoist task.");
    string_of(v.as_slice())
}

/// A completion to queue: the command id and the command's JSON.
pub struct QueuedCompletion {
    pub uuid: String,
    pub payload: String,
}

/// What completing a Todoist task queues. `task` is the task's external id
/// and source (`None` when there is no such task); `already_queued` tells
/// whether a completion for it is pending, sending or done. Answers the
/// command to queue (the task is then completed locally), nothing when one
/// is already queued, or a refusal for a task that is not from Todoist.
pub fn completion_command(task: Option<(Option<String>, String)>, already_queued: bool) -> (r: Result<Option<QueuedCompletion>, String>)
    ensures
        task is None ==> (r matches Err(m) && m@ == "Task not found"@),
        task matches Some(t) ==> if t.1@ != "todoist"@ || t.0 is None {
            r matches Err(m) && m@ == not_todoist_text()
        } else if already_queued {
            r matches Ok(q) && q is None
        } else {
            r matches Ok(q) && q matches Some(c) && c.payload@ == completion_payload(t.0->Some_0@, c.uuid@)
        },
{
    let (external_id, source) = match task {
        None => {
            return Err(message("Task not found"));
        },
        Some(t) => t,
    };
    let id = match external_id {
        Some(id) => id,
        None => {
            return Err(not_todoist_message());
        },
    };
    if !str_eq(source.as_str(), "todoist") {
        return Err(not_todoist_message());
    }
    if already_queued {
        return Ok(None);
    }
    let uuid = new_command_uuid();
    let payload = command_json("item_complete", uuid.as_str(), id.as_str());
    Ok(Some(QueuedCompletion { uuid, payload }))
}

} // verus!
