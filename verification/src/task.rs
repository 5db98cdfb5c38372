//! Task statuses and the rules that move them: what a parent task's status is given
//! its subtasks, what pausing, resuming and retrying do, and when a download is merged.
use vstd::prelude::*;
use crate::text::{chars_eq_str, chars_of, string_from};

verus! {

/// The status of a task, stored in lowercase (`pending`, `downloading`, ...).
/// `Active` is the status of a parent task whose subtasks are still at work.
#[derive(Debug, Clone, Copy, PartialEq, Eq, Structural)]
pub enum TaskStatus {
    Pending,
    Downloading,
    Merging,
    Completed,
    Failed,
    Paused,
    Skipped,
    Active,
}

/// The stored name of a status.
pub open spec fn status_name(s: TaskStatus) -> Seq<char> {
    match s {
        TaskStatus::Pending => "pending"@,
        TaskStatus::Downloading => "downloading"@,
        TaskStatus::Merging => "merging"@,
        TaskStatus::Completed => "completed"@,
        TaskStatus::Failed => "failed"@,
        TaskStatus::Paused => "paused"@,
        TaskStatus::Skipped => "skipped"@,
        TaskStatus::Active => "active"@,
    }
}

/// The status stored as `"parsing"` while a playlist is being read; it has no
/// `TaskStatus` variant.
pub open spec fn parsing_name() -> Seq<char> {
    "parsing"@
}

impl TaskStatus {
    /// The stored (lowercase) name of the status.
    pub fn as_str(&self) -> (r: &'static str)
        ensures
            r@ == status_name(*self),
    {
        match self {
            TaskStatus::Pending => "pending",
            TaskStatus::Downloading => "downloading",
            TaskStatus::Merging => "merging",
            TaskStatus::Completed => "completed",
            TaskStatus::Failed => "failed",
            TaskStatus::Paused => "paused",
            TaskStatus::Skipped => "skipped",
            TaskStatus::Active => "active",
        }
    }

    /// The status whose stored name is `name`, if any.
    pub fn from_name(name: &str) -> (r: Option<TaskStatus>)
        ensures
            match r {
                Some(s) => status_name(s) == name@,
                None => forall|s: TaskStatus| status_name(s) != name@,
            },
    {
        let cs = chars_of(name);
        let all = [
            TaskStatus::Pending,
            TaskStatus::Downloading,
            TaskStatus::Merging,
            TaskStatus::Completed,
            TaskStatus::Failed,
            TaskStatus::Paused,
            TaskStatus::Skipped,
            TaskStatus::Active,
        ];
        let mut i: usize = 0;
        while i < 8
            invariant
                i <= 8,
                cs@ == name@,
                all@ == seq![
                    TaskStatus::Pending,
                    TaskStatus::Downloading,
                    TaskStatus::Merging,
                    TaskStatus::Completed,
                    TaskStatus::Failed,
                    TaskStatus::Paused,
                    TaskStatus::Skipped,
                    TaskStatus::Active,
                ],
                forall|j: int| 0 <= j < i ==> status_name(#[trigger] all@[j]) != name@,
            decreases 8 - i,
        {
            let s = all[i];
            if chars_eq_str(cs.as_slice(), s.as_str()) {
                return Some(s);
            }
            i = i + 1;
        }
        assert forall|s: TaskStatus| status_name(s) != name@ by {
            match s {
                TaskStatus::Pending => assert(all@[0] == s),
                TaskStatus::Downloading => assert(all@[1] == s),
                TaskStatus::Merging => assert(all@[2] == s),
                TaskStatus::Completed => assert(all@[3] == s),
                TaskStatus::Failed => assert(all@[4] == s),
                TaskStatus::Paused => assert(all@[5] == s),
                TaskStatus::Skipped => assert(all@[6] == s),
                TaskStatus::Active => assert(all@[7] == s),
            }
        }
        None
    }
}

/// Each status is stored under its own name, so reading back a stored status gives the
/// status that was stored: `from_name(s.as_str())` is `Some(s)`.
pub proof fn law_status_names_distinct(a: TaskStatus, b: TaskStatus)
    ensures
        status_name(a) == status_name(b) <==> a == b,
{
    reveal_strlit("pending");
    reveal_strlit("downloading");
    reveal_strlit("merging");
    reveal_strlit("completed");
    reveal_strlit("failed");
    reveal_strlit("paused");
    reveal_strlit("skipped");
    reveal_strlit("active");
    if status_name(a) == status_name(b) {
        assert(status_name(a).len() == status_name(b).len());
        assert(status_name(a)[0] == status_name(b)[0]);
    }
}

/// Whether `s` is the stored name of `t`.
pub fn is_status(s: &str, t: TaskStatus) -> (r: bool)
    ensures
        r == (s@ == status_name(t)),
{
    chars_eq_str(chars_of(s).as_slice(), t.as_str())
}

/// A finished subtask: completed, or skipped because its file already existed.
pub open spec fn is_finished(s: Seq<char>) -> bool {
    s == status_name(TaskStatus::Completed) || s == status_name(TaskStatus::Skipped)
}

/// A subtask at work: pending, parsing its playlist, downloading or merging.
pub open spec fn is_at_work(s: Seq<char>) -> bool {
    s == status_name(TaskStatus::Downloading) || s == status_name(TaskStatus::Merging) || s
        == status_name(TaskStatus::Pending) || s == parsing_name()
}

/// The number of statuses in `ss` that are finished.
pub open spec fn count_finished(ss: Seq<Seq<char>>) -> nat
    decreases ss.len(),
{
    if ss.len() == 0 {
        0
    } else {
        count_finished(ss.drop_last()) + if is_finished(ss.last()) {
            1nat
        } else {
            0nat
        }
    }
}

/// The number of statuses in `ss` that are at work.
pub open spec fn count_at_work(ss: Seq<Seq<char>>) -> nat
    decreases ss.len(),
{
    if ss.len() == 0 {
        0
    } else {
        count_at_work(ss.drop_last()) + if is_at_work(ss.last()) {
            1nat
        } else {
            0nat
        }
    }
}

/// The number of statuses in `ss` equal to `name`.
pub open spec fn count_named(ss: Seq<Seq<char>>, name: Seq<char>) -> nat
    decreases ss.len(),
{
    if ss.len() == 0 {
        0
    } else {
        count_named(ss.drop_last(), name) + if ss.last() == name {
            1nat
        } else {
            0nat
        }
    }
}

/// The status of a parent task with subtasks in statuses `ss` (at least one): completed
/// when all are finished; paused when some are paused and none at work; failed when some
/// failed and none at work; active otherwise.
pub open spec fn parent_status_spec(ss: Seq<Seq<char>>) -> TaskStatus {
    if count_finished(ss) == ss.len() {
        TaskStatus::Completed
    } else if count_named(ss, status_name(TaskStatus::Paused)) > 0 && count_at_work(ss) == 0 {
        TaskStatus::Paused
    } else if count_named(ss, status_name(TaskStatus::Failed)) > 0 && count_at_work(ss) == 0 {
        TaskStatus::Failed
    } else {
        TaskStatus::Active
    }
}

/// The stored statuses of a sequence of tasks.
pub open spec fn statuses_of(ss: Seq<String>) -> Seq<Seq<char>> {
    Seq::new(ss.len(), |i: int| ss[i]@)
}

/// The status that a parent task takes from the statuses of its subtasks; `None`
/// (nothing to update) when it has none.
pub fn parent_status(subtask_statuses: &[String]) -> (r: Option<TaskStatus>)
    ensures
        subtask_statuses@.len() == 0 ==> r is None,
        subtask_statuses@.len() > 0 ==> r == Some(parent_status_spec(statuses_of(subtask_statuses@))),
{
    let n = subtask_statuses.len();
    if n == 0 {
        return None;
    }
    let ghost ss = statuses_of(subtask_statuses@);
    let mut finished: usize = 0;
    let mut at_work: usize = 0;
    let mut paused: usize = 0;
    let mut failed: usize = 0;
    let mut i: usize = 0;
    assert(ss.subrange(0, 0) =~= Seq::<Seq<char>>::empty());
    while i < n
        invariant
            n == subtask_statuses@.len(),
            ss == statuses_of(subtask_statuses@),
            i <= n,
            finished as nat == count_finished(ss.subrange(0, i as int)),
            at_work as nat == count_at_work(ss.subrange(0, i as int)),
            paused as nat == count_named(ss.subrange(0, i as int), status_name(TaskStatus::Paused)),
            failed as nat == count_named(ss.subrange(0, i as int), status_name(TaskStatus::Failed)),
            finished <= i,
            at_work <= i,
            paused <= i,
            failed <= i,
        decreases n - i,
    {
        let ghost prefix = ss.subrange(0, i + 1);
        assert(prefix.drop_last() =~= ss.subrange(0, i as int));
        assert(prefix.last() == subtask_statuses@[i as int]@);
        let s = subtask_statuses[i].as_str();
        if is_status(s, TaskStatus::Completed) || is_status(s, TaskStatus::Skipped) {
            finished = finished + 1;
        }
        if is_status(s, TaskStatus::Downloading) || is_status(s, TaskStatus::Merging) || is_status(
            s,
            TaskStatus::Pending,
        ) || chars_eq_str(chars_of(s).as_slice(), "parsing") {
            at_work = at_work + 1;
        }
        if is_status(s, TaskStatus::Paused) {
            paused = paused + 1;
        }
        if is_status(s, TaskStatus::Failed) {
            failed = failed + 1;
        }
        i = i + 1;
    }
    assert(ss.subrange(0, n as int) =~= ss);
    if finished == n {
        Some(TaskStatus::Completed)
    } else if paused > 0 && at_work == 0 {
        Some(TaskStatus::Paused)
    } else if failed > 0 && at_work == 0 {
        Some(TaskStatus::Failed)
    } else {
        Some(TaskStatus::Active)
    }
}

/// A status that pausing stops: pending, downloading, parsing or merging.
pub open spec fn is_pausable(s: Seq<char>) -> bool {
    is_at_work(s)
}

/// A status that resuming requeues: paused or failed.
pub open spec fn is_resumable(s: Seq<char>) -> bool {
    s == status_name(TaskStatus::Paused) || s == status_name(TaskStatus::Failed)
}

/// The status of a subtask after its parent is paused.
pub open spec fn paused_status(s: Seq<char>) -> Seq<char> {
    if is_pausable(s) {
        status_name(TaskStatus::Paused)
    } else {
        s
    }
}

/// The status of a task, or of a subtask of it, after it is resumed.
pub open spec fn resumed_status(s: Seq<char>) -> Seq<char> {
    if is_resumable(s) {
        status_name(TaskStatus::Pending)
    } else {
        s
    }
}

/// The status of a subtask after its parent is paused: pausable statuses become
/// `paused`; completed, skipped, failed and other statuses stay. (The paused task itself
/// becomes `paused` whatever its status.)
pub fn pause_subtask_status(status: &str) -> (r: String)
    ensures
        r@ == paused_status(status@),
{
    let cs = chars_of(status);
    if is_status(status, TaskStatus::Downloading) || is_status(status, TaskStatus::Merging)
        || is_status(status, TaskStatus::Pending) || chars_eq_str(cs.as_slice(), "parsing") {
        String::from_str(TaskStatus::Paused.as_str())
    } else {
        string_from(cs.as_slice())
    }
}

/// The status of a task, or of a subtask of a resumed task, after resuming: paused and
/// failed ones become `pending`; the others stay.
pub fn resume_status(status: &str) -> (r: String)
    ensures
        r@ == resumed_status(status@),
{
    let cs = chars_of(status);
    if is_status(status, TaskStatus::Paused) || is_status(status, TaskStatus::Failed) {
        String::from_str(TaskStatus::Pending.as_str())
    } else {
        string_from(cs.as_slice())
    }
}

/// Whether a finished download is merged: not when the task was paused meanwhile or
/// fewer segments completed than the playlist holds.
pub fn should_merge(status: &str, completed_segments: i32, total_segments: i32) -> (r: bool)
    ensures
        r == !(status@ == status_name(TaskStatus::Paused) || completed_segments < total_segments),
{
    !(is_status(status, TaskStatus::Paused) || completed_segments < total_segments)
}

/// Pausing a task at work and then resuming it requeues it as pending; finished tasks
/// stay as they are through both.
pub proof fn law_pause_then_resume(s: Seq<char>)
    ensures
        is_pausable(s) ==> resumed_status(paused_status(s)) == status_name(TaskStatus::Pending),
        is_finished(s) ==> paused_status(s) == s && resumed_status(s) == s,
{
    reveal_strlit("paused");
    reveal_strlit("pending");
    reveal_strlit("completed");
    reveal_strlit("skipped");
    reveal_strlit("failed");
    reveal_strlit("downloading");
    reveal_strlit("merging");
    reveal_strlit("parsing");
    if s == status_name(TaskStatus::Skipped) {
        assert(s[0] == 's');
        assert("merging"@[0] == 'm');
        assert("pending"@[0] == 'p');
        assert("parsing"@[0] == 'p');
    }
    if s == status_name(TaskStatus::Completed) {
        assert(s.len() == 9);
    }
}

proof fn lemma_count_finished(ss: Seq<Seq<char>>)
    ensures
        count_finished(ss) <= ss.len(),
        count_finished(ss) == ss.len() <==> forall|i: int| 0 <= i < ss.len() ==> is_finished(
            #[trigger] ss[i],
        ),
    decreases ss.len(),
{
    if ss.len() > 0 {
        let p = ss.drop_last();
        lemma_count_finished(p);
        if count_finished(ss) == ss.len() {
            assert forall|i: int| 0 <= i < ss.len() implies is_finished(#[trigger] ss[i]) by {
                if i < ss.len() - 1 {
                    assert(ss[i] == p[i]);
                }
            }
        }
        if forall|i: int| 0 <= i < ss.len() ==> is_finished(#[trigger] ss[i]) {
            assert forall|i: int| 0 <= i < p.len() implies is_finished(#[trigger] p[i]) by {
                assert(ss[i] == p[i]);
            }
            assert(is_finished(ss[ss.len() - 1]));
        }
    }
}

proof fn lemma_count_at_work(ss: Seq<Seq<char>>)
    ensures
        count_at_work(ss) == 0 <==> forall|i: int| 0 <= i < ss.len() ==> !is_at_work(
            #[trigger] ss[i],
        ),
    decreases ss.len(),
{
    if ss.len() > 0 {
        let p = ss.drop_last();
        lemma_count_at_work(p);
        if count_at_work(ss) == 0 {
            assert forall|i: int| 0 <= i < ss.len() implies !is_at_work(#[trigger] ss[i]) by {
                if i < ss.len() - 1 {
                    assert(ss[i] == p[i]);
                }
            }
        }
        if forall|i: int| 0 <= i < ss.len() ==> !is_at_work(#[trigger] ss[i]) {
            assert forall|i: int| 0 <= i < p.len() implies !is_at_work(#[trigger] p[i]) by {
                assert(ss[i] == p[i]);
            }
            assert(!is_at_work(ss[ss.len() - 1]));
        }
    }
}

proof fn lemma_count_named(ss: Seq<Seq<char>>, name: Seq<char>)
    ensures
        count_named(ss, name) > 0 <==> exists|i: int| 0 <= i < ss.len() && #[trigger] ss[i] == name,
    decreases ss.len(),
{
    if ss.len() > 0 {
        let p = ss.drop_last();
        lemma_count_named(p, name);
        if count_named(p, name) > 0 {
            let i = choose|i: int| 0 <= i < p.len() && #[trigger] p[i] == name;
            assert(ss[i] == p[i]);
        }
        if exists|i: int| 0 <= i < ss.len() && #[trigger] ss[i] == name {
            let i = choose|i: int| 0 <= i < ss.len() && #[trigger] ss[i] == name;
            if i < ss.len() - 1 {
                assert(p[i] == ss[i]);
            }
        }
    }
}

/// How a parent's status follows from its subtasks (given at least one): it is
/// completed exactly when every subtask is completed or skipped; paused only when no
/// subtask is at work and some subtask is paused; failed only when not all are finished,
/// none is at work and some subtask failed; active whenever one is at work and not all
/// are finished.
pub proof fn law_parent_status(ss: Seq<Seq<char>>)
    requires
        ss.len() > 0,
    ensures
        (parent_status_spec(ss) == TaskStatus::Completed) <==> (forall|i: int|
            0 <= i < ss.len() ==> is_finished(#[trigger] ss[i])),
        parent_status_spec(ss) == TaskStatus::Paused ==> (forall|i: int|
            0 <= i < ss.len() ==> !is_at_work(#[trigger] ss[i])) && (exists|i: int|
            0 <= i < ss.len() && #[trigger] ss[i] == status_name(TaskStatus::Paused)),
        parent_status_spec(ss) == TaskStatus::Failed ==> (forall|i: int|
            0 <= i < ss.len() ==> !is_at_work(#[trigger] ss[i])) && (exists|i: int|
            0 <= i < ss.len() && #[trigger] ss[i] == status_name(TaskStatus::Failed)),
        (exists|i: int| 0 <= i < ss.len() && is_at_work(#[trigger] ss[i])) && !(forall|i: int|
            0 <= i < ss.len() ==> is_finished(#[trigger] ss[i])) ==> parent_status_spec(ss)
            == TaskStatus::Active,
{
    lemma_count_finished(ss);
    lemma_count_at_work(ss);
    lemma_count_named(ss, status_name(TaskStatus::Paused));
    lemma_count_named(ss, status_name(TaskStatus::Failed));
}

/// After pausing a parent some of whose subtasks are at work, the parent's status is
/// `paused`; after resuming a parent some of whose subtasks are paused or failed, it is
/// `active`.
pub proof fn law_pause_and_resume_parent(ss: Seq<Seq<char>>)
    ensures
        (exists|i: int| 0 <= i < ss.len() && is_pausable(#[trigger] ss[i])) ==> parent_status_spec(
            ss.map_values(|s: Seq<char>| paused_status(s)),
        ) == TaskStatus::Paused,
        (exists|i: int| 0 <= i < ss.len() && is_resumable(#[trigger] ss[i])) ==> parent_status_spec(
            ss.map_values(|s: Seq<char>| resumed_status(s)),
        ) == TaskStatus::Active,
{
    reveal_strlit("paused");
    reveal_strlit("pending");
    reveal_strlit("completed");
    reveal_strlit("skipped");
    reveal_strlit("failed");
    reveal_strlit("downloading");
    reveal_strlit("merging");
    reveal_strlit("parsing");
    let paused = ss.map_values(|s: Seq<char>| paused_status(s));
    let resumed = ss.map_values(|s: Seq<char>| resumed_status(s));
    if exists|i: int| 0 <= i < ss.len() && is_pausable(#[trigger] ss[i]) {
        let i = choose|i: int| 0 <= i < ss.len() && is_pausable(#[trigger] ss[i]);
        assert(paused[i] == status_name(TaskStatus::Paused));
        lemma_count_finished(paused);
        lemma_count_at_work(paused);
        lemma_count_named(paused, status_name(TaskStatus::Paused));
        assert forall|j: int| 0 <= j < paused.len() implies !is_at_work(#[trigger] paused[j]) by {
            assert(paused[j] == paused_status(ss[j]));
            if is_at_work(paused[j]) {
                if is_pausable(ss[j]) {
                    assert(paused[j] == "paused"@);
                } else {
                    assert(paused[j] == ss[j]);
                }
            }
        }
        assert(!is_finished(paused[i]));
    }
    if exists|i: int| 0 <= i < ss.len() && is_resumable(#[trigger] ss[i]) {
        let i = choose|i: int| 0 <= i < ss.len() && is_resumable(#[trigger] ss[i]);
        assert(resumed[i] == status_name(TaskStatus::Pending));
        assert(is_at_work(resumed[i]));
        assert("pending"@[0] != "skipped"@[0]);
        assert(!is_finished(resumed[i]));
        law_parent_status(resumed);
    }
}

// ---------------------------------------------------------------------------
// Listing tasks as parents with their subtasks
// ---------------------------------------------------------------------------

/// A task's identity and its parent's, as the task list reads them.
pub struct TaskLink {
    pub id: String,
    pub parent_id: Option<String>,
}

/// A parent task (by position in the list) and its subtasks (by position, in list
/// order).
#[derive(Debug, PartialEq)]
pub struct TaskGroup {
    pub parent: usize,
    pub subtasks: Vec<usize>,
}

/// The positions among the first `n` tasks of those without parent, in order.
pub open spec fn root_positions(links: Seq<TaskLink>, n: nat) -> Seq<usize>
    decreases n,
{
    if n == 0 {
        Seq::empty()
    } else {
        let p = root_positions(links, (n - 1) as nat);
        if links[n - 1].parent_id is None {
            p.push((n - 1) as usize)
        } else {
            p
        }
    }
}

/// Whether task `j` is a subtask of the task with id `id`.
pub open spec fn is_child_of(link: TaskLink, id: Seq<char>) -> bool {
    link.parent_id matches Some(p) && p@ == id
}

/// The positions among the first `n` tasks of the subtasks of the task with id `id`, in
/// order.
pub open spec fn child_positions(links: Seq<TaskLink>, id: Seq<char>, n: nat) -> Seq<usize>
    decreases n,
{
    if n == 0 {
        Seq::empty()
    } else {
        let p = child_positions(links, id, (n - 1) as nat);
        if is_child_of(links[n - 1], id) {
            p.push((n - 1) as usize)
        } else {
            p
        }
    }
}

fn children_of(links: &Vec<TaskLink>, id: &String) -> (r: Vec<usize>)
    ensures
        r@ == child_positions(links@, id@, links@.len()),
{
    let mut out: Vec<usize> = Vec::new();
    let mut j: usize = 0;
    while j < links.len()
        invariant
            j <= links@.len(),
            out@ == child_positions(links@, id@, j as nat),
        decreases links@.len() - j,
    {
        let is_child = match &links[j].parent_id {
            Some(p) => *p == *id,
            None => false,
        };
        if is_child {
            out.push(j);
        }
        j = j + 1;
    }
    out
}

/// Groups a task list (newest first) into its parent tasks, in list order, each with
/// its subtasks in list order.
pub fn group_tasks(links: &Vec<TaskLink>) -> (r: Vec<TaskGroup>)
    ensures
        r@.len() == root_positions(links@, links@.len()).len(),
        forall|g: int|
            0 <= g < r@.len() ==> {
                let p = root_positions(links@, links@.len())[g];
                &&& (#[trigger] r@[g]).parent == p
                &&& r@[g].subtasks@ == child_positions(links@, links@[p as int].id@, links@.len())
            },
{
    let mut out: Vec<TaskGroup> = Vec::new();
    let mut i: usize = 0;
    while i < links.len()
        invariant
            i <= links@.len(),
            out@.len() == root_positions(links@, i as nat).len(),
            forall|g: int|
                0 <= g < out@.len() ==> {
                    let p = root_positions(links@, i as nat)[g];
                    &&& (#[trigger] out@[g]).parent == p
                    &&& out@[g].subtasks@ == child_positions(links@, links@[p as int].id@, links@.len())
                },
            forall|g: int| 0 <= g < root_positions(links@, i as nat).len() ==> #[trigger] root_positions(links@, i as nat)[g] < i,
        decreases links@.len() - i,
    {
        let ghost before = root_positions(links@, i as nat);
        if links[i].parent_id.is_none() {
            let subtasks = children_of(links, &links[i].id);
            out.push(TaskGroup { parent: i, subtasks });
            assert(root_positions(links@, (i + 1) as nat) == before.push(i));
        } else {
            assert(root_positions(links@, (i + 1) as nat) == before);
        }
        i = i + 1;
    }
    out
}

// ---------------------------------------------------------------------------
// Answering whether to overwrite an existing file
// ---------------------------------------------------------------------------

/// What answering "overwrite the existing file?" for a task does. When a download is
/// waiting for the answer, it is handed over; otherwise the task is set to `pending`
/// (overwrite) or `skipped` with full progress and its parent's status refreshed (keep).
/// Either way the pending-overwrite flag is cleared, and an overwrite restarts the task.
#[derive(Debug, PartialEq)]
pub struct OverwritePlan {
    pub notify_waiter: bool,
    pub set_status: Option<TaskStatus>,
    pub complete_progress: bool,
    pub refresh_parent: bool,
    pub clear_pending_flag: bool,
    pub restart: bool,
}

/// The steps of answering the overwrite question (see `OverwritePlan`).
pub fn overwrite_plan(has_waiter: bool, overwrite: bool) -> (r: OverwritePlan)
    ensures
        r.notify_waiter == has_waiter,
        r.set_status == if has_waiter {
            None
        } else if overwrite {
            Some(TaskStatus::Pending)
        } else {
            Some(TaskStatus::Skipped)
        },
        r.complete_progress == (!has_waiter && !overwrite),
        r.refresh_parent == (!has_waiter && !overwrite),
        r.clear_pending_flag,
        r.restart == overwrite,
{
    OverwritePlan {
        notify_waiter: has_waiter,
        set_status: if has_waiter {
            None
        } else if overwrite {
            Some(TaskStatus::Pending)
        } else {
            Some(TaskStatus::Skipped)
        },
        complete_progress: !has_waiter && !overwrite,
        refresh_parent: !has_waiter && !overwrite,
        clear_pending_flag: true,
        restart: overwrite,
    }
}

/// Whether a download that found its output file already there goes on: only when the
/// answer came and was to overwrite; no answer (the wait timed out or was dropped)
/// keeps the file.
pub fn overwrite_decision(answer: Option<bool>) -> (r: bool)
    ensures
        r == (answer == Some(true)),
{
    match answer {
        Some(v) => v,
        None => false,
    }
}


// ---------------------------------------------------------------------------
// The course of a download run
// ---------------------------------------------------------------------------

/// Where a download run stands.
#[derive(Debug, Clone, Copy, PartialEq, Eq, Structural)]
pub enum RunPhase {
    /// Nothing done yet.
    Starting,
    /// The output file exists; waiting for the answer to "overwrite it?".
    AwaitingOverwrite,
    /// Reading the playlist.
    Parsing,
    /// Downloading the segments.
    Downloading,
    /// Merging the segments into the output file.
    Merging,
    /// Done: the output file is written.
    Completed,
    /// Done: the existing output file was kept.
    Skipped,
    /// Ended without merging: paused, or segments missing.
    Stopped,
}

/// What happened during a run.
#[derive(Debug, Clone, Copy, PartialEq, Eq, Structural)]
pub enum RunEvent {
    /// Whether the output file already exists.
    OutputChecked { exists: bool },
    /// The answer to "overwrite the existing file?"; `None` when none came in time.
    OverwriteAnswered { answer: Option<bool> },
    /// The playlist was read and its segment count and size stored.
    PlaylistListed,
    /// The downloads ended; the task's stored status and segment counts then.
    DownloadEnded { paused: bool, completed_segments: i32, total_segments: i32 },
    /// The segments were merged.
    Merged,
}

/// What a run does on entering its next phase (besides storing that phase's status,
/// see `run_status`).
#[derive(Debug, Clone, Copy, PartialEq, Eq, Structural)]
pub enum RunAction {
    /// Raise the pending-overwrite flag and wait for the answer.
    AskOverwrite,
    /// Clear the pending-overwrite flag, set full progress and refresh the parent.
    Skip,
    /// Read the playlist; after an overwrite answer, first clear the pending-overwrite
    /// flag and remove the existing file.
    BeginParsing { replace_output: bool },
    /// Download the segments.
    BeginDownload,
    /// Stop without merging.
    StopWithoutMerge,
    /// Merge the segments.
    BeginMerge,
    /// Set full progress, store the output path, refresh the parent and remove the
    /// temporary segments.
    Complete,
    /// The event does not apply in this phase: nothing changes.
    Ignore,
}

/// The next phase of a run and what it does, given its phase and what happened.
pub open spec fn run_step_spec(phase: RunPhase, event: RunEvent) -> (RunPhase, RunAction) {
    match (phase, event) {
        (RunPhase::Starting, RunEvent::OutputChecked { exists }) => if exists {
            (RunPhase::AwaitingOverwrite, RunAction::AskOverwrite)
        } else {
            (RunPhase::Parsing, RunAction::BeginParsing { replace_output: false })
        },
        (RunPhase::AwaitingOverwrite, RunEvent::OverwriteAnswered { answer }) => if answer == Some(true) {
            (RunPhase::Parsing, RunAction::BeginParsing { replace_output: true })
        } else {
            (RunPhase::Skipped, RunAction::Skip)
        },
        (RunPhase::Parsing, RunEvent::PlaylistListed) => (RunPhase::Downloading, RunAction::BeginDownload),
        (RunPhase::Downloading, RunEvent::DownloadEnded { paused, completed_segments, total_segments }) => if !(paused
            || completed_segments < total_segments) {
            (RunPhase::Merging, RunAction::BeginMerge)
        } else {
            (RunPhase::Stopped, RunAction::StopWithoutMerge)
        },
        (RunPhase::Merging, RunEvent::Merged) => (RunPhase::Completed, RunAction::Complete),
        _ => (phase, RunAction::Ignore),
    }
}

/// Moves a run on (see `run_step_spec`).
pub fn run_step(phase: RunPhase, event: RunEvent) -> (r: (RunPhase, RunAction))
    ensures
        r == run_step_spec(phase, event),
{
    match (phase, event) {
        (RunPhase::Starting, RunEvent::OutputChecked { exists }) => if exists {
            (RunPhase::AwaitingOverwrite, RunAction::AskOverwrite)
        } else {
            (RunPhase::Parsing, RunAction::BeginParsing { replace_output: false })
        },
        (RunPhase::AwaitingOverwrite, RunEvent::OverwriteAnswered { answer }) => if overwrite_decision(answer) {
            (RunPhase::Parsing, RunAction::BeginParsing { replace_output: true })
        } else {
            (RunPhase::Skipped, RunAction::Skip)
        },
        (RunPhase::Parsing, RunEvent::PlaylistListed) => (RunPhase::Downloading, RunAction::BeginDownload),
        (RunPhase::Downloading, RunEvent::DownloadEnded { paused, completed_segments, total_segments }) => if !(paused
            || completed_segments < total_segments) {
            (RunPhase::Merging, RunAction::BeginMerge)
        } else {
            (RunPhase::Stopped, RunAction::StopWithoutMerge)
        },
        (RunPhase::Merging, RunEvent::Merged) => (RunPhase::Completed, RunAction::Complete),
        _ => (phase, RunAction::Ignore),
    }
}

/// The status stored on entering a phase: `pending` while waiting for the overwrite
/// answer, then `parsing`, `downloading`, `merging`, and `completed` or `skipped`; none
/// on starting or stopping.
pub open spec fn run_status_spec(phase: RunPhase) -> Option<Seq<char>> {
    match phase {
        RunPhase::Starting => None,
        RunPhase::AwaitingOverwrite => Some(status_name(TaskStatus::Pending)),
        RunPhase::Parsing => Some(parsing_name()),
        RunPhase::Downloading => Some(status_name(TaskStatus::Downloading)),
        RunPhase::Merging => Some(status_name(TaskStatus::Merging)),
        RunPhase::Completed => Some(status_name(TaskStatus::Completed)),
        RunPhase::Skipped => Some(status_name(TaskStatus::Skipped)),
        RunPhase::Stopped => None,
    }
}

/// The status stored on entering `phase` (see `run_status_spec`).
pub fn run_status(phase: RunPhase) -> (r: Option<&'static str>)
    ensures
        match r {
            Some(t) => run_status_spec(phase) == Some(t@),
            None => run_status_spec(phase) is None,
        },
{
    match phase {
        RunPhase::Starting => None,
        RunPhase::AwaitingOverwrite => Some(TaskStatus::Pending.as_str()),
        RunPhase::Parsing => {
            proof {
                reveal_strlit("parsing");
            }
            Some("parsing")
        },
        RunPhase::Downloading => Some(TaskStatus::Downloading.as_str()),
        RunPhase::Merging => Some(TaskStatus::Merging.as_str()),
        RunPhase::Completed => Some(TaskStatus::Completed.as_str()),
        RunPhase::Skipped => Some(TaskStatus::Skipped.as_str()),
        RunPhase::Stopped => None,
    }
}

/// A run is completed only right after merging, and merges only after downloads that
/// ended unpaused with every segment done; it is skipped only when the output file
/// existed and no answer to overwrite it came; finished runs stay finished.
pub proof fn law_run_course(phase: RunPhase, event: RunEvent)
    ensures
        run_step_spec(phase, event).0 == RunPhase::Completed ==> phase == RunPhase::Merging || phase
            == RunPhase::Completed,
        run_step_spec(phase, event).0 == RunPhase::Merging && phase != RunPhase::Merging ==> phase
            == RunPhase::Downloading && (event matches RunEvent::DownloadEnded {
            paused,
            completed_segments,
            total_segments,
        } && !paused && completed_segments >= total_segments),
        run_step_spec(phase, event).0 == RunPhase::Skipped && phase != RunPhase::Skipped ==> phase
            == RunPhase::AwaitingOverwrite && (event matches RunEvent::OverwriteAnswered { answer }
            && answer != Some(true)),
        phase == RunPhase::Completed || phase == RunPhase::Skipped || phase == RunPhase::Stopped
            ==> run_step_spec(phase, event) == (phase, RunAction::Ignore),
{
}
} // verus!
