use crate::ids::{operation_id, operation_id_text, lemma_operation_id_injective};
use crate::queue::{
    GitCoordinatorOperation, GitOperationPriority, QueuedGitOperation, class_of,
    inserted_by_priority, queue_insert_by_priority, sorted_by_class, lemma_insert_keeps_sorted,
};
use std::collections::VecDeque;
use vstd::multiset::Multiset;
use vstd::prelude::*;

verus! {

broadcast use vstd::multiset::group_multiset_axioms;

/// Message delivered to a caller whose operation was cancelled.
pub fn cancelled_message() -> (r: String)
    ensures
        r@ == "Operation cancelled"@,
{
    String::from_str("Operation cancelled")
}

/// Message delivered to a caller whose operation ran past the time cap.
pub fn timed_out_message() -> (r: String)
    ensures
        r@ == "Operation timed out after 60 seconds"@,
{
    String::from_str("Operation timed out after 60 seconds")
}

/// Wall-clock cap on a dispatched command, in seconds.
pub const OPERATION_TIMEOUT_SECS: u64 = 60;

impl GitCoordinatorOperation {
    /// A field-by-field copy of the record.
    pub fn duplicate(&self) -> (r: GitCoordinatorOperation)
        ensures
            r == *self,
    {
        let error = match &self.error {
            Some(e) => Some(e.clone()),
            None => None,
        };
        GitCoordinatorOperation {
            id: self.id.clone(),
            operation_type: self.operation_type.clone(),
            repo_root: self.repo_root.clone(),
            command: self.command.clone(),
            priority: self.priority,
            enqueued_at: self.enqueued_at,
            started_at: self.started_at,
            completed_at: self.completed_at,
            error,
        }
    }
}

/// The queue of one repository.
pub struct RepoQueueState<P> {
    pub repo_root: String,
    pub pending: VecDeque<QueuedGitOperation<P>>,
    /// The one operation that runs, if any: a repository never runs two.
    pub running: Option<GitCoordinatorOperation>,
    pub completed_count: usize,
    pub failed_count: usize,
    pub worker_active: bool,
    /// How many operations the worker has taken from the front of the queue.
    pub dispatched: Ghost<nat>,
}

/// Snapshot of one repository queue; it never reveals the pending list.
pub struct GitCoordinatorQueueStatus {
    pub repo_root: String,
    pub pending_count: usize,
    pub running_operation: Option<GitCoordinatorOperation>,
    pub completed_count: usize,
    pub failed_count: usize,
}

/// What `enqueue` hands back: the new operation's identifier, and whether the
/// caller must start a worker for the repository.
pub struct EnqueueReceipt {
    pub operation_id: String,
    pub start_worker: bool,
}

/// What `cancel` found.
pub enum CancelOutcome<P> {
    /// The operation was waiting; it has been taken out and is handed back so
    /// that its caller can be told.
    Pending(QueuedGitOperation<P>),
    /// The operation is running; its cancel signal must be sent.
    Running,
    NotFound,
}

impl<P> CancelOutcome<P> {
    pub fn is_cancelled(&self) -> (r: bool)
        ensures
            r == !(self is NotFound),
    {
        !matches!(self, CancelOutcome::NotFound)
    }
}

/// How the race between a command, its time cap and its cancel signal ended.
pub enum DispatchOutcome<T> {
    Cancelled,
    TimedOut,
    Finished(Result<T, String>),
}

/// The state behind the coordinator's mutex: the operation counter and one
/// queue per repository root, in the order the roots were first seen.
pub struct GitCoordinatorState<P> {
    pub next_operation_id: u64,
    pub repos: Vec<RepoQueueState<P>>,
}

pub open spec fn has_id<P>(q: Seq<QueuedGitOperation<P>>, id: Seq<char>) -> bool {
    exists|j: int| 0 <= j < q.len() && (#[trigger] q[j]).operation.id@ == id
}

/// Index of the first pending entry with identifier `id`, or the length.
pub open spec fn first_with_id<P>(q: Seq<QueuedGitOperation<P>>, id: Seq<char>) -> int
    decreases q.len(),
{
    if q.len() == 0 {
        0
    } else if q[0].operation.id@ == id {
        0
    } else {
        1 + first_with_id(q.drop_first(), id)
    }
}

/// Identifiers of the entries of `q`, in order.
pub open spec fn pending_ids<P>(q: Seq<QueuedGitOperation<P>>) -> Seq<Seq<char>> {
    q.map_values(|x: QueuedGitOperation<P>| x.operation.id@)
}

/// Identifiers that a repository queue holds, waiting or running.
pub open spec fn repo_ids<P>(r: RepoQueueState<P>) -> Multiset<Seq<char>> {
    pending_ids(r.pending@).to_multiset().add(
        match r.running {
            Some(op) => Multiset::singleton(op.id@),
            None => Multiset::empty(),
        },
    )
}

/// Identifiers held by all the queues.
pub open spec fn ids_in<P>(repos: Seq<RepoQueueState<P>>) -> Multiset<Seq<char>>
    decreases repos.len(),
{
    if repos.len() == 0 {
        Multiset::empty()
    } else {
        ids_in(repos.drop_last()).add(repo_ids(repos.last()))
    }
}

proof fn lemma_ids_update<P>(repos: Seq<RepoQueueState<P>>, i: int, r: RepoQueueState<P>)
    requires
        0 <= i < repos.len(),
    ensures
        ids_in(repos.update(i, r)).add(repo_ids(repos[i])) =~= ids_in(repos).add(repo_ids(r)),
    decreases repos.len(),
{
    let u = repos.update(i, r);
    if i == repos.len() - 1 {
        assert(u.drop_last() =~= repos.drop_last());
        assert(u.last() == r);
        assert(ids_in(u) == ids_in(repos.drop_last()).add(repo_ids(r)));
        assert(ids_in(repos) == ids_in(repos.drop_last()).add(repo_ids(repos[i])));
        assert forall|x: Seq<char>| #[trigger] ids_in(u).add(repo_ids(repos[i])).count(x) == ids_in(
            repos,
        ).add(repo_ids(r)).count(x) by {}
    } else {
        assert(u.drop_last() =~= repos.drop_last().update(i, r));
        assert(u.last() == repos.last());
        assert(repos.drop_last()[i] == repos[i]);
        lemma_ids_update(repos.drop_last(), i, r);
        assert(ids_in(u) == ids_in(repos.drop_last().update(i, r)).add(repo_ids(repos.last())));
        assert(ids_in(repos) == ids_in(repos.drop_last()).add(repo_ids(repos.last())));
        assert forall|x: Seq<char>| #[trigger] ids_in(u).add(repo_ids(repos[i])).count(x) == ids_in(
            repos,
        ).add(repo_ids(r)).count(x) by {
            assert(ids_in(repos.drop_last().update(i, r)).add(repo_ids(repos.drop_last()[i])).count(x)
                == ids_in(repos.drop_last()).add(repo_ids(r)).count(x));
        }
    }
}

proof fn lemma_ids_contain_repo<P>(repos: Seq<RepoQueueState<P>>, i: int, x: Seq<char>)
    requires
        0 <= i < repos.len(),
    ensures
        ids_in(repos).count(x) >= repo_ids(repos[i]).count(x),
    decreases repos.len(),
{
    if i < repos.len() - 1 {
        lemma_ids_contain_repo(repos.drop_last(), i, x);
    }
}

proof fn lemma_holds_counted<P>(r: RepoQueueState<P>, x: Seq<char>)
    requires
        r.holds_id(x),
    ensures
        repo_ids(r).count(x) >= 1,
{
    broadcast use vstd::seq_lib::to_multiset_contains;
    if has_id(r.pending@, x) {
        let j = choose|j: int| 0 <= j < r.pending@.len() && (#[trigger] r.pending@[j]).operation.id@ == x;
        assert(pending_ids(r.pending@)[j] == x);
        assert(pending_ids(r.pending@).contains(x));
    }
}

proof fn lemma_counted_held<P>(repos: Seq<RepoQueueState<P>>, x: Seq<char>)
    requires
        ids_in(repos).count(x) >= 1,
    ensures
        exists|i: int| 0 <= i < repos.len() && (#[trigger] repos[i]).holds_id(x),
    decreases repos.len(),
{
    broadcast use vstd::seq_lib::to_multiset_contains;
    let last = repos.last();
    if repo_ids(last).count(x) >= 1 {
        if pending_ids(last.pending@).to_multiset().count(x) >= 1 {
            assert(pending_ids(last.pending@).contains(x));
            let j = choose|j: int| 0 <= j < pending_ids(last.pending@).len() && pending_ids(last.pending@)[j] == x;
            assert(last.pending@[j].operation.id@ == x);
        }
        assert(repos[repos.len() - 1].holds_id(x));
    } else {
        lemma_counted_held(repos.drop_last(), x);
        let i = choose|i: int| 0 <= i < repos.drop_last().len() && (#[trigger] repos.drop_last()[i]).holds_id(x);
        assert(repos[i] == repos.drop_last()[i]);
    }
}

/// Every identifier held is held once.
pub open spec fn ids_unique<P>(repos: Seq<RepoQueueState<P>>) -> bool {
    forall|x: Seq<char>| #[trigger] ids_in(repos).count(x) <= 1
}

/// Every identifier held was issued, by a number up to `next`.
pub open spec fn ids_issued<P>(repos: Seq<RepoQueueState<P>>, next: nat) -> bool {
    forall|x: Seq<char>|
        #[trigger] ids_in(repos).count(x) >= 1 ==> exists|n: nat|
            1 <= n <= next && #[trigger] operation_id_text(n) == x
}

proof fn lemma_ids_grow<P>(
    old_repos: Seq<RepoQueueState<P>>,
    new_repos: Seq<RepoQueueState<P>>,
    next: nat,
)
    requires
        ids_unique(old_repos),
        ids_issued(old_repos, next),
        forall|x: Seq<char>|
            #[trigger] ids_in(new_repos).count(x) == ids_in(old_repos).count(x) + (if x
                == operation_id_text(next + 1) {
                1int
            } else {
                0int
            }),
    ensures
        ids_unique(new_repos),
        ids_issued(new_repos, next + 1),
{
    let fresh = operation_id_text(next + 1);
    if ids_in(old_repos).count(fresh) >= 1 {
        let n = choose|n: nat| 1 <= n <= next && #[trigger] operation_id_text(n) == fresh;
        lemma_operation_id_injective(n, next + 1);
    }
    assert forall|x: Seq<char>| #[trigger] ids_in(new_repos).count(x) <= 1 by {
        assert(ids_in(new_repos).count(x) == ids_in(old_repos).count(x) + (if x == fresh {
            1int
        } else {
            0int
        }));
        assert(ids_in(old_repos).count(x) <= 1);
    }
    assert forall|x: Seq<char>| #[trigger] ids_in(new_repos).count(x) >= 1 implies exists|n: nat|
        1 <= n <= next + 1 && #[trigger] operation_id_text(n) == x by {
        assert(ids_in(new_repos).count(x) == ids_in(old_repos).count(x) + (if x == fresh {
            1int
        } else {
            0int
        }));
        if x == fresh {
            assert(operation_id_text(next + 1) == x);
        } else {
            assert(ids_in(old_repos).count(x) >= 1);
            let n = choose|n: nat| 1 <= n <= next && #[trigger] operation_id_text(n) == x;
            assert(operation_id_text(n) == x);
        }
    }
}

proof fn lemma_ids_shrink<P>(
    old_repos: Seq<RepoQueueState<P>>,
    new_repos: Seq<RepoQueueState<P>>,
    next: nat,
)
    requires
        ids_unique(old_repos),
        ids_issued(old_repos, next),
        forall|x: Seq<char>| #[trigger] ids_in(new_repos).count(x) <= ids_in(old_repos).count(x),
    ensures
        ids_unique(new_repos),
        ids_issued(new_repos, next),
{
    assert forall|x: Seq<char>| #[trigger] ids_in(new_repos).count(x) <= 1 by {
        assert(ids_in(old_repos).count(x) <= 1);
    }
    assert forall|x: Seq<char>| #[trigger] ids_in(new_repos).count(x) >= 1 implies exists|n: nat|
        1 <= n <= next && #[trigger] operation_id_text(n) == x by {
        assert(ids_in(old_repos).count(x) >= 1);
    }
}

proof fn lemma_held_iff_counted<P>(repos: Seq<RepoQueueState<P>>, x: Seq<char>)
    ensures
        (exists|i: int| 0 <= i < repos.len() && (#[trigger] repos[i]).holds_id(x)) <==> ids_in(
            repos,
        ).count(x) >= 1,
{
    if exists|i: int| 0 <= i < repos.len() && (#[trigger] repos[i]).holds_id(x) {
        let i = choose|i: int| 0 <= i < repos.len() && (#[trigger] repos[i]).holds_id(x);
        lemma_holds_counted(repos[i], x);
        lemma_ids_contain_repo(repos, i, x);
    }
    if ids_in(repos).count(x) >= 1 {
        lemma_counted_held(repos, x);
    }
}

impl<P> RepoQueueState<P> {
    pub open spec fn holds_id(&self, id: Seq<char>) -> bool {
        has_id(self.pending@, id) || (self.running is Some && self.running->0.id@ == id)
    }

    /// Entries are ordered by class; a worker is marked whenever there is work;
    /// every operation the worker took has been counted or is the running one.
    pub open spec fn wf(&self) -> bool {
        &&& sorted_by_class(self.pending@)
        &&& (self.running is Some || self.pending@.len() > 0) ==> self.worker_active
        &&& self.completed_count + self.failed_count + (if self.running is Some {
            1int
        } else {
            0int
        }) == self.dispatched@
    }
}

impl<P> GitCoordinatorState<P> {
    /// Repository roots are distinct, each queue is well formed, and every
    /// identifier held is held once and was issued by the counter.
    pub open spec fn wf(&self) -> bool {
        &&& forall|i: int, j: int|
            0 <= i < j < self.repos@.len() ==> (#[trigger] self.repos@[i]).repo_root@
                != (#[trigger] self.repos@[j]).repo_root@
        &&& forall|i: int| 0 <= i < self.repos@.len() ==> (#[trigger] self.repos@[i]).wf()
        &&& ids_unique(self.repos@)
        &&& ids_issued(self.repos@, self.next_operation_id as nat)
    }

    pub open spec fn repo_index(&self, root: Seq<char>) -> int {
        choose|i: int| 0 <= i < self.repos@.len() && self.repos@[i].repo_root@ == root
    }

    pub open spec fn knows(&self, root: Seq<char>) -> bool {
        exists|i: int| 0 <= i < self.repos@.len() && self.repos@[i].repo_root@ == root
    }

    /// Some queue holds `id`, waiting or running.
    pub open spec fn holds_id(&self, id: Seq<char>) -> bool {
        exists|i: int| 0 <= i < self.repos@.len() && (#[trigger] self.repos@[i]).holds_id(id)
    }

    pub fn new() -> (r: Self)
        ensures
            r.wf(),
            r.next_operation_id == 0,
            r.repos@.len() == 0,
    {
        GitCoordinatorState { next_operation_id: 0, repos: Vec::new() }
    }

    fn find_repo(&self, root: &String) -> (r: Option<usize>)
        requires
            self.wf(),
        ensures
            r is Some <==> self.knows(root@),
            r is Some ==> r->0 == self.repo_index(root@) && r->0 < self.repos@.len()
                && self.repos@[r->0 as int].repo_root@ == root@,
    {
        let mut i: usize = 0;
        while i < self.repos.len()
            invariant
                self.wf(),
                0 <= i <= self.repos@.len(),
                forall|k: int| 0 <= k < i ==> self.repos@[k].repo_root@ != root@,
            decreases self.repos@.len() - i,
        {
            if self.repos[i].repo_root == *root {
                proof {
                    assert(self.repos@[i as int].repo_root@ == root@);
                    assert(self.knows(root@));
                    let c = self.repo_index(root@);
                    assert(0 <= c < self.repos@.len() && self.repos@[c].repo_root@ == root@);
                    if c < i {
                        assert(self.repos@[c].repo_root@ != self.repos@[i as int].repo_root@);
                    } else if c > i {
                        assert(self.repos@[i as int].repo_root@ != self.repos@[c].repo_root@);
                    }
                    assert(c == i);
                }
                return Some(i);
            }
            i = i + 1;
        }
        None
    }
}

/// Every operation the worker has taken from a repository's queue is either
/// still the running one or counted once, as completed or as failed; and a
/// repository never has more than one running operation.
pub proof fn lemma_counts_match_departures<P>(state: GitCoordinatorState<P>, root: Seq<char>)
    requires
        state.wf(),
        state.knows(root),
    ensures
        ({
            let q = state.repos@[state.repo_index(root)];
            q.completed_count + q.failed_count == q.dispatched@ - (if q.running is Some {
                1int
            } else {
                0int
            })
        }),
{
    let i = state.repo_index(root);
    assert(state.repos@[i].wf());
}

/// One transition's effect on identifiers: the counter never goes back, and
/// an identifier held afterwards was held before or was issued by this step.
pub open spec fn ids_step<P>(a: GitCoordinatorState<P>, b: GitCoordinatorState<P>) -> bool {
    &&& a.next_operation_id <= b.next_operation_id
    &&& forall|x: Seq<char>|
        #[trigger] b.holds_id(x) ==> a.holds_id(x) || exists|n: nat|
            a.next_operation_id < n <= b.next_operation_id && #[trigger] operation_id_text(n) == x
}

/// An identifier that no queue holds, and that has already been issued,
/// is never held again: in particular an operation cancelled while waiting
/// never becomes the running one, whatever steps follow.
pub proof fn lemma_released_id_stays_released<P>(
    states: Seq<GitCoordinatorState<P>>,
    m: nat,
)
    requires
        states.len() >= 1,
        1 <= m <= states[0].next_operation_id,
        !states[0].holds_id(operation_id_text(m)),
        forall|k: int| 0 <= k < states.len() - 1 ==> ids_step(#[trigger] states[k], states[k + 1]),
    ensures
        forall|k: int| 0 <= k < states.len() ==> !(#[trigger] states[k]).holds_id(operation_id_text(m)),
        forall|k: int| 0 <= k < states.len() ==> m <= (#[trigger] states[k]).next_operation_id,
    decreases states.len(),
{
    if states.len() > 1 {
        let prev = states.drop_last();
        assert forall|k: int| 0 <= k < prev.len() - 1 implies ids_step(#[trigger] prev[k], prev[k + 1]) by {
            assert(prev[k] == states[k] && prev[k + 1] == states[k + 1]);
        }
        lemma_released_id_stays_released(prev, m);
        let l = states.len() - 1;
        assert(prev[l - 1] == states[l - 1]);
        assert(ids_step(states[l - 1], states[l]));
        let x = operation_id_text(m);
        if states[l].holds_id(x) {
            assert(!states[l - 1].holds_id(x));
            let n = choose|n: nat|
                states[l - 1].next_operation_id < n <= states[l].next_operation_id
                    && #[trigger] operation_id_text(n) == x;
            lemma_operation_id_injective(n, m);
        }
        assert forall|k: int| 0 <= k < states.len() implies !(#[trigger] states[k]).holds_id(x) by {
            if k < l {
                assert(prev[k] == states[k]);
            }
        }
        assert forall|k: int| 0 <= k < states.len() implies m <= (#[trigger] states[k]).next_operation_id by {
            if k < l {
                assert(prev[k] == states[k]);
            }
        }
    }
}

proof fn lemma_ids_two_repos<P>(repos: Seq<RepoQueueState<P>>, k: int, r: int, x: Seq<char>)
    requires
        0 <= k < repos.len(),
        0 <= r < repos.len(),
        k != r,
    ensures
        ids_in(repos).count(x) >= repo_ids(repos[k]).count(x) + repo_ids(repos[r]).count(x),
    decreases repos.len(),
{
    let l = repos.len() - 1;
    let dl = repos.drop_last();
    if k == l {
        lemma_ids_contain_repo(dl, r, x);
        assert(dl[r] == repos[r]);
    } else if r == l {
        lemma_ids_contain_repo(dl, k, x);
        assert(dl[k] == repos[k]);
    } else {
        lemma_ids_two_repos(dl, k, r, x);
        assert(dl[k] == repos[k] && dl[r] == repos[r]);
    }
}

proof fn lemma_repeated_counts_twice(s: Seq<Seq<char>>, j: int, i: int)
    requires
        0 <= j < s.len(),
        0 <= i < s.len(),
        j != i,
        s[j] == s[i],
    ensures
        s.to_multiset().count(s[i]) >= 2,
{
    broadcast use vstd::seq_lib::group_to_multiset_ensures;

    let t = s.remove(i);
    let jj = if j < i { j } else { j - 1 };
    assert(t[jj] == s[i]);
    assert(t.contains(s[i]));
    assert(t.to_multiset() =~= s.to_multiset().remove(s[i]));
    assert(t.to_multiset().count(s[i]) > 0);
    assert(s.to_multiset().count(s[i]) > 0);
    assert(s.to_multiset().remove(s[i]).count(s[i]) == s.to_multiset().count(s[i]) - 1);
}

/// Inside a well-formed state, cancelling the identifier of the waiting
/// entry `i` of queue `r` finds exactly that entry: no earlier queue holds
/// the identifier, no earlier entry of `r` has it, and it is not the one
/// running there. So `cancel` takes out entry `i` and nothing else.
pub proof fn lemma_cancel_finds_the_entry<P>(state: GitCoordinatorState<P>, r: int, i: int)
    requires
        state.wf(),
        0 <= r < state.repos@.len(),
        0 <= i < state.repos@[r].pending@.len(),
    ensures
        ({
            let q = state.repos@[r];
            let id = q.pending@[i].operation.id@;
            &&& first_holding(state.repos@, id) == r
            &&& first_with_id(q.pending@, id) == i
            &&& !(q.running is Some && q.running->0.id@ == id)
        }),
{
    broadcast use vstd::seq_lib::group_to_multiset_ensures;

    let repos = state.repos@;
    let q = repos[r];
    let id = q.pending@[i].operation.id@;
    let ids = pending_ids(q.pending@);
    assert(ids[i] == id);
    assert(ids.contains(id));
    assert(ids_in(repos).count(id) <= 1);
    assert(q.holds_id(id));
    lemma_ids_contain_repo(repos, r, id);
    assert forall|k: int| 0 <= k < r implies !(#[trigger] repos[k]).holds_id(id) by {
        if repos[k].holds_id(id) {
            lemma_holds_counted(repos[k], id);
            lemma_holds_counted(q, id);
            lemma_ids_two_repos(repos, k, r, id);
        }
    }
    lemma_first_holding(repos, id, r);
    assert forall|j: int| 0 <= j < i implies (#[trigger] q.pending@[j]).operation.id@ != id by {
        if q.pending@[j].operation.id@ == id {
            assert(ids[j] == id);
            lemma_repeated_counts_twice(ids, j, i);
        }
    }
    lemma_first_with_id(q.pending@, id, i);
}

/// The entry the worker takes next is the most urgent one waiting: no
/// waiting entry has a class that ranks before it.
pub proof fn lemma_front_is_most_urgent<P>(state: GitCoordinatorState<P>, r: int)
    requires
        state.wf(),
        0 <= r < state.repos@.len(),
        state.repos@[r].pending@.len() > 0,
    ensures
        forall|j: int|
            0 <= j < state.repos@[r].pending@.len() ==> class_of(state.repos@[r].pending@[0])
                <= class_of(#[trigger] state.repos@[r].pending@[j]),
{
    let q = state.repos@[r].pending@;
    assert(state.repos@[r].wf());
    assert forall|j: int| 0 <= j < q.len() implies class_of(q[0]) <= class_of(#[trigger] q[j]) by {
        if j > 0 {
            assert(class_of(q[0]) <= class_of(q[j]));
        }
    }
}

/// What the caller of a dispatched operation receives: a cancel or a timeout
/// wins over the command, whose own result comes through otherwise.
pub fn settle_outcome<T>(outcome: DispatchOutcome<T>) -> (r: Result<T, String>)
    ensures
        outcome is Cancelled ==> r is Err && r->Err_0@ == "Operation cancelled"@,
        outcome is TimedOut ==> r is Err && r->Err_0@ == "Operation timed out after 60 seconds"@,
        outcome is Finished ==> r == outcome->Finished_0,
{
    match outcome {
        DispatchOutcome::Cancelled => Err(cancelled_message()),
        DispatchOutcome::TimedOut => Err(timed_out_message()),
        DispatchOutcome::Finished(result) => result,
    }
}

/// The record that `enqueue` builds: the type defaults to the command, the
/// priority to normal; nothing has started yet.
pub open spec fn new_operation<P>(
    id: String,
    repo_root: String,
    command: String,
    priority: Option<GitOperationPriority>,
    operation_type: Option<String>,
    payload: P,
    now: u64,
) -> QueuedGitOperation<P> {
    QueuedGitOperation {
        operation: GitCoordinatorOperation {
            id,
            operation_type: match operation_type {
                Some(t) => t,
                None => command,
            },
            repo_root,
            command,
            priority: match priority {
                Some(p) => p,
                None => GitOperationPriority::Normal,
            },
            enqueued_at: now,
            started_at: None,
            completed_at: None,
            error: None,
        },
        payload,
    }
}

/// `item` with its record marked as started at `now`.
pub open spec fn started<P>(item: QueuedGitOperation<P>, now: u64) -> QueuedGitOperation<P> {
    QueuedGitOperation {
        operation: GitCoordinatorOperation { started_at: Some(now), ..item.operation },
        payload: item.payload,
    }
}

/// Index of the first repository queue that holds `id`, or the count of queues.
pub open spec fn first_holding<P>(repos: Seq<RepoQueueState<P>>, id: Seq<char>) -> int
    decreases repos.len(),
{
    if repos.len() == 0 {
        0
    } else if repos[0].holds_id(id) {
        0
    } else {
        1 + first_holding(repos.drop_first(), id)
    }
}

proof fn lemma_first_holding<P>(repos: Seq<RepoQueueState<P>>, id: Seq<char>, i: int)
    requires
        0 <= i < repos.len(),
        repos[i].holds_id(id),
        forall|k: int| 0 <= k < i ==> !(#[trigger] repos[k]).holds_id(id),
    ensures
        first_holding(repos, id) == i,
    decreases i,
{
    if i > 0 {
        assert(!repos[0].holds_id(id));
        assert forall|k: int| 0 <= k < i - 1 implies !(#[trigger] repos.drop_first()[k]).holds_id(id) by {
            assert(repos.drop_first()[k] == repos[k + 1]);
        }
        lemma_first_holding(repos.drop_first(), id, i - 1);
    }
}

proof fn lemma_first_with_id<P>(q: Seq<QueuedGitOperation<P>>, id: Seq<char>, j: int)
    requires
        0 <= j < q.len(),
        q[j].operation.id@ == id,
        forall|k: int| 0 <= k < j ==> (#[trigger] q[k]).operation.id@ != id,
    ensures
        first_with_id(q, id) == j,
    decreases j,
{
    if j > 0 {
        assert forall|k: int| 0 <= k < j - 1 implies (#[trigger] q.drop_first()[k]).operation.id@ != id by {
            assert(q.drop_first()[k] == q[k + 1]);
        }
        lemma_first_with_id(q.drop_first(), id, j - 1);
    }
}

proof fn lemma_remove_keeps_sorted<P>(q: Seq<QueuedGitOperation<P>>, j: int)
    requires
        sorted_by_class(q),
        0 <= j < q.len(),
    ensures
        sorted_by_class(q.remove(j)),
{
    let s = q.remove(j);
    assert forall|a: int, b: int| 0 <= a < b < s.len() implies class_of(#[trigger] s[a]) <= class_of(
        #[trigger] s[b],
    ) by {
        let a0 = if a < j { a } else { a + 1 };
        let b0 = if b < j { b } else { b + 1 };
        assert(s[a] == q[a0] && s[b] == q[b0]);
    }
}

impl<P> GitCoordinatorState<P> {
    /// Queues operation number `next_operation_id + 1` on `repo_root`,
    /// creating the repository's queue on first use.
    pub fn enqueue(
        &mut self,
        repo_root: String,
        command: String,
        priority: Option<GitOperationPriority>,
        operation_type: Option<String>,
        payload: P,
        now: u64,
    ) -> (r: EnqueueReceipt)
        requires
            old(self).wf(),
            old(self).next_operation_id < u64::MAX,
        ensures
            final(self).wf(),
            ids_step(*old(self), *final(self)),
            final(self).next_operation_id == old(self).next_operation_id + 1,
            r.operation_id@ == operation_id_text(final(self).next_operation_id as nat),
            forall|n: nat|
                1 <= n <= old(self).next_operation_id ==> #[trigger] operation_id_text(n)
                    != r.operation_id@,
            forall|x: Seq<char>| #[trigger]
                final(self).holds_id(x) ==> old(self).holds_id(x) || x == r.operation_id@,
            ({
                let item = new_operation(
                    r.operation_id,
                    repo_root,
                    command,
                    priority,
                    operation_type,
                    payload,
                    now,
                );
                if old(self).knows(repo_root@) {
                    let i = old(self).repo_index(repo_root@);
                    let (o, n) = (old(self).repos@[i], final(self).repos@[i]);
                    &&& final(self).repos@.len() == old(self).repos@.len()
                    &&& forall|k: int|
                        0 <= k < old(self).repos@.len() && k != i ==> #[trigger] final(self).repos@[k]
                            == old(self).repos@[k]
                    &&& n.pending@ == inserted_by_priority(o.pending@, item)
                    &&& n.repo_root == o.repo_root && n.running == o.running
                    &&& n.completed_count == o.completed_count && n.failed_count == o.failed_count
                    &&& n.dispatched == o.dispatched && n.worker_active
                    &&& r.start_worker == !o.worker_active
                } else {
                    let n = final(self).repos@.last();
                    &&& final(self).repos@.len() == old(self).repos@.len() + 1
                    &&& forall|k: int|
                        0 <= k < old(self).repos@.len() ==> #[trigger] final(self).repos@[k]
                            == old(self).repos@[k]
                    &&& n.repo_root@ == repo_root@ && n.pending@ == seq![item]
                    &&& n.running is None && n.completed_count == 0 && n.failed_count == 0
                    &&& n.dispatched@ == 0 && n.worker_active
                    &&& r.start_worker
                }
            }),
    {
        self.next_operation_id = self.next_operation_id + 1;
        let id = operation_id(self.next_operation_id);
        proof {
            assert forall|n: nat| 1 <= n <= old(self).next_operation_id implies #[trigger] operation_id_text(
                n,
            ) != id@ by {
                if operation_id_text(n) == id@ {
                    lemma_operation_id_injective(n, self.next_operation_id as nat);
                }
            }
        }
        let ghost item = new_operation(
            id,
            repo_root,
            command,
            priority,
            operation_type,
            payload,
            now,
        );
        let op_type = match operation_type {
            Some(t) => t,
            None => command.clone(),
        };
        let prio = match priority {
            Some(p) => p,
            None => GitOperationPriority::Normal,
        };
        let queued = QueuedGitOperation {
            operation: GitCoordinatorOperation {
                id: id.clone(),
                operation_type: op_type,
                repo_root: repo_root.clone(),
                command,
                priority: prio,
                enqueued_at: now,
                started_at: None,
                completed_at: None,
                error: None,
            },
            payload,
        };
        assert(queued == item);
        let ghost old_repos = self.repos@;
        let ghost fresh = operation_id_text(self.next_operation_id as nat);
        assert(id@ == fresh);
        match self.find_repo(&repo_root) {
            Some(i) => {
                let mut repo = self.repos.remove(i);
                let ghost o = repo;
                proof {
                    lemma_insert_keeps_sorted(repo.pending@, queued);
                }
                queue_insert_by_priority(&mut repo.pending, queued);
                let start_worker = !repo.worker_active;
                repo.worker_active = true;
                self.repos.insert(i, repo);
                proof {
                    assert(old_repos[i as int] == o);
                    assert(self.repos@ =~= old_repos.update(i as int, repo));
                    lemma_ids_update(old_repos, i as int, repo);
                    let k = crate::queue::first_ranked_after(o.pending@, class_of(item));
                    crate::queue::lemma_first_ranked_after(o.pending@, class_of(item));
                    assert(pending_ids(repo.pending@) =~= pending_ids(o.pending@).insert(k, fresh));
                    vstd::seq_lib::to_multiset_insert(pending_ids(o.pending@), k, fresh);
                    assert forall|x: Seq<char>| #[trigger] ids_in(self.repos@).count(x) == ids_in(
                        old_repos,
                    ).count(x) + (if x == fresh {
                        1int
                    } else {
                        0int
                    }) by {
                        assert(ids_in(self.repos@).add(repo_ids(o)).count(x) == ids_in(
                            old_repos,
                        ).add(repo_ids(repo)).count(x));
                    }
                    lemma_ids_grow(old_repos, self.repos@, (self.next_operation_id - 1) as nat);
                    assert forall|x: Seq<char>| #[trigger] self.holds_id(x) implies old(self).holds_id(
                        x,
                    ) || x == id@ by {
                        lemma_held_iff_counted(self.repos@, x);
                        lemma_held_iff_counted(old_repos, x);
                    }
                }
                EnqueueReceipt { operation_id: id, start_worker }
            },
            None => {
                let mut pending = VecDeque::new();
                pending.push_back(queued);
                assert(pending@ =~= seq![item]);
                self.repos.push(
                    RepoQueueState {
                        repo_root,
                        pending,
                        running: None,
                        completed_count: 0,
                        failed_count: 0,
                        worker_active: true,
                        dispatched: Ghost(0),
                    },
                );
                proof {
                    let n = self.repos@.last();
                    assert(self.repos@.drop_last() =~= old_repos);
                    assert(pending_ids(n.pending@) =~= seq![fresh]);
                    assert(seq![fresh].to_multiset() =~= Multiset::singleton(fresh)) by {
                        broadcast use vstd::seq_lib::group_to_multiset_ensures;

                        let e = Seq::<Seq<char>>::empty();
                        assert(e.to_multiset().len() == 0);
                        vstd::multiset::lemma_multiset_empty_len(e.to_multiset());
                        assert(e.push(fresh) =~= seq![fresh]);
                        assert(e.push(fresh).to_multiset() =~= e.to_multiset().insert(fresh));
                    }
                    assert forall|x: Seq<char>| #[trigger] ids_in(self.repos@).count(x) == ids_in(
                        old_repos,
                    ).count(x) + (if x == fresh {
                        1int
                    } else {
                        0int
                    }) by {}
                    lemma_ids_grow(old_repos, self.repos@, (self.next_operation_id - 1) as nat);
                    assert forall|x: Seq<char>| #[trigger] self.holds_id(x) implies old(self).holds_id(
                        x,
                    ) || x == id@ by {
                        lemma_held_iff_counted(self.repos@, x);
                        lemma_held_iff_counted(old_repos, x);
                    }
                }
                EnqueueReceipt { operation_id: id, start_worker: true }
            },
        }
    }

    /// Counters, pending count and running record of `repo_root`'s queue; all
    /// zero for a repository never seen.
    pub fn status(&self, repo_root: String) -> (r: GitCoordinatorQueueStatus)
        requires
            self.wf(),
        ensures
            r.repo_root == repo_root,
            self.knows(repo_root@) ==> ({
                let q = self.repos@[self.repo_index(repo_root@)];
                &&& r.pending_count == q.pending@.len()
                &&& r.running_operation == q.running
                &&& r.completed_count == q.completed_count
                &&& r.failed_count == q.failed_count
            }),
            !self.knows(repo_root@) ==> r.pending_count == 0 && r.running_operation is None
                && r.completed_count == 0 && r.failed_count == 0,
    {
        match self.find_repo(&repo_root) {
            Some(i) => {
                let q = &self.repos[i];
                let running_operation = match &q.running {
                    Some(op) => Some(op.duplicate()),
                    None => None,
                };
                GitCoordinatorQueueStatus {
                    repo_root,
                    pending_count: q.pending.len(),
                    running_operation,
                    completed_count: q.completed_count,
                    failed_count: q.failed_count,
                }
            },
            None => GitCoordinatorQueueStatus {
                repo_root,
                pending_count: 0,
                running_operation: None,
                completed_count: 0,
                failed_count: 0,
            },
        }
    }

    /// The worker's step: takes the front of `repo_root`'s queue, stamps it as
    /// started at `now` and publishes it as running. With nothing pending, the
    /// worker is marked as gone and `None` comes back. While an operation
    /// runs, nothing else starts: the state stays as it is and `None` comes back.
    pub fn begin_next(&mut self, repo_root: &String, now: u64) -> (r: Option<
        QueuedGitOperation<P>,
    >)
        requires
            old(self).wf(),
        ensures
            final(self).wf(),
            ids_step(*old(self), *final(self)),
            final(self).next_operation_id == old(self).next_operation_id,
            forall|x: Seq<char>| #[trigger] final(self).holds_id(x) ==> old(self).holds_id(x),
            !old(self).knows(repo_root@) ==> r is None && final(self).repos@ == old(self).repos@,
            old(self).knows(repo_root@) ==> ({
                let i = old(self).repo_index(repo_root@);
                let (o, n) = (old(self).repos@[i], final(self).repos@[i]);
                &&& final(self).repos@.len() == old(self).repos@.len()
                &&& forall|k: int|
                    0 <= k < old(self).repos@.len() && k != i ==> #[trigger] final(self).repos@[k]
                        == old(self).repos@[k]
                &&& n.repo_root == o.repo_root
                &&& n.completed_count == o.completed_count && n.failed_count == o.failed_count
                &&& if o.running is Some {
                    &&& r is None
                    &&& final(self).repos@ == old(self).repos@
                } else if o.pending@.len() == 0 {
                    &&& r is None
                    &&& n.pending@ == o.pending@ && n.running is None && !n.worker_active
                    &&& n.dispatched == o.dispatched
                } else {
                    &&& r == Some(started(o.pending@[0], now))
                    &&& n.pending@ == o.pending@.drop_first()
                    &&& n.running == Some(r->0.operation)
                    &&& n.worker_active
                    &&& n.dispatched@ == o.dispatched@ + 1
                }
            }),
    {
        match self.find_repo(repo_root) {
            None => None,
            Some(i) => {
                if self.repos[i].running.is_some() {
                    return None;
                }
                let mut repo = self.repos.remove(i);
                let ghost o = repo;
                let r = match repo.pending.pop_front() {
                    None => {
                        repo.worker_active = false;
                        repo.running = None;
                        None
                    },
                    Some(mut next) => {
                        next.operation.started_at = Some(now);
                        repo.running = Some(next.operation.duplicate());
                        repo.dispatched = Ghost(repo.dispatched@ + 1);
                        proof {
                            assert forall|a: int, b: int|
                                0 <= a < b < repo.pending@.len() implies class_of(
                                #[trigger] repo.pending@[a],
                            ) <= class_of(#[trigger] repo.pending@[b]) by {
                                assert(repo.pending@[a] == o.pending@[a + 1]);
                                assert(repo.pending@[b] == o.pending@[b + 1]);
                            }
                        }
                        Some(next)
                    },
                };
                self.repos.insert(i, repo);
                proof {
                    let old_repos = old(self).repos@;
                    assert(old_repos[i as int] == o);
                    assert(self.repos@ =~= old_repos.update(i as int, repo));
                    lemma_ids_update(old_repos, i as int, repo);
                    if o.pending@.len() > 0 {
                        broadcast use vstd::seq_lib::group_to_multiset_ensures;

                        let ids = pending_ids(o.pending@);
                        assert(pending_ids(repo.pending@) =~= ids.remove(0));
                        assert(ids[0] == repo.running->0.id@);
                    }
                    assert forall|x: Seq<char>| #[trigger] ids_in(self.repos@).count(x) == ids_in(
                        old_repos,
                    ).count(x) by {
                        assert(ids_in(self.repos@).add(repo_ids(o)).count(x) == ids_in(
                            old_repos,
                        ).add(repo_ids(repo)).count(x));
                    }
                    lemma_ids_shrink(old_repos, self.repos@, self.next_operation_id as nat);
                    assert forall|x: Seq<char>| #[trigger] self.holds_id(x) implies old(self).holds_id(
                        x,
                    ) by {
                        lemma_held_iff_counted(self.repos@, x);
                        lemma_held_iff_counted(old_repos, x);
                    }
                }
                r
            },
        }
    }

    /// Cancels operation `operation_id`. The queues are searched in order; in
    /// the first one that holds the identifier, a waiting entry is taken out
    /// and handed back, while a running one is left for the caller to signal.
    pub fn cancel(&mut self, operation_id: String) -> (r: CancelOutcome<P>)
        requires
            old(self).wf(),
        ensures
            final(self).wf(),
            ids_step(*old(self), *final(self)),
            final(self).next_operation_id == old(self).next_operation_id,
            (r is NotFound) <==> !old(self).holds_id(operation_id@),
            r is Pending ==> !final(self).holds_id(operation_id@),
            !(r is Pending) ==> final(self).repos@ == old(self).repos@,
            r is Running ==> ({
                let q = old(self).repos@[first_holding(old(self).repos@, operation_id@)];
                &&& first_holding(old(self).repos@, operation_id@) < old(self).repos@.len()
                &&& !has_id(q.pending@, operation_id@)
                &&& q.running is Some && q.running->0.id@ == operation_id@
            }),
            r is Pending ==> ({
                let i = first_holding(old(self).repos@, operation_id@);
                let (o, n) = (old(self).repos@[i], final(self).repos@[i]);
                let j = first_with_id(o.pending@, operation_id@);
                &&& 0 <= i < old(self).repos@.len()
                &&& 0 <= j < o.pending@.len()
                &&& r->0 == o.pending@[j]
                &&& r->0.operation.id@ == operation_id@
                &&& final(self).repos@.len() == old(self).repos@.len()
                &&& forall|k: int|
                    0 <= k < old(self).repos@.len() && k != i ==> #[trigger] final(self).repos@[k]
                        == old(self).repos@[k]
                &&& n.pending@ == o.pending@.remove(j)
                &&& n.repo_root == o.repo_root && n.running == o.running
                &&& n.completed_count == o.completed_count && n.failed_count == o.failed_count
                &&& n.worker_active == o.worker_active && n.dispatched == o.dispatched
            }),
    {
        let mut i: usize = 0;
        while i < self.repos.len()
            invariant
                self.wf(),
                self.repos@ == old(self).repos@,
                self.next_operation_id == old(self).next_operation_id,
                0 <= i <= self.repos@.len(),
                forall|k: int| 0 <= k < i ==> !(#[trigger] self.repos@[k]).holds_id(operation_id@),
            decreases self.repos@.len() - i,
        {
            let len = self.repos[i].pending.len();
            let mut j: usize = 0;
            while j < len
                invariant
                    self.wf(),
                    self.repos@ == old(self).repos@,
                    self.next_operation_id == old(self).next_operation_id,
                    0 <= i < self.repos@.len(),
                    forall|k: int|
                        0 <= k < i ==> !(#[trigger] self.repos@[k]).holds_id(operation_id@),
                    len == self.repos@[i as int].pending@.len(),
                    0 <= j <= len,
                    forall|k: int|
                        0 <= k < j ==> (#[trigger] self.repos@[i as int].pending@[k]).operation.id@
                            != operation_id@,
                decreases len - j,
            {
                if self.repos[i].pending[j].operation.id == operation_id {
                    proof {
                        lemma_first_holding(self.repos@, operation_id@, i as int);
                        lemma_first_with_id(self.repos@[i as int].pending@, operation_id@, j as int);
                        lemma_remove_keeps_sorted(self.repos@[i as int].pending@, j as int);
                    }
                    let mut repo = self.repos.remove(i);
                    let ghost o = repo;
                    let taken = repo.pending.remove(j);
                    self.repos.insert(i, repo);
                    proof {
                        broadcast use vstd::seq_lib::group_to_multiset_ensures;

                        let old_repos = old(self).repos@;
                        let id = operation_id@;
                        assert(self.repos@ =~= old_repos.update(i as int, repo));
                        lemma_ids_update(old_repos, i as int, repo);
                        let ids = pending_ids(o.pending@);
                        assert(pending_ids(repo.pending@) =~= ids.remove(j as int));
                        assert(ids[j as int] == id);
                        assert forall|x: Seq<char>| #[trigger] ids_in(self.repos@).count(x) == ids_in(
                            old_repos,
                        ).count(x) - (if x == id {
                            1int
                        } else {
                            0int
                        }) by {
                            assert(ids_in(self.repos@).add(repo_ids(o)).count(x) == ids_in(
                                old_repos,
                            ).add(repo_ids(repo)).count(x));
                        }
                        lemma_ids_shrink(old_repos, self.repos@, self.next_operation_id as nat);
                        assert(o.holds_id(id));
                        lemma_holds_counted(o, id);
                        lemma_ids_contain_repo(old_repos, i as int, id);
                        assert(ids_in(self.repos@).count(id) == 0);
                        if self.holds_id(id) {
                            let k = choose|k: int| 0 <= k < self.repos@.len() && (#[trigger] self.repos@[k]).holds_id(id);
                            lemma_holds_counted(self.repos@[k], id);
                            lemma_ids_contain_repo(self.repos@, k, id);
                        }
                    }
                    match taken {
                        Some(item) => {
                            return CancelOutcome::Pending(item);
                        },
                        None => {
                            return CancelOutcome::NotFound;
                        },
                    }
                }
                j = j + 1;
            }
            let running_match = match &self.repos[i].running {
                Some(op) => op.id == operation_id,
                None => false,
            };
            if running_match {
                proof {
                    lemma_first_holding(self.repos@, operation_id@, i as int);
                }
                return CancelOutcome::Running;
            }
            i = i + 1;
        }
        CancelOutcome::NotFound
    }

    /// Records the end of `repo_root`'s running operation: it is no longer
    /// running, and it counts as completed or as failed. Without a running
    /// operation there is nothing to record and the state stays as it is.
    pub fn finish(&mut self, repo_root: &String, succeeded: bool)
        requires
            old(self).wf(),
            old(self).knows(repo_root@) ==> ({
                let q = old(self).repos@[old(self).repo_index(repo_root@)];
                q.running is Some ==> q.completed_count + q.failed_count < usize::MAX
            }),
        ensures
            final(self).wf(),
            ids_step(*old(self), *final(self)),
            final(self).next_operation_id == old(self).next_operation_id,
            forall|x: Seq<char>| #[trigger] final(self).holds_id(x) ==> old(self).holds_id(x),
            !old(self).knows(repo_root@) ==> final(self).repos@ == old(self).repos@,
            old(self).knows(repo_root@) ==> ({
                let i = old(self).repo_index(repo_root@);
                let (o, n) = (old(self).repos@[i], final(self).repos@[i]);
                &&& final(self).repos@.len() == old(self).repos@.len()
                &&& forall|k: int|
                    0 <= k < old(self).repos@.len() && k != i ==> #[trigger] final(self).repos@[k]
                        == old(self).repos@[k]
                &&& o.running is None ==> final(self).repos@ == old(self).repos@
                &&& n.repo_root == o.repo_root && n.pending@ == o.pending@
                &&& n.running is None && n.worker_active == o.worker_active
                &&& n.dispatched == o.dispatched
                &&& o.running is Some ==> n.completed_count == o.completed_count + (if succeeded {
                    1int
                } else {
                    0int
                })
                &&& o.running is Some ==> n.failed_count == o.failed_count + (if succeeded {
                    0int
                } else {
                    1int
                })
            }),
    {
        match self.find_repo(repo_root) {
            None => {},
            Some(i) => {
                if self.repos[i].running.is_none() {
                    return ;
                }
                let mut repo = self.repos.remove(i);
                let ghost o = repo;
                repo.running = None;
                if succeeded {
                    repo.completed_count = repo.completed_count + 1;
                } else {
                    repo.failed_count = repo.failed_count + 1;
                }
                self.repos.insert(i, repo);
                proof {
                    let old_repos = old(self).repos@;
                    assert(self.repos@ =~= old_repos.update(i as int, repo));
                    lemma_ids_update(old_repos, i as int, repo);
                    assert forall|x: Seq<char>| #[trigger] ids_in(self.repos@).count(x) <= ids_in(
                        old_repos,
                    ).count(x) by {
                        assert(ids_in(self.repos@).add(repo_ids(old_repos[i as int])).count(x) == ids_in(
                            old_repos,
                        ).add(repo_ids(repo)).count(x));
                    }
                    lemma_ids_shrink(old_repos, self.repos@, self.next_operation_id as nat);
                    assert forall|x: Seq<char>| #[trigger] self.holds_id(x) implies old(self).holds_id(
                        x,
                    ) by {
                        lemma_held_iff_counted(self.repos@, x);
                        lemma_held_iff_counted(old_repos, x);
                    }
                }
            },
        }
    }
}

} // verus!
