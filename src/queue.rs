use std::collections::VecDeque;
use vstd::prelude::*;

verus! {

/// Scheduling class of an operation: critical runs before normal, normal before low.
#[derive(Debug, Clone, Copy, PartialEq, Eq, Structural)]
pub enum GitOperationPriority {
    Critical,
    Normal,
    Low,
}

/// Rank of a class: smaller ranks are dispatched first.
pub open spec fn rank(p: GitOperationPriority) -> int {
    match p {
        GitOperationPriority::Critical => 0,
        GitOperationPriority::Normal => 1,
        GitOperationPriority::Low => 2,
    }
}

/// The record of one coordinated git operation.
#[derive(Debug, Clone)]
pub struct GitCoordinatorOperation {
    pub id: String,
    pub operation_type: String,
    pub repo_root: String,
    pub command: String,
    pub priority: GitOperationPriority,
    pub enqueued_at: u64,
    pub started_at: Option<u64>,
    pub completed_at: Option<u64>,
    pub error: Option<String>,
}

/// An operation waiting in a repository queue, with the payload that travels
/// with it (its parameters and the channel its result goes to).
pub struct QueuedGitOperation<P> {
    pub operation: GitCoordinatorOperation,
    pub payload: P,
}

pub open spec fn class_of<P>(item: QueuedGitOperation<P>) -> int {
    rank(item.operation.priority)
}

/// Index of the first entry whose class ranks strictly after `r`, or the
/// length of the queue when there is none.
pub open spec fn first_ranked_after<P>(q: Seq<QueuedGitOperation<P>>, r: int) -> int
    decreases q.len(),
{
    if q.len() == 0 {
        0
    } else if class_of(q[0]) > r {
        0
    } else {
        1 + first_ranked_after(q.drop_first(), r)
    }
}

/// The queue after inserting `item` by its class: before the first entry of a
/// later class, after every entry of its own or an earlier class.
pub open spec fn inserted_by_priority<P>(
    q: Seq<QueuedGitOperation<P>>,
    item: QueuedGitOperation<P>,
) -> Seq<QueuedGitOperation<P>> {
    q.insert(first_ranked_after(q, class_of(item)), item)
}

pub proof fn lemma_first_ranked_after<P>(q: Seq<QueuedGitOperation<P>>, r: int)
    ensures
        0 <= first_ranked_after(q, r) <= q.len(),
        forall|i: int| 0 <= i < first_ranked_after(q, r) ==> class_of(#[trigger] q[i]) <= r,
        first_ranked_after(q, r) < q.len() ==> class_of(q[first_ranked_after(q, r)]) > r,
    decreases q.len(),
{
    if q.len() > 0 && class_of(q[0]) <= r {
        lemma_first_ranked_after(q.drop_first(), r);
        assert forall|i: int| 0 <= i < first_ranked_after(q, r) implies class_of(#[trigger] q[i]) <= r by {
            if i > 0 {
                assert(q[i] == q.drop_first()[i - 1]);
            }
        }
    }
}

/// The entries of `q` that belong to the class of rank `c`, in queue order.
pub open spec fn of_class<P>(q: Seq<QueuedGitOperation<P>>, c: int) -> Seq<QueuedGitOperation<P>> {
    q.filter(|x: QueuedGitOperation<P>| class_of(x) == c)
}

/// The queue obtained by inserting `ops`, in order, into an empty queue.
pub open spec fn enqueue_all<P>(ops: Seq<QueuedGitOperation<P>>) -> Seq<QueuedGitOperation<P>>
    decreases ops.len(),
{
    if ops.len() == 0 {
        Seq::empty()
    } else {
        inserted_by_priority(enqueue_all(ops.drop_last()), ops.last())
    }
}

proof fn lemma_first_ranked_after_split<P>(
    a: Seq<QueuedGitOperation<P>>,
    b: Seq<QueuedGitOperation<P>>,
    r: int,
)
    requires
        forall|i: int| 0 <= i < a.len() ==> class_of(#[trigger] a[i]) <= r,
        b.len() == 0 || class_of(b[0]) > r,
    ensures
        first_ranked_after(a + b, r) == a.len(),
    decreases a.len(),
{
    if a.len() == 0 {
        assert(a + b =~= b);
    } else {
        assert((a + b).drop_first() =~= a.drop_first() + b);
        assert((a + b)[0] == a[0]);
        assert forall|i: int| 0 <= i < a.drop_first().len() implies class_of(
            #[trigger] a.drop_first()[i],
        ) <= r by {
            assert(a.drop_first()[i] == a[i + 1]);
        }
        lemma_first_ranked_after_split(a.drop_first(), b, r);
    }
}

proof fn lemma_of_class_push<P>(prev: Seq<QueuedGitOperation<P>>, x: QueuedGitOperation<P>, c: int)
    ensures
        of_class(prev.push(x), c) == if class_of(x) == c {
            of_class(prev, c).push(x)
        } else {
            of_class(prev, c)
        },
{
    let s = prev.push(x);
    assert(s.drop_last() =~= prev);
    assert(s.last() == x);
    reveal_with_fuel(Seq::filter, 1);
}

proof fn lemma_of_class_members<P>(q: Seq<QueuedGitOperation<P>>, c: int)
    ensures
        forall|i: int| 0 <= i < of_class(q, c).len() ==> class_of(#[trigger] of_class(q, c)[i]) == c,
{
    broadcast use Seq::lemma_filter_pred;
    assert forall|i: int| 0 <= i < of_class(q, c).len() implies class_of(
        #[trigger] of_class(q, c)[i],
    ) == c by {
        q.lemma_filter_pred(|x: QueuedGitOperation<P>| class_of(x) == c, i);
    }
}

/// Whatever operations are enqueued on one repository, the queue holds all
/// critical ones, then all normal ones, then all low ones, each class in the
/// order of arrival. The worker takes entries from the front, so a higher
/// class runs first and a class runs first-in first-out.
pub proof fn lemma_enqueue_order<P>(ops: Seq<QueuedGitOperation<P>>)
    ensures
        enqueue_all(ops) == of_class(ops, 0) + of_class(ops, 1) + of_class(ops, 2),
    decreases ops.len(),
{
    if ops.len() == 0 {
        assert(of_class(ops, 0) =~= Seq::<QueuedGitOperation<P>>::empty());
        assert(of_class(ops, 1) =~= Seq::<QueuedGitOperation<P>>::empty());
        assert(of_class(ops, 2) =~= Seq::<QueuedGitOperation<P>>::empty());
        assert(of_class(ops, 0) + of_class(ops, 1) + of_class(ops, 2) =~= Seq::<
            QueuedGitOperation<P>,
        >::empty());
    } else {
        let prev = ops.drop_last();
        let x = ops.last();
        lemma_enqueue_order(prev);
        assert(ops == prev.push(x));
        lemma_of_class_push(prev, x, 0);
        lemma_of_class_push(prev, x, 1);
        lemma_of_class_push(prev, x, 2);
        let c = of_class(prev, 0);
        let n = of_class(prev, 1);
        let l = of_class(prev, 2);
        lemma_of_class_members(prev, 0);
        lemma_of_class_members(prev, 1);
        lemma_of_class_members(prev, 2);
        let q = enqueue_all(prev);
        assert(q == c + n + l);
        let r = class_of(x);
        if r == 0 {
            assert forall|i: int| 0 <= i < c.len() implies class_of(#[trigger] c[i]) <= r by {}
            if n.len() > 0 {
                assert((n + l)[0] == n[0]);
            } else if l.len() > 0 {
                assert(n + l =~= l);
            }
            assert(c + n + l =~= c + (n + l));
            lemma_first_ranked_after_split(c, n + l, r);
            assert(q.insert(c.len() as int, x) =~= c.push(x) + n + l);
            assert(of_class(ops, 0) == c.push(x));
            assert(of_class(ops, 1) == n);
            assert(of_class(ops, 2) == l);
        } else if r == 1 {
            assert forall|i: int| 0 <= i < (c + n).len() implies class_of(#[trigger] (c + n)[i])
                <= r by {
                if i >= c.len() {
                    assert((c + n)[i] == n[i - c.len()]);
                }
            }
            lemma_first_ranked_after_split(c + n, l, r);
            assert(q.insert((c + n).len() as int, x) =~= c + n.push(x) + l);
            assert(of_class(ops, 0) == c);
            assert(of_class(ops, 1) == n.push(x));
            assert(of_class(ops, 2) == l);
        } else {
            assert(r == 2);
            assert forall|i: int| 0 <= i < q.len() implies class_of(#[trigger] q[i]) <= r by {
                if i < c.len() {
                    assert(q[i] == c[i]);
                } else if i < c.len() + n.len() {
                    assert(q[i] == n[i - c.len()]);
                } else {
                    assert(q[i] == l[i - c.len() - n.len()]);
                }
            }
            assert(q + Seq::<QueuedGitOperation<P>>::empty() =~= q);
            lemma_first_ranked_after_split(q, Seq::<QueuedGitOperation<P>>::empty(), r);
            assert(q.insert(q.len() as int, x) =~= c + n + l.push(x));
            assert(of_class(ops, 0) == c);
            assert(of_class(ops, 1) == n);
            assert(of_class(ops, 2) == l.push(x));
        }
    }
}

/// Every entry's class ranks no later than the class of any entry behind it.
pub open spec fn sorted_by_class<P>(q: Seq<QueuedGitOperation<P>>) -> bool {
    forall|i: int, j: int| 0 <= i < j < q.len() ==> class_of(#[trigger] q[i]) <= class_of(#[trigger] q[j])
}

/// Inserting by priority keeps a class-ordered queue class-ordered.
pub proof fn lemma_insert_keeps_sorted<P>(q: Seq<QueuedGitOperation<P>>, item: QueuedGitOperation<P>)
    requires
        sorted_by_class(q),
    ensures
        sorted_by_class(inserted_by_priority(q, item)),
{
    let r = class_of(item);
    lemma_first_ranked_after(q, r);
    let k = first_ranked_after(q, r);
    let s = inserted_by_priority(q, item);
    assert forall|i: int, j: int| 0 <= i < j < s.len() implies class_of(#[trigger] s[i]) <= class_of(
        #[trigger] s[j],
    ) by {
        if j < k {
            assert(s[i] == q[i] && s[j] == q[j]);
        } else if j == k {
            assert(s[i] == q[i]);
        } else if i < k {
            assert(s[i] == q[i] && s[j] == q[j - 1]);
        } else if i == k {
            assert(s[j] == q[j - 1]);
            assert(class_of(q[k]) > r);
            if j - 1 > k {
                assert(class_of(q[k]) <= class_of(q[j - 1]));
            }
        } else {
            assert(s[i] == q[i - 1] && s[j] == q[j - 1]);
        }
    }
}

/// Inserts `operation` into `queue` so that critical entries precede normal
/// ones, normal entries precede low ones, and entries of one class keep the
/// order in which they arrived.
pub fn queue_insert_by_priority<P>(
    queue: &mut VecDeque<QueuedGitOperation<P>>,
    operation: QueuedGitOperation<P>,
)
    ensures
        final(queue)@ == inserted_by_priority(old(queue)@, operation),
{
    let r = operation.operation.priority;
    let len = queue.len();
    let mut i: usize = 0;
    while i < len
        invariant
            len == queue@.len(),
            0 <= i <= len,
            forall|j: int| 0 <= j < i ==> class_of(#[trigger] queue@[j]) <= rank(r),
        ensures
            0 <= i <= len,
            forall|j: int| 0 <= j < i ==> class_of(#[trigger] queue@[j]) <= rank(r),
            i < len ==> class_of(queue@[i as int]) > rank(r),
        decreases len - i,
    {
        let later = match (r, queue[i].operation.priority) {
            (GitOperationPriority::Critical, GitOperationPriority::Critical) => false,
            (GitOperationPriority::Critical, _) => true,
            (GitOperationPriority::Normal, GitOperationPriority::Low) => true,
            _ => false,
        };
        if later {
            break;
        }
        i = i + 1;
    }
    proof {
        lemma_first_ranked_after(queue@, rank(r));
        let k = first_ranked_after(queue@, rank(r));
        if k < i {
            assert(class_of(queue@[k]) <= rank(r));
        }
        if i < k {
            assert(class_of(queue@[i as int]) <= rank(r));
        }
    }
    queue.insert(i, operation);
}

} // verus!
