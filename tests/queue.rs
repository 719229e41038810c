use hatch_kernel::{
    GitCoordinatorOperation, GitOperationPriority, QueuedGitOperation, queue_insert_by_priority,
};
use std::collections::VecDeque;

fn queued(id: &str, priority: GitOperationPriority) -> QueuedGitOperation<()> {
    QueuedGitOperation {
        operation: GitCoordinatorOperation {
            id: id.to_string(),
            operation_type: "test".to_string(),
            repo_root: "/tmp/repo".to_string(),
            command: "git_status".to_string(),
            priority,
            enqueued_at: 0,
            started_at: None,
            completed_at: None,
            error: None,
        },
        payload: (),
    }
}

fn ids(queue: &VecDeque<QueuedGitOperation<()>>) -> Vec<String> {
    queue.iter().map(|item| item.operation.id.clone()).collect()
}

#[test]
fn queue_inserts_critical_before_normal_and_low() {
    let mut queue = VecDeque::new();
    queue_insert_by_priority(&mut queue, queued("normal-1", GitOperationPriority::Normal));
    queue_insert_by_priority(&mut queue, queued("low-1", GitOperationPriority::Low));
    queue_insert_by_priority(&mut queue, queued("critical-1", GitOperationPriority::Critical));

    assert_eq!(ids(&queue), vec!["critical-1", "normal-1", "low-1"]);
}

#[test]
fn queue_preserves_fifo_within_same_priority() {
    let mut queue = VecDeque::new();
    queue_insert_by_priority(&mut queue, queued("critical-1", GitOperationPriority::Critical));
    queue_insert_by_priority(&mut queue, queued("critical-2", GitOperationPriority::Critical));
    queue_insert_by_priority(&mut queue, queued("normal-1", GitOperationPriority::Normal));
    queue_insert_by_priority(&mut queue, queued("normal-2", GitOperationPriority::Normal));
    queue_insert_by_priority(&mut queue, queued("low-1", GitOperationPriority::Low));
    queue_insert_by_priority(&mut queue, queued("low-2", GitOperationPriority::Low));

    assert_eq!(
        ids(&queue),
        vec!["critical-1", "critical-2", "normal-1", "normal-2", "low-1", "low-2"]
    );
}

#[test]
fn queue_groups_interleaved_classes_in_arrival_order() {
    let mut queue = VecDeque::new();
    queue_insert_by_priority(&mut queue, queued("low-1", GitOperationPriority::Low));
    queue_insert_by_priority(&mut queue, queued("normal-1", GitOperationPriority::Normal));
    queue_insert_by_priority(&mut queue, queued("critical-1", GitOperationPriority::Critical));
    queue_insert_by_priority(&mut queue, queued("low-2", GitOperationPriority::Low));
    queue_insert_by_priority(&mut queue, queued("critical-2", GitOperationPriority::Critical));
    queue_insert_by_priority(&mut queue, queued("normal-2", GitOperationPriority::Normal));

    assert_eq!(
        ids(&queue),
        vec!["critical-1", "critical-2", "normal-1", "normal-2", "low-1", "low-2"]
    );
}

#[test]
fn queue_insert_into_empty_queue() {
    let mut queue = VecDeque::new();
    queue_insert_by_priority(&mut queue, queued("low-1", GitOperationPriority::Low));
    assert_eq!(ids(&queue), vec!["low-1"]);
}
