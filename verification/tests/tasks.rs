use bitforge::records::ActivityRecord;
use bitforge::signal::{is_raised, new_flag};
use bitforge::tasks::{task_status, BeginError, PollBuffer, TaskRegistry, HISTORY, POLL_CAPACITY};

#[test]
fn begin_task_hands_out_increasing_ids() {
    let mut registry = TaskRegistry::new();
    let first = registry.begin_task("Parse metadata".to_string(), "metadata", "metadata", None, 10);
    let second = registry.begin_task("Build".to_string(), "bitbake", "", None, 11);
    assert_eq!(first, 1);
    assert_eq!(second, 2);
    let snapshot = registry.snapshot();
    assert_eq!(snapshot.len(), 2);
    assert_eq!(snapshot[0].id, 2);
    assert_eq!(snapshot[1].id, 1);
    assert_eq!(snapshot[1].status, "running");
    assert_eq!(snapshot[1].kind, "metadata");
    assert_eq!(snapshot[1].started_at, 10);
    assert!(!snapshot[1].cancellable);
}

#[test]
fn registry_keeps_only_recent_history() {
    let mut registry = TaskRegistry::new();
    for i in 0..(HISTORY + 5) {
        registry.begin_task(format!("task {i}"), "plan", "", None, i as i64);
    }
    let snapshot = registry.snapshot();
    assert_eq!(snapshot.len(), HISTORY);
    assert_eq!(snapshot[0].id, (HISTORY + 5) as u64);
    assert_eq!(snapshot[HISTORY - 1].id, 6);
}

#[test]
fn try_begin_refuses_a_running_key() {
    let mut registry = TaskRegistry::new();
    let id = registry.try_begin("Plan core-image".to_string(), "plan", "plan:core-image", None, false, 1);
    assert_eq!(id.unwrap(), 1);
    match registry.try_begin("Plan again".to_string(), "plan", "plan:core-image", None, false, 2) {
        Err(BeginError::Running { id, label }) => {
            assert_eq!(id, 1);
            assert_eq!(label, "Plan core-image");
        }
        other => panic!("unexpected {other:?}"),
    }
}

#[test]
fn two_failures_block_until_forced() {
    let mut registry = TaskRegistry::new();
    for attempt in 0..2 {
        let id = registry
            .try_begin("Metadata".to_string(), "metadata", "meta", None, false, attempt)
            .unwrap();
        registry.end_task(id, "failed", attempt + 1);
    }
    assert!(registry.failed_too_often("meta"));
    match registry.try_begin("Metadata".to_string(), "metadata", "meta", None, false, 5) {
        Err(BeginError::Blocked { message }) => assert_eq!(
            message,
            "'Metadata' failed 2 times; not retrying automatically. Use refresh to try again."
        ),
        other => panic!("unexpected {other:?}"),
    }
    let forced = registry.try_begin("Metadata".to_string(), "metadata", "meta", None, true, 6);
    assert!(forced.is_ok());
    assert!(!registry.failed_too_often("meta"));
}

#[test]
fn success_clears_failures() {
    let mut registry = TaskRegistry::new();
    let id = registry.begin_task("Deps".to_string(), "deps", "deps", None, 1);
    registry.end_task(id, "failed", 2);
    assert_eq!(registry.failure_count("deps"), Some(1));
    let id = registry.begin_task("Deps".to_string(), "deps", "deps", None, 3);
    registry.end_task(id, "done", 4);
    assert_eq!(registry.failure_count("deps"), None);
}

#[test]
fn end_task_returns_the_joined_log() {
    let mut registry = TaskRegistry::new();
    let flag = new_flag();
    let id = registry.begin_task("Build".to_string(), "bitbake", "", Some(flag), 1);
    assert!(registry.append_task_log(id, "first"));
    assert!(registry.append_task_log(id, "second"));
    assert!(!registry.append_task_log(id + 1, "nobody"));
    let log = registry.end_task(id, "done", 9);
    assert_eq!(log, Some("first\nsecond".to_string()));
    let (entry, lines) = registry.task_detail(id).unwrap();
    assert_eq!(entry.status, "done");
    assert_eq!(entry.finished_at, Some(9));
    assert!(!entry.cancellable);
    assert_eq!(lines, vec!["first".to_string(), "second".to_string()]);
    assert_eq!(registry.end_task(99, "done", 10), None);
}

#[test]
fn cancel_task_raises_the_flag() {
    let mut registry = TaskRegistry::new();
    let flag = new_flag();
    let id = registry.begin_task("Build".to_string(), "bitbake", "", Some(flag.clone()), 1);
    let plain = registry.begin_task("Plan".to_string(), "plan", "", None, 2);
    assert!(!is_raised(&flag));
    assert!(registry.bitbake_activity_running());
    assert!(registry.cancel_task(id));
    assert!(is_raised(&flag));
    assert!(!registry.cancel_task(plain));
    assert!(!registry.cancel_task(42));
}

#[test]
fn cancel_all_counts_cancellable_running_activities() {
    let mut registry = TaskRegistry::new();
    let a = new_flag();
    let b = new_flag();
    registry.begin_task("One".to_string(), "metadata", "", Some(a.clone()), 1);
    let two = registry.begin_task("Two".to_string(), "plan", "", Some(b.clone()), 2);
    registry.begin_task("Three".to_string(), "plan", "", None, 3);
    registry.end_task(two, "done", 4);
    assert_eq!(registry.cancel_all_running_tasks(), 1);
    assert!(is_raised(&a));
    assert!(!is_raised(&b));
    assert_eq!(registry.cancel_bitbake_activities(), 1);
}

#[test]
fn task_status_prefers_cancellation() {
    assert_eq!(task_status(true, true), "cancelled");
    assert_eq!(task_status(false, true), "done");
    assert_eq!(task_status(false, false), "failed");
}

#[test]
fn poll_buffer_replays_from_cursor() {
    let mut buffer: PollBuffer<String> = PollBuffer::new();
    assert_eq!(buffer.push("a".to_string()), 0);
    assert_eq!(buffer.push("b".to_string()), 1);
    assert_eq!(buffer.push("c".to_string()), 2);
    let (next, items) = buffer.since(1);
    assert_eq!(next, 3);
    assert_eq!(items, vec!["b".to_string(), "c".to_string()]);
    let (next, items) = buffer.since(3);
    assert_eq!(next, 3);
    assert!(items.is_empty());
}

#[test]
fn poll_buffer_drops_the_oldest() {
    let mut buffer: PollBuffer<u32> = PollBuffer::new();
    for i in 0..(POLL_CAPACITY as u32 + 3) {
        buffer.push(i);
    }
    let (next, items) = buffer.since(0);
    assert_eq!(next, POLL_CAPACITY as u64 + 3);
    assert_eq!(items.len(), POLL_CAPACITY);
    assert_eq!(items[0], 3);
}

#[test]
fn history_is_restored_with_split_logs() {
    let mut registry = TaskRegistry::new();
    let history = vec![
        ActivityRecord {
            id: 7,
            label: "Build".to_string(),
            kind: "bitbake".to_string(),
            status: "done".to_string(),
            started_at: 1,
            finished_at: Some(2),
            log: Some("a\nb".to_string()),
        },
        ActivityRecord {
            id: 3,
            label: "Plan".to_string(),
            kind: "plan".to_string(),
            status: "failed".to_string(),
            started_at: 3,
            finished_at: None,
            log: Some(String::new()),
        },
    ];
    registry.load_activity_history(history);
    assert_eq!(registry.next_id, 7);
    let (entry, lines) = registry.task_detail(7).unwrap();
    assert_eq!(entry.label, "Build");
    assert!(!entry.cancellable);
    assert_eq!(lines, vec!["a".to_string(), "b".to_string()]);
    let (_, lines) = registry.task_detail(3).unwrap();
    assert!(lines.is_empty());
    assert_eq!(registry.begin_task("Next".to_string(), "plan", "", None, 9), 8);
}
