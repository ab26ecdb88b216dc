use bitforge::build_state::{
    event_task_log, group_running, status_order, status_rank, table_status, BuildManager,
    RunningTask,
};
use bitforge::signal::{is_raised, new_flag};
use bitforge::table::Table;

fn started_manager(id: i64) -> BuildManager {
    let mut manager = BuildManager::new();
    manager.begin(id, "core-image-minimal".to_string(), 100, new_flag());
    manager
}

#[test]
fn begin_installs_a_running_snapshot() {
    let manager = started_manager(7);
    assert!(manager.is_running());
    let snapshot = manager.current_snapshot().unwrap();
    assert_eq!(snapshot.id, 7);
    assert_eq!(snapshot.status, "running");
    assert_eq!(snapshot.target, "core-image-minimal");
    assert_eq!(snapshot.current_task, "Starting bitbake");
    assert_eq!(snapshot.overall_progress, 0);
    assert_eq!(snapshot.started_at, 100);
}

#[test]
fn task_started_event_updates_processing_and_table() {
    let mut manager = started_manager(1);
    manager.set_task_id(5);
    let outcome = manager.apply_event_payload(
        1,
        r#"<event kind="task" state="started" recipe="busybox" task="do_compile" taskhash="abc"/>"#,
        200,
    );
    assert!(outcome.applied);
    assert_eq!(outcome.task_log, Some((5, "started: busybox do_compile".to_string())));
    assert_eq!(outcome.progress, None);
    let snapshot = manager.current_snapshot().unwrap();
    assert_eq!(snapshot.current_task, "busybox do_compile");
    assert_eq!(snapshot.tasks.processing.len(), 1);
    assert_eq!(snapshot.tasks.groups.len(), 1);
    assert_eq!(snapshot.tasks.groups[0].task, "do_compile");
    assert_eq!(snapshot.tasks.groups[0].running, 1);
    let rows = manager.task_rows();
    assert_eq!(rows.len(), 1);
    assert_eq!(rows[0].status, "running");
    assert_eq!(rows[0].started_at, Some(200));
    assert_eq!(rows[0].finished_at, None);
    assert_eq!(rows[0].signature, Some("abc".to_string()));
}

#[test]
fn completed_event_moves_task_to_recent_done() {
    let mut manager = started_manager(1);
    manager.apply_event_payload(
        1,
        r#"<event kind="task" state="started" recipe="zlib" task="do_fetch"/>"#,
        10,
    );
    let outcome = manager.apply_event_payload(
        1,
        r#"<event kind="task" state="completed" recipe="zlib" task="do_fetch"/>"#,
        20,
    );
    assert!(outcome.applied);
    assert_eq!(outcome.task_log, None);
    let snapshot = manager.current_snapshot().unwrap();
    assert!(snapshot.tasks.processing.is_empty());
    assert_eq!(snapshot.tasks.recent_done, vec!["zlib do_fetch".to_string()]);
    let rows = manager.task_rows();
    assert_eq!(rows[0].status, "built");
    assert_eq!(rows[0].started_at, Some(10));
    assert_eq!(rows[0].finished_at, Some(20));
}

#[test]
fn progress_event_reports_counts() {
    let mut manager = started_manager(3);
    let outcome = manager.apply_event_payload(
        3,
        r#"<event kind="progress" total="10" completed="4" active="2" failed="1" setscene_total="3" setscene_covered="2"/>"#,
        0,
    );
    assert_eq!(outcome.progress, Some((4, 10)));
    let snapshot = manager.current_snapshot().unwrap();
    assert_eq!(snapshot.tasks.total, 10);
    assert_eq!(snapshot.tasks.done, 4);
    assert_eq!(snapshot.tasks.planned, 6);
    assert_eq!(snapshot.tasks.running, 2);
    assert_eq!(snapshot.tasks.failed, 1);
    assert_eq!(snapshot.tasks.setscene_total, 3);
    assert_eq!(snapshot.tasks.setscene_covered, 2);
}

#[test]
fn events_for_other_builds_are_ignored() {
    let mut manager = started_manager(3);
    let outcome = manager.apply_event_payload(
        4,
        r#"<event kind="task" state="started" recipe="a" task="b"/>"#,
        0,
    );
    assert!(!outcome.applied);
    assert!(manager.task_rows().is_empty());
    let garbage = manager.apply_event_payload(3, "not xml at all", 0);
    assert!(!garbage.applied);
    let mut idle = BuildManager::new();
    assert!(!idle.apply_event_payload(1, r#"<event kind="progress" total="1"/>"#, 0).applied);
}

#[test]
fn finished_rows_keep_their_status() {
    let mut manager = started_manager(1);
    manager.apply_event_payload(1, r#"<event kind="task" state="failed" recipe="a" task="t"/>"#, 5);
    manager.apply_event_payload(1, r#"<event kind="task" state="started" recipe="a" task="t"/>"#, 6);
    let rows = manager.task_rows();
    assert_eq!(rows.len(), 1);
    assert_eq!(rows[0].status, "failed");
}

#[test]
fn task_rows_are_in_display_order() {
    let mut manager = started_manager(1);
    manager.apply_event_payload(1, r#"<event kind="task" state="completed" recipe="b" task="t"/>"#, 1);
    manager.apply_event_payload(1, r#"<event kind="task" state="started" recipe="c" task="t"/>"#, 2);
    manager.apply_event_payload(1, r#"<event kind="task" state="failed" recipe="a" task="t"/>"#, 3);
    manager.apply_event_payload(1, r#"<event kind="task" state="started" recipe="a" task="u"/>"#, 4);
    let rows = manager.task_rows();
    let order: Vec<(String, String)> = rows.iter().map(|r| (r.recipe.clone(), r.status.clone())).collect();
    assert_eq!(
        order,
        vec![
            ("a".to_string(), "running".to_string()),
            ("c".to_string(), "running".to_string()),
            ("a".to_string(), "failed".to_string()),
            ("b".to_string(), "built".to_string()),
        ]
    );
}

#[test]
fn finalize_success_completes_progress() {
    let mut manager = started_manager(9);
    manager.set_task_id(4);
    let (started_at, task) = manager.finalize(9, "success", 160);
    assert_eq!(started_at, 100);
    assert_eq!(task, Some(4));
    let snapshot = manager.current_snapshot().unwrap();
    assert_eq!(snapshot.status, "success");
    assert_eq!(snapshot.overall_progress, 100);
    assert_eq!(snapshot.finished_at, Some(160));
    assert!(!manager.is_running());
    assert!(!manager.request_cancel());
}

#[test]
fn request_cancel_raises_the_build_flag() {
    let mut manager = BuildManager::new();
    let flag = new_flag();
    manager.begin(1, "img".to_string(), 0, flag.clone());
    assert!(manager.request_cancel());
    assert!(is_raised(&flag));
}

#[test]
fn note_sets_the_current_task() {
    let mut manager = started_manager(2);
    manager.set_task_id(8);
    assert_eq!(manager.note(2, "Parsing recipes"), (true, Some(8)));
    assert_eq!(manager.current_snapshot().unwrap().current_task, "Parsing recipes");
    assert_eq!(manager.note(3, "other"), (false, None));
}

#[test]
fn status_words_and_ranks() {
    assert_eq!(table_status("started"), "running");
    assert_eq!(table_status("completed"), "built");
    assert_eq!(table_status("failed"), "failed");
    assert_eq!(table_status("setscene-completed"), "cached");
    assert_eq!(table_status("setscene-started"), "queued");
    assert_eq!(status_rank("queued"), 0);
    assert_eq!(status_rank("running"), 1);
    assert_eq!(status_rank("cached"), 2);
    assert_eq!(status_rank("weird"), 0);
    assert_eq!(status_order("running"), 0);
    assert_eq!(status_order("failed"), 1);
    assert_eq!(status_order("cached"), 4);
    assert_eq!(status_order("other"), 5);
}

#[test]
fn group_running_counts_by_task_name() {
    let processing = vec![
        RunningTask { recipe: "a".to_string(), task: "do_compile".to_string() },
        RunningTask { recipe: "b".to_string(), task: "do_fetch".to_string() },
        RunningTask { recipe: "c".to_string(), task: "do_compile".to_string() },
    ];
    let groups = group_running(&processing);
    assert_eq!(groups.len(), 2);
    assert_eq!(groups[0].task, "do_compile");
    assert_eq!(groups[0].running, 2);
    assert_eq!(groups[1].task, "do_fetch");
    assert_eq!(groups[1].running, 1);
}

#[test]
fn event_task_log_needs_a_state() {
    let mut attrs: Table<String> = Table::new();
    attrs.insert("recipe".to_string(), "zlib".to_string());
    assert_eq!(event_task_log(&attrs), None);
    attrs.insert("state".to_string(), "failed".to_string());
    assert_eq!(event_task_log(&attrs), Some("failed: zlib ".to_string()));
}
