use tasktimer::todoist::{
    apply_failed_message, check_commands, projects_fit, check_fetch, classify_status, completion_command, due_value, gate,
    plan_sync, reconcile_plan, resolve_class, ClosedState, RemoteSync, SyncAction, SyncLock, TodoistApiError,
    TodoistDue, TodoistProject, TodoistTask,
};

fn item(id: &str, parent: Option<&str>) -> TodoistTask {
    TodoistTask {
        id: id.to_string(),
        project_id: "p".to_string(),
        parent_id: parent.map(|p| p.to_string()),
        content: id.to_string(),
        description: None,
        due: None,
        priority: None,
        checked: false,
        is_deleted: false,
        completed_at: None,
        labels: vec![],
    }
}

fn snapshot(items: Vec<TodoistTask>, full: bool) -> RemoteSync {
    RemoteSync {
        projects: vec![TodoistProject { id: "p".to_string(), name: "Course".to_string(), is_deleted: false }],
        items,
        sync_token: "next".to_string(),
        full_sync: full,
    }
}

fn empty_body() -> Option<RemoteSync> {
    // "{}" does not decode into a snapshot.
    None
}

// Client.

#[test]
fn invalid_token() {
    assert!(matches!(check_fetch(401, empty_body()), Err(TodoistApiError::InvalidToken)));
    assert!(matches!(check_fetch(403, empty_body()), Err(TodoistApiError::InvalidToken)));
}

#[test]
fn rate_limit() {
    assert!(matches!(check_fetch(429, empty_body()), Err(TodoistApiError::RateLimited)));
}

#[test]
fn server_failure() {
    assert!(matches!(check_fetch(503, empty_body()), Err(TodoistApiError::Network)));
}

#[test]
fn incomplete_payload_rejected() {
    assert!(matches!(check_fetch(200, empty_body()), Err(TodoistApiError::InvalidResponse)));
    let mut no_cursor = snapshot(vec![], true);
    no_cursor.sync_token = "*".to_string();
    assert!(matches!(check_fetch(200, Some(no_cursor)), Err(TodoistApiError::InvalidResponse)));
}

#[test]
fn full_snapshot() {
    let body = RemoteSync { projects: vec![], items: vec![], sync_token: "next".to_string(), full_sync: true };
    assert!(check_fetch(200, Some(body)).ok().unwrap().full_sync);
}

#[test]
fn todoist_sync_command_success_is_the_ok_string() {
    assert!(check_commands(200, true, &vec![Some("ok".to_string())]).is_ok());
    // A legacy object status ({"code": 0}) is no "ok" string.
    assert!(matches!(check_commands(200, true, &vec![None]), Err(TodoistApiError::InvalidResponse)));
    assert!(matches!(check_commands(200, false, &vec![]), Err(TodoistApiError::InvalidResponse)));
    assert!(matches!(check_commands(429, true, &vec![]), Err(TodoistApiError::RateLimited)));
}

#[test]
fn status_classification_and_messages() {
    assert!(classify_status(200).is_ok());
    assert!(matches!(classify_status(500), Err(TodoistApiError::Network)));
    assert_eq!(TodoistApiError::Network.message(), "Todoist couldn't be reached. Your local tasks and timer still work.");
    assert_eq!(
        TodoistApiError::InvalidToken.message(),
        "Todoist connection expired or is invalid. Reconnect in Settings."
    );
}

// Sync.

#[test]
fn labels_match_classes_when_project_is_unmapped() {
    // The project has no class; the label "LGST 1000" names class 1.
    assert_eq!(resolve_class(None, &vec![Some(1)]), Some(1));
    assert_eq!(resolve_class(None, &vec![None, Some(2), Some(3)]), Some(2));
    assert_eq!(resolve_class(Some(4), &vec![Some(1)]), Some(4));
    assert_eq!(resolve_class(None, &vec![None]), None);
    let mut tagged = item("tagged", None);
    tagged.labels = vec!["LGST 1000".to_string()];
    let plan = reconcile_plan(&vec![tagged], &vec![resolve_class(None, &vec![Some(1)])]).unwrap();
    assert_eq!(plan.imports, vec![(0, 1)]);
}

#[test]
fn initial_sync_and_idempotent_deep_tree() {
    let tasks = vec![item("d", Some("c")), item("c", Some("b")), item("b", Some("a")), item("a", None)];
    let classes = vec![Some(1); 4];
    let first = reconcile_plan(&tasks, &classes).unwrap();
    let second = reconcile_plan(&tasks, &classes).unwrap();
    assert_eq!(first.imports.len(), 4);
    assert_eq!(first.links, vec![(0, 1), (1, 2), (2, 3)]);
    assert_eq!(first.imports, second.imports);
    assert_eq!(first.links, second.links);
}

#[test]
fn unmapped_then_mapped_then_moved_and_unmapped() {
    let tasks = vec![item("a", None)];
    assert!(reconcile_plan(&tasks, &vec![None]).unwrap().imports.is_empty());
    assert_eq!(reconcile_plan(&tasks, &vec![Some(1)]).unwrap().imports, vec![(0, 1)]);
    assert_eq!(reconcile_plan(&tasks, &vec![Some(2)]).unwrap().imports, vec![(0, 2)]);
}

#[test]
fn rename_due_completion_deletion_preserve_history() {
    let mut a = item("a", None);
    a.content = "Renamed".to_string();
    a.due = Some(TodoistDue { date: "2026-09-20".to_string(), datetime: None });
    assert_eq!(due_value(&a).as_deref(), Some("2026-09-20"));
    a.due = Some(TodoistDue { date: "2026-09-20".to_string(), datetime: Some("2026-09-20T09:00:00Z".to_string()) });
    assert_eq!(due_value(&a).as_deref(), Some("2026-09-20T09:00:00Z"));
    let mut done = item("a", None);
    done.checked = true;
    let mut gone = item("b", None);
    gone.is_deleted = true;
    let (acts, projects) = plan_sync(&vec![snapshot(vec![done, gone], false)]).unwrap();
    assert_eq!(projects, 1);
    assert_eq!(acts.len(), 4);
    assert!(matches!(&acts[0], SyncAction::UpsertProject { id, name } if id == "p" && name == "Course"));
    assert!(matches!(&acts[1], SyncAction::CloseTask { id, state: ClosedState::Completed, .. } if id == "a"));
    assert!(matches!(&acts[2], SyncAction::CloseTask { id, state: ClosedState::Deleted, .. } if id == "b"));
    assert!(matches!(&acts[3], SyncAction::SaveCursor(t) if t == "next"));
}

#[test]
fn local_failure_rolls_back_everything_including_cursor() {
    // A live task without content fails the whole plan: nothing, not even the cursor, is applied.
    let mut blank = item("a", None);
    blank.content = "  ".to_string();
    assert_eq!(plan_sync(&vec![snapshot(vec![blank], true)]).err().unwrap(), apply_failed_message());
}

#[test]
fn malformed_cycle_fails_atomically() {
    let tasks = vec![item("a", Some("b")), item("b", Some("a"))];
    assert_eq!(reconcile_plan(&tasks, &vec![Some(1), Some(1)]).err().unwrap(), apply_failed_message());
}

#[test]
fn full_sync_absence_is_unknown_not_false_completion() {
    let (acts, _) = plan_sync(&vec![snapshot(vec![], true)]).unwrap();
    assert_eq!(acts.len(), 3);
    assert!(matches!(acts[0], SyncAction::ResetForFullSync));
    assert!(!acts.iter().any(|a| matches!(a, SyncAction::CloseTask { .. })));
    let (acts, _) = plan_sync(&vec![snapshot(vec![item("a", None)], true)]).unwrap();
    assert!(matches!(acts[2], SyncAction::CacheTask { snapshot: 0, item: 0 }));
}

#[test]
fn completion_is_persisted_with_stable_command_and_local_status() {
    let queued = completion_command(Some((Some("remote-1".to_string()), "todoist".to_string())), false).unwrap().unwrap();
    assert!(queued.payload.contains("item_complete"));
    assert!(queued.payload.contains("remote-1"));
    assert!(queued.payload.contains(&queued.uuid));
    assert_eq!(
        queued.payload,
        format!("{{\"args\":{{\"id\":\"remote-1\"}},\"type\":\"item_complete\",\"uuid\":\"{}\"}}", queued.uuid)
    );
    let quoted = completion_command(Some((Some("a\"b".to_string()), "todoist".to_string())), false).unwrap().unwrap();
    assert!(quoted.payload.starts_with("{\"args\":{\"id\":\"a\\\"b\"}"));
    assert!(completion_command(Some((Some("remote-1".to_string()), "todoist".to_string())), true).unwrap().is_none());
    assert_eq!(
        completion_command(Some((None, "local".to_string())), false).err().unwrap(),
        ["This ", "task is not a Todoist task."].concat()
    );
    assert_eq!(completion_command(None, false).err().unwrap(), "Task not found");
}

#[test]
fn sync_lock_refuses_a_second_holder() {
    let mut lock = SyncLock::new();
    assert!(gate(&mut lock).is_ok());
    assert_eq!(gate(&mut lock).unwrap_err(), "Todoist sync is already running. Try again when it finishes.");
    lock.release();
    assert!(gate(&mut lock).is_ok());
}

#[test]
fn completion_payload_escapes_control_characters_as_serde_json_does() {
    let q = completion_command(Some((Some("x\n\t\u{1}\\y".to_string()), "todoist".to_string())), false).unwrap().unwrap();
    assert_eq!(
        q.payload,
        format!("{{\"args\":{{\"id\":\"x\\n\\t\\u0001\\\\y\"}},\"type\":\"item_complete\",\"uuid\":\"{}\"}}", q.uuid)
    );
}

#[test]
fn project_count_check_counts_every_snapshot() {
    assert!(projects_fit(&vec![snapshot(vec![], true), snapshot(vec![], false)]));
    assert!(projects_fit(&vec![]));
}
