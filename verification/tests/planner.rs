use tasktimer::planner::{check_plan, plan_fits, plan_proposal, plan_window, ApplyPlanInput, PlanProposal, PlanRow, ProposedBlockInput};
use tasktimer::tasks::Task;

fn task(id: i64, due: Option<&str>, estimate: i64, status: &str) -> Task {
    Task {
        id,
        class_id: 1,
        parent_task_id: None,
        title: format!("Task {id}"),
        description: None,
        status: status.to_string(),
        priority: None,
        due_at: due.map(|d| d.to_string()),
        scheduled_date: None,
        estimated_minutes: Some(estimate),
        source: "local".to_string(),
        external_id: None,
        completed_at: None,
        tracked_seconds: 0,
        tracked_seconds_direct: 0,
        remaining_minutes: Some(estimate),
        external_state: "active".to_string(),
        task_type: "assignment".to_string(),
        tags: vec![],
        time_budget_minutes: None,
    }
}

fn row(id: i64, due: Option<&str>, estimate: i64, blocked_by_open_count: i64) -> PlanRow {
    PlanRow { task: task(id, due, estimate, "not_started"), unplanned_minutes: estimate, blocked_by_open_count }
}

/// Every day has 120 minutes of capacity and no existing blocks.
fn propose(rows: Vec<PlanRow>, start: &str, days: i64) -> PlanProposal {
    let window = plan_window(start, days).unwrap();
    let n = window.days.len();
    plan_proposal(&rows, &window, &vec![Some(120); n], &vec![0; n], &vec![(1, "LGST".to_string())])
}

fn scheduled_ids(plan: &PlanProposal) -> Vec<i64> {
    plan.days.iter().flat_map(|d| d.blocks.iter()).map(|b| b.task_id).collect()
}

#[test]
fn blocked_task_is_excluded_from_the_proposal() {
    // Task 2 depends on the open task 1.
    let plan = propose(vec![row(1, Some("2026-09-20"), 60, 0), row(2, Some("2026-09-20"), 60, 1)], "2026-09-17", 3);
    let ids = scheduled_ids(&plan);
    assert!(ids.contains(&1));
    assert!(!ids.contains(&2));
}

#[test]
fn task_becomes_schedulable_once_its_blocker_completes() {
    // Task 1 is completed, so it is no open blocker of task 2 any more.
    let mut done = row(1, Some("2026-09-20"), 60, 0);
    done.task.status = "completed".to_string();
    let plan = propose(vec![done, row(2, Some("2026-09-20"), 60, 0)], "2026-09-17", 3);
    let ids = scheduled_ids(&plan);
    assert!(ids.contains(&2));
    assert!(!ids.contains(&1));
}

#[test]
fn window_is_held_to_one_to_seven_days() {
    assert_eq!(plan_window("2026-09-17", 0).unwrap().days, vec!["2026-09-17"]);
    let w = plan_window("2026-09-17", 30).unwrap();
    assert_eq!(w.days.len(), 7);
    assert_eq!(w.end, "2026-09-23");
    assert_eq!(plan_window("17/09/2026", 3).err().unwrap(), "Choose a valid planning start date.");
}

#[test]
fn blocks_are_chunked_by_ninety_minutes_and_day_capacity() {
    let plan = propose(vec![row(1, Some("2026-09-30"), 200, 0)], "2026-09-17", 3);
    let minutes: Vec<Vec<i64>> = plan.days.iter().map(|d| d.blocks.iter().map(|b| b.planned_minutes).collect()).collect();
    assert_eq!(minutes, vec![vec![90], vec![90], vec![]]);
    assert_eq!(plan.days[0].proposed_minutes, 90);
    assert_eq!(plan.days[0].blocks[0].course_code, "LGST");
    assert_eq!(plan.start_date, "2026-09-17");
    assert_eq!(plan.end_date, "2026-09-19");
}

#[test]
fn earlier_due_dates_are_planned_first_and_overdue_work_is_listed() {
    let plan = propose(
        vec![row(1, Some("2026-09-25"), 60, 0), row(2, Some("2026-09-18"), 60, 0), row(3, Some("2026-09-01"), 30, 0)],
        "2026-09-17",
        1,
    );
    let ids = scheduled_ids(&plan);
    assert_eq!(ids, vec![2, 1]);
    assert_eq!(plan.days[0].blocks[0].reason, "Deadline soon");
    assert_eq!(plan.unschedulable_overdue, vec!["Task 3"]);
}

#[test]
fn small_or_finished_remainders_are_not_planned() {
    let plan = propose(vec![row(1, None, 20, 0)], "2026-09-17", 2);
    assert!(scheduled_ids(&plan).is_empty());
}

#[test]
fn applying_a_plan_checks_each_block() {
    let ok = ApplyPlanInput {
        blocks: vec![ProposedBlockInput { task_id: 1, planned_date: "2026-09-17".to_string(), planned_minutes: 60 }],
    };
    assert_eq!(check_plan(&ok, &vec![true]), Ok(1));
    assert!(check_plan(&ok, &vec![false]).is_err());
    let bad = ApplyPlanInput {
        blocks: vec![ProposedBlockInput { task_id: 1, planned_date: "2026-09-17".to_string(), planned_minutes: 0 }],
    };
    assert!(check_plan(&bad, &vec![true]).is_err());
}

#[test]
fn plan_fit_check_follows_candidates_and_capacities() {
    let rows = vec![row(1, Some("2026-09-20"), 60, 0)];
    assert!(plan_fits(&rows, &vec![Some(120), None], &vec![30, 0]));
    assert!(!plan_fits(&rows, &vec![Some(i64::MIN)], &vec![1]));
    let mut odd = row(2, None, 60, 0);
    odd.task.due_at = Some("2026-09-2é".to_string());
    assert!(!plan_fits(&vec![odd], &vec![], &vec![]));
    let mut blocked = row(3, None, 60, 1);
    blocked.task.due_at = Some("2026-09-2é".to_string());
    assert!(plan_fits(&vec![blocked], &vec![], &vec![]));
}
