use tasktimer::planning::{
    check_block_range, check_date, check_instantiate, check_new_milestone, check_new_study_block, check_new_template,
    check_time, milestone_neighbor, preset_targets, template_task_type, InstantiateTemplate, NewMilestone, NewStudyBlock,
    NewTaskTemplate, TaskTemplate,
};

fn block(date: &str, time: Option<&str>, minutes: i64) -> NewStudyBlock {
    NewStudyBlock { task_id: 1, planned_date: date.to_string(), planned_start_time: time.map(|t| t.to_string()), planned_minutes: minutes }
}

#[test]
fn study_blocks_need_a_date_a_time_and_minutes() {
    assert!(check_new_study_block(&block("2026-09-15", Some("09:30"), 45), true).is_ok());
    assert!(check_new_study_block(&block("2026-09-15", None, 45), true).is_ok());
    assert_eq!(check_new_study_block(&block("2026-02-30", None, 45), true).unwrap_err(), "Choose a valid date.");
    assert_eq!(
        check_new_study_block(&block("2026-09-15", Some("25:00"), 45), true).unwrap_err(),
        "Choose a valid start time (HH:MM)."
    );
    assert_eq!(
        check_new_study_block(&block("2026-09-15", None, 0), true).unwrap_err(),
        "Study blocks must be longer than zero minutes."
    );
    assert_eq!(check_new_study_block(&block("2026-09-15", None, 30), false).unwrap_err(), "Task not found.");
}

#[test]
fn dates_and_times_are_read_strictly() {
    assert!(check_date("2024-02-29").is_ok());
    assert!(check_date("2023-02-29").is_err());
    assert!(check_time(Some("23:59")).is_ok());
    assert!(check_time(Some("9:5x")).is_err());
    assert!(check_time(None).is_ok());
    assert!(check_block_range("2026-09-01", "2026-09-30").is_ok());
    assert!(check_block_range("2026-09-01", "soon").is_err());
}

#[test]
fn milestones_and_templates_are_checked() {
    let blank = NewMilestone { task_id: 1, title: " ".to_string(), target_date: None };
    assert_eq!(check_new_milestone(&blank).unwrap_err(), "Milestone title cannot be empty.");
    let dated = NewMilestone { task_id: 1, title: "Draft".to_string(), target_date: Some("2026-13-01".to_string()) };
    assert_eq!(check_new_milestone(&dated).unwrap_err(), "Choose a valid date.");
    let template = NewTaskTemplate {
        name: "Essay".to_string(),
        class_id: None,
        task_type: None,
        default_estimated_minutes: Some(-5),
        default_time_budget_minutes: None,
        priority: None,
        tags: vec![],
    };
    assert_eq!(check_new_template(&template).unwrap_err(), "Template minutes cannot be negative.");
}

#[test]
fn milestones_move_past_their_nearest_neighbour() {
    let siblings = vec![(10, 0), (11, 2), (12, 5)];
    assert_eq!(milestone_neighbor(&siblings, 3, "up"), Some((11, 2)));
    assert_eq!(milestone_neighbor(&siblings, 3, "down"), Some((12, 5)));
    assert_eq!(milestone_neighbor(&siblings, 0, "up"), None);
    assert_eq!(milestone_neighbor(&siblings, 9, "down"), None);
}

#[test]
fn template_presets_land_before_the_due_date() {
    let targets = preset_targets(Some("2026-09-20"), &vec![Some(7), None, Some(0)]).unwrap();
    assert_eq!(targets, vec![Some("2026-09-13".to_string()), None, Some("2026-09-20".to_string())]);
    assert_eq!(preset_targets(None, &vec![Some(3)]).unwrap(), vec![None]);
    assert_eq!(preset_targets(Some("2026-09-20"), &vec![Some(i64::MAX)]), None);
    let t = TaskTemplate {
        id: 1,
        name: "Reading".to_string(),
        class_id: None,
        task_type: None,
        default_estimated_minutes: None,
        default_time_budget_minutes: None,
        priority: None,
        tags: vec![],
    };
    assert_eq!(template_task_type(&t), "assignment");
    let request = InstantiateTemplate {
        template_id: 1,
        class_id: 2,
        title: "Week 3 reading".to_string(),
        due_at: Some("2026-09-20".to_string()),
        scheduled_date: None,
    };
    assert!(check_instantiate(&request, true, true).is_ok());
    assert_eq!(check_instantiate(&request, false, true).unwrap_err(), "Template not found");
    assert_eq!(check_instantiate(&request, true, false).unwrap_err(), "Class not found.");
}
