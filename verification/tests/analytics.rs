use tasktimer::analytics::{
    breakdowns, capacity_choice, capacity_key, capacity_weekday, class_totals_fit, coverage_fits, day_view, due_date_expr, error_percent, estimate_analytics,
    estimate_bands, estimate_suggestion, largest_estimate_miss, most_time_class, range_summary, review_days, review_end_date, schedule_coverage,
    samples_fit_check, session_stats, suggestion_for, task_history, workload_day, workload_fits, BlockActualSummary, ClassTotal, EstimateSample,
    SessionEntry,
};
use tasktimer::stats::median;

fn sample(id: i64, class: i64, kind: &str, estimated: i64, actual: i64) -> EstimateSample {
    EstimateSample {
        task_id: id,
        task_title: format!("Task {id}"),
        course_id: class,
        course_code: format!("C{class}"),
        task_type: kind.to_string(),
        estimated_minutes: estimated,
        actual_minutes: actual,
    }
}

fn samples() -> Vec<EstimateSample> {
    vec![
        sample(1, 1, "reading", 60, 60),
        sample(2, 1, "problem_set", 100, 120),
        sample(3, 2, "reading", 40, 60),
        sample(4, 10, "reading", 30, 90),
    ]
}

#[test]
fn error_percent_rounds_toward_zero_and_ignores_empty_estimates() {
    assert_eq!(error_percent(120, 100), 20);
    assert_eq!(error_percent(50, 60), -16);
    assert_eq!(error_percent(10, 0), 0);
    assert_eq!(error_percent(10, -5), 0);
}

#[test]
fn medians_take_the_upper_middle_value() {
    assert_eq!(median(&vec![5, 1, 3]), 3);
    assert_eq!(median(&vec![4, 1, 3, 2]), 3);
    assert_eq!(median(&vec![]), 0);
}

#[test]
fn totals_sum_their_parts() {
    let by_class = vec![
        ClassTotal { class_id: 1, course_code: "A".into(), tracked_seconds: 600 },
        ClassTotal { class_id: 2, course_code: "B".into(), tracked_seconds: 300 },
    ];
    assert_eq!(range_summary(by_class.clone()).tracked_seconds_total, 900);
    let entry = |id: i64, secs: i64| SessionEntry {
        session_id: id,
        task_id: 1,
        task_title: "T".into(),
        course_code: "A".into(),
        start_ts: "2026-09-15 10:00:00".into(),
        end_ts: Some("2026-09-15 10:10:00".into()),
        duration_seconds: secs,
    };
    let day = day_view("2026-09-15".into(), by_class, vec![entry(1, 600)]);
    assert_eq!(day.total_seconds, 900);
    assert_eq!(day.sessions.len(), 1);
    let history = task_history(1, Some(30), vec![entry(1, 600), entry(2, 120)]);
    assert_eq!(history.total_seconds, 720);
    assert_eq!(history.estimated_minutes, Some(30));
}

#[test]
fn session_stats_count_short_and_long_sessions() {
    let s = session_stats(&vec![300, 2000, 1200, 599]);
    assert_eq!(s.count, 4);
    assert_eq!(s.median_seconds, 1200);
    assert_eq!(s.average_seconds, 1024);
    assert_eq!(s.longest_seconds, 2000);
    assert_eq!(s.under_ten_minutes, 2);
    assert_eq!(s.at_least_thirty_minutes, 1);
    let none = session_stats(&vec![]);
    assert_eq!((none.count, none.median_seconds, none.average_seconds, none.longest_seconds), (0, 0, 0, 0));
}

#[test]
fn breakdowns_group_by_class_id_text_and_by_task_type() {
    let by_class = breakdowns(&samples(), true);
    let keys: Vec<&str> = by_class.iter().map(|b| b.key.as_str()).collect();
    assert_eq!(keys, vec!["1", "10", "2"]);
    assert_eq!(by_class[0].label, "C1");
    assert_eq!(by_class[0].sample_count, 2);
    assert_eq!(by_class[0].median_actual_minutes, 120);
    let by_type = breakdowns(&samples(), false);
    assert_eq!(by_type[0].key, "problem_set");
    assert_eq!(by_type[0].label, "problem set");
    assert_eq!(by_type[1].sample_count, 3);
    assert_eq!(by_type[1].median_error_percent, 50);
}

#[test]
fn estimate_bands_and_suggestions() {
    let bands = estimate_bands(&samples());
    let counts: Vec<(String, i64)> = bands.into_iter().map(|b| (b.label, b.count)).collect();
    assert_eq!(
        counts,
        vec![
            ("Within estimate".to_string(), 1),
            ("0–25% over".to_string(), 1),
            ("25–50% over".to_string(), 1),
            (">50% over".to_string(), 1)
        ]
    );
    assert_eq!(suggestion_for(&samples(), None, Some("reading")), Some((60, 3)));
    assert_eq!(suggestion_for(&samples(), Some(1), None), None);
    let s = estimate_suggestion(&samples(), 1, "reading");
    assert_eq!(s.source.as_deref(), Some("task_type"));
    assert_eq!(s.suggested_minutes, Some(60));
    assert_eq!(s.sample_count, 3);
    let none = estimate_suggestion(&samples()[..2].to_vec(), 1, "reading");
    assert_eq!(none.suggested_minutes, None);
    assert_eq!(none.sample_count, 2);
}

#[test]
fn estimate_analytics_and_largest_miss() {
    let blocks = BlockActualSummary {
        planned_minutes: 90,
        completed_planned_minutes: 30,
        actual_tracked_seconds: 1800,
        block_count: 2,
        completed_block_count: 1,
    };
    let a = estimate_analytics(&samples(), session_stats(&vec![60]), blocks);
    assert_eq!(a.sample_count, 4);
    assert_eq!(a.median_estimated_minutes, 60);
    assert_eq!(a.median_actual_minutes, 90);
    assert_eq!(a.median_difference_minutes, 20);
    assert_eq!(a.by_class.len(), 3);
    let miss = largest_estimate_miss(&samples()).unwrap();
    assert_eq!(miss.task_id, 4);
    assert_eq!(miss.difference_minutes, 60);
    assert_eq!(miss.error_percent, 200);
    assert!(largest_estimate_miss(&vec![]).is_none());
}

#[test]
fn workload_and_coverage() {
    // Two tasks due that day: 100 minutes estimated with 30 worked and 20
    // planned leaves 50; 10 estimated with 20 worked leaves nothing.
    let day = workload_day("2026-09-15".into(), Some(60), 40, &vec![(100, 1800, 20), (10, 1200, 0)]);
    assert_eq!(day.remaining_due_minutes, 50);
    assert_eq!(day.remaining_capacity_minutes, Some(20));
    assert_eq!(day.overflow_minutes, 30);
    assert_eq!(day.load_percent, Some(150));
    let open = workload_day("2026-09-16".into(), None, 0, &vec![]);
    assert_eq!((open.overflow_minutes, open.load_percent), (0, None));
    assert_eq!(schedule_coverage(&vec![(100, 50), (-20, 10)]), 60);
    assert_eq!(schedule_coverage(&vec![(10, 50)]), 100);
    assert_eq!(schedule_coverage(&vec![]), 100);
}

#[test]
fn capacity_and_review_dates() {
    assert_eq!(capacity_key(3), "study_capacity_3");
    assert_eq!(capacity_weekday("2026-09-15"), 2);
    assert_eq!(capacity_weekday("not a date"), 1);
    assert_eq!(capacity_choice(Some(45), Some(120)), Some(45));
    assert_eq!(capacity_choice(None, Some(120)), Some(120));
    assert_eq!(review_end_date("2026-09-14").unwrap(), "2026-09-20");
    assert_eq!(review_end_date("14/09/2026").unwrap_err(), "Choose a valid start date.");
    assert_eq!(
        due_date_expr("t.due_at"),
        "CASE WHEN length(t.due_at)=10 THEN date(t.due_at) ELSE date(t.due_at,'localtime') END"
    );
}

#[test]
fn band_counts_add_up_to_the_samples() {
    let mut all = samples();
    all.push(sample(5, 1, "reading", 0, 10));
    all.push(sample(6, 1, "reading", 0, 0));
    all.push(sample(7, 1, "reading", 100, 150));
    let bands = estimate_bands(&all);
    assert_eq!(bands.iter().map(|b| b.count).sum::<i64>(), all.len() as i64);
    assert_eq!(bands.iter().map(|b| b.count).collect::<Vec<_>>(), vec![2, 2, 2, 1]);
}

#[test]
fn fit_checks_match_what_the_totals_need() {
    assert!(samples_fit_check(&samples()));
    assert!(!samples_fit_check(&vec![sample(1, 1, "reading", -1, i64::MAX / 100)]));
    assert!(samples_fit_check(&vec![sample(1, 1, "reading", 0, i64::MAX / 100)]));
    let class = |secs: i64| ClassTotal { class_id: 1, course_code: "C1".to_string(), tracked_seconds: secs };
    assert!(class_totals_fit(&vec![class(5), class(7)]));
    assert!(!class_totals_fit(&vec![class(i64::MAX), class(1)]));
    assert!(coverage_fits(&vec![(60, 30), (-5, 10)]));
    assert!(!coverage_fits(&vec![(0, i64::MAX / 10)]));
    assert!(!coverage_fits(&vec![(i64::MAX, 0), (1, 0)]));
    assert!(coverage_fits(&vec![(i64::MAX, 0), (-1, 0)]));
    assert!(workload_fits(Some(120), 30, &vec![(60, 600, 10)]));
    assert!(!workload_fits(Some(i64::MIN), 1, &vec![]));
    assert!(!workload_fits(None, i64::MAX / 50, &vec![]));
    assert!(workload_fits(None, 0, &vec![]));
}

#[test]
fn breakdown_counts_add_up_to_the_samples() {
    let all = samples();
    let by_class = breakdowns(&all, true);
    let by_type = breakdowns(&all, false);
    assert_eq!(by_class.iter().map(|b| b.sample_count).sum::<i64>(), 4);
    assert_eq!(by_type.iter().map(|b| b.sample_count).sum::<i64>(), 4);
    assert_eq!(by_class.len(), 3);
    assert_eq!(by_type.len(), 2);
}

#[test]
fn review_days_run_from_start_to_end() {
    assert_eq!(
        review_days("2026-02-25", "2026-03-03").unwrap(),
        vec!["2026-02-25", "2026-02-26", "2026-02-27", "2026-02-28", "2026-03-01", "2026-03-02", "2026-03-03"]
    );
    assert_eq!(review_days("2026-03-03", "2026-03-03").unwrap(), vec!["2026-03-03"]);
    assert!(review_days("2026-03-04", "2026-03-03").unwrap().is_empty());
    assert!(review_days("2026-13-01", "2026-03-03").is_err());
    assert!(review_days("2026-03-01", "soon").is_err());
}

#[test]
fn most_time_class_has_the_most_tracked_seconds() {
    let class = |id: i64, secs: i64| ClassTotal { class_id: id, course_code: format!("C{id}"), tracked_seconds: secs };
    assert!(most_time_class(&vec![]).is_none());
    let best = most_time_class(&vec![class(1, 30), class(2, 90), class(3, 90), class(4, 10)]).unwrap();
    assert_eq!((best.class_id, best.course_code.as_str(), best.tracked_seconds), (2, "C2", 90));
}
