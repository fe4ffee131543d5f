use tasktimer::export::{
    calendar_fits_check, calendar_ics, check_backup, check_backup_version, check_export_extension, csv_line, export_file, export_kind, ics_date,
    ics_escape, safe, BlockRow, DueRow, ExportKind,
};

#[test]
fn csv_escapes_special_characters_and_formulas() {
    assert_eq!(safe("a,\"b\"\nc".into()), "\"a,\"\"b\"\"\nc\"");
    assert_eq!(safe(" =1+2".into()), "\"' =1+2\"");
}

#[test]
fn csv_guards_every_formula_lead_and_control_start() {
    assert_eq!(safe("+1".into()), "\"'+1\"");
    assert_eq!(safe("-1".into()), "\"'-1\"");
    assert_eq!(safe("@SUM".into()), "\"'@SUM\"");
    assert_eq!(safe("\tx".into()), "\"'\tx\"");
    assert_eq!(safe("\rx".into()), "\"'\rx\"");
    assert_eq!(safe("plain".into()), "\"plain\"");
    assert_eq!(safe(String::new()), "\"\"");
    assert_eq!(safe("a=b".into()), "\"a=b\"");
}

#[test]
fn csv_line_joins_safe_cells() {
    let cells: Vec<String> = vec!["LGST".into(), "".into(), "=x".into()];
    assert_eq!(csv_line(&cells), "\"LGST\",\"\",\"'=x\"\r\n");
    assert_eq!(csv_line(&Vec::new()), "\r\n");
}

#[test]
fn ics_escaping_and_dates() {
    assert_eq!(ics_escape("a\\b,c;d\ne"), "a\\\\b\\,c\\;d\\ne");
    assert_eq!(ics_date("2026-09-20"), "20260920");
}

#[test]
fn ics_includes_due_dates_and_timed_study_blocks() {
    let dues = vec![DueRow { id: 1, title: "Read Ch.3".into(), course_code: "LGST".into(), due_at: "2026-09-20T23:59:00".into() }];
    let blocks = vec![
        BlockRow {
            id: 1,
            planned_date: "2026-09-18".into(),
            planned_start_time: Some("14:30".into()),
            planned_minutes: 90,
            title: "Read Ch.3".into(),
            course_code: "LGST".into(),
        },
        BlockRow {
            id: 2,
            planned_date: "2026-09-19".into(),
            planned_start_time: None,
            planned_minutes: 60,
            title: "Read Ch.3".into(),
            course_code: "LGST".into(),
        },
    ];
    let ics = calendar_ics(&dues, &blocks);
    assert!(ics.starts_with("BEGIN:VCALENDAR"));
    assert!(ics.trim_end().ends_with("END:VCALENDAR"));
    assert!(ics.contains("DTSTART;VALUE=DATE:20260920"));
    assert!(ics.contains("LGST"));
    assert!(ics.contains("DTSTART:20260918T143000"));
    assert!(ics.contains("DTEND:20260918T160000"));
    assert!(ics.contains("DTSTART;VALUE=DATE:20260919"));
    assert!(ics.contains("UID:tasktimer-due-1@tasktimer"));
    assert!(ics.contains("SUMMARY:Study: LGST — Read Ch.3"));
}

#[test]
fn ics_block_end_wraps_past_midnight_and_unreadable_times_start_at_zero() {
    let blocks = vec![
        BlockRow {
            id: 7,
            planned_date: "2026-09-18".into(),
            planned_start_time: Some("23:30".into()),
            planned_minutes: 45,
            title: "T".into(),
            course_code: "C".into(),
        },
        BlockRow {
            id: 8,
            planned_date: "2026-09-18".into(),
            planned_start_time: Some("late".into()),
            planned_minutes: 30,
            title: "T".into(),
            course_code: "C".into(),
        },
    ];
    let ics = calendar_ics(&Vec::new(), &blocks);
    assert!(ics.contains("DTEND:20260918T001500"));
    assert!(ics.contains("DTSTART:20260918Tlate00"));
    assert!(ics.contains("DTEND:20260918T003000"));
}

#[test]
fn export_formats_and_extensions() {
    assert!(export_kind("csv") == Ok(ExportKind::History));
    assert!(export_kind("tasks") == Ok(ExportKind::Tasks));
    assert!(export_kind("json") == Ok(ExportKind::Backup));
    assert!(export_kind("ics") == Ok(ExportKind::Calendar));
    assert_eq!(export_kind("pdf").err().unwrap(), "Choose CSV, JSON, or calendar export.");
    let (ext, name) = export_file(ExportKind::Calendar);
    assert_eq!(ext, "ics");
    assert_eq!(name, "tasktimer-calendar.ics");
    assert_eq!(export_file(ExportKind::Tasks).1, "tasktimer-export.csv");
    assert!(check_export_extension(ExportKind::Backup, Some("json")).is_ok());
    assert_eq!(check_export_extension(ExportKind::Backup, Some("txt")).unwrap_err(), "Choose a file ending in .json");
    assert!(check_export_extension(ExportKind::History, None).is_err());
}

#[test]
fn restore_rejects_unsupported_format() {
    assert_eq!(check_backup_version(Some(2)).unwrap_err(), "Unsupported backup format.");
    assert!(check_backup_version(None).is_err());
    assert!(check_backup_version(Some(1)).is_ok());
}

#[test]
fn backup_check_reads_the_format_version_from_the_bytes() {
    assert_eq!(check_backup(b"{\"format_version\":1,\"tasks\":[]}"), Ok(()));
    assert_eq!(check_backup(b"{\"format_version\":2}").unwrap_err(), "Unsupported backup format.");
    assert_eq!(check_backup(b"{\"tasks\":[]}").unwrap_err(), "Unsupported backup format.");
    assert_eq!(check_backup(b"[1,2]").unwrap_err(), "Unsupported backup format.");
    assert_eq!(check_backup(b"{\"format_version\":\"1\"}").unwrap_err(), "Unsupported backup format.");
    assert_eq!(check_backup(b"not json").unwrap_err(), "That file isn't a TaskTimer backup.");
    assert_eq!(check_backup(b"").unwrap_err(), "That file isn't a TaskTimer backup.");
}

#[test]
fn ics_escaping_gives_each_character_its_own_escape() {
    assert_eq!(ics_escape("a\\b,c;d\ne"), "a\\\\b\\,c\\;d\\ne");
    assert_ne!(ics_escape("a\nb"), ics_escape("a\\nb"));
}

#[test]
fn calendar_fit_check_follows_due_cuts_and_block_minutes() {
    let due = |d: &str| DueRow { id: 1, title: "T".into(), course_code: "C".into(), due_at: d.into() };
    let block = |start: Option<&str>, minutes: i64| BlockRow {
        id: 1,
        planned_date: "2026-09-18".into(),
        planned_start_time: start.map(|s| s.to_string()),
        planned_minutes: minutes,
        title: "T".into(),
        course_code: "C".into(),
    };
    assert!(calendar_fits_check(&vec![due("2026-09-20T23:59:00")], &vec![block(Some("14:30"), 90), block(None, i64::MAX)]));
    assert!(!calendar_fits_check(&vec![due("2026-09-2é")], &vec![]));
    assert!(!calendar_fits_check(&vec![], &vec![block(Some("14:30"), i64::MAX)]));
    assert!(calendar_fits_check(&vec![], &vec![block(Some("1234567890123:00"), 1 << 50)]));
}
