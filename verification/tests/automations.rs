use easyalias::automation::{validate_automation_backup_collection, validate_automations, Automation, AutomationStep};
use easyalias::automation_store::{
    import_automation_backup_inner, move_automation_to_trash_inner, restore_trash_automation_inner,
    AutomationTrashEntry,
};
use easyalias::clock::{local_snapshot, parse_utc_offset, snapshot_from_parts};
use easyalias::settings::{validate_app_settings, AppSettings};
use easyalias::timed::{
    check_sun_timed_automations, needs_own_job, parse_time_of_day, record_sun_run, resolve_trigger_time_today,
    save_timed_entry, timed_automation_on_calendar,
    validate_timed_automation, TimedAutomation,
};
use easyalias::trash::retain_current_trash_entries;

fn test_automation(id: &str, name: &str, command: &str) -> Automation {
    Automation {
        id: id.to_string(),
        name: name.to_string(),
        path: "~/Projects".to_string(),
        steps: vec![AutomationStep {
            id: format!("{}-step", id),
            kind: "command".to_string(),
            command: command.to_string(),
            seconds: 0,
            behavior: "wait".to_string(),
        }],
        favorite: false,
        group: String::new(),
        hotkey: None,
        created_at: "2026-08-25T12:00:00.000Z".to_string(),
        updated_at: "2026-08-25T12:00:00.000Z".to_string(),
    }
}

fn test_timed_automation(id: &str, automation_id: &str, time: &str) -> TimedAutomation {
    TimedAutomation {
        id: id.to_string(),
        automation_id: automation_id.to_string(),
        trigger_kind: "clock".to_string(),
        time: time.to_string(),
        days: Vec::new(),
        enabled: true,
        created_at: "2026-08-24T18:00:00.000Z".to_string(),
        updated_at: "2026-08-24T18:00:00.000Z".to_string(),
        last_run_at: None,
        last_run_status: None,
        last_run_output: None,
        last_triggered_date: None,
    }
}

fn devstart() -> Automation {
    Automation {
        id: "devstart".to_string(),
        name: "DevStart".to_string(),
        path: "~/Projects/nava".to_string(),
        steps: vec![
            AutomationStep {
                id: "compose".to_string(),
                kind: "command".to_string(),
                command: "docker compose up -d".to_string(),
                seconds: 0,
                behavior: "wait".to_string(),
            },
            AutomationStep {
                id: "settle".to_string(),
                kind: "wait".to_string(),
                command: String::new(),
                seconds: 10,
                behavior: "wait".to_string(),
            },
        ],
        favorite: false,
        group: "Backend".to_string(),
        hotkey: None,
        created_at: "2026-08-24T18:00:00.000Z".to_string(),
        updated_at: "2026-08-24T18:00:00.000Z".to_string(),
    }
}

fn broken() -> Automation {
    Automation {
        id: "broken".to_string(),
        name: "Broken".to_string(),
        path: "~/Projects/nava".to_string(),
        steps: vec![AutomationStep {
            id: "wait".to_string(),
            kind: "wait".to_string(),
            command: String::new(),
            seconds: 0,
            behavior: "background".to_string(),
        }],
        favorite: false,
        group: String::new(),
        hotkey: None,
        created_at: "2026-08-24T18:00:00.000Z".to_string(),
        updated_at: "2026-08-24T18:00:00.000Z".to_string(),
    }
}

#[test]
fn main_accepts_a_valid_sequential_automation() {
    assert!(validate_automations(&[devstart()]).is_ok());
}

#[test]
fn tests_accepts_a_valid_sequential_automation() {
    assert!(validate_automations(&[devstart()]).is_ok());
}

#[test]
fn main_rejects_invalid_automation_steps() {
    let validation_error = validate_automations(&[broken()]).unwrap_err();
    assert!(validation_error.contains("between 1 second and 24 hours"));
}

#[test]
fn tests_rejects_invalid_automation_steps() {
    let validation_error = validate_automations(&[broken()]).unwrap_err();
    assert!(validation_error.contains("between 1 second and 24 hours"));
}

#[test]
fn main_rejects_a_group_label_over_the_length_limit() {
    let mut automation = test_automation("grouped", "Grouped", "echo hi");
    automation.group = "g".repeat(61);
    let validation_error = validate_automations(&[automation]).unwrap_err();
    assert!(validation_error.contains("group label"));
}

#[test]
fn tests_rejects_a_group_label_over_the_length_limit() {
    let mut automation = test_automation("grouped", "Grouped", "echo hi");
    automation.group = "g".repeat(61);
    let validation_error = validate_automations(&[automation]).unwrap_err();
    assert!(validation_error.contains("group label"));
}

#[test]
fn main_parses_valid_and_rejects_invalid_times() {
    assert_eq!(parse_time_of_day("09:30").unwrap(), (9, 30));
    assert_eq!(parse_time_of_day("00:00").unwrap(), (0, 0));
    assert_eq!(parse_time_of_day("23:59").unwrap(), (23, 59));
    assert!(parse_time_of_day("24:00").is_err());
    assert!(parse_time_of_day("09:60").is_err());
    assert!(parse_time_of_day("not-a-time").is_err());
}

#[test]
fn tests_parses_valid_and_rejects_invalid_times() {
    assert_eq!(parse_time_of_day("09:30").unwrap(), (9, 30));
    assert_eq!(parse_time_of_day("00:00").unwrap(), (0, 0));
    assert_eq!(parse_time_of_day("23:59").unwrap(), (23, 59));
    assert!(parse_time_of_day("24:00").is_err());
    assert!(parse_time_of_day("9:30").is_ok());
    assert!(parse_time_of_day("09:60").is_err());
    assert!(parse_time_of_day("not-a-time").is_err());
}

fn check_timed_validation() {
    let automation = test_automation("devstart", "DevStart", "echo hi");
    let mut entry = test_timed_automation("timed-1", "devstart", "09:00");
    entry.days = vec!["mon".to_string(), "wed".to_string()];
    assert!(validate_timed_automation(&entry, &[test_automation("devstart", "DevStart", "echo hi")], "").is_ok());
    entry.automation_id = "missing".to_string();
    assert!(validate_timed_automation(&entry, &[test_automation("devstart", "DevStart", "echo hi")], "")
        .unwrap_err()
        .contains("Choose an automation"));
    entry.automation_id = "devstart".to_string();
    entry.days = vec!["someday".to_string()];
    assert!(validate_timed_automation(&entry, &[automation], "")
        .unwrap_err()
        .contains("weekday"));
}

#[test]
fn main_validates_timed_automation_against_its_target() {
    check_timed_validation();
}

#[test]
fn tests_validates_timed_automation_against_its_target() {
    check_timed_validation();
}

fn check_on_calendar() {
    let mut entry = test_timed_automation("timed-1", "devstart", "09:05");
    assert_eq!(timed_automation_on_calendar(&entry).unwrap(), "*-*-* 09:05:00");
    entry.days = vec!["mon".to_string(), "fri".to_string()];
    assert_eq!(timed_automation_on_calendar(&entry).unwrap(), "Mon,Fri *-*-* 09:05:00");
}

#[test]
fn main_builds_the_expected_oncalendar_expression() {
    check_on_calendar();
}

#[test]
fn tests_builds_the_expected_oncalendar_expression() {
    check_on_calendar();
}

fn check_unknown_trigger() {
    let automation = test_automation("devstart", "DevStart", "echo hi");
    let mut entry = test_timed_automation("timed-1", "devstart", "09:00");
    entry.trigger_kind = "moonrise".to_string();
    assert!(validate_timed_automation(&entry, &[automation], "")
        .unwrap_err()
        .contains("not a valid trigger"));
}

#[test]
fn main_rejects_an_unknown_trigger_kind() {
    check_unknown_trigger();
}

#[test]
fn tests_rejects_an_unknown_trigger_kind() {
    check_unknown_trigger();
}

#[test]
fn parses_valid_and_rejects_invalid_utc_offsets() {
    assert_eq!(parse_utc_offset("+0200").unwrap(), 120);
    assert_eq!(parse_utc_offset("-0530").unwrap(), -330);
    assert_eq!(parse_utc_offset("+0000").unwrap(), 0);
    assert!(parse_utc_offset("0200").is_err());
    assert!(parse_utc_offset("+02:00").is_err());
    assert!(parse_utc_offset("garbage").is_err());
}

#[test]
fn main_resolves_clock_trigger_time_directly() {
    let entry = test_timed_automation("timed-1", "devstart", "14:30");
    assert_eq!(resolve_trigger_time_today(&entry, "eu-central", None).unwrap(), Some((14, 30)));
}

#[test]
fn tests_resolves_clock_trigger_time_directly() {
    let entry = test_timed_automation("timed-1", "devstart", "14:30");
    assert_eq!(resolve_trigger_time_today(&entry, "eu-central", None).unwrap(), Some((14, 30)));
}

#[test]
fn tests_save_settings_rejects_unknown_values() {
    assert!(validate_app_settings(&AppSettings {
        theme: "sepia".to_string(),
        hotkey_behavior: "window".to_string(),
        show_suggestions: true,
        autostart: false,
    })
    .unwrap_err()
    .contains("not a valid theme"));
    assert!(validate_app_settings(&AppSettings {
        theme: "light".to_string(),
        hotkey_behavior: "silent".to_string(),
        show_suggestions: true,
        autostart: false,
    })
    .unwrap_err()
    .contains("not a valid hotkey behavior"));
}

#[test]
fn tests_local_snapshot_reads_date_weekday_and_offset() {
    // 2026-03-21 06:45 at UTC+2 is 04:45 UTC.
    let spring = 1_774_068_300i64;
    let snapshot = local_snapshot(spring, 2 * 3600).unwrap();
    assert_eq!((snapshot.hour, snapshot.minute), (6, 45));
    assert_eq!(snapshot.date, "2026-03-21");
    assert_eq!(snapshot.day_of_year, 80);
    assert_eq!(snapshot.weekday, "sat");
    assert_eq!(snapshot.utc_offset_minutes, 120);

    // 2026-12-31 23:59 at UTC+5:30 is 18:29 UTC.
    let india = local_snapshot(1_798_741_740i64, 5 * 3600 + 30 * 60).unwrap();
    assert_eq!(india.day_of_year, 365);
    assert_eq!(india.utc_offset_minutes, 330);
}

#[test]
fn snapshot_parts_pad_the_date_and_round_the_offset_toward_zero() {
    let s = snapshot_from_parts(7, 5, 987, 3, 4, 63, 6, -90);
    assert_eq!(s.date, "0987-03-04");
    assert_eq!(s.weekday, "sun");
    assert_eq!(s.utc_offset_minutes, -1);
    let s = snapshot_from_parts(0, 0, -5, 12, 31, 366, 0, 19800);
    assert_eq!(s.date, "-005-12-31");
    assert_eq!(s.weekday, "mon");
    assert_eq!(s.utc_offset_minutes, 330);
}

#[test]
fn utc_offset_accepts_a_signed_digit_as_str_parse_does() {
    assert_eq!(parse_utc_offset(" +0130 ").unwrap(), 90);
    assert_eq!(parse_utc_offset("+-100").unwrap(), -60);
    assert_eq!(parse_utc_offset("x").unwrap_err(), "\"x\" is not a valid UTC offset (expected +HHMM).");
}

fn entry(automation: Automation, deleted_at: u64) -> AutomationTrashEntry {
    AutomationTrashEntry { automation, deleted_at }
}

#[test]
fn deleted_automation_can_be_restored_from_trash() {
    let moved = move_automation_to_trash_inner(
        vec![test_automation("build", "Build", "npm run build")],
        Vec::new(),
        "build",
        1_000,
    )
    .unwrap();
    assert!(moved.automations.is_empty());
    assert_eq!(moved.trash.len(), 1);
    assert_eq!(moved.trash[0].automation.id, "build");
    assert_eq!(moved.trash[0].deleted_at, 1_000);

    let restored = restore_trash_automation_inner(moved.automations, moved.trash, "build").unwrap();
    assert_eq!(restored.automations.len(), 1);
    assert_eq!(restored.automations[0].name, "Build");
    assert!(restored.trash.is_empty());
}

#[test]
fn expired_automation_trash_entries_are_removed_automatically() {
    let now = 40 * 24 * 60 * 60;
    let mut trash = vec![
        entry(test_automation("expired", "Expired", "echo expired"), 1),
        entry(test_automation("current", "Current", "echo current"), now - 60),
    ];
    let changed = retain_current_trash_entries(&mut trash, now);
    assert!(changed);
    assert_eq!(trash.len(), 1);
    assert_eq!(trash[0].automation.id, "current");
}

#[test]
fn moving_a_missing_automation_is_refused() {
    let result = move_automation_to_trash_inner(vec![test_automation("a", "A", "x")], Vec::new(), "b", 5);
    assert_eq!(result.err().unwrap(), "Automation no longer exists.");
}

#[test]
fn moving_to_trash_replaces_an_older_entry_and_keeps_newest_first() {
    let trash = vec![
        entry(test_automation("x", "X", "echo x"), 300),
        entry(test_automation("a", "Old A", "echo old"), 200),
        entry(test_automation("y", "Y", "echo y"), 100),
    ];
    let moved = move_automation_to_trash_inner(
        vec![test_automation("a", "A", "echo a"), test_automation("b", "B", "echo b")],
        trash,
        "a",
        250,
    )
    .unwrap();
    let ids: Vec<&str> = moved.trash.iter().map(|e| e.automation.id.as_str()).collect();
    assert_eq!(ids, vec!["x", "a", "y"]);
    assert_eq!(moved.trash[1].automation.name, "A");
    assert_eq!(moved.automations.len(), 1);
    assert_eq!(moved.automations[0].id, "b");
}

#[test]
fn restore_refuses_active_ids_and_names() {
    let trash = vec![entry(test_automation("a", "  build ", "echo"), 10)];
    let same_id = restore_trash_automation_inner(vec![test_automation("a", "Other", "x")], trash, "a");
    assert_eq!(same_id.err().unwrap(), "An active automation already uses this id.");

    let trash = vec![entry(test_automation("a", "  build ", "echo"), 10)];
    let same_name = restore_trash_automation_inner(vec![test_automation("b", "BUILD", "x")], trash, "a");
    assert_eq!(
        same_name.err().unwrap(),
        "Automation \"  build \" already exists. Rename or delete the active automation before restoring."
    );

    let missing = restore_trash_automation_inner(Vec::new(), Vec::new(), "a");
    assert_eq!(missing.err().unwrap(), "Deleted automation no longer exists.");
}

#[test]
fn restored_automations_are_listed_favorites_first_then_by_lowercase_name() {
    let mut fav = test_automation("f", "zeta", "x");
    fav.favorite = true;
    let active = vec![fav, test_automation("b", "beta", "x"), test_automation("c", "Alpha", "x")];
    let trash = vec![entry(test_automation("d", "Delta", "x"), 1)];
    let restored = restore_trash_automation_inner(active, trash, "d").unwrap();
    let names: Vec<&str> = restored.automations.iter().map(|a| a.name.as_str()).collect();
    assert_eq!(names, vec!["zeta", "Alpha", "beta", "Delta"]);
}

#[test]
fn automation_backup_import_replaces_names_and_keeps_other_workflows() {
    let current = vec![
        test_automation("current-build", "Build", "npm run build:old"),
        test_automation("keep", "Keep", "echo keep"),
    ];
    let backup = vec![
        test_automation("backup-build", "Build", "npm run build:new"),
        test_automation("backup-test", "Test", "npm test"),
    ];
    let selected = vec!["backup-build".to_string(), "backup-test".to_string()];
    let result =
        import_automation_backup_inner(backup, current, &selected, "2026-08-25T13:00:00.000Z", 77).unwrap();
    assert_eq!(result.imported_count, 2);
    assert_eq!(result.replaced_count, 1);
    let names: Vec<&str> = result.automations.iter().map(|a| a.name.as_str()).collect();
    assert_eq!(names, vec!["Build", "Keep", "Test"]);
    let build = &result.automations[0];
    assert_eq!(build.id, "automation-backup-77-0-backup-build");
    assert_eq!(build.steps[0].id, "automation-backup-step-77-0-0-backup-build-step");
    assert_eq!(build.steps[0].command, "npm run build:new");
    assert_eq!(build.updated_at, "2026-08-25T13:00:00.000Z");
    assert_eq!(result.automations[2].id, "automation-backup-77-1-backup-test");
}

#[test]
fn automation_backup_import_refuses_bad_requests() {
    let backup = vec![test_automation("a", "A", "x")];
    let none: Vec<String> = Vec::new();
    assert_eq!(
        import_automation_backup_inner(backup, Vec::new(), &none, "t", 1).err().unwrap(),
        "Select at least one automation to import."
    );
    let backup = vec![test_automation("a", "A", "x")];
    let ids = vec!["a".to_string()];
    assert_eq!(
        import_automation_backup_inner(backup, Vec::new(), &ids, "  ", 1).err().unwrap(),
        "Import timestamp is missing."
    );
    let backup = vec![test_automation("a", "A", "x")];
    let ids = vec!["a".to_string(), "gone".to_string(), "a".to_string()];
    assert_eq!(
        import_automation_backup_inner(backup, Vec::new(), &ids, "t", 1).err().unwrap(),
        "Some selected automations are no longer present in the backup."
    );
}

#[test]
fn backup_collections_reject_repeated_names() {
    let list = vec![test_automation("a", "Same", "x"), test_automation("b", "Same", "y")];
    assert!(validate_automation_backup_collection(&list).is_err());
}

#[test]
fn main_save_settings_rejects_unknown_values() {
    assert!(validate_app_settings(&AppSettings {
        theme: "sepia".to_string(),
        hotkey_behavior: "window".to_string(),
        show_suggestions: true,
        autostart: false,
    })
    .unwrap_err()
    .contains("not a valid theme"));
    assert!(validate_app_settings(&AppSettings {
        theme: "light".to_string(),
        hotkey_behavior: "silent".to_string(),
        show_suggestions: true,
        autostart: false,
    })
    .unwrap_err()
    .contains("not a valid hotkey behavior"));
}

fn sunrise_entry() -> TimedAutomation {
    let mut entry = test_timed_automation("timed-1", "devstart", "");
    entry.trigger_kind = "sunrise".to_string();
    entry
}

/// The sunrise of the configured region has long passed at 23:59.
fn sun_check(entry: TimedAutomation) -> Vec<(usize, usize)> {
    let automation = test_automation("devstart", "DevStart", "echo hi");
    check_sun_timed_automations(&[entry], &[automation], (23, 59), "2026-06-21", "sun", &vec![Ok(Some((5, 12)))])
}

#[test]
fn main_check_sun_timed_automations_skips_an_entry_already_triggered_today() {
    assert_eq!(sun_check(sunrise_entry()), vec![(0, 0)]);
    let mut entry = sunrise_entry();
    entry.last_triggered_date = Some("2026-06-21".to_string());
    assert!(sun_check(entry).is_empty(), "an entry already triggered today should not run again");
}

#[test]
fn tests_check_sun_timed_automations_skips_an_entry_already_triggered_today() {
    let mut entry = sunrise_entry();
    entry.last_triggered_date = Some("2026-06-21".to_string());
    assert!(sun_check(entry).is_empty(), "an entry already triggered today should not run again");
}

#[test]
fn main_check_sun_timed_automations_skips_a_disabled_entry() {
    let mut entry = sunrise_entry();
    entry.enabled = false;
    assert!(sun_check(entry).is_empty(), "a disabled entry should never run");
}

#[test]
fn tests_check_sun_timed_automations_skips_a_disabled_entry() {
    let mut entry = sunrise_entry();
    entry.enabled = false;
    assert!(sun_check(entry.clone()).is_empty(), "a disabled entry should never run");
    assert_eq!(entry.last_triggered_date, None);
}

#[test]
fn local_snapshot_refuses_offsets_of_a_day_or_more() {
    assert!(local_snapshot(1_774_068_300, 86_400).is_none());
    assert!(local_snapshot(1_774_068_300, -86_400).is_none());
    assert!(local_snapshot(1_774_068_300, 86_399).is_some());
    assert!(local_snapshot(-6_000_000_000_000, 0).is_some());
    assert!(local_snapshot(6_000_000_000_000, -86_399).is_some());
}

#[test]
fn utc_offsets_of_five_bytes_but_fewer_characters_are_refused() {
    let e = parse_utc_offset("+0ä0").unwrap_err();
    assert!(e.contains("is not a valid UTC offset"));
}

#[test]
fn every_two_digit_time_reads_back() {
    for h in 0..24u32 {
        for m in 0..60u32 {
            assert_eq!(parse_time_of_day(&format!("{:02}:{:02}", h, m)), Ok((h, m)));
        }
    }
}

#[test]
fn sun_runs_are_recorded_as_fired_today() {
    let mut entry = test_timed_automation("timed-1", "devstart", "");
    entry.trigger_kind = "sunrise".to_string();
    record_sun_run(&mut entry, "2026-06-21", Some(42), &Err("boom".to_string()));
    assert_eq!(entry.last_triggered_date.as_deref(), Some("2026-06-21"));
    assert_eq!(entry.last_run_at, Some(42));
    assert_eq!(entry.last_run_status.as_deref(), Some("error"));
    assert_eq!(entry.last_run_output.as_deref(), Some("boom"));
    assert_eq!(entry.created_at, "2026-08-24T18:00:00.000Z");
}

#[test]
fn only_clock_entries_get_their_own_job_and_saving_replaces_by_id() {
    let clock = test_timed_automation("a", "devstart", "09:00");
    let mut sun = test_timed_automation("b", "devstart", "");
    sun.trigger_kind = "sunset".to_string();
    assert!(needs_own_job(&clock));
    assert!(!needs_own_job(&sun));
    let saved = save_timed_entry(vec![clock.clone()], sun.clone());
    assert_eq!(saved.len(), 2);
    let mut changed = clock.clone();
    changed.time = "10:00".to_string();
    let saved = save_timed_entry(saved, changed);
    assert_eq!(saved.len(), 2);
    assert_eq!(saved[0].time, "10:00");
    assert_eq!(saved[1].id, "b");
}
