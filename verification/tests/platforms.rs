use easyalias::alias_entry::AliasEntry;
use easyalias::cmd_scripts::{
    build_command_preview, cmd_path, command_script_plan, escape_cmd_double_quoted, legacy_path_value,
    normalize_path, parse_legacy_command_script, path_contains_command_dir, path_is_within,
    render_cmd_script, user_path_with_command_dir,
};
use easyalias::paths::{
    aliases_file, app_dir, config_file, display_home_path, import_marker_file, join_path,
    systemd_user_dir, timed_automation_plist_path, timed_automation_service_path,
};
use easyalias::schedule::{
    schedule_sun_timed_automations_checker_linux, schedule_sun_timed_automations_checker_macos,
    schedule_sun_timed_automations_checker_windows, schedule_timed_automation_linux,
    schedule_timed_automation_macos, schedule_timed_automation_windows, sync_sun_timed_automations_checker_windows,
    timed_automation_schedule_args, unschedule_sun_timed_automations_checker_windows,
    unschedule_timed_automation_linux, unschedule_timed_automation_windows, weekday_to_launchd,
};
use easyalias::timed::TimedAutomation;
use easyalias::tui_platform::{
    empty_app_state, escape_double_quoted, import_intro, nothing_to_import, preview_command,
    preview_line, shell_path, status_line,
};

fn timed(id: &str, time: &str, days: &[&str]) -> TimedAutomation {
    TimedAutomation {
        id: id.to_string(),
        automation_id: "devstart".to_string(),
        trigger_kind: "clock".to_string(),
        time: time.to_string(),
        days: days.iter().map(|d| d.to_string()).collect(),
        enabled: true,
        created_at: "2026-08-24T18:00:00.000Z".to_string(),
        updated_at: "2026-08-24T18:00:00.000Z".to_string(),
        last_run_at: None,
        last_run_status: None,
        last_run_output: None,
        last_triggered_date: None,
    }
}

#[test]
fn builds_the_same_commands_as_the_desktop_app() {
    assert_eq!(preview_command("navigate", "~/Projects/app", ""), "cd \"$HOME/Projects/app\"");
    assert_eq!(preview_command("navigate", "~", ""), "cd \"$HOME\"");
    assert_eq!(preview_command("open", "/tmp/a b.txt", ""), "xdg-open \"/tmp/a b.txt\"");
    assert_eq!(preview_command("execute", "./run.sh", ""), "\"./run.sh\"");
    assert_eq!(
        preview_command("compile_gradle", "~/app", ""),
        "cd \"$HOME/app\" && ./gradlew build"
    );
    assert_eq!(
        preview_command("compile_maven", "/srv/x", ""),
        "cd \"/srv/x\" && mvn clean package"
    );
    assert_eq!(preview_command("custom", "", "  git status  "), "git status");
    assert_eq!(preview_command("navigate", "  ", ""), "");
    assert_eq!(
        preview_command("open", "/a/$HOME\"`x`", ""),
        "xdg-open \"/a/\\$HOME\\\"\\`x\\`\""
    );
}

#[test]
fn shell_texts_escape_and_quote() {
    assert_eq!(escape_double_quoted("a\\b\"c`d$e"), "a\\\\b\\\"c\\`d\\$e");
    assert_eq!(shell_path("  "), "");
    assert_eq!(shell_path("~x"), "\"~x\"");
    assert_eq!(preview_command("unknown", "/x", ""), "");
    assert_eq!(preview_line("ll", "ls -la"), "alias ll='ls -la'");
}

#[test]
fn terminal_status_and_import_texts() {
    let mut state = empty_app_state();
    assert_eq!(status_line(&state), (false, "Add `source ~/.easyalias/aliases.sh` to ~/.bashrc".to_string()));
    state.shell_source_present = true;
    assert_eq!(status_line(&state), (true, "bash connected · ~/.bashrc".to_string()));
    assert_eq!(
        import_intro(&state, 1),
        "Found 1 alias in ~/.bashrc. Imported lines are commented out there - a backup of the file is written first."
    );
    assert!(import_intro(&state, 3).starts_with("Found 3 aliases in"));
    assert_eq!(nothing_to_import(&state), "No new aliases found in ~/.bashrc.");
}

#[test]
fn parses_only_simple_command_files() {
    assert_eq!(
        parse_legacy_command_script("@echo off\r\ngit status --short %*\r\n"),
        Some("git status --short %*".to_string())
    );
    assert!(parse_legacy_command_script("echo one\necho two\n").is_none());
    assert!(parse_legacy_command_script("@echo off\ncall %~dp0tool.cmd %*\n").is_none());
    assert!(parse_legacy_command_script("@echo off\n:label\n").is_none());
}

#[test]
fn command_files_ignore_comments_and_need_a_command() {
    assert_eq!(
        parse_legacy_command_script("REM note\r\n:: other\r\n@  dir /a  \r\n"),
        Some("dir /a".to_string())
    );
    assert!(parse_legacy_command_script("@echo off\r\n@\r\n").is_none());
    assert!(parse_legacy_command_script("setlocal\r\ndir\r\n").is_none());
}

fn windows_alias(action: &str, path: &str, custom: Option<&str>) -> AliasEntry {
    AliasEntry {
        id: "one".to_string(),
        name: "one".to_string(),
        path: path.to_string(),
        action: action.to_string(),
        custom_command: custom.map(|c| c.to_string()),
        command_preview: "  old preview  ".to_string(),
        favorite: false,
        created_at: "2026-07-26T12:00:00.000Z".to_string(),
        updated_at: "2026-07-26T12:00:00.000Z".to_string(),
    }
}

#[test]
fn builds_cmd_commands_from_alias_fields() {
    assert_eq!(escape_cmd_double_quoted("100% \"x\""), "100%% \"\"x\"\"");
    assert_eq!(cmd_path("~"), "\"%USERPROFILE%\"");
    assert_eq!(cmd_path(" ~/src/app "), "\"%USERPROFILE%\\src\\app\"");
    assert_eq!(cmd_path("C:\\Tools"), "\"C:\\Tools\"");
    assert_eq!(build_command_preview(&windows_alias("navigate", "~/x", None)), "cd /d \"%USERPROFILE%\\x\"");
    assert_eq!(build_command_preview(&windows_alias("open", "C:\\a.txt", None)), "start \"\" \"C:\\a.txt\"");
    assert_eq!(build_command_preview(&windows_alias("execute", "run.bat", None)), "call \"run.bat\" %*");
    assert_eq!(
        build_command_preview(&windows_alias("compile_maven", "C:\\p", None)),
        "cd /d \"C:\\p\" && call mvn clean package"
    );
    assert_eq!(build_command_preview(&windows_alias("custom", "", Some(" git log "))), "git log");
    assert_eq!(build_command_preview(&windows_alias("custom", "", None)), "old preview");
    assert_eq!(build_command_preview(&windows_alias("navigate", " ", None)), "");
    assert_eq!(render_cmd_script(&windows_alias("custom", "", None)), "@echo off\r\n  old preview  \r\n");
}

#[test]
fn compares_path_entries_like_windows() {
    assert_eq!(normalize_path("  \"C:\\Users\\Me\\Bin\\\"  "), "c:\\users\\me\\bin");
    assert!(path_contains_command_dir("C:\\Windows;\"c:\\users\\me\\bin\\\";D:\\x", "C:\\Users\\Me\\Bin"));
    assert!(!path_contains_command_dir("C:\\Windows", "C:\\Users\\Me\\Bin"));
    assert!(path_is_within("C:\\Users\\Me\\bin\\x.cmd", "c:\\users\\me"));
    assert!(!path_is_within("C:\\Users\\Merlin", "C:\\Users\\Me"));
    assert_eq!(legacy_path_value(" ", "P"), "P");
    assert_eq!(legacy_path_value("U", "U"), "U");
    assert_eq!(legacy_path_value("U", "P"), "U;P");
}

#[test]
fn files_live_below_the_home_directory() {
    assert_eq!(app_dir("/home/me"), "/home/me/.easyalias");
    assert_eq!(app_dir("/home/me/"), "/home/me/.easyalias");
    assert_eq!(config_file("/home/me"), "/home/me/.easyalias/config.json");
    assert_eq!(aliases_file("/home/me"), "/home/me/.easyalias/aliases.sh");
    assert_eq!(import_marker_file("/home/me"), "/home/me/.easyalias/.shell-import-v1");
    assert_eq!(systemd_user_dir("/home/me"), "/home/me/.config/systemd/user");
    assert_eq!(join_path("/a", "/b"), "/b");
    assert_eq!(join_path("", "b"), "b");
    assert_eq!(
        timed_automation_service_path("/home/me", "t1"),
        "/home/me/.config/systemd/user/easyalias-timed-t1.service"
    );
    assert_eq!(
        timed_automation_plist_path("/Users/me", "t1"),
        "/Users/me/Library/LaunchAgents/dev.hannesgnann.easyalias.timed.t1.plist"
    );
    assert_eq!(display_home_path("/home/me", "/home/me/.easyalias"), "~/.easyalias");
    assert_eq!(display_home_path("/home/me/", "/home/me"), "~/");
    assert_eq!(display_home_path("/home/me", "/home/meg/x"), "/home/meg/x");
}

#[test]
fn systemd_units_run_the_automation_on_its_calendar() {
    let job = schedule_timed_automation_linux("/home/me", "/usr/bin/easyalias", &timed("t1", "09:05", &["mon", "fri"]))
        .unwrap()
        .unwrap();
    assert_eq!(job.unit, "easyalias-timed-t1.timer");
    assert_eq!(
        job.service.content,
        "[Unit]\nDescription=EasyAlias timed automation t1\n\n[Service]\nType=oneshot\nExecStart=/usr/bin/easyalias --run-timed-automation t1\n"
    );
    assert_eq!(
        job.timer.content,
        "[Unit]\nDescription=EasyAlias timed automation t1 schedule\n\n[Timer]\nOnCalendar=Mon,Fri *-*-* 09:05:00\nPersistent=false\n\n[Install]\nWantedBy=timers.target\n"
    );
    assert_eq!(job.timer.path, "/home/me/.config/systemd/user/easyalias-timed-t1.timer");

    let mut disabled = timed("t2", "09:05", &[]);
    disabled.enabled = false;
    assert!(schedule_timed_automation_linux("/home/me", "/x", &disabled).unwrap().is_none());
    assert!(schedule_timed_automation_linux("/home/me", "/x", &timed("t3", "25:00", &[])).is_err());

    let removal = unschedule_timed_automation_linux("/home/me", "t1");
    assert_eq!(removal.unit, "easyalias-timed-t1.timer");
    assert_eq!(removal.service_path, "/home/me/.config/systemd/user/easyalias-timed-t1.service");

    let checker = schedule_sun_timed_automations_checker_linux("/home/me", "/x");
    assert!(checker.timer.content.contains("OnUnitActiveSec=300\n"));
    assert!(checker.service.content.contains("ExecStart=/x --check-sun-timed-automations\n"));
}

#[test]
fn launch_agents_list_one_interval_per_weekday() {
    let agent = schedule_timed_automation_macos("/Users/me", "/opt/bin/easyalias", &timed("t1", "03:17", &["mon"]))
        .unwrap()
        .unwrap();
    assert!(agent.content.contains("<integer>3</integer>"));
    assert!(agent.content.contains("<integer>17</integer>"));
    assert!(agent.content.contains("<key>Weekday</key><integer>1</integer>"));
    assert!(agent.content.contains("<string>/Users/me/.easyalias/timed-automation-logs/t1.log</string>"));
    assert_eq!(agent.path, "/Users/me/Library/LaunchAgents/dev.hannesgnann.easyalias.timed.t1.plist");
    let daily = schedule_timed_automation_macos("/Users/me", "/e", &timed("t2", "07:00", &[])).unwrap().unwrap();
    assert!(!daily.content.contains("Weekday"));
    assert_eq!(weekday_to_launchd("sun"), 0);
    assert_eq!(weekday_to_launchd("sat"), 6);
    let checker = schedule_sun_timed_automations_checker_macos("/Users/me", "/e");
    assert!(checker.content.contains("<integer>300</integer>"));
    assert!(checker.content.contains("<key>RunAtLoad</key>\n  <true/>"));
}

#[test]
fn scheduled_tasks_recur_daily_or_weekly() {
    assert_eq!(timed_automation_schedule_args(&timed("t", "09:00", &[])), ("DAILY".to_string(), None));
    assert_eq!(
        timed_automation_schedule_args(&timed("t", "09:00", &["mon", "sun", "x"])),
        ("WEEKLY".to_string(), Some("MON,SUN,MON".to_string()))
    );
}

#[test]
fn scheduled_task_of_a_timed_automation() {
    let args = schedule_timed_automation_windows("C:\\EasyAlias.exe", &timed("abc", "7:05", &["mon", "fri"]))
        .unwrap()
        .unwrap();
    assert_eq!(
        args,
        vec![
            "/Create",
            "/TN",
            "EasyAliasTimedAutomation_abc",
            "/TR",
            "\"C:\\EasyAlias.exe\" --run-timed-automation abc",
            "/SC",
            "WEEKLY",
            "/ST",
            "07:05",
            "/F",
            "/D",
            "MON,FRI",
        ]
    );
    let daily = schedule_timed_automation_windows("e", &timed("d", "23:59", &[])).unwrap().unwrap();
    assert_eq!(daily.len(), 10);
    assert_eq!(daily[6], "DAILY");
    let mut off = timed("x", "09:00", &[]);
    off.enabled = false;
    assert_eq!(schedule_timed_automation_windows("e", &off), Ok(None));
    assert_eq!(
        schedule_timed_automation_windows("e", &timed("y", "24:00", &[])),
        Err("\"24:00\" is not a valid time (expected HH:MM).".to_string())
    );
    assert_eq!(
        unschedule_timed_automation_windows("abc"),
        vec!["/Delete", "/TN", "EasyAliasTimedAutomation_abc", "/F"]
    );
}

#[test]
fn scheduled_tasks_of_the_sun_checker() {
    let (periodic, startup) = schedule_sun_timed_automations_checker_windows("C:\\e.exe");
    assert_eq!(
        periodic,
        vec![
            "/Create",
            "/TN",
            "EasyAliasSunTimedAutomations",
            "/TR",
            "\"C:\\e.exe\" --check-sun-timed-automations",
            "/SC",
            "MINUTE",
            "/MO",
            "5",
            "/F",
        ]
    );
    assert_eq!(startup[2], "EasyAliasSunTimedAutomations_Startup");
    assert_eq!(startup[6], "ONSTART");
    let (a, b) = unschedule_sun_timed_automations_checker_windows();
    assert_eq!(a, vec!["/Delete", "/TN", "EasyAliasSunTimedAutomations", "/F"]);
    assert_eq!(b, vec!["/Delete", "/TN", "EasyAliasSunTimedAutomations_Startup", "/F"]);
    let mut sun = timed("s", "", &[]);
    sun.trigger_kind = "sunset".to_string();
    assert!(sync_sun_timed_automations_checker_windows(&[timed("c", "09:00", &[]), sun.clone()]));
    sun.enabled = false;
    assert!(!sync_sun_timed_automations_checker_windows(&[sun]));
}

fn cmd_alias(name: &str, command: &str) -> AliasEntry {
    AliasEntry {
        id: format!("id-{}", name),
        name: name.to_string(),
        path: String::new(),
        action: "custom".to_string(),
        custom_command: Some(command.to_string()),
        command_preview: command.to_string(),
        favorite: false,
        created_at: "2026-07-01T00:00:00.000Z".to_string(),
        updated_at: "2026-07-01T00:00:00.000Z".to_string(),
    }
}

#[test]
fn command_folder_plan_removes_only_left_over_scripts() {
    let aliases = vec![cmd_alias("gst", "git status"), cmd_alias("LL", "dir")];
    let existing: Vec<String> = ["gst.cmd", "old.CMD", "ll.cmd", "easya.cmd", "notes.txt", ".cmd", "x.bat"]
        .iter()
        .map(|s| s.to_string())
        .collect();
    let plan = command_script_plan(&aliases, &existing).unwrap();
    assert_eq!(plan.stale, vec!["old.CMD"]);
    assert_eq!(plan.scripts.len(), 2);
    assert_eq!(plan.scripts[0].file_name, "gst.cmd");
    assert_eq!(plan.scripts[0].content, "@echo off\r\ngit status\r\n");
    assert_eq!(plan.scripts[1].file_name, "LL.cmd");
    assert!(plan.shortcut_wanted);

    let own = command_script_plan(&[cmd_alias("EasyA", "echo mine")], &vec![]).unwrap();
    assert!(!own.shortcut_wanted);

    let mut broken = cmd_alias("bad", "echo");
    broken.command_preview = "  ".to_string();
    assert_eq!(
        command_script_plan(&[cmd_alias("ok", "echo"), broken], &existing).err(),
        Some("Alias bad has no command.".to_string())
    );
}

#[test]
fn user_path_gets_the_command_folder_once() {
    let bin = "C:\\Users\\me\\.easyalias\\bin";
    assert_eq!(user_path_with_command_dir("", bin), Some(bin.to_string()));
    assert_eq!(
        user_path_with_command_dir("C:\\Tools;;", bin),
        Some(format!("C:\\Tools;{}", bin))
    );
    let added = user_path_with_command_dir("C:\\Tools", bin).unwrap();
    assert_eq!(user_path_with_command_dir(&added, bin), None);
    assert_eq!(user_path_with_command_dir("c:\\users\\me\\.EASYALIAS\\bin\\;C:\\x", bin), None);
}
