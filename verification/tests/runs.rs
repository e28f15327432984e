use easyalias::automation::AutomationStep;
use easyalias::cmd_scripts::parse_registry_path;
use easyalias::runner::{
    command_report, headless_failure, headless_step, headless_step_succeeded, limited_output, refused_report,
    parse_i32_chars, session_command_input, session_error_report, step_action, step_label, wait_report,
    working_directory_path, SessionReader, StepAction,
};

fn step(kind: &str, command: &str, seconds: u64, behavior: &str) -> AutomationStep {
    AutomationStep {
        id: "s".to_string(),
        kind: kind.to_string(),
        command: command.to_string(),
        seconds,
        behavior: behavior.to_string(),
    }
}

#[test]
fn steps_are_labelled_and_classified() {
    assert_eq!(step_label(&step("wait", "", 1, "wait")), "Wait 1 second");
    assert_eq!(step_label(&step("wait", "", 5, "wait")), "Wait 5 seconds");
    assert_eq!(step_label(&step("command", "npm start", 0, "background")), "npm start  (background)");
    assert_eq!(step_label(&step("command", "ls", 0, "wait")), "ls");
    assert!(matches!(step_action(&step("wait", "", 3, "wait")), StepAction::Wait(3)));
    assert!(matches!(step_action(&step("command", "  ", 0, "wait")), StepAction::Refuse));
    assert!(matches!(step_action(&step("command", &"x".repeat(16385), 0, "wait")), StepAction::Refuse));
    assert!(matches!(step_action(&step("command", "ls", 0, "background")), StepAction::Run(true)));
}

#[test]
fn finished_steps_are_reported() {
    assert_eq!(wait_report(2).output, "Waited 2 seconds.");
    let ok = command_report(0, " hi \n", "", Some(0), false, None);
    assert!(ok.success);
    assert_eq!(ok.output, "hi");
    assert!(ok.stop.is_none());
    let quiet = command_report(0, "", "  ", Some(0), false, None);
    assert_eq!(quiet.output, "Command completed.");
    let failed = command_report(2, "", "", Some(-1), false, None);
    assert!(!failed.success);
    assert_eq!(failed.output, "Command exited with code -1.");
    assert_eq!(failed.stop.as_deref(), Some("Step 3 failed. Remaining steps were not started."));
    let both = command_report(0, "out", "err", None, false, None);
    assert_eq!(both.output, "out\nerr");
    assert_eq!(command_report(0, "", "", None, true, Some(42)).output, "Started in background (PID 42).");
    assert_eq!(command_report(0, "", "", None, true, None).output, "Started in background.");
    assert_eq!(refused_report(0).stop.as_deref(), Some("Step 1 could not be completed."));
    assert_eq!(session_error_report(4, "broken pipe").output, "broken pipe");
}

#[test]
fn headless_runs_report_failures_with_their_output() {
    assert!(headless_step_succeeded(&step("command", "x", 0, "background"), Some(1)));
    assert!(!headless_step_succeeded(&step("command", "x", 0, "wait"), None));
    assert_eq!(
        headless_failure(0, Some(2), b"no such file\xff"),
        "Step 1 failed (exit code 2): no such file\u{fffd}"
    );
    assert_eq!(limited_output(&vec![b'a'; 20_005]).chars().count(), 20_000);
    assert_eq!(limited_output(b"caf\xc3\xa9"), "café");
}

#[test]
fn working_directories_expand_the_home_folder() {
    assert_eq!(working_directory_path(" ~ ", "/home/me"), "/home/me");
    assert_eq!(working_directory_path("~/src", "/home/me"), "/home/me/src");
    assert_eq!(working_directory_path("/srv/app ", "/home/me"), "/srv/app");
}

#[test]
fn reads_the_user_path_from_reg_output() {
    let stdout = "\r\nHKEY_CURRENT_USER\\Environment\r\n    Path    REG_EXPAND_SZ    C:\\Users\\me\\bin;%USERPROFILE%\\x\r\n\r\n";
    assert_eq!(parse_registry_path(stdout), "C:\\Users\\me\\bin;%USERPROFILE%\\x");
    assert_eq!(parse_registry_path("nothing here"), "");
    assert_eq!(parse_registry_path("PATHEXT no type\r\n  path REG_SZ  D:\\y "), "D:\\y");
}

#[test]
fn session_input_wraps_the_command_with_its_marker() {
    assert_eq!(
        session_command_input("npm test", false),
        "{ npm test ; } 2>&1\necho \"__EASYALIAS_AUTOMATION_DONE__$?\"\n"
    );
    assert_eq!(
        session_command_input("npm run dev", true),
        "{ npm run dev ; } >/dev/null 2>&1 &\necho \"__EASYALIAS_AUTOMATION_BG__$!\"\n"
    );
}

#[test]
fn session_reader_collects_output_until_the_exit_code() {
    let mut reader = SessionReader::new(false);
    assert!(reader.feed("line one").is_none());
    assert!(reader.feed("line two  ").is_none());
    let result = reader.feed("__EASYALIAS_AUTOMATION_DONE__ 3 ").unwrap();
    assert_eq!(result.exit_code, Some(3));
    assert_eq!(result.stdout, "line one\nline two");
    assert_eq!(result.process_id, None);

    let mut odd = SessionReader::new(false);
    assert_eq!(odd.feed("__EASYALIAS_AUTOMATION_DONE__x").unwrap().exit_code, None);
    let mut negative = SessionReader::new(false);
    assert_eq!(negative.feed("__EASYALIAS_AUTOMATION_DONE__-1").unwrap().exit_code, Some(-1));
}

#[test]
fn session_reader_takes_the_background_process_id() {
    let mut reader = SessionReader::new(true);
    assert!(reader.feed("noise").is_none());
    let result = reader.feed("__EASYALIAS_AUTOMATION_BG__4242").unwrap();
    assert_eq!(result.process_id, Some(4242));
    assert_eq!(result.exit_code, None);
    assert_eq!(result.stdout, "");
    assert!(reader.collected.is_empty());
}

#[test]
fn exit_codes_parse_like_rust_integers() {
    let parse = |s: &str| parse_i32_chars(&s.chars().collect());
    assert_eq!(parse("0"), Some(0));
    assert_eq!(parse("+7"), Some(7));
    assert_eq!(parse("-2147483648"), Some(i32::MIN));
    assert_eq!(parse("2147483647"), Some(i32::MAX));
    assert_eq!(parse("2147483648"), None);
    assert_eq!(parse("-+1"), None);
    assert_eq!(parse(""), None);
    assert_eq!(parse("-"), None);
}

#[test]
fn headless_runs_send_every_command_as_it_stands() {
    assert!(matches!(headless_step(&step("wait", "", 3, "wait")), StepAction::Wait(3)));
    assert!(matches!(headless_step(&step("command", "", 0, "wait")), StepAction::Run(false)));
    assert!(matches!(headless_step(&step("command", "npm run dev", 0, "background")), StepAction::Run(true)));
}
