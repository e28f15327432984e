use easyalias::alias_entry::AliasEntry;
use easyalias::automation::{Automation, AutomationStep};
use easyalias::listing::{
    alias_matches_filter, automation_matches_filter, days_left, format_days, format_trigger,
    has_build_command, has_word, relative_time, weekday_label,
};
use easyalias::text_input::{DirEntry, Key, KeyCode, TextInput};
use easyalias::timed::TimedAutomation;

fn key(code: KeyCode) -> Key {
    Key { code, ctrl: false, alt: false, shift: false }
}

fn ctrl(c: char) -> Key {
    Key { code: KeyCode::Char(c), ctrl: true, alt: false, shift: false }
}

#[test]
fn edits_like_a_shell_prompt() {
    let mut input = TextInput::new("git status");
    input.handle_key(&ctrl('w'));
    assert_eq!(input.value, "git ");
    input.handle_key(&key(KeyCode::Char('ä')));
    assert_eq!(input.value, "git ä");
    input.handle_key(&key(KeyCode::Home));
    input.handle_key(&key(KeyCode::Delete));
    assert_eq!(input.value, "it ä");
    input.handle_key(&ctrl('e'));
    input.handle_key(&key(KeyCode::Backspace));
    assert_eq!(input.value, "it ");
    input.handle_key(&ctrl('u'));
    assert_eq!(input.value, "");
}

#[test]
fn word_deletion_stops_at_slashes_and_unknown_keys_are_left_alone() {
    let mut input = TextInput::new("cd ~/Projects/app");
    assert!(input.handle_key(&Key { code: KeyCode::Backspace, ctrl: false, alt: true, shift: false }));
    assert_eq!(input.value, "cd ~/Projects/");
    assert!(input.handle_key(&ctrl('w')));
    assert_eq!(input.value, "cd ~/Projects");
    assert!(!input.handle_key(&ctrl('x')));
    assert!(!input.handle_key(&key(KeyCode::Other)));
    input.handle_key(&key(KeyCode::Left));
    input.handle_key(&ctrl('k'));
    assert_eq!(input.value, "cd ~/Project");
    input.insert_str("s\t!");
    assert_eq!(input.value, "cd ~/Projects!");
    assert_eq!(input.cursor, 14);
}

fn entry(name: &str, is_dir: bool) -> DirEntry {
    DirEntry { name: name.to_string(), is_dir }
}

#[test]
fn completes_paths() {
    let listing = vec![entry("readme.md", false), entry("projects-beta", true), entry("projects-alpha", true), entry(".hidden", false)];
    let mut input = TextInput::new("/tmp/x/re");
    assert_eq!(input.completion_folder().as_deref(), Some("/tmp/x/"));
    assert!(input.complete_path(&listing).is_empty());
    assert_eq!(input.value, "/tmp/x/readme.md");

    let mut input = TextInput::new("/tmp/x/pro");
    let candidates = input.complete_path(&listing);
    assert_eq!(candidates, vec!["projects-alpha/", "projects-beta/"]);
    assert_eq!(input.value, "/tmp/x/projects-");

    let mut input = TextInput::new("~");
    assert!(input.completion_folder().is_none());
    assert!(input.complete_path(&Vec::new()).is_empty());
    assert_eq!(input.value, "~/");

    let mut input = TextInput::new("/tmp/x/");
    let all = input.complete_path(&listing);
    assert_eq!(all.len(), 3);
    assert_eq!(input.value, "/tmp/x/");
    let mut input = TextInput::new(".h");
    assert!(input.complete_path(&listing).is_empty());
    assert_eq!(input.value, ".hidden");
}

fn alias(action: &str, command: &str) -> AliasEntry {
    AliasEntry {
        id: "a".to_string(),
        name: "a".to_string(),
        path: String::new(),
        action: action.to_string(),
        custom_command: Some(command.to_string()),
        command_preview: command.to_string(),
        favorite: false,
        created_at: "2026-07-26T12:00:00.000Z".to_string(),
        updated_at: "2026-07-26T12:00:00.000Z".to_string(),
    }
}

#[test]
fn quick_filters_match_whole_words() {
    assert!(has_word("cd x && git pull", &["git"]));
    assert!(!has_word("gitk", &["git"]));
    assert!(has_build_command("./gradlew build"));
    assert!(has_build_command("cargo build --release"));
    assert!(has_build_command("pnpm run build"));
    assert!(!has_build_command("npm test"));
    assert!(alias_matches_filter(&alias("custom", "  GIT status "), "git"));
    assert!(alias_matches_filter(&alias("custom", "docker-compose up"), "docker"));
    assert!(alias_matches_filter(&alias("compile_maven", "x"), "build"));
    assert!(!alias_matches_filter(&alias("custom", "ls"), "navigation"));
    assert!(alias_matches_filter(&alias("custom", "ls"), "everything"));
}

#[test]
fn automation_filters_read_the_command_steps() {
    let automation = Automation {
        id: "a".to_string(),
        name: "A".to_string(),
        path: "~".to_string(),
        steps: vec![
            AutomationStep {
                id: "1".to_string(),
                kind: "command".to_string(),
                command: "npm".to_string(),
                seconds: 0,
                behavior: "background".to_string(),
            },
            AutomationStep {
                id: "2".to_string(),
                kind: "command".to_string(),
                command: "Docker compose up".to_string(),
                seconds: 0,
                behavior: "wait".to_string(),
            },
        ],
        favorite: false,
        group: " Web ".to_string(),
        hotkey: None,
        created_at: "2026".to_string(),
        updated_at: "2026".to_string(),
    };
    assert!(automation_matches_filter(&automation, "group:Web"));
    assert!(automation_matches_filter(&automation, "background"));
    assert!(automation_matches_filter(&automation, "docker"));
    assert!(!automation_matches_filter(&automation, "build"));
    assert!(!automation_matches_filter(&automation, "favorites"));
}

#[test]
fn schedules_and_ages_read_naturally() {
    assert_eq!(format_days(&Vec::new()), "Every day");
    assert_eq!(format_days(&vec!["fri".to_string(), "mon".to_string()]), "Mon, Fri");
    assert_eq!(weekday_label("x"), "?");
    let mut entry = TimedAutomation {
        id: "t".to_string(),
        automation_id: "a".to_string(),
        trigger_kind: "clock".to_string(),
        time: "07:30".to_string(),
        days: Vec::new(),
        enabled: true,
        created_at: "2026".to_string(),
        updated_at: "2026".to_string(),
        last_run_at: None,
        last_run_status: None,
        last_run_output: None,
        last_triggered_date: None,
    };
    assert_eq!(format_trigger(&entry), "07:30");
    entry.trigger_kind = "sunset".to_string();
    assert_eq!(format_trigger(&entry), "Sunset");
    assert_eq!(relative_time(100, 130), "just now");
    assert_eq!(relative_time(0, 7200), "2 h ago");
    assert_eq!(relative_time(500, 100), "just now");
    assert_eq!(relative_time(0, 3 * 86400 + 5), "3 d ago");
    assert_eq!(days_left(0, 0), 30);
    assert_eq!(days_left(0, 1), 30);
    assert_eq!(days_left(0, 29 * 86400), 1);
    assert_eq!(days_left(0, 40 * 86400), 0);
}
