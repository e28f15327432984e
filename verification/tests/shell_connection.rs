use easyalias::shell_alias::{find_shell_aliases, parse_shell_alias_line};
use easyalias::alias_entry::{render_aliases, AliasEntry};
use easyalias::shell_import::{
    ensure_shell_source, import_shell_aliases, next_shell_backup_file, scan_shell_import,
    shell_setup, shell_source_present, APP_ALIAS_LINE, SOURCE_LINE,
};

fn stored(name: &str, command: &str) -> AliasEntry {
    AliasEntry {
        id: name.to_string(),
        name: name.to_string(),
        path: String::new(),
        action: "custom".to_string(),
        custom_command: Some(command.to_string()),
        command_preview: command.to_string(),
        favorite: false,
        created_at: "2026-07-26T12:00:00.000Z".to_string(),
        updated_at: "2026-07-26T12:00:00.000Z".to_string(),
    }
}

#[test]
fn tests_first_start_import_uses_detected_shell_and_creates_backup() {
    let home = "/home/tester";
    let setup = shell_setup("/bin/bash", home);
    assert_eq!(setup.name, "bash");
    assert_eq!(setup.config_file, "/home/tester/.bashrc");

    let original = "alias legacy='echo legacy'\nexport TEST=1\n";
    let connected = ensure_shell_source(original).unwrap();
    let initial = scan_shell_import(Vec::new(), home, &setup, &connected);
    assert_eq!(initial.shell_name, "bash");
    assert!(initial.shell_source_present);
    assert_eq!(initial.import_candidates.len(), 1);

    let ids = vec![initial.import_candidates[0].id.clone()];
    let plan = import_shell_aliases(&connected, Vec::new(), &ids, "2026-07-18T10:00:00.000Z", 1_700_000_000, "~/.bashrc")
        .unwrap();
    assert_eq!(plan.imported_count, 1);
    assert!(plan.shell_content.contains(": # EasyAlias imported alias legacy"));
    assert!(render_aliases(&plan.aliases).unwrap().contains("alias legacy='echo legacy'"));

    let backup = next_shell_backup_file(home, &setup.config_file, 1_700_000_000, &Vec::new()).unwrap();
    assert_eq!(backup, "/home/tester/.bashrc.easyalias-backup-1700000000");
}

#[test]
fn zsh_users_get_their_zshrc() {
    let setup = shell_setup("/usr/bin/zsh/", "/home/z");
    assert_eq!(setup.name, "zsh");
    assert_eq!(setup.config_file, "/home/z/.zshrc");
    assert_eq!(shell_setup("", "/home/z").name, "bash");
    assert_eq!(shell_setup("/bin/fish", "/home/z").name, "bash");
}

#[test]
fn connecting_appends_only_missing_lines() {
    let connected = ensure_shell_source("export A=1").unwrap();
    assert_eq!(
        connected,
        format!(
            "export A=1\n\n# EasyAlias aliases\n{}\n\n# EasyAlias app shortcut\n{}\n",
            SOURCE_LINE, APP_ALIAS_LINE
        )
    );
    assert!(shell_source_present(&connected));
    assert!(ensure_shell_source(&connected).is_none());
    let partly = format!("  {}  \n", SOURCE_LINE);
    assert_eq!(
        ensure_shell_source(&partly).unwrap(),
        format!("{}\n# EasyAlias app shortcut\n{}\n", partly, APP_ALIAS_LINE)
    );
}

#[test]
fn import_refuses_duplicates_and_changed_files() {
    let content = "alias gs='git status'\nalias ll='ls -la'\n";
    let ids = vec!["shell-line-2".to_string()];
    let refused = import_shell_aliases(content, vec![stored("ll", "ls")], &ids, "t", 1, "~/.bashrc");
    assert_eq!(refused.err().unwrap(), "Alias \"ll\" already exists.");
    let gone = vec!["shell-line-9".to_string()];
    let changed = import_shell_aliases(content, Vec::new(), &gone, "t", 1, "~/.bashrc");
    assert_eq!(changed.err().unwrap(), "Some aliases changed in ~/.bashrc. Reopen EasyAlias and try again.");
    let none: Vec<String> = Vec::new();
    assert_eq!(
        import_shell_aliases(content, Vec::new(), &none, "t", 1, "x").err().unwrap(),
        "Select at least one alias to import."
    );
    assert_eq!(
        import_shell_aliases(content, Vec::new(), &ids, " ", 1, "x").err().unwrap(),
        "Import timestamp is missing."
    );
}

#[test]
fn imported_aliases_are_stored_in_name_order() {
    let content = "alias zz='echo z'\nalias aa='echo a'\n";
    let ids = vec!["shell-line-1".to_string(), "shell-line-2".to_string()];
    let plan = import_shell_aliases(content, vec![stored("mm", "echo m")], &ids, "t", 42, "x").unwrap();
    let names: Vec<&str> = plan.aliases.iter().map(|a| a.name.as_str()).collect();
    assert_eq!(names, vec!["aa", "mm", "zz"]);
    assert_eq!(plan.aliases[0].id, "imported-42-2");
    assert_eq!(plan.aliases[0].action, "custom");
    assert_eq!(plan.aliases[0].custom_command.as_deref(), Some("echo a"));
    assert_eq!(
        plan.shell_content,
        ": # EasyAlias imported alias zz\n: # EasyAlias imported alias aa\n"
    );
}

#[test]
fn backup_names_skip_existing_files() {
    let taken = vec![
        "/h/.zshrc.easyalias-backup-9".to_string(),
        "/h/.zshrc.easyalias-backup-9-1".to_string(),
    ];
    assert_eq!(next_shell_backup_file("/h", "/h/.zshrc", 9, &taken).unwrap(), "/h/.zshrc.easyalias-backup-9-2");
    assert_eq!(next_shell_backup_file("/h", "/", 9, &Vec::new()).unwrap(), "/h/.shellrc.easyalias-backup-9");
}

#[test]
fn connecting_twice_adds_nothing_even_after_windows_line_endings() {
    let content = format!("alias ll='ls -l'\r\n  {}\r", SOURCE_LINE);
    let connected = ensure_shell_source(&content).unwrap();
    assert!(connected.starts_with(&content));
    assert!(ensure_shell_source(&connected).is_none());
    let with_alias = "  alias easya=old\r";
    let connected = ensure_shell_source(with_alias).unwrap();
    assert!(!connected.contains(APP_ALIAS_LINE));
    assert!(ensure_shell_source(&connected).is_none());
}

#[test]
fn imported_lines_are_not_offered_again() {
    assert!(parse_shell_alias_line(": # EasyAlias imported alias ll", 3).is_none());
    assert!(parse_shell_alias_line(": # EasyAlias imported alias ll\r", 3).is_none());
    let found = find_shell_aliases("alias ll='ls -l'\n: # EasyAlias imported alias gs\n");
    assert_eq!(found.len(), 1);
    assert_eq!(found[0].name, "ll");
}
